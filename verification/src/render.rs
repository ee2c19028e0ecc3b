//! Preview renderer: maps a fetched remote object to a display card. Colors
//! are the host's own brand colors (open green, closed red, merged purple,
//! neutral gray), and absent fields are shown as fixed placeholders.

use crate::num::u64_to_dec;
use crate::sanitize::{pretty, pretty_spec};
use crate::text::chars_to_string;
use vstd::prelude::*;
use vstd::string::StringExecFns;

verus! {

/// Accent color of a merged pull request.
pub const COLOR_MERGED: u32 = 0x6f42c1;

/// Accent color of an open pull request or an approving review.
pub const COLOR_OPEN: u32 = 0x2cbe4e;

/// Accent color of a closed pull request or a changes-requested review.
pub const COLOR_CLOSED: u32 = 0xcb2431;

/// Accent color when no other state applies.
pub const COLOR_NEUTRAL: u32 = 0x586069;

/// Identity of a remote user.
pub struct UserInfo {
    pub login: String,
    pub avatar_url: String,
}

/// Lifecycle state of a pull request as reported by the host.
#[derive(Clone, Copy, Debug, PartialEq, Eq, Structural)]
pub enum PrState {
    Open,
    Closed,
    Unknown,
}

/// Verdict of a pull-request review; `Other` covers commented, pending and
/// anything unrecognized.
#[derive(Clone, Copy, Debug, PartialEq, Eq, Structural)]
pub enum ReviewVerdict {
    Approved,
    ChangesRequested,
    Other,
}

/// A fetched issue.
pub struct IssueData {
    pub number: u64,
    pub title: String,
    pub body: Option<String>,
    pub html_url: String,
}

/// A fetched comment, of any of the three comment kinds.
pub struct CommentData {
    pub user: UserInfo,
    pub body: Option<String>,
    pub html_url: String,
}

/// A fetched pull request.
pub struct PrData {
    pub number: u64,
    pub title: Option<String>,
    pub body: Option<String>,
    pub html_url: String,
    pub merged: bool,
    pub state: PrState,
}

/// A fetched pull-request review.
pub struct ReviewData {
    pub user: Option<UserInfo>,
    pub body: Option<String>,
    pub html_url: String,
    pub verdict: ReviewVerdict,
}

/// The remote entity fetched for one reference.
pub enum Resolved {
    Issue(IssueData),
    Comment(CommentData),
    Pr(PrData),
    Review(ReviewData),
}

/// The author line of a card.
pub struct AuthorLine {
    pub name: String,
    pub icon_url: String,
}

/// A render-ready preview card.
pub struct PreviewCard {
    pub title: Option<String>,
    pub url: String,
    pub author: Option<AuthorLine>,
    pub color: Option<u32>,
    pub body: String,
}

/// Mathematical content of an author line.
pub struct AuthorLineView {
    pub name: Seq<char>,
    pub icon_url: Seq<char>,
}

/// Mathematical content of a preview card.
pub struct CardView {
    pub title: Option<Seq<char>>,
    pub url: Seq<char>,
    pub author: Option<AuthorLineView>,
    pub color: Option<u32>,
    pub body: Seq<char>,
}

impl View for AuthorLine {
    type V = AuthorLineView;

    open spec fn view(&self) -> AuthorLineView {
        AuthorLineView { name: self.name@, icon_url: self.icon_url@ }
    }
}

impl View for PreviewCard {
    type V = CardView;

    open spec fn view(&self) -> CardView {
        CardView {
            title: match self.title {
                Some(t) => Some(t@),
                None => None,
            },
            url: self.url@,
            author: match self.author {
                Some(a) => Some(a@),
                None => None,
            },
            color: self.color,
            body: self.body@,
        }
    }
}

/// Placeholder shown for an absent body.
pub open spec fn no_body_placeholder() -> Seq<char> {
    "No description provided."@
}

/// Placeholder shown for an absent pull-request title.
pub open spec fn no_title_placeholder() -> Seq<char> {
    "No title provided."@
}

/// Name shown for a review with no visible author.
pub open spec fn unknown_user() -> Seq<char> {
    "Unknown User"@
}

/// Icon shown for a review with no visible author.
pub open spec fn default_icon() -> Seq<char> {
    "https://github.githubassets.com/images/modules/logos_page/GitHub-Mark.png"@
}

/// Body text as displayed: the sanitizer applied to the remote body, or to
/// the placeholder when the body is absent.
pub open spec fn body_view(b: Option<String>) -> Seq<char> {
    match b {
        Some(s) => pretty_spec(s@),
        None => pretty_spec(no_body_placeholder()),
    }
}

/// Title of an issue card.
pub open spec fn issue_title_view(d: IssueData) -> Seq<char> {
    "Issue #"@ + crate::num::dec_str(d.number as nat) + ": "@ + d.title@
}

/// Title of a pull-request card.
pub open spec fn pr_title_view(d: PrData) -> Seq<char> {
    "PR #"@ + crate::num::dec_str(d.number as nat) + ": "@ + (match d.title {
        Some(t) => t@,
        None => no_title_placeholder(),
    })
}

/// Pull-request accent color: merged wins over open over closed; anything
/// else is neutral.
pub open spec fn pr_color(d: PrData) -> u32 {
    if d.merged {
        COLOR_MERGED
    } else if d.state is Open {
        COLOR_OPEN
    } else if d.state is Closed {
        COLOR_CLOSED
    } else {
        COLOR_NEUTRAL
    }
}

/// Review card title for a verdict.
pub open spec fn review_title_view(v: ReviewVerdict) -> Seq<char> {
    match v {
        ReviewVerdict::Approved => "Approved"@,
        ReviewVerdict::ChangesRequested => "Changes Requested"@,
        ReviewVerdict::Other => "Commented"@,
    }
}

/// Review accent color for a verdict.
pub open spec fn review_color(v: ReviewVerdict) -> u32 {
    match v {
        ReviewVerdict::Approved => COLOR_OPEN,
        ReviewVerdict::ChangesRequested => COLOR_CLOSED,
        ReviewVerdict::Other => COLOR_NEUTRAL,
    }
}

/// Author line of a review card, with the fallback identity.
pub open spec fn review_author_view(u: Option<UserInfo>) -> AuthorLineView {
    match u {
        Some(u) => AuthorLineView { name: u.login@, icon_url: u.avatar_url@ },
        None => AuthorLineView { name: unknown_user(), icon_url: default_icon() },
    }
}

/// The card rendered for a resolved object.
pub open spec fn render_view(r: Resolved) -> CardView {
    match r {
        Resolved::Issue(d) => CardView {
            title: Some(issue_title_view(d)),
            url: d.html_url@,
            author: None,
            color: None,
            body: body_view(d.body),
        },
        Resolved::Comment(d) => CardView {
            title: None,
            url: d.html_url@,
            author: Some(AuthorLineView { name: d.user.login@, icon_url: d.user.avatar_url@ }),
            color: None,
            body: body_view(d.body),
        },
        Resolved::Pr(d) => CardView {
            title: Some(pr_title_view(d)),
            url: d.html_url@,
            author: None,
            color: Some(pr_color(d)),
            body: body_view(d.body),
        },
        Resolved::Review(d) => CardView {
            title: Some(review_title_view(d.verdict)),
            url: d.html_url@,
            author: Some(review_author_view(d.user)),
            color: Some(review_color(d.verdict)),
            body: body_view(d.body),
        },
    }
}

fn render_body(b: Option<String>) -> (r: String)
    ensures
        r@ == body_view(b),
{
    match b {
        Some(s) => pretty(s.as_str()),
        None => pretty("No description provided."),
    }
}

fn number_title(head: &str, number: u64, rest: &str) -> (r: String)
    ensures
        r@ == head@ + crate::num::dec_str(number as nat) + ": "@ + rest@,
{
    let digits = u64_to_dec(number);
    let num = chars_to_string(&digits);
    let mut t = head.to_owned();
    t.append(num.as_str());
    t.append(": ");
    t.append(rest);
    proof {
        assert(((head@ + crate::num::dec_str(number as nat)) + ": "@) + rest@ =~= head@
            + crate::num::dec_str(number as nat) + ": "@ + rest@);
    }
    t
}

/// Renders one resolved object to its preview card.
pub fn render(r: Resolved) -> (c: PreviewCard)
    ensures
        c@ == render_view(r),
{
    match r {
        Resolved::Issue(d) => {
            let title = number_title("Issue #", d.number, d.title.as_str());
            PreviewCard {
                title: Some(title),
                url: d.html_url,
                author: None,
                color: None,
                body: render_body(d.body),
            }
        },
        Resolved::Comment(d) => PreviewCard {
            title: None,
            url: d.html_url,
            author: Some(AuthorLine { name: d.user.login, icon_url: d.user.avatar_url }),
            color: None,
            body: render_body(d.body),
        },
        Resolved::Pr(d) => {
            let title = match &d.title {
                Some(t) => number_title("PR #", d.number, t.as_str()),
                None => number_title("PR #", d.number, "No title provided."),
            };
            let color = if d.merged {
                COLOR_MERGED
            } else if matches!(d.state, PrState::Open) {
                COLOR_OPEN
            } else if matches!(d.state, PrState::Closed) {
                COLOR_CLOSED
            } else {
                COLOR_NEUTRAL
            };
            PreviewCard {
                title: Some(title),
                url: d.html_url,
                author: None,
                color: Some(color),
                body: render_body(d.body),
            }
        },
        Resolved::Review(d) => {
            let title = match d.verdict {
                ReviewVerdict::Approved => "Approved".to_owned(),
                ReviewVerdict::ChangesRequested => "Changes Requested".to_owned(),
                ReviewVerdict::Other => "Commented".to_owned(),
            };
            let color = match d.verdict {
                ReviewVerdict::Approved => COLOR_OPEN,
                ReviewVerdict::ChangesRequested => COLOR_CLOSED,
                ReviewVerdict::Other => COLOR_NEUTRAL,
            };
            let author = match d.user {
                Some(u) => AuthorLine { name: u.login, icon_url: u.avatar_url },
                None => AuthorLine {
                    name: "Unknown User".to_owned(),
                    icon_url:
                        "https://github.githubassets.com/images/modules/logos_page/GitHub-Mark.png".to_owned(),
                },
            };
            PreviewCard {
                title: Some(title),
                url: d.html_url,
                author: Some(author),
                color: Some(color),
                body: render_body(d.body),
            }
        },
    }
}

} // verus!
