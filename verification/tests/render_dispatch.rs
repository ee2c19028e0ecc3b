use github_expander::dispatch::{assemble_cards, build_reply, make_control_id};
use github_expander::guard::{delete_decision, delete_owner, DeleteAction};
use github_expander::render::{
    render, CommentData, IssueData, PrData, PrState, Resolved, ReviewData, ReviewVerdict, UserInfo,
    COLOR_CLOSED, COLOR_MERGED, COLOR_NEUTRAL, COLOR_OPEN,
};

fn pr(merged: bool, state: PrState) -> PrData {
    PrData {
        number: 9,
        title: Some("Title".to_string()),
        body: Some("Body".to_string()),
        html_url: "https://example.invalid/pr/9".to_string(),
        merged,
        state,
    }
}

#[test]
fn issue_card_title_and_body() {
    let card = render(Resolved::Issue(IssueData {
        number: 42,
        title: "Hello".to_string(),
        body: Some("world".to_string()),
        html_url: "https://example.invalid/i/42".to_string(),
    }));
    assert_eq!(card.title, Some("Issue #42: Hello".to_string()));
    assert_eq!(card.url, "https://example.invalid/i/42");
    assert_eq!(card.body, "world");
    assert!(card.author.is_none());
    assert!(card.color.is_none());
}

#[test]
fn missing_body_gets_placeholder() {
    let card = render(Resolved::Issue(IssueData {
        number: 1,
        title: "T".to_string(),
        body: None,
        html_url: "u".to_string(),
    }));
    assert_eq!(card.body, "No description provided.");
}

#[test]
fn comment_card_has_author_and_no_title() {
    let card = render(Resolved::Comment(CommentData {
        user: UserInfo { login: "ada".to_string(), avatar_url: "icon".to_string() },
        body: Some("note".to_string()),
        html_url: "u".to_string(),
    }));
    assert!(card.title.is_none());
    let author = card.author.expect("comment card carries its author");
    assert_eq!(author.name, "ada");
    assert_eq!(author.icon_url, "icon");
    assert_eq!(card.body, "note");
}

#[test]
fn merged_pr_is_purple_whatever_its_state() {
    let card = render(Resolved::Pr(pr(true, PrState::Closed)));
    assert_eq!(card.color, Some(COLOR_MERGED));
    assert_eq!(card.color, Some(0x6f42c1));
    let card = render(Resolved::Pr(pr(true, PrState::Open)));
    assert_eq!(card.color, Some(0x6f42c1));
}

#[test]
fn pr_state_colors() {
    assert_eq!(render(Resolved::Pr(pr(false, PrState::Open))).color, Some(COLOR_OPEN));
    assert_eq!(render(Resolved::Pr(pr(false, PrState::Closed))).color, Some(COLOR_CLOSED));
    assert_eq!(render(Resolved::Pr(pr(false, PrState::Unknown))).color, Some(COLOR_NEUTRAL));
}

#[test]
fn pr_without_title_gets_placeholder() {
    let mut data = pr(false, PrState::Open);
    data.title = None;
    let card = render(Resolved::Pr(data));
    assert_eq!(card.title, Some("PR #9: No title provided.".to_string()));
}

fn review(verdict: ReviewVerdict) -> ReviewData {
    ReviewData {
        user: Some(UserInfo { login: "rev".to_string(), avatar_url: "i".to_string() }),
        body: None,
        html_url: "u".to_string(),
        verdict,
    }
}

#[test]
fn changes_requested_review() {
    let card = render(Resolved::Review(review(ReviewVerdict::ChangesRequested)));
    assert_eq!(card.title, Some("Changes Requested".to_string()));
    assert_eq!(card.color, Some(0xcb2431));
}

#[test]
fn unrecognized_verdict_renders_commented() {
    let card = render(Resolved::Review(review(ReviewVerdict::Other)));
    assert_eq!(card.title, Some("Commented".to_string()));
    assert_eq!(card.color, Some(0x586069));
}

#[test]
fn approved_review_is_green() {
    let card = render(Resolved::Review(review(ReviewVerdict::Approved)));
    assert_eq!(card.title, Some("Approved".to_string()));
    assert_eq!(card.color, Some(0x2cbe4e));
}

#[test]
fn absent_reviewer_gets_fallback_identity() {
    let mut data = review(ReviewVerdict::Other);
    data.user = None;
    let card = render(Resolved::Review(data));
    let author = card.author.expect("review card carries an author line");
    assert_eq!(author.name, "Unknown User");
    assert_eq!(
        author.icon_url,
        "https://github.githubassets.com/images/modules/logos_page/GitHub-Mark.png"
    );
}

#[test]
fn no_cards_no_reply() {
    let cards = assemble_cards(vec![]);
    assert!(cards.is_empty());
    assert!(build_reply(cards, 7).is_none());
}

#[test]
fn failed_fetch_omitted_others_kept() {
    let batch = vec![
        Some(Resolved::Issue(IssueData {
            number: 1,
            title: "A".to_string(),
            body: None,
            html_url: "first".to_string(),
        })),
        None,
        Some(Resolved::Issue(IssueData {
            number: 2,
            title: "B".to_string(),
            body: None,
            html_url: "second".to_string(),
        })),
    ];
    let cards = assemble_cards(batch);
    assert_eq!(cards.len(), 2);
    assert_eq!(cards[0].url, "first");
    assert_eq!(cards[1].url, "second");
}

#[test]
fn all_failed_means_no_reply() {
    let cards = assemble_cards(vec![None, None]);
    assert!(cards.is_empty());
    assert!(build_reply(cards, 7).is_none());
}

#[test]
fn reply_carries_cards_and_control() {
    let batch = vec![Some(Resolved::Issue(IssueData {
        number: 3,
        title: "C".to_string(),
        body: None,
        html_url: "only".to_string(),
    }))];
    let cards = assemble_cards(batch);
    let reply = build_reply(cards, 12345).expect("one card means one reply");
    assert_eq!(reply.cards.len(), 1);
    assert_eq!(reply.control_id, "del_12345");
}

#[test]
fn control_id_embeds_author() {
    assert_eq!(make_control_id(0), "del_0");
    assert_eq!(make_control_id(987654321), "del_987654321");
}

#[test]
fn owner_read_back_from_control_id() {
    assert_eq!(delete_owner("del_42"), Some(42));
    assert_eq!(delete_owner(&make_control_id(u64::MAX)), Some(u64::MAX));
}

#[test]
fn malformed_control_ids_have_no_owner() {
    assert_eq!(delete_owner("unrelated"), None);
    assert_eq!(delete_owner("del_"), None);
    assert_eq!(delete_owner("del_12x"), None);
    assert_eq!(delete_owner("del_99999999999999999999999999"), None);
}

#[test]
fn only_the_recorded_author_may_delete() {
    assert_eq!(delete_decision(42, 42), DeleteAction::Delete);
    assert_eq!(delete_decision(42, 43), DeleteAction::Deny);
}
