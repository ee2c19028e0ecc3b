//! Pattern matcher: finds the six reference shapes
//! `https://github.com/<owner/repo>/...` inside message text and classifies
//! each into a typed reference. The six scans are independent; a URL may be
//! matched by more than one shape, and every match is kept.

use crate::num::{all_digits, dec_val, is_digit, parse_u64_digits};
use crate::text::str_to_chars;
use vstd::prelude::*;

verus! {

/// A classified pointer into the configured repository.
#[derive(Clone, Copy, Debug, PartialEq, Eq, Structural)]
pub enum Reference {
    Issue { number: u64 },
    IssueComment { comment_id: u64 },
    PullRequest { number: u64 },
    PullRequestComment { comment_id: u64 },
    PullRequestReviewComment { pull_number: u64, comment_id: u64 },
    PullRequestReview { pull_number: u64, review_id: u64 },
}

/// `p` occurs in `t` starting at `i`.
pub open spec fn matches_at(t: Seq<char>, p: Seq<char>, i: int) -> bool {
    0 <= i && i + p.len() <= t.len() && t.subrange(i, i + p.len() as int) == p
}

/// End of the digit run starting at `i`.
pub open spec fn digits_end(t: Seq<char>, i: int) -> int
    decreases t.len() - i,
    when 0 <= i <= t.len()
{
    if i < t.len() && is_digit(t[i]) {
        digits_end(t, i + 1)
    } else {
        i
    }
}

pub proof fn lemma_digits_end(t: Seq<char>, i: int)
    requires
        0 <= i <= t.len(),
    ensures
        i <= digits_end(t, i) <= t.len(),
        all_digits(t.subrange(i, digits_end(t, i))),
    decreases t.len() - i,
{
    if i < t.len() && is_digit(t[i]) {
        lemma_digits_end(t, i + 1);
        let e = digits_end(t, i);
        assert forall|k: int| 0 <= k < e - i implies is_digit(
            #[trigger] t.subrange(i, e)[k],
        ) by {
            if k > 0 {
                assert(t.subrange(i + 1, e)[k - 1] == t.subrange(i, e)[k]);
            }
        }
    }
}

/// A one-number match at `i`: the prefix, then at least one digit.
pub open spec fn match_one_at(t: Seq<char>, p: Seq<char>, i: int) -> bool {
    matches_at(t, p, i) && i + p.len() < t.len() && is_digit(t[i + p.len()])
}

/// One-number scan from `i`: each non-overlapping occurrence of `p` followed
/// by a maximal digit run yields that run's value; a run whose value does not
/// fit in a `u64` is dropped, and scanning continues after it.
pub open spec fn scan_one(t: Seq<char>, p: Seq<char>, i: int) -> Seq<u64>
    decreases t.len() - i,
    when 0 <= i
    via scan_one_decreases
{
    if i >= t.len() {
        Seq::empty()
    } else if match_one_at(t, p, i) {
        let e = digits_end(t, i + p.len() as int);
        let rest = scan_one(t, p, e);
        if dec_val(t.subrange(i + p.len() as int, e)) <= u64::MAX {
            seq![dec_val(t.subrange(i + p.len() as int, e)) as u64] + rest
        } else {
            rest
        }
    } else {
        scan_one(t, p, i + 1)
    }
}

#[via_fn]
proof fn scan_one_decreases(t: Seq<char>, p: Seq<char>, i: int) {
    if 0 <= i < t.len() && match_one_at(t, p, i) {
        lemma_digits_end(t, i + p.len() as int + 1);
    }
}

/// A two-number match at `i`: the prefix, a digit run, the separator, then at
/// least one more digit.
pub open spec fn match_two_at(t: Seq<char>, p: Seq<char>, s: Seq<char>, i: int) -> bool {
    &&& match_one_at(t, p, i)
    &&& {
        let e1 = digits_end(t, i + p.len() as int);
        matches_at(t, s, e1) && e1 + s.len() < t.len() && is_digit(t[e1 + s.len()])
    }
}

/// Two-number scan from `i`: each non-overlapping occurrence of
/// `p` digits `s` digits yields the two run values; if either value does not
/// fit in a `u64` the match is dropped, and scanning continues after it.
pub open spec fn scan_two(t: Seq<char>, p: Seq<char>, s: Seq<char>, i: int) -> Seq<(u64, u64)>
    decreases t.len() - i,
    when 0 <= i
    via scan_two_decreases
{
    if i >= t.len() {
        Seq::empty()
    } else if match_two_at(t, p, s, i) {
        let e1 = digits_end(t, i + p.len() as int);
        let e2 = digits_end(t, e1 + s.len() as int);
        let rest = scan_two(t, p, s, e2);
        if dec_val(t.subrange(i + p.len() as int, e1)) <= u64::MAX && dec_val(
            t.subrange(e1 + s.len() as int, e2),
        ) <= u64::MAX {
            seq![
                (
                    dec_val(t.subrange(i + p.len() as int, e1)) as u64,
                    dec_val(t.subrange(e1 + s.len() as int, e2)) as u64,
                ),
            ] + rest
        } else {
            rest
        }
    } else {
        scan_two(t, p, s, i + 1)
    }
}

#[via_fn]
proof fn scan_two_decreases(t: Seq<char>, p: Seq<char>, s: Seq<char>, i: int) {
    if 0 <= i < t.len() && match_two_at(t, p, s, i) {
        let e1 = digits_end(t, i + p.len() as int);
        lemma_digits_end(t, i + p.len() as int + 1);
        lemma_digits_end(t, e1 + s.len() as int + 1);
    }
}

fn matches_at_exec(t: &Vec<char>, p: &Vec<char>, i: usize) -> (b: bool)
    requires
        i <= t@.len(),
    ensures
        b == matches_at(t@, p@, i as int),
{
    let n = t.len();
    let m = p.len();
    if n - i < m {
        return false;
    }
    let mut k: usize = 0;
    while k < m
        invariant
            n == t@.len(),
            m == p@.len(),
            i + m <= n,
            k <= m,
            forall|j: int| 0 <= j < k ==> t@[i + j] == p@[j],
        decreases m - k,
    {
        if t[i + k] != p[k] {
            proof {
                assert(t@.subrange(i as int, i + p@.len())[k as int] == t@[i + k]);
            }
            return false;
        }
        k = k + 1;
    }
    proof {
        assert(t@.subrange(i as int, i + p@.len()) =~= p@);
    }
    true
}

fn digits_end_exec(t: &Vec<char>, start: usize) -> (e: usize)
    requires
        start <= t@.len(),
    ensures
        e == digits_end(t@, start as int),
        start <= e <= t@.len(),
{
    let mut i = start;
    while i < t.len() && (t[i] as u32) >= 48 && (t[i] as u32) <= 57
        invariant
            start <= i <= t@.len(),
            digits_end(t@, start as int) == digits_end(t@, i as int),
        decreases t@.len() - i,
    {
        i = i + 1;
    }
    i
}

fn match_one_exec(t: &Vec<char>, p: &Vec<char>, i: usize) -> (b: bool)
    requires
        i <= t@.len(),
    ensures
        b == match_one_at(t@, p@, i as int),
{
    matches_at_exec(t, p, i) && t.len() - i > p.len() && {
        let c = t[i + p.len()];
        (c as u32) >= 48 && (c as u32) <= 57
    }
}

/// All one-number matches of `p` in `t`.
pub fn scan_one_exec(t: &Vec<char>, p: &Vec<char>) -> (r: Vec<u64>)
    ensures
        r@ == scan_one(t@, p@, 0),
{
    let mut out: Vec<u64> = Vec::new();
    let mut i: usize = 0;
    while i < t.len()
        invariant
            i <= t@.len(),
            out@ + scan_one(t@, p@, i as int) == scan_one(t@, p@, 0),
        decreases t@.len() - i,
    {
        if match_one_exec(t, p, i) {
            let e = digits_end_exec(t, i + p.len());
            proof {
                lemma_digits_end(t@, i + p@.len());
            }
            let ghost prev = out@;
            match parse_u64_digits(t, i + p.len(), e) {
                Some(v) => {
                    out.push(v);
                    proof {
                        assert(prev.push(v) + scan_one(t@, p@, e as int) =~= prev + (seq![v]
                            + scan_one(t@, p@, e as int)));
                    }
                },
                None => {},
            }
            proof {
                lemma_digits_end(t@, i + p@.len() + 1);
            }
            i = e;
        } else {
            i = i + 1;
        }
    }
    out
}

/// All two-number matches of `p` digits `s` digits in `t`.
pub fn scan_two_exec(t: &Vec<char>, p: &Vec<char>, s: &Vec<char>) -> (r: Vec<(u64, u64)>)
    ensures
        r@ == scan_two(t@, p@, s@, 0),
{
    let mut out: Vec<(u64, u64)> = Vec::new();
    let mut i: usize = 0;
    while i < t.len()
        invariant
            i <= t@.len(),
            out@ + scan_two(t@, p@, s@, i as int) == scan_two(t@, p@, s@, 0),
        decreases t@.len() - i,
    {
        let two = match_one_exec(t, p, i) && {
            let e1 = digits_end_exec(t, i + p.len());
            match_one_exec(t, s, e1)
        };
        if two {
            let e1 = digits_end_exec(t, i + p.len());
            let e2 = digits_end_exec(t, e1 + s.len());
            proof {
                lemma_digits_end(t@, i + p@.len());
                lemma_digits_end(t@, e1 + s@.len());
            }
            let v1 = parse_u64_digits(t, i + p.len(), e1);
            let v2 = parse_u64_digits(t, e1 + s.len(), e2);
            let ghost prev = out@;
            match (v1, v2) {
                (Some(a), Some(b)) => {
                    out.push((a, b));
                    proof {
                        assert(prev.push((a, b)) + scan_two(t@, p@, s@, e2 as int) =~= prev + (
                        seq![(a, b)] + scan_two(t@, p@, s@, e2 as int)));
                    }
                },
                _ => {},
            }
            proof {
                lemma_digits_end(t@, i + p@.len() + 1);
                lemma_digits_end(t@, e1 + s@.len() + 1);
            }
            i = e2;
        } else {
            i = i + 1;
        }
    }
    out
}

/// Host part every recognized URL starts with.
pub open spec fn host_prefix() -> Seq<char> {
    "https://github.com/"@
}

/// Prefix of an issue URL for the configured repository.
pub open spec fn issue_prefix(repo: Seq<char>) -> Seq<char> {
    host_prefix() + repo + "/issues/"@
}

/// Prefix of a pull-request URL for the configured repository.
pub open spec fn pull_prefix(repo: Seq<char>) -> Seq<char> {
    host_prefix() + repo + "/pull/"@
}

/// Fragment separator of a plain comment reference.
pub open spec fn comment_sep() -> Seq<char> {
    "#issuecomment-"@
}

/// Fragment separator of a review-thread comment reference.
pub open spec fn discussion_sep() -> Seq<char> {
    "#discussion_r"@
}

/// Fragment separator of a review reference.
pub open spec fn review_sep() -> Seq<char> {
    "#pullrequestreview-"@
}

/// The references recognized in `t`, in the order the six shapes are scanned
/// (issue, issue comment, pull request, pull-request comment, review comment,
/// review) and, within one shape, in match order.
pub open spec fn scan_message_spec(t: Seq<char>, repo: Seq<char>) -> Seq<Reference> {
    scan_one(t, issue_prefix(repo), 0).map_values(|n: u64| Reference::Issue { number: n })
        + scan_two(t, issue_prefix(repo), comment_sep(), 0).map_values(
        |v: (u64, u64)| Reference::IssueComment { comment_id: v.1 },
    ) + scan_one(t, pull_prefix(repo), 0).map_values(|n: u64| Reference::PullRequest { number: n })
        + scan_two(t, pull_prefix(repo), comment_sep(), 0).map_values(
        |v: (u64, u64)| Reference::PullRequestComment { comment_id: v.1 },
    ) + scan_two(t, pull_prefix(repo), discussion_sep(), 0).map_values(
        |v: (u64, u64)| Reference::PullRequestReviewComment { pull_number: v.0, comment_id: v.1 },
    ) + scan_two(t, pull_prefix(repo), review_sep(), 0).map_values(
        |v: (u64, u64)| Reference::PullRequestReview { pull_number: v.0, review_id: v.1 },
    )
}

fn build_prefix(repo: &str, tail: &str) -> (p: Vec<char>)
    ensures
        p@ == host_prefix() + repo@ + tail@,
{
    let mut p = str_to_chars("https://github.com/");
    let mut r = str_to_chars(repo);
    let mut t = str_to_chars(tail);
    p.append(&mut r);
    p.append(&mut t);
    proof {
        assert((host_prefix() + repo@) + tail@ =~= host_prefix() + repo@ + tail@);
    }
    p
}

/// Scans one message for all six reference shapes.
pub fn scan_message(text: &str, repo: &str) -> (r: Vec<Reference>)
    ensures
        r@ == scan_message_spec(text@, repo@),
{
    let t = str_to_chars(text);
    let issue_p = build_prefix(repo, "/issues/");
    let pull_p = build_prefix(repo, "/pull/");
    let comment_s = str_to_chars("#issuecomment-");
    let discussion_s = str_to_chars("#discussion_r");
    let review_s = str_to_chars("#pullrequestreview-");

    let mut out: Vec<Reference> = Vec::new();

    let ones = scan_one_exec(&t, &issue_p);
    let ghost g1 = scan_one(t@, issue_prefix(repo@), 0).map_values(
        |n: u64| Reference::Issue { number: n },
    );
    let mut k: usize = 0;
    while k < ones.len()
        invariant
            k <= ones@.len(),
            ones@ == scan_one(text@, issue_prefix(repo@), 0),
            g1 == scan_one(text@, issue_prefix(repo@), 0).map_values(
                (|n: u64| Reference::Issue { number: n }),
            ),
            out@ == g1.take(k as int),
        decreases ones@.len() - k,
    {
        out.push(Reference::Issue { number: ones[k] });
        proof {
            assert(g1.take(k + 1) =~= g1.take(k as int).push(g1[k as int]));
        }
        k = k + 1;
    }
    proof {
        assert(g1.take(ones@.len() as int) =~= g1);
    }

    let twos = scan_two_exec(&t, &issue_p, &comment_s);
    let ghost g2 = scan_two(text@, issue_prefix(repo@), comment_sep(), 0).map_values(
        |v: (u64, u64)| Reference::IssueComment { comment_id: v.1 },
    );
    let ghost done1 = out@;
    let mut k: usize = 0;
    while k < twos.len()
        invariant
            k <= twos@.len(),
            twos@ == scan_two(text@, issue_prefix(repo@), comment_sep(), 0),
            g2 == scan_two(text@, issue_prefix(repo@), comment_sep(), 0).map_values(
                (|v: (u64, u64)| Reference::IssueComment { comment_id: v.1 }),
            ),
            out@ == done1 + g2.take(k as int),
        decreases twos@.len() - k,
    {
        out.push(Reference::IssueComment { comment_id: twos[k].1 });
        proof {
            assert(g2.take(k + 1) =~= g2.take(k as int).push(g2[k as int]));
            assert((done1 + g2.take(k as int)).push(g2[k as int]) =~= done1 + g2.take(k + 1));
        }
        k = k + 1;
    }
    proof {
        assert(g2.take(twos@.len() as int) =~= g2);
    }

    let ones = scan_one_exec(&t, &pull_p);
    let ghost g3 = scan_one(text@, pull_prefix(repo@), 0).map_values(
        |n: u64| Reference::PullRequest { number: n },
    );
    let ghost done2 = out@;
    let mut k: usize = 0;
    while k < ones.len()
        invariant
            k <= ones@.len(),
            ones@ == scan_one(text@, pull_prefix(repo@), 0),
            g3 == scan_one(text@, pull_prefix(repo@), 0).map_values(
                (|n: u64| Reference::PullRequest { number: n }),
            ),
            out@ == done2 + g3.take(k as int),
        decreases ones@.len() - k,
    {
        out.push(Reference::PullRequest { number: ones[k] });
        proof {
            assert(g3.take(k + 1) =~= g3.take(k as int).push(g3[k as int]));
            assert((done2 + g3.take(k as int)).push(g3[k as int]) =~= done2 + g3.take(k + 1));
        }
        k = k + 1;
    }
    proof {
        assert(g3.take(ones@.len() as int) =~= g3);
    }

    let twos = scan_two_exec(&t, &pull_p, &comment_s);
    let ghost g4 = scan_two(text@, pull_prefix(repo@), comment_sep(), 0).map_values(
        |v: (u64, u64)| Reference::PullRequestComment { comment_id: v.1 },
    );
    let ghost done3 = out@;
    let mut k: usize = 0;
    while k < twos.len()
        invariant
            k <= twos@.len(),
            twos@ == scan_two(text@, pull_prefix(repo@), comment_sep(), 0),
            g4 == scan_two(text@, pull_prefix(repo@), comment_sep(), 0).map_values(
                (|v: (u64, u64)| Reference::PullRequestComment { comment_id: v.1 }),
            ),
            out@ == done3 + g4.take(k as int),
        decreases twos@.len() - k,
    {
        out.push(Reference::PullRequestComment { comment_id: twos[k].1 });
        proof {
            assert(g4.take(k + 1) =~= g4.take(k as int).push(g4[k as int]));
            assert((done3 + g4.take(k as int)).push(g4[k as int]) =~= done3 + g4.take(k + 1));
        }
        k = k + 1;
    }
    proof {
        assert(g4.take(twos@.len() as int) =~= g4);
    }

    let twos = scan_two_exec(&t, &pull_p, &discussion_s);
    let ghost g5 = scan_two(text@, pull_prefix(repo@), discussion_sep(), 0).map_values(
        |v: (u64, u64)| Reference::PullRequestReviewComment { pull_number: v.0, comment_id: v.1 },
    );
    let ghost done4 = out@;
    let mut k: usize = 0;
    while k < twos.len()
        invariant
            k <= twos@.len(),
            twos@ == scan_two(text@, pull_prefix(repo@), discussion_sep(), 0),
            g5 == scan_two(text@, pull_prefix(repo@), discussion_sep(), 0).map_values(
                (|v: (u64, u64)| Reference::PullRequestReviewComment {
                    pull_number: v.0,
                    comment_id: v.1,
                }),
            ),
            out@ == done4 + g5.take(k as int),
        decreases twos@.len() - k,
    {
        out.push(
            Reference::PullRequestReviewComment { pull_number: twos[k].0, comment_id: twos[k].1 },
        );
        proof {
            assert(g5.take(k + 1) =~= g5.take(k as int).push(g5[k as int]));
            assert((done4 + g5.take(k as int)).push(g5[k as int]) =~= done4 + g5.take(k + 1));
        }
        k = k + 1;
    }
    proof {
        assert(g5.take(twos@.len() as int) =~= g5);
    }

    let twos = scan_two_exec(&t, &pull_p, &review_s);
    let ghost g6 = scan_two(text@, pull_prefix(repo@), review_sep(), 0).map_values(
        |v: (u64, u64)| Reference::PullRequestReview { pull_number: v.0, review_id: v.1 },
    );
    let ghost done5 = out@;
    let mut k: usize = 0;
    while k < twos.len()
        invariant
            k <= twos@.len(),
            twos@ == scan_two(text@, pull_prefix(repo@), review_sep(), 0),
            g6 == scan_two(text@, pull_prefix(repo@), review_sep(), 0).map_values(
                (|v: (u64, u64)| Reference::PullRequestReview {
                    pull_number: v.0,
                    review_id: v.1,
                }),
            ),
            out@ == done5 + g6.take(k as int),
        decreases twos@.len() - k,
    {
        out.push(Reference::PullRequestReview { pull_number: twos[k].0, review_id: twos[k].1 });
        proof {
            assert(g6.take(k + 1) =~= g6.take(k as int).push(g6[k as int]));
            assert((done5 + g6.take(k as int)).push(g6[k as int]) =~= done5 + g6.take(k + 1));
        }
        k = k + 1;
    }
    proof {
        assert(g6.take(twos@.len() as int) =~= g6);
        assert(out@ =~= g1 + g2 + g3 + g4 + g5 + g6);
    }
    out
}

} // verus!
