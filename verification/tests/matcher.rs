use github_expander::matcher::{scan_message, Reference};

#[test]
fn no_links_no_references() {
    let refs = scan_message("just some chat, no links at all", "me/proj");
    assert!(refs.is_empty());
}

#[test]
fn other_repository_ignored() {
    let refs = scan_message("https://github.com/other/repo/issues/3", "me/proj");
    assert!(refs.is_empty());
}

#[test]
fn single_issue_link() {
    let refs = scan_message("see https://github.com/me/proj/issues/12 please", "me/proj");
    assert_eq!(refs, vec![Reference::Issue { number: 12 }]);
}

#[test]
fn single_issue_comment_link() {
    let refs = scan_message("https://github.com/me/proj/issues/3#issuecomment-900", "me/proj");
    // The bare issue shape also matches the front of a comment URL; both are
    // kept, in kind order.
    assert_eq!(
        refs,
        vec![
            Reference::Issue { number: 3 },
            Reference::IssueComment { comment_id: 900 },
        ]
    );
}

#[test]
fn single_pull_request_link() {
    let refs = scan_message("https://github.com/me/proj/pull/44", "me/proj");
    assert_eq!(refs, vec![Reference::PullRequest { number: 44 }]);
}

#[test]
fn single_pull_comment_link() {
    let refs = scan_message("https://github.com/me/proj/pull/5#issuecomment-6", "me/proj");
    assert_eq!(
        refs,
        vec![
            Reference::PullRequest { number: 5 },
            Reference::PullRequestComment { comment_id: 6 },
        ]
    );
}

#[test]
fn single_review_comment_link() {
    let refs = scan_message("https://github.com/me/proj/pull/7#discussion_r8", "me/proj");
    assert_eq!(
        refs,
        vec![
            Reference::PullRequest { number: 7 },
            Reference::PullRequestReviewComment { pull_number: 7, comment_id: 8 },
        ]
    );
}

#[test]
fn single_review_link() {
    let refs = scan_message("https://github.com/me/proj/pull/9#pullrequestreview-10", "me/proj");
    assert_eq!(
        refs,
        vec![
            Reference::PullRequest { number: 9 },
            Reference::PullRequestReview { pull_number: 9, review_id: 10 },
        ]
    );
}

#[test]
fn one_of_each_kind_keeps_kind_order() {
    let text = "https://github.com/me/proj/issues/1 \
https://github.com/me/proj/issues/2#issuecomment-3 \
https://github.com/me/proj/pull/4 \
https://github.com/me/proj/pull/5#issuecomment-6 \
https://github.com/me/proj/pull/7#discussion_r8 \
https://github.com/me/proj/pull/9#pullrequestreview-10";
    let refs = scan_message(text, "me/proj");
    assert_eq!(
        refs,
        vec![
            Reference::Issue { number: 1 },
            Reference::Issue { number: 2 },
            Reference::IssueComment { comment_id: 3 },
            Reference::PullRequest { number: 4 },
            Reference::PullRequest { number: 5 },
            Reference::PullRequest { number: 7 },
            Reference::PullRequest { number: 9 },
            Reference::PullRequestComment { comment_id: 6 },
            Reference::PullRequestReviewComment { pull_number: 7, comment_id: 8 },
            Reference::PullRequestReview { pull_number: 9, review_id: 10 },
        ]
    );
}

#[test]
fn duplicate_links_kept() {
    let text = "https://github.com/me/proj/issues/5 https://github.com/me/proj/issues/5";
    let refs = scan_message(text, "me/proj");
    assert_eq!(
        refs,
        vec![Reference::Issue { number: 5 }, Reference::Issue { number: 5 }]
    );
}

#[test]
fn oversized_number_dropped() {
    let refs = scan_message(
        "https://github.com/me/proj/issues/99999999999999999999999999",
        "me/proj",
    );
    assert!(refs.is_empty());
}

#[test]
fn largest_number_kept() {
    let refs = scan_message(
        "https://github.com/me/proj/issues/18446744073709551615",
        "me/proj",
    );
    assert_eq!(refs, vec![Reference::Issue { number: 18446744073709551615 }]);
}

#[test]
fn repository_name_is_matched_literally() {
    let refs = scan_message("https://github.com/my.org/a.b/issues/4", "my.org/a.b");
    assert_eq!(refs, vec![Reference::Issue { number: 4 }]);
    // A dot in the configured name stands for itself, not for any character.
    let refs = scan_message("https://github.com/myXorg/aXb/issues/4", "my.org/a.b");
    assert!(refs.is_empty());
}

#[test]
fn digits_stop_at_first_non_digit() {
    let refs = scan_message("https://github.com/me/proj/pull/12abc", "me/proj");
    assert_eq!(refs, vec![Reference::PullRequest { number: 12 }]);
}
