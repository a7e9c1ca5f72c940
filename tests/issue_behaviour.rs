use sdp_task_timer::config::Config;
use sdp_task_timer::issue::{gh_issue_list_args, merge_issue_lists, sort_issues, Assignee, Issue};

fn issues(items: &[(u64, &str)]) -> Vec<Issue> {
    items.iter().map(|(n, t)| Issue::new(*n, t.to_string())).collect()
}

fn numbers(v: &[Issue]) -> Vec<u64> {
    v.iter().map(|i| i.number).collect()
}

#[test]
fn label_shows_number_and_title() {
    assert_eq!(Issue::new(42, "Fix it".to_string()).label(), "#42 | Fix it");
    assert_eq!(Issue::new(0, String::new()).label(), "#0 | ");
}

#[test]
fn search_filters() {
    assert_eq!(Assignee::Unassigned.search_filter(), "no:assignee");
    assert_eq!(Assignee::CurrentUser.search_filter(), "assignee:@me");
}

#[test]
fn issue_list_arguments() {
    let open = gh_issue_list_args("org/repo", Assignee::CurrentUser, false);
    assert_eq!(
        open,
        vec![
            "issue", "list", "--label", "task", "--json", "number,title", "--state", "open",
            "--repo", "org/repo", "--search", "assignee:@me"
        ]
    );
    let all = gh_issue_list_args("o/r", Assignee::Unassigned, true);
    assert_eq!(all[7], "all");
    assert_eq!(all[11], "no:assignee");
}

#[test]
fn sort_orders_by_number() {
    let sorted = sort_issues(issues(&[(5, "e"), (1, "a"), (3, "c"), (1, "b")]));
    assert_eq!(numbers(&sorted), vec![1, 1, 3, 5]);
    assert_eq!(sort_issues(Vec::new()).len(), 0);
}

#[test]
fn assigned_issues_come_before_unassigned() {
    let merged = merge_issue_lists(
        issues(&[(9, "nine"), (2, "two")]),
        issues(&[(4, "four"), (1, "one"), (7, "seven")]),
    );
    assert_eq!(numbers(&merged), vec![2, 9, 1, 4, 7]);
    assert_eq!(merged[0].title, "two");
}

#[test]
fn config_keeps_repository() {
    assert_eq!(Config::new("a/b".to_string()).repository, "a/b");
}

#[test]
fn equal_numbers_are_ordered_by_title() {
    let input = issues(&[(3, "b"), (1, "z"), (3, "a"), (3, "ab"), (1, "y")]);
    let mut expected = input.clone();
    expected.sort();
    let sorted = sort_issues(input);
    assert_eq!(sorted, expected);
    let titles: Vec<&str> = sorted.iter().map(|i| i.title.as_str()).collect();
    assert_eq!(titles, vec!["y", "z", "a", "ab", "b"]);
}

#[test]
fn titles_compare_by_code_point() {
    let sorted = sort_issues(issues(&[(1, "é"), (1, "z"), (1, "Z"), (1, "")]));
    let titles: Vec<&str> = sorted.iter().map(|i| i.title.as_str()).collect();
    assert_eq!(titles, vec!["", "Z", "z", "é"]);
}

#[test]
fn merged_numbers_appear_once_keeping_the_assigned_copy() {
    let merged = merge_issue_lists(
        issues(&[(5, "mine"), (2, "two"), (5, "mine too")]),
        issues(&[(5, "theirs"), (8, "eight"), (8, "eight again"), (2, "two")]),
    );
    assert_eq!(numbers(&merged), vec![2, 5, 8]);
    assert_eq!(merged[1].title, "mine");
    assert_eq!(merged[2].title, "eight");
}
