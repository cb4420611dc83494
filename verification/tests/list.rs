use file_backup::enums::{ProgressStatus, StaticVarsType};
use file_backup::file_opt::ProgressUpdate;
use file_backup::list_view::{join_path, plan_copy, search_by_name, sort_by, toggle_select_all};
use file_backup::structs::{ListItemProgress, ListViewItem};
use file_backup::text::{contains_str, last_segment_of};

fn row(name: &str, size: i32, created: &str, modified: &str, checked: bool) -> ListViewItem {
    ListViewItem {
        checked,
        name: name.to_string(),
        size,
        modified_time: modified.to_string(),
        create_time: created.to_string(),
        size_show: format!("{} mb", size),
        file_type: String::new(),
        show: false,
    }
}

fn names(v: &[ListViewItem]) -> Vec<&str> {
    v.iter().map(|x| x.name.as_str()).collect()
}

fn sample() -> Vec<ListViewItem> {
    vec![
        row("beta.txt", 3, "2021-01-01 00:00:00", "2022-05-01 00:00:00", false),
        row("Alpha.doc", 1, "2020-01-01 00:00:00", "2022-01-01 00:00:00", true),
        row("gamma.pdf", 3, "2023-01-01 00:00:00", "2021-01-01 00:00:00", false),
        row("alpha.doc", 2, "2019-01-01 00:00:00", "2020-01-01 00:00:00", true),
    ]
}

#[test]
fn select_all_checks_every_row_and_flips_switch() {
    let (rows, on) = toggle_select_all(&sample(), false);
    assert!(on);
    assert!(rows.iter().all(|x| x.checked));
    assert_eq!(names(&rows), names(&sample()));
    let (rows, on) = toggle_select_all(&rows, true);
    assert!(!on);
    assert!(rows.iter().all(|x| !x.checked));
}

#[test]
fn search_shows_matches_first_and_checks_them() {
    let r = search_by_name(&sample(), "a.");
    assert_eq!(names(&r), vec!["beta.txt", "Alpha.doc", "gamma.pdf", "alpha.doc"]);
    assert!(r.iter().all(|x| x.show));
    assert!(r.iter().all(|x| x.checked));
    let r = search_by_name(&sample(), "alpha");
    assert_eq!(names(&r), vec!["alpha.doc", "beta.txt", "Alpha.doc", "gamma.pdf"]);
    assert!(r[0].show && r[0].checked);
    assert!(!r[1].show && !r[1].checked);
    assert!(!r[2].show && r[2].checked);
    assert!(!r[3].show && !r[3].checked);
}

#[test]
fn search_with_empty_text_hides_all_and_keeps_order() {
    let r = search_by_name(&sample(), "");
    assert_eq!(names(&r), names(&sample()));
    assert!(r.iter().all(|x| !x.show));
    let checks: Vec<bool> = r.iter().map(|x| x.checked).collect();
    assert_eq!(checks, vec![false, true, false, true]);
}

#[test]
fn search_without_match_shows_nothing() {
    let r = search_by_name(&sample(), "zzz");
    assert_eq!(names(&r), names(&sample()));
    assert!(r.iter().all(|x| !x.show));
}

#[test]
fn sort_by_name_ignores_case_and_is_stable() {
    let r = sort_by(&sample(), 0, true);
    assert_eq!(names(&r), vec!["Alpha.doc", "alpha.doc", "beta.txt", "gamma.pdf"]);
    let r = sort_by(&sample(), 0, false);
    assert_eq!(names(&r), vec!["gamma.pdf", "beta.txt", "Alpha.doc", "alpha.doc"]);
}

#[test]
fn sort_by_size_keeps_ties_in_order() {
    let r = sort_by(&sample(), 1, true);
    assert_eq!(names(&r), vec!["Alpha.doc", "alpha.doc", "beta.txt", "gamma.pdf"]);
    let r = sort_by(&sample(), 1, false);
    assert_eq!(names(&r), vec!["beta.txt", "gamma.pdf", "alpha.doc", "Alpha.doc"]);
}

#[test]
fn sort_by_times() {
    let r = sort_by(&sample(), 2, true);
    assert_eq!(names(&r), vec!["alpha.doc", "Alpha.doc", "beta.txt", "gamma.pdf"]);
    let r = sort_by(&sample(), 3, true);
    assert_eq!(names(&r), vec!["alpha.doc", "gamma.pdf", "Alpha.doc", "beta.txt"]);
    let r = sort_by(&sample(), -7, false);
    assert_eq!(names(&r), vec!["beta.txt", "Alpha.doc", "gamma.pdf", "alpha.doc"]);
}

#[test]
fn sort_by_name_lowercases_beyond_ascii() {
    let rows = vec![
        row("Zed", 0, "", "", false),
        row("Äpfel", 0, "", "", false),
        row("äpfel", 0, "", "", false),
        row("apple", 0, "", "", false),
    ];
    // Lowercased: "zed", "äpfel", "äpfel", "apple"; 'ä' comes after 'z'.
    let r = sort_by(&rows, 0, true);
    assert_eq!(names(&r), vec!["apple", "Zed", "Äpfel", "äpfel"]);
}

#[test]
fn sort_of_empty_list() {
    assert!(sort_by(&vec![], 0, true).is_empty());
}

#[test]
fn plan_copies_checked_rows_in_order() {
    let plan = plan_copy(&sample(), "/from", "/to");
    assert_eq!(plan.jobs.len(), 2);
    assert_eq!(plan.jobs[0].source, "/from/Alpha.doc");
    assert_eq!(plan.jobs[0].target, "/to/Alpha.doc");
    assert_eq!(plan.jobs[1].source, "/from/alpha.doc");
    assert_eq!(plan.jobs[1].target, "/to/alpha.doc");
    assert!(plan.jobs.iter().all(|j| j.state == ProgressStatus::Continue));
    // 1 MB + 2 MB = 3072 KB.
    assert_eq!(plan.progress_bar, ListItemProgress { moved: 0, total: 3072, status: 0 });
    assert_eq!(
        plan.start,
        Some(ProgressUpdate {
            moved: StaticVarsType::Update(0),
            total: StaticVarsType::Update(3072 * 1024),
            status: StaticVarsType::Update(ProgressStatus::Start),
        })
    );
}

#[test]
fn plan_without_checked_rows_starts_nothing() {
    let (rows, _) = toggle_select_all(&sample(), true);
    let plan = plan_copy(&rows, "/from", "/to");
    assert!(plan.jobs.is_empty());
    assert!(plan.start.is_none());
    assert_eq!(plan.progress_bar, ListItemProgress { moved: 0, total: 0, status: 0 });
}

#[test]
fn path_joins_with_slash() {
    assert_eq!(join_path("/home/u", "a b.txt"), "/home/u/a b.txt");
    assert_eq!(join_path("", "x"), "/x");
}

#[test]
fn text_helpers() {
    assert!(contains_str("hello world", "o w"));
    assert!(contains_str("hello", ""));
    assert!(!contains_str("hello", "hello!"));
    assert!(!contains_str("", "a"));
    assert_eq!(last_segment_of("a.b.c"), "c");
}
