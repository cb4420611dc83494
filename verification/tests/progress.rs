use file_backup::enums::{ProgressStatus, StaticVarsType};
use file_backup::structs::{update_progress_ptr, ListItemProgress, Progress};

#[test]
fn to_num_gives_each_status_its_number() {
    assert_eq!(ProgressStatus::Start.to_num(), 0);
    assert_eq!(ProgressStatus::Stop.to_num(), 1);
    assert_eq!(ProgressStatus::Continue.to_num(), 2);
    assert_eq!(ProgressStatus::Exit.to_num(), 3);
    assert_eq!(ProgressStatus::Finish.to_num(), 4);
}

#[test]
fn from_num_reads_numbers_back() {
    assert_eq!(ProgressStatus::from_num(0), ProgressStatus::Start);
    assert_eq!(ProgressStatus::from_num(1), ProgressStatus::Stop);
    assert_eq!(ProgressStatus::from_num(2), ProgressStatus::Continue);
    assert_eq!(ProgressStatus::from_num(3), ProgressStatus::Exit);
    assert_eq!(ProgressStatus::from_num(4), ProgressStatus::Finish);
}

#[test]
fn from_num_outside_range_is_finish() {
    assert_eq!(ProgressStatus::from_num(5), ProgressStatus::Finish);
    assert_eq!(ProgressStatus::from_num(-1), ProgressStatus::Finish);
    assert_eq!(ProgressStatus::from_num(6), ProgressStatus::Finish);
    assert_eq!(ProgressStatus::from_num(i32::MAX), ProgressStatus::Finish);
}

#[test]
fn status_round_trip_on_every_status() {
    for s in [
        ProgressStatus::Start,
        ProgressStatus::Stop,
        ProgressStatus::Continue,
        ProgressStatus::Exit,
        ProgressStatus::Finish,
    ] {
        assert_eq!(ProgressStatus::from_num(s.to_num()), s);
    }
}

#[test]
fn defaults_start_empty() {
    assert_eq!(ProgressStatus::default(), ProgressStatus::Start);
    let p = Progress::default();
    assert_eq!(p, Progress { total: 0, moved: 0, status: ProgressStatus::Start });
}

#[test]
fn update_keeps_and_sets_fields() {
    let mut p = Progress { total: 10, moved: 3, status: ProgressStatus::Start };
    update_progress_ptr(&mut p, StaticVarsType::Update(7), StaticVarsType::Keep, StaticVarsType::Keep);
    assert_eq!(p, Progress { total: 10, moved: 7, status: ProgressStatus::Start });
    update_progress_ptr(&mut p, StaticVarsType::Keep, StaticVarsType::Update(99), StaticVarsType::Update(ProgressStatus::Stop));
    assert_eq!(p, Progress { total: 99, moved: 7, status: ProgressStatus::Stop });
}

#[test]
fn update_with_all_keep_changes_nothing() {
    let mut p = Progress { total: 5, moved: 4, status: ProgressStatus::Exit };
    update_progress_ptr(&mut p, StaticVarsType::Keep, StaticVarsType::Keep, StaticVarsType::Keep);
    assert_eq!(p, Progress { total: 5, moved: 4, status: ProgressStatus::Exit });
}

#[test]
fn same_update_twice_is_same_as_once() {
    let mut a = Progress { total: 5, moved: 4, status: ProgressStatus::Exit };
    let mut b = a;
    let u = (StaticVarsType::Update(1u64), StaticVarsType::Keep, StaticVarsType::Update(ProgressStatus::Continue));
    update_progress_ptr(&mut a, u.0, u.1, u.2);
    update_progress_ptr(&mut b, u.0, u.1, u.2);
    update_progress_ptr(&mut b, u.0, u.1, u.2);
    assert_eq!(a, b);
}

#[test]
fn progress_bar_counts_kilobytes() {
    let p = Progress { total: 10 * 1024 + 1023, moved: 2048, status: ProgressStatus::Continue };
    assert_eq!(p.to_list_item_progress(), ListItemProgress { moved: 2, total: 10, status: 2 });
}

#[test]
fn progress_bar_truncates_to_i32() {
    let p = Progress { total: (1u64 << 41) + 1024 * 3, moved: 0, status: ProgressStatus::Finish };
    // (2^41 + 3 KB) / 1024 = 2^31 + 3, which wraps to i32::MIN + 3.
    assert_eq!(p.to_list_item_progress(), ListItemProgress { moved: 0, total: i32::MIN + 3, status: 4 });
}
