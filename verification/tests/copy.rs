use file_backup::enums::{ProgressStatus, StaticVarsType};
use file_backup::file_opt::{copy_step, CopyAction, CopyEvent, ProgressUpdate, BUFFER_LEN};
use file_backup::structs::Progress;

fn keep() -> ProgressUpdate {
    ProgressUpdate { moved: StaticVarsType::Keep, total: StaticVarsType::Keep, status: StaticVarsType::Keep }
}

fn progress(status: ProgressStatus) -> Progress {
    Progress { total: 4096, moved: 1024, status }
}

#[test]
fn poll_decides_by_status() {
    let st = ProgressStatus::Continue;
    assert_eq!(copy_step(&progress(ProgressStatus::Start), CopyEvent::Polled, st), (keep(), CopyAction::ReadChunk));
    assert_eq!(copy_step(&progress(ProgressStatus::Continue), CopyEvent::Polled, st), (keep(), CopyAction::ReadChunk));
    assert_eq!(copy_step(&progress(ProgressStatus::Stop), CopyEvent::Polled, st), (keep(), CopyAction::Sleep));
    assert_eq!(copy_step(&progress(ProgressStatus::Finish), CopyEvent::Polled, st), (keep(), CopyAction::Poll));
}

#[test]
fn exit_resets_counters_and_stops() {
    let (u, a) = copy_step(&progress(ProgressStatus::Exit), CopyEvent::Polled, ProgressStatus::Continue);
    assert_eq!(a, CopyAction::Stop);
    assert_eq!(u, ProgressUpdate { moved: StaticVarsType::Update(0), total: StaticVarsType::Update(0), status: StaticVarsType::Keep });
}

#[test]
fn full_chunk_counts_and_polls_again() {
    let (u, a) = copy_step(&progress(ProgressStatus::Continue), CopyEvent::ChunkCopied(BUFFER_LEN), ProgressStatus::Continue);
    assert_eq!(a, CopyAction::Poll);
    assert_eq!(u, ProgressUpdate { moved: StaticVarsType::Update(1024 + 512), total: StaticVarsType::Keep, status: StaticVarsType::Keep });
}

#[test]
fn short_chunk_counts_a_whole_buffer_and_flushes() {
    let (u, a) = copy_step(&progress(ProgressStatus::Stop), CopyEvent::ChunkCopied(10), ProgressStatus::Continue);
    assert_eq!(a, CopyAction::Flush);
    assert_eq!(u.moved, StaticVarsType::Update(1024 + 512));
    let (_, a) = copy_step(&progress(ProgressStatus::Start), CopyEvent::ChunkCopied(0), ProgressStatus::Continue);
    assert_eq!(a, CopyAction::Flush);
}

#[test]
fn flushed_sets_final_state_and_stops() {
    let (u, a) = copy_step(&progress(ProgressStatus::Continue), CopyEvent::Flushed, ProgressStatus::Finish);
    assert_eq!(a, CopyAction::Stop);
    assert_eq!(u, ProgressUpdate { moved: StaticVarsType::Keep, total: StaticVarsType::Keep, status: StaticVarsType::Update(ProgressStatus::Finish) });
}
