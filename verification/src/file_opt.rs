//! The decisions of the file operations: which entries of a folder become
//! files of the list and with which times, the steps of copying one file
//! while the user may pause or abort it, and which icon a file type gets.
use vstd::prelude::*;

use chrono::{DateTime, Utc};

use crate::enums::{ProgressStatus, StaticVarsType};
use crate::structs::{FileInfo, FileInfoView, Progress};
use crate::text::{chars_of, last_segment, last_segment_of};

verus! {

/// A point in time as seconds and nanoseconds since 1970-01-01 00:00:00 UTC,
/// the nanoseconds counting forward from the second (as `chrono` takes it).
#[derive(Debug, Clone, Copy, PartialEq, Eq, Structural)]
pub struct Timestamp {
    pub secs: i64,
    pub nanos: u32,
}

/// What `chrono` makes of a timestamp: `None` where `DateTime::<Utc>::from_timestamp`
/// finds it out of range, else the text of the UTC time in the form
/// `"%Y-%m-%d %H:%M:%S"`.
pub uninterp spec fn utc_time_text(secs: i64, nanos: u32) -> Option<Seq<char>>;

/// Formats a timestamp as `YYYY-MM-DD HH:MM:SS` in UTC, or gives `None`
/// where `chrono` cannot represent it.
///
/// Calls `chrono::DateTime::<Utc>::from_timestamp` and formats the result with
/// `"%Y-%m-%d %H:%M:%S"`. The contract claims only that the outcome is a
/// function of the two numbers, named `utc_time_text`; the calendar
/// arithmetic and the range are `chrono`'s and are not stated here.
#[verifier::external_body]
pub(crate) fn format_time(time: Timestamp) -> (r: Option<String>)
    ensures
        match r {
            Some(s) => utc_time_text(time.secs, time.nanos) == Some(s@),
            None => utc_time_text(time.secs, time.nanos) is None,
        },
{
    match DateTime::<Utc>::from_timestamp(time.secs, time.nanos) {
        Some(dt) => Some(format!("{}", dt.format("%Y-%m-%d %H:%M:%S"))),
        None => None,
    }
}

/// An entry read from a folder: its name, whether it is a folder itself,
/// and, for a file, its size and times.
#[derive(Debug, Clone)]
pub struct DirEntryInfo {
    pub name: String,
    pub is_dir: bool,
    pub size: u64,
    pub modified: Timestamp,
    pub created: Timestamp,
}

/// The file that an entry becomes, given the texts of its two times.
pub open spec fn entry_file(e: DirEntryInfo, modified: Seq<char>, created: Seq<char>) -> FileInfoView {
    FileInfoView {
        checked: false,
        name: e.name@,
        size: e.size,
        modified_time: modified,
        create_time: created,
    }
}

/// The files of a folder's entries, in the order of the entries: folders
/// are left out; `None` when the time of some file is out of `chrono`'s range.
pub open spec fn listed_files(entries: Seq<DirEntryInfo>) -> Option<Seq<FileInfoView>>
    decreases entries.len(),
{
    if entries.len() == 0 {
        Some(Seq::empty())
    } else {
        let e = entries.last();
        match listed_files(entries.drop_last()) {
            None => None,
            Some(fs) => if e.is_dir {
                Some(fs)
            } else {
                match (
                    utc_time_text(e.modified.secs, e.modified.nanos),
                    utc_time_text(e.created.secs, e.created.nanos),
                ) {
                    (Some(m), Some(c)) => Some(fs.push(entry_file(e, m, c))),
                    _ => None,
                }
            },
        }
    }
}

/// The entries of a folder that are not folders, in their order.
pub open spec fn file_entries(entries: Seq<DirEntryInfo>) -> Seq<DirEntryInfo> {
    entries.filter(|e: DirEntryInfo| !e.is_dir)
}

/// `chrono` cannot represent one of the entry's two times.
pub open spec fn time_rejected(e: DirEntryInfo) -> bool {
    utc_time_text(e.modified.secs, e.modified.nanos) is None || utc_time_text(e.created.secs, e.created.nanos) is None
}

/// Every entry that is not a folder, whatever its size, gives exactly one
/// file, in order, with its name and size, unchecked, and with its times as
/// `chrono` writes them; there is no listing exactly when `chrono` rejects a
/// time of such an entry.
pub proof fn lemma_listed_files_entries(entries: Seq<DirEntryInfo>)
    ensures
        listed_files(entries) is None <==> exists|k: int|
            0 <= k < entries.len() && !entries[k].is_dir && time_rejected(#[trigger] entries[k]),
        listed_files(entries) matches Some(fs) ==> {
            &&& fs.len() == file_entries(entries).len()
            &&& forall|k: int|
                0 <= k < fs.len() ==> {
                    &&& (#[trigger] fs[k]).name == file_entries(entries)[k].name@
                    &&& fs[k].size == file_entries(entries)[k].size
                    &&& !fs[k].checked
                    &&& Some(fs[k].modified_time) == utc_time_text(
                        file_entries(entries)[k].modified.secs,
                        file_entries(entries)[k].modified.nanos,
                    )
                    &&& Some(fs[k].create_time) == utc_time_text(
                        file_entries(entries)[k].created.secs,
                        file_entries(entries)[k].created.nanos,
                    )
                }
        },
    decreases entries.len(),
{
    reveal_with_fuel(Seq::filter, 1);
    if entries.len() > 0 {
        let rest = entries.drop_last();
        let e = entries.last();
        lemma_listed_files_entries(rest);
        assert(file_entries(entries) == if !e.is_dir {
            file_entries(rest).push(e)
        } else {
            file_entries(rest)
        });
        if listed_files(entries) is None {
            if listed_files(rest) is None {
                let k = choose|k: int| 0 <= k < rest.len() && !rest[k].is_dir && time_rejected(#[trigger] rest[k]);
                assert(entries[k] == rest[k]);
            } else {
                assert(!e.is_dir && time_rejected(entries[entries.len() - 1]));
            }
        } else {
            assert forall|k: int| 0 <= k < entries.len() && !entries[k].is_dir implies !time_rejected(#[trigger] entries[k]) by {
                if k < rest.len() {
                    assert(entries[k] == rest[k]);
                }
            }
        }
    }
}

/// The file that an entry becomes, given its formatted times; `None` when
/// either time could not be formatted.
pub fn entry_file_info(entry: &DirEntryInfo, modified: Option<String>, created: Option<String>) -> (r: Option<FileInfo>)
    ensures
        r is Some <==> (modified is Some && created is Some),
        r matches Some(f) ==> f@ == entry_file(*entry, modified->0@, created->0@),
{
    match (modified, created) {
        (Some(m), Some(c)) => Some(FileInfo {
            name: entry.name.clone(),
            size: entry.size,
            modified_time: m,
            create_time: c,
            checked: false,
        }),
        _ => None,
    }
}

/// The files among the entries of a folder, unchecked, with their times as
/// text; `None` when a file's time is out of range for `chrono`.
pub fn files_of_entries(entries: &Vec<DirEntryInfo>) -> (r: Option<Vec<FileInfo>>)
    ensures
        match r {
            Some(v) => listed_files(entries@) == Some(v@.map_values(|f: FileInfo| f@)),
            None => listed_files(entries@) is None,
        },
        r is None <==> exists|k: int|
            0 <= k < entries@.len() && !entries@[k].is_dir && time_rejected(#[trigger] entries@[k]),
        r matches Some(v) ==> {
            &&& v.len() == file_entries(entries@).len()
            &&& forall|k: int|
                0 <= k < v.len() ==> {
                    &&& (#[trigger] v@[k]).name@ == file_entries(entries@)[k].name@
                    &&& v@[k].size == file_entries(entries@)[k].size
                    &&& !v@[k].checked
                    &&& Some(v@[k].modified_time@) == utc_time_text(
                        file_entries(entries@)[k].modified.secs,
                        file_entries(entries@)[k].modified.nanos,
                    )
                    &&& Some(v@[k].create_time@) == utc_time_text(
                        file_entries(entries@)[k].created.secs,
                        file_entries(entries@)[k].created.nanos,
                    )
                }
        },
{
    proof {
        lemma_listed_files_entries(entries@);
    }
    let mut v: Vec<FileInfo> = Vec::new();
    let mut i: usize = 0;
    while i < entries.len()
        invariant
            i <= entries.len(),
            listed_files(entries@.take(i as int)) == Some(v@.map_values(|f: FileInfo| f@)),
        decreases entries.len() - i,
    {
        let e = &entries[i];
        assert(entries@.take(i + 1).drop_last() =~= entries@.take(i as int));
        assert(entries@.take(i + 1).last() == *e);
        if !e.is_dir {
            let modified = format_time(e.modified);
            let created = format_time(e.created);
            match entry_file_info(e, modified, created) {
                Some(f) => {
                    let ghost before = v@;
                    v.push(f);
                    assert(v@.map_values(|f: FileInfo| f@) =~= before.map_values(
                        |f: FileInfo| f@,
                    ).push(f@));
                },
                None => {
                    assert(listed_files(entries@.take(i + 1)) is None);
                    proof {
                        lemma_listed_none_stays(entries@, i as int + 1);
                    }
                    return None;
                },
            }
        }
        i = i + 1;
    }
    assert(entries@.take(entries.len() as int) =~= entries@);
    let ghost fs = v@.map_values(|f: FileInfo| f@);
    assert(fs.len() == v.len());
    assert(forall|k: int| 0 <= k < v.len() ==> fs[k] == (#[trigger] v@[k])@);
    Some(v)
}

/// Once a prefix of the entries has no listing, no longer prefix has one.
proof fn lemma_listed_none_stays(entries: Seq<DirEntryInfo>, k: int)
    requires
        0 <= k <= entries.len(),
        listed_files(entries.take(k)) is None,
    ensures
        listed_files(entries) is None,
    decreases entries.len() - k,
{
    if k < entries.len() {
        assert(entries.take(k + 1).drop_last() =~= entries.take(k));
        lemma_listed_none_stays(entries, k + 1);
    } else {
        assert(entries.take(k) =~= entries);
    }
}

/// The size of the chunks in which a file is copied.
pub const BUFFER_LEN: usize = 512;

/// What the copy worker has just seen or done.
#[derive(Debug, Clone, Copy, PartialEq, Eq, Structural)]
pub enum CopyEvent {
    /// It read the shared progress (at the start, and after each wait).
    Polled,
    /// It read this many bytes of the source (at most `BUFFER_LEN`) and wrote them.
    ChunkCopied(usize),
    /// It flushed the target after the last chunk.
    Flushed,
}

/// What the copy worker is to do next.
#[derive(Debug, Clone, Copy, PartialEq, Eq, Structural)]
pub enum CopyAction {
    /// Read the next chunk of the source and write it to the target.
    ReadChunk,
    /// The job is paused: wait a second, then poll again.
    Sleep,
    /// Poll the shared progress again at once.
    Poll,
    /// The source is exhausted: flush the target.
    Flush,
    /// The copy of this file is over.
    Stop,
}

/// The updates the worker applies to the shared progress, field by field.
#[derive(Debug, Clone, Copy, PartialEq, Eq, Structural)]
pub struct ProgressUpdate {
    pub moved: StaticVarsType<u64>,
    pub total: StaticVarsType<u64>,
    pub status: StaticVarsType<ProgressStatus>,
}

/// An update that keeps every field.
pub open spec fn keep_all() -> ProgressUpdate {
    ProgressUpdate {
        moved: StaticVarsType::Keep,
        total: StaticVarsType::Keep,
        status: StaticVarsType::Keep,
    }
}

/// One step of copying a file: from the progress the worker last read, the
/// event that just happened and the status to leave behind when the file
/// is done, the update to apply to the shared progress and the next action.
///
/// - Polled with status `Start` or `Continue`: read a chunk.
/// - Polled with `Stop`: sleep; with `Finish`: poll again.
/// - Polled with `Exit`: reset `moved` and `total` to 0, and stop.
/// - A chunk copied: count `BUFFER_LEN` more bytes as moved (whatever the
///   chunk's length); flush if the chunk was short, else poll again.
/// - Flushed: set the status to `state`, and stop.
pub open spec fn copy_transition(snapshot: Progress, event: CopyEvent, state: ProgressStatus) -> (ProgressUpdate, CopyAction) {
    match event {
        CopyEvent::Polled => match snapshot.status {
            ProgressStatus::Start | ProgressStatus::Continue => (keep_all(), CopyAction::ReadChunk),
            ProgressStatus::Stop => (keep_all(), CopyAction::Sleep),
            ProgressStatus::Exit => (
                ProgressUpdate {
                    moved: StaticVarsType::Update(0),
                    total: StaticVarsType::Update(0),
                    status: StaticVarsType::Keep,
                },
                CopyAction::Stop,
            ),
            ProgressStatus::Finish => (keep_all(), CopyAction::Poll),
        },
        CopyEvent::ChunkCopied(n) => (
            ProgressUpdate {
                moved: StaticVarsType::Update((snapshot.moved + 512) as u64),
                total: StaticVarsType::Keep,
                status: StaticVarsType::Keep,
            },
            if n != 512 { CopyAction::Flush } else { CopyAction::Poll },
        ),
        CopyEvent::Flushed => (
            ProgressUpdate {
                moved: StaticVarsType::Keep,
                total: StaticVarsType::Keep,
                status: StaticVarsType::Update(state),
            },
            CopyAction::Stop,
        ),
    }
}

/// A chunk shorter than `BUFFER_LEN` is the last one: the worker flushes the
/// target and finishes the file; only a full chunk makes it poll again. Each
/// chunk counts `BUFFER_LEN` more bytes as moved and leaves the total and
/// the status as they are.
pub proof fn lemma_chunk_ends_file(snapshot: Progress, event: CopyEvent, state: ProgressStatus)
    ensures
        event matches CopyEvent::ChunkCopied(n) ==> (copy_transition(snapshot, event, state).1 == CopyAction::Flush
            <==> n != BUFFER_LEN),
        event matches CopyEvent::ChunkCopied(n) ==> (copy_transition(snapshot, event, state).1 == CopyAction::Poll
            <==> n == BUFFER_LEN),
        event is ChunkCopied ==> copy_transition(snapshot, event, state).0 == (ProgressUpdate {
            moved: StaticVarsType::Update((snapshot.moved + BUFFER_LEN) as u64),
            total: StaticVarsType::Keep,
            status: StaticVarsType::Keep,
        }),
{
}

/// Polling never reads or writes the file but for `Start` and `Continue`;
/// a flushed file always ends with its final state and stops.
pub proof fn lemma_poll_and_flush(snapshot: Progress, state: ProgressStatus)
    ensures
        (copy_transition(snapshot, CopyEvent::Polled, state).1 == CopyAction::ReadChunk) <==> (snapshot.status
            == ProgressStatus::Start || snapshot.status == ProgressStatus::Continue),
        copy_transition(snapshot, CopyEvent::Flushed, state) == (ProgressUpdate {
            moved: StaticVarsType::Keep,
            total: StaticVarsType::Keep,
            status: StaticVarsType::Update(state),
        }, CopyAction::Stop),
        snapshot.status == ProgressStatus::Exit ==> copy_transition(snapshot, CopyEvent::Polled, state) == (
        ProgressUpdate {
            moved: StaticVarsType::Update(0),
            total: StaticVarsType::Update(0),
            status: StaticVarsType::Keep,
        }, CopyAction::Stop),
{
}

/// Decides one step of copying a file (see `copy_transition`). Counting a
/// chunk adds `BUFFER_LEN` to `moved`, which must not overflow.
pub fn copy_step(snapshot: &Progress, event: CopyEvent, state: ProgressStatus) -> (r: (ProgressUpdate, CopyAction))
    requires
        event is ChunkCopied ==> snapshot.moved + 512 <= u64::MAX,
    ensures
        r == copy_transition(*snapshot, event, state),
        event matches CopyEvent::ChunkCopied(n) ==> (r.1 == CopyAction::Flush <==> n != BUFFER_LEN),
        event matches CopyEvent::ChunkCopied(n) ==> (r.1 == CopyAction::Poll <==> n == BUFFER_LEN),
        event is ChunkCopied ==> r.0.moved == StaticVarsType::Update((snapshot.moved + BUFFER_LEN) as u64)
            && r.0.total == StaticVarsType::<u64>::Keep && r.0.status == StaticVarsType::<ProgressStatus>::Keep,
{
    proof {
        lemma_chunk_ends_file(*snapshot, event, state);
    }
    let keep = ProgressUpdate {
        moved: StaticVarsType::Keep,
        total: StaticVarsType::Keep,
        status: StaticVarsType::Keep,
    };
    match event {
        CopyEvent::Polled => match snapshot.status {
            ProgressStatus::Start | ProgressStatus::Continue => (keep, CopyAction::ReadChunk),
            ProgressStatus::Stop => (keep, CopyAction::Sleep),
            ProgressStatus::Exit => (
                ProgressUpdate {
                    moved: StaticVarsType::Update(0),
                    total: StaticVarsType::Update(0),
                    status: StaticVarsType::Keep,
                },
                CopyAction::Stop,
            ),
            ProgressStatus::Finish => (keep, CopyAction::Poll),
        },
        CopyEvent::ChunkCopied(n) => {
            let action = if n != BUFFER_LEN {
                CopyAction::Flush
            } else {
                CopyAction::Poll
            };
            (
                ProgressUpdate {
                    moved: StaticVarsType::Update(snapshot.moved + BUFFER_LEN as u64),
                    total: StaticVarsType::Keep,
                    status: StaticVarsType::Keep,
                },
                action,
            )
        },
        CopyEvent::Flushed => (
            ProgressUpdate {
                moved: StaticVarsType::Keep,
                total: StaticVarsType::Keep,
                status: StaticVarsType::Update(state),
            },
            CopyAction::Stop,
        ),
    }
}

/// Are the two strings equal, character by character?
pub fn text_eq(a: &str, b: &str) -> (r: bool)
    ensures
        r == (a@ == b@),
{
    let x = chars_of(a);
    let y = chars_of(b);
    if x.len() != y.len() {
        return false;
    }
    let mut i: usize = 0;
    while i < x.len()
        invariant
            x@ == a@,
            y@ == b@,
            x.len() == y.len(),
            i <= x.len(),
            forall|j: int| 0 <= j < i ==> x@[j] == y@[j],
        decreases x.len() - i,
    {
        if x[i] != y[i] {
            return false;
        }
        i = i + 1;
    }
    assert(x@ =~= y@);
    true
}

/// The icon image, relative to the program's folder, for a file type.
pub open spec fn icon_path(ext: Seq<char>) -> Seq<char> {
    if ext == "ai"@ || ext == "eps"@ {
        "ui/images/file_type/ae.png"@
    } else if ext == "doc"@ || ext == "docx"@ {
        "images/file_type/doc rtf.png"@
    } else if ext == "html"@ || ext == "htm"@ {
        "ui/images/file_type/html htm IE.png"@
    } else if ext == "mpeg"@ || ext == "avi"@ || ext == "wav"@ || ext == "ogg"@ || ext == "mp3"@
        || ext == "mp4"@ || ext == "mkv"@ {
        "ui/images/file_type/mpeg avi wav ogg mp3.png"@
    } else if ext == "pdf"@ {
        "ui/images/file_type/pdf.png"@
    } else if ext == "ppt"@ {
        "ui/images/file_type/ppt.png"@
    } else if ext == "torrent"@ {
        "ui/images/file_type/torrent.png"@
    } else if ext == "zip"@ || ext == "rar"@ || ext == "7z"@ {
        "ui/images/file_type/zip rar.png"@
    } else if ext == "xls"@ || ext == "xlsx"@ || ext == "csv"@ || ext == "xlsm"@ {
        "ui/images/file_type/xls.png"@
    } else {
        "ui/images/cat.jpg"@
    }
}

/// The icon image, relative to the program's folder, for a file of this
/// name: chosen by the part of the name after its last `.`.
pub fn file_type_icon_path(name: &str) -> (r: String)
    ensures
        r@ == icon_path(last_segment(name@)),
{
    let ext = last_segment_of(name);
    let e = ext.as_str();
    let path = if text_eq(e, "ai") || text_eq(e, "eps") {
        "ui/images/file_type/ae.png"
    } else if text_eq(e, "doc") || text_eq(e, "docx") {
        "images/file_type/doc rtf.png"
    } else if text_eq(e, "html") || text_eq(e, "htm") {
        "ui/images/file_type/html htm IE.png"
    } else if text_eq(e, "mpeg") || text_eq(e, "avi") || text_eq(e, "wav") || text_eq(e, "ogg")
        || text_eq(e, "mp3") || text_eq(e, "mp4") || text_eq(e, "mkv") {
        "ui/images/file_type/mpeg avi wav ogg mp3.png"
    } else if text_eq(e, "pdf") {
        "ui/images/file_type/pdf.png"
    } else if text_eq(e, "ppt") {
        "ui/images/file_type/ppt.png"
    } else if text_eq(e, "torrent") {
        "ui/images/file_type/torrent.png"
    } else if text_eq(e, "zip") || text_eq(e, "rar") || text_eq(e, "7z") {
        "ui/images/file_type/zip rar.png"
    } else if text_eq(e, "xls") || text_eq(e, "xlsx") || text_eq(e, "csv") || text_eq(e, "xlsm") {
        "ui/images/file_type/xls.png"
    } else {
        "ui/images/cat.jpg"
    };
    path.to_owned()
}

} // verus!
