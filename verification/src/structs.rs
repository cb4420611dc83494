//! The records of the tool: a file found in a folder, the progress of a copy
//! job, and the two records in which the user interface shows them.
use vstd::prelude::*;

use crate::enums::{status_number, updated, ProgressStatus, StaticVarsType};
use crate::text::{decimal, decimal_text, last_segment, last_segment_of};

verus! {

/// Bytes in a kilobyte, as the tool counts them.
pub const KB: u64 = 1024;

/// Bytes in a megabyte, as the tool counts them.
pub const MB: u64 = 1048576;

/// A file found in a folder.
#[derive(Debug, Clone)]
pub struct FileInfo {
    pub checked: bool,
    pub name: String,
    pub size: u64,
    pub modified_time: String,
    pub create_time: String,
}

/// A `FileInfo` with its strings taken as sequences of characters.
pub struct FileInfoView {
    pub checked: bool,
    pub name: Seq<char>,
    pub size: u64,
    pub modified_time: Seq<char>,
    pub create_time: Seq<char>,
}

impl View for FileInfo {
    type V = FileInfoView;

    open spec fn view(&self) -> FileInfoView {
        FileInfoView {
            checked: self.checked,
            name: self.name@,
            size: self.size,
            modified_time: self.modified_time@,
            create_time: self.create_time@,
        }
    }
}

/// A row of the file list in the user interface. Its `size` counts
/// megabytes; `size_show` is the size as the user reads it, `file_type` the
/// extension of the name, and `show` whether the row matched the last search.
#[derive(Debug, Clone)]
pub struct ListViewItem {
    pub checked: bool,
    pub name: String,
    pub size: i32,
    pub modified_time: String,
    pub create_time: String,
    pub size_show: String,
    pub file_type: String,
    pub show: bool,
}

/// A `ListViewItem` with its strings taken as sequences of characters.
pub struct ListItemView {
    pub checked: bool,
    pub name: Seq<char>,
    pub size: i32,
    pub modified_time: Seq<char>,
    pub create_time: Seq<char>,
    pub size_show: Seq<char>,
    pub file_type: Seq<char>,
    pub show: bool,
}

impl View for ListViewItem {
    type V = ListItemView;

    open spec fn view(&self) -> ListItemView {
        ListItemView {
            checked: self.checked,
            name: self.name@,
            size: self.size,
            modified_time: self.modified_time@,
            create_time: self.create_time@,
            size_show: self.size_show@,
            file_type: self.file_type@,
            show: self.show,
        }
    }
}

/// The size of a file as the user reads it: bytes below a kilobyte,
/// whole kilobytes below a megabyte, whole megabytes above.
pub open spec fn size_text(size: nat) -> Seq<char> {
    if size < 1024 {
        decimal(size) + " b"@
    } else if size < 1048576 {
        decimal(size / 1024) + " kb"@
    } else {
        decimal(size / 1024 / 1024) + " mb"@
    }
}

/// The row in which the user interface shows the file `f`.
pub open spec fn list_item_of(f: FileInfoView) -> ListItemView {
    ListItemView {
        checked: f.checked,
        name: f.name,
        size: (f.size / 1048576) as i32,
        modified_time: f.modified_time,
        create_time: f.create_time,
        size_show: size_text(f.size as nat),
        file_type: last_segment(f.name),
        show: false,
    }
}

/// The file that the row `item` stands for; its size is the row's megabytes
/// in bytes.
pub open spec fn file_info_of(item: ListItemView) -> FileInfoView {
    FileInfoView {
        checked: item.checked,
        name: item.name,
        size: (item.size * 1048576) as u64,
        modified_time: item.modified_time,
        create_time: item.create_time,
    }
}

/// The text that shows a file's size.
pub fn size_show_of(size: u64) -> (r: String)
    ensures
        r@ == size_text(size as nat),
{
    if size < 1024 {
        decimal_text(size).concat(" b")
    } else if size < 1024 * 1024 {
        decimal_text(size / 1024).concat(" kb")
    } else {
        decimal_text(size / 1024 / 1024).concat(" mb")
    }
}

impl FileInfo {
    /// The file that a row of the list stands for. A row's size is
    /// multiplied by a megabyte in `u64`, which overflows for a negative size.
    pub fn from_list_item(value: ListViewItem) -> (r: FileInfo)
        requires
            value.size >= 0,
        ensures
            r@ == file_info_of(value@),
    {
        assert(value.size * 1048576 <= u64::MAX) by (nonlinear_arith)
            requires
                0 <= value.size <= i32::MAX,
        ;
        FileInfo {
            checked: value.checked,
            name: value.name,
            size: value.size as u64 * KB * KB,
            modified_time: value.modified_time,
            create_time: value.create_time,
        }
    }

    /// The row in which the user interface shows this file.
    pub fn to_list_item(self) -> (r: ListViewItem)
        ensures
            r@ == list_item_of(self@),
    {
        let show = size_show_of(self.size);
        let file_type = last_segment_of(self.name.as_str());
        ListViewItem {
            checked: self.checked,
            create_time: self.create_time,
            modified_time: self.modified_time,
            name: self.name,
            size: (self.size / KB / KB) as i32,
            size_show: show,
            file_type: file_type,
            show: false,
        }
    }
}

/// The progress of a copy job, shared by the user interface and the worker.
#[derive(Debug, Clone, Copy, PartialEq, Eq, Structural)]
pub struct Progress {
    pub total: u64,
    pub moved: u64,
    pub status: ProgressStatus,
}

/// The progress bar of the user interface, in kilobytes, with the status
/// by its number.
#[derive(Debug, Clone, Copy, PartialEq, Eq, Structural)]
pub struct ListItemProgress {
    pub moved: i32,
    pub total: i32,
    pub status: i32,
}

impl Default for Progress {
    fn default() -> (p: Self)
        ensures
            p.total == 0,
            p.moved == 0,
            p.status == ProgressStatus::Start,
    {
        Self { total: 0, moved: 0, status: ProgressStatus::Start }
    }
}

impl Progress {
    /// The progress bar that shows this progress.
    pub fn to_list_item_progress(self) -> (r: ListItemProgress)
        ensures
            r.moved == (self.moved / 1024) as i32,
            r.total == (self.total / 1024) as i32,
            r.status == status_number(self.status),
    {
        ListItemProgress {
            moved: (self.moved / KB) as i32,
            status: self.status.to_num(),
            total: (self.total / KB) as i32,
        }
    }
}

/// Applies one update to each field of the shared progress: `Keep` leaves
/// the field as it is, `Update(t)` sets it to `t`.
pub fn update_progress_ptr(
    ptr: &mut Progress,
    moved: StaticVarsType<u64>,
    total: StaticVarsType<u64>,
    status: StaticVarsType<ProgressStatus>,
)
    ensures
        final(ptr).moved == updated(moved, old(ptr).moved),
        final(ptr).total == updated(total, old(ptr).total),
        final(ptr).status == updated(status, old(ptr).status),
{
    match moved {
        StaticVarsType::Update(t) => {
            ptr.moved = t;
        },
        StaticVarsType::Keep => {},
    };
    match total {
        StaticVarsType::Update(t) => {
            ptr.total = t;
        },
        StaticVarsType::Keep => {},
    };
    match status {
        StaticVarsType::Update(t) => {
            ptr.status = t;
        },
        StaticVarsType::Keep => {},
    };
}

/// A file shown as a row and read back keeps its check mark, name and times;
/// its size comes back rounded down to whole megabytes (the row holds
/// megabytes), as long as those fit in the row's `i32`.
pub proof fn lemma_file_row_round_trip(f: FileInfoView)
    requires
        f.size / 1048576 <= i32::MAX,
    ensures
        file_info_of(list_item_of(f)) == (FileInfoView { size: (f.size / 1048576 * 1048576) as u64, ..f }),
{
    let mb = f.size / 1048576;
    assert(0 <= mb * 1048576 <= f.size) by (nonlinear_arith)
        requires
            mb == f.size / 1048576,
    ;
}

/// A row of non-negative size read as a file and shown again keeps its check
/// mark, name, times and size; its size text and type are those of the file,
/// and it is not marked as shown by a search.
pub proof fn lemma_row_file_round_trip(item: ListItemView)
    requires
        item.size >= 0,
    ensures
        list_item_of(file_info_of(item)) == (ListItemView {
            size_show: size_text((item.size * 1048576) as nat),
            file_type: last_segment(item.name),
            show: false,
            ..item
        }),
{
    assert(0 <= item.size * 1048576 <= u64::MAX) by (nonlinear_arith)
        requires
            0 <= item.size <= i32::MAX,
    ;
    assert((item.size * 1048576) / 1048576 == item.size) by (nonlinear_arith);
}

/// An update that keeps every field leaves the progress unchanged, and
/// applying the same update twice gives what applying it once gives.
pub proof fn lemma_update_keep_and_idempotent<T>(u: StaticVarsType<T>, current: T)
    ensures
        updated(StaticVarsType::<T>::Keep, current) == current,
        updated(u, updated(u, current)) == updated(u, current),
{
}

} // verus!
