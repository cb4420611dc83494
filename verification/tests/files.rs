use file_backup::file_opt::{file_type_icon_path, files_of_entries, DirEntryInfo, Timestamp};
use file_backup::structs::{size_show_of, FileInfo, ListViewItem, MB};

fn file(name: &str, size: u64) -> FileInfo {
    FileInfo {
        checked: true,
        name: name.to_string(),
        size,
        modified_time: "2020-01-02 03:04:05".to_string(),
        create_time: "2019-01-02 03:04:05".to_string(),
    }
}

fn entry(name: &str, is_dir: bool, size: u64, modified: i64, created: i64) -> DirEntryInfo {
    DirEntryInfo {
        name: name.to_string(),
        is_dir,
        size,
        modified: Timestamp { secs: modified, nanos: 0 },
        created: Timestamp { secs: created, nanos: 0 },
    }
}

#[test]
fn size_text_in_bytes_kilobytes_megabytes() {
    assert_eq!(size_show_of(0), "0 b");
    assert_eq!(size_show_of(1023), "1023 b");
    assert_eq!(size_show_of(1024), "1 kb");
    assert_eq!(size_show_of(1024 * 1024 - 1), "1023 kb");
    assert_eq!(size_show_of(1024 * 1024), "1 mb");
    assert_eq!(size_show_of(3 * 1024 * 1024 + 5), "3 mb");
    assert_eq!(size_show_of(u64::MAX), "17592186044415 mb");
}

#[test]
fn file_becomes_row() {
    let row = file("report.final.pdf", 5 * MB + 7).to_list_item();
    assert!(row.checked);
    assert_eq!(row.name, "report.final.pdf");
    assert_eq!(row.size, 5);
    assert_eq!(row.size_show, "5 mb");
    assert_eq!(row.file_type, "pdf");
    assert_eq!(row.modified_time, "2020-01-02 03:04:05");
    assert_eq!(row.create_time, "2019-01-02 03:04:05");
    assert!(!row.show);
}

#[test]
fn row_type_of_names_without_or_ending_in_dot() {
    assert_eq!(file("Makefile", 1).to_list_item().file_type, "Makefile");
    assert_eq!(file("archive.", 1).to_list_item().file_type, "");
    assert_eq!(file(".bashrc", 1).to_list_item().file_type, "bashrc");
    assert_eq!(file("", 1).to_list_item().file_type, "");
}

#[test]
fn row_becomes_file_of_its_megabytes() {
    let row = ListViewItem {
        checked: false,
        name: "a.txt".to_string(),
        size: 3,
        modified_time: "m".to_string(),
        create_time: "c".to_string(),
        size_show: "x".to_string(),
        file_type: "txt".to_string(),
        show: true,
    };
    let f = FileInfo::from_list_item(row);
    assert!(!f.checked);
    assert_eq!(f.name, "a.txt");
    assert_eq!(f.size, 3 * 1024 * 1024);
    assert_eq!(f.modified_time, "m");
    assert_eq!(f.create_time, "c");
}

#[test]
fn file_row_file_rounds_size_down_to_megabytes() {
    let f = file("a.bin", 2 * MB + 12345);
    let back = FileInfo::from_list_item(f.clone().to_list_item());
    assert_eq!(back.size, 2 * MB);
    assert_eq!(back.name, f.name);
    assert_eq!(back.checked, f.checked);
    assert_eq!(back.modified_time, f.modified_time);
    assert_eq!(back.create_time, f.create_time);
}

#[test]
fn entries_become_files_and_folders_are_left_out() {
    let entries = vec![
        entry("a.txt", false, 10, 0, 1_000_000_000),
        entry("sub", true, 0, 0, 0),
        entry("b.png", false, 2048, 86_399, 86_400),
    ];
    let files = files_of_entries(&entries).unwrap();
    assert_eq!(files.len(), 2);
    assert_eq!(files[0].name, "a.txt");
    assert_eq!(files[0].size, 10);
    assert!(!files[0].checked);
    assert_eq!(files[0].modified_time, "1970-01-01 00:00:00");
    assert_eq!(files[0].create_time, "2001-09-09 01:46:40");
    assert_eq!(files[1].name, "b.png");
    assert_eq!(files[1].modified_time, "1970-01-01 23:59:59");
    assert_eq!(files[1].create_time, "1970-01-02 00:00:00");
}

#[test]
fn time_before_epoch_is_formatted() {
    let files = files_of_entries(&vec![entry("old", false, 1, -1, -86_400)]).unwrap();
    assert_eq!(files[0].modified_time, "1969-12-31 23:59:59");
    assert_eq!(files[0].create_time, "1969-12-31 00:00:00");
}

#[test]
fn time_out_of_range_gives_none() {
    assert!(files_of_entries(&vec![entry("far", false, 1, i64::MAX, 0)]).is_none());
    assert!(files_of_entries(&vec![entry("far", false, 1, 0, i64::MIN)]).is_none());
}

#[test]
fn folder_with_out_of_range_time_is_still_left_out() {
    let files = files_of_entries(&vec![entry("dir", true, 0, i64::MAX, i64::MAX)]).unwrap();
    assert!(files.is_empty());
}

#[test]
fn empty_folder_lists_nothing() {
    assert!(files_of_entries(&vec![]).unwrap().is_empty());
}

#[test]
fn icon_paths_by_type() {
    assert_eq!(file_type_icon_path("a.ai"), "ui/images/file_type/ae.png");
    assert_eq!(file_type_icon_path("a.eps"), "ui/images/file_type/ae.png");
    assert_eq!(file_type_icon_path("letter.docx"), "images/file_type/doc rtf.png");
    assert_eq!(file_type_icon_path("index.htm"), "ui/images/file_type/html htm IE.png");
    assert_eq!(file_type_icon_path("song.mp3"), "ui/images/file_type/mpeg avi wav ogg mp3.png");
    assert_eq!(file_type_icon_path("movie.mkv"), "ui/images/file_type/mpeg avi wav ogg mp3.png");
    assert_eq!(file_type_icon_path("x.pdf"), "ui/images/file_type/pdf.png");
    assert_eq!(file_type_icon_path("x.ppt"), "ui/images/file_type/ppt.png");
    assert_eq!(file_type_icon_path("x.torrent"), "ui/images/file_type/torrent.png");
    assert_eq!(file_type_icon_path("x.tar.7z"), "ui/images/file_type/zip rar.png");
    assert_eq!(file_type_icon_path("t.csv"), "ui/images/file_type/xls.png");
    assert_eq!(file_type_icon_path("t.PDF"), "ui/images/cat.jpg");
    assert_eq!(file_type_icon_path("pdf"), "ui/images/file_type/pdf.png");
    assert_eq!(file_type_icon_path("notes.txt"), "ui/images/cat.jpg");
}
