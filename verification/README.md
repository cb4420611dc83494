# file_backup

The verified core of a small file-backup tool: a window lists the files of a
folder, lets the user search, sort and check them, and copies the checked files
to another folder in 512-byte chunks while a progress bar follows the copy and
the user may pause or abort it.

- `src/enums.rs` — the status of a copy job, its number, field updates.
- `src/structs.rs` — files, list rows, the shared progress and its bar, and the
  conversions between them.
- `src/file_opt.rs` — which folder entries become files (times formatted with
  `chrono`), the step-by-step decisions of copying one file, icon paths.
- `src/list_view.rs` — select all, search by name, sort by column, plan a copy.
- `src/text.rs` — decimal numbers, extensions, substring search, string order.
- `app/` — reading folders, copying files, loading icons, the shared progress
  and a command-line front end.
