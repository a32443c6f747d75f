use lsc::{run, Config, DirItem, FileKind, FileMeta, RunError};
use std::path::PathBuf;

fn meta(name: &str, is_dir: bool, mode: u32, size: i64) -> FileMeta {
    FileMeta {
        path: PathBuf::from(name),
        name: name.to_string(),
        kind: FileKind { is_dir, is_symlink: false },
        mode,
        uid: 1000,
        gid: 1000,
        size,
    }
}

fn entry(m: FileMeta) -> DirItem {
    DirItem::Entry { name: m.name.clone(), meta: Some(m), listing: None }
}

fn config(long_list: u8, all_files: bool, sort_size: bool) -> Config {
    Config { path: PathBuf::from("."), long_list, all_files, sort_size, number_subfolders: 2 }
}

fn items() -> Vec<DirItem> {
    vec![
        entry(meta("zeta", false, 0o100644, 300)),
        entry(meta(".git", true, 0o040755, 4096)),
        entry(meta("alpha", false, 0o100755, 10)),
        entry(meta("mid", false, 0o100644, 2000)),
    ]
}

#[test]
fn run_sorts_by_first_letter_and_hides_dot_entries() {
    colored::control::set_override(false);
    let out = run(&config(0, false, false), items(), 80).unwrap();
    assert_eq!(out, "alpha  mid  zeta  \n");
}

#[test]
fn run_with_all_files_shows_dot_entries() {
    colored::control::set_override(false);
    let out = run(&config(0, true, false), items(), 80).unwrap();
    assert_eq!(out, ".git  alpha  mid  zeta  \n");
}

#[test]
fn run_sorts_by_size() {
    colored::control::set_override(false);
    let out = run(&config(0, false, true), items(), 80).unwrap();
    assert_eq!(out, "alpha  zeta  mid  \n");
}

#[test]
fn run_reports_unreadable_entry() {
    colored::control::set_override(false);
    let mut dir = items();
    dir.insert(1, DirItem::Unreadable);
    assert_eq!(run(&config(0, false, false), dir, 80), Err(RunError::Entry(1)));
}

#[test]
fn run_long_listing_needs_painted_group_ids() {
    colored::control::set_override(false);
    assert_eq!(run(&config(1, false, false), items(), 80), Err(RunError::NarrowGroupColumn));
}

#[test]
fn run_of_empty_directory() {
    colored::control::set_override(false);
    assert_eq!(run(&config(0, false, false), Vec::new(), 80).unwrap(), "");
}
