use lsc::colors::ColorScheme;
use lsc::file::{child_is_shown, perm_mask_display, shows_listing};
use lsc::order::sort_files;
use lsc::listing::lsc_color_scheme;
use lsc::{prepare_files, DirItem, File, FileKind, FileMeta, ListingError};
use std::path::PathBuf;

fn meta(name: &str, is_dir: bool, mode: u32, uid: u32, size: i64) -> FileMeta {
    FileMeta {
        path: PathBuf::from(format!("/tmp/{}", name)),
        name: name.to_string(),
        kind: FileKind { is_dir, is_symlink: false },
        mode,
        uid,
        gid: 100,
        size,
    }
}

fn plain() -> ColorScheme {
    colored::control::set_override(false);
    lsc_color_scheme()
}

#[test]
fn new_file_shows_nothing_yet() {
    let f = File::new_file(meta("a.txt", false, 0o100644, 1000, 12));
    assert_eq!(f.name, "a.txt");
    assert_eq!(f.display_name, "");
    assert_eq!(f.dn_len, 0);
    assert_eq!(f.permissions, 0o100644);
    assert_eq!(f.file_size, 12);
    assert!(f.children.is_empty());
}

#[test]
fn name_display_counts_bytes() {
    let scheme = plain();
    let mut f = File::new_file(meta("héllo", false, 0o100644, 0, 0));
    f.name_to_display(&scheme);
    assert_eq!(f.display_name, "héllo");
    assert_eq!(f.dn_len, 6);
}

#[test]
fn perm_display_of_regular_mode() {
    let scheme = plain();
    let mut f = File::new_file(meta("x", false, 0o100755, 0, 0));
    f.perm_to_display(&scheme);
    assert_eq!(f.display_perm, "rwxr-xr-x");
    let mut f = File::new_file(meta("x", false, 0o100640, 0, 0));
    f.perm_to_display(&scheme);
    assert_eq!(f.display_perm, "rw-r-----");
    let mut f = File::new_file(meta("x", true, 0o040000, 0, 0));
    f.perm_to_display(&scheme);
    assert_eq!(f.display_perm, "---------");
}

#[test]
fn perm_display_of_short_mode_takes_its_digits() {
    let scheme = plain();
    let mut f = File::new_file(meta("x", false, 0o44, 0, 0));
    f.perm_to_display(&scheme);
    assert_eq!(f.display_perm, "r--r--");
    let mut f = File::new_file(meta("x", false, 0, 0, 0));
    f.perm_to_display(&scheme);
    assert_eq!(f.display_perm, "-");
    let mut f = File::new_file(meta("x", false, 0o4755, 0, 0));
    f.perm_to_display(&scheme);
    assert_eq!(f.display_perm, "rwxr-xr-x");
}

#[test]
fn perm_mask_display_uses_given_letters() {
    let painted: Vec<String> = ["A", "B", "C", "D", "E", "F", "G", "H", "I"].iter().map(|s| s.to_string()).collect();
    assert_eq!(perm_mask_display(0o100751, &painted), "ABCD-F--I");
}

#[test]
fn id_display_shows_user_id_in_both_fields() {
    let scheme = plain();
    let mut f = File::new_file(meta("x", false, 0o100644, 1000, 0));
    f.id_to_display(&scheme);
    assert_eq!(f.display_uid, "1000");
    assert_eq!(f.display_gid, "1000");
}

#[test]
fn size_display_scales_to_units() {
    let scheme = plain();
    let cases = [
        (999i64, 999i64, "B "),
        (-1, -1, "B "),
        (1000, 1, "KB"),
        (1500, 1, "KB"),
        (999_999, 999, "KB"),
        (2_500_000, 2, "MB"),
        (3_000_000_000, 3, "GB"),
    ];
    for (size, shown, unit) in cases {
        let mut f = File::new_file(meta("x", false, 0o100644, 0, size));
        f.size_to_display(&scheme);
        assert_eq!(f.file_size, shown);
        assert_eq!(f.display_file_unit, unit);
    }
}

#[test]
fn children_listed_with_branches() {
    let scheme = plain();
    let mut dir = File::new_file(meta("d", true, 0o040755, 0, 4096));
    let entries = vec![
        Some(meta("a", false, 0o100644, 0, 1)),
        Some(meta("b", false, 0o100644, 0, 2)),
        Some(meta("c", false, 0o100644, 0, 3)),
    ];
    assert_eq!(dir.get_children(&scheme, Some(entries), 2), Ok(()));
    assert_eq!(dir.file_size, 3);
    assert_eq!(dir.children.len(), 2);
    assert_eq!(dir.children[0].display_name, "  ╠═══ a");
    assert_eq!(dir.children[1].display_name, "  ╚═══ b");
    assert_eq!(dir.children[1].display_perm, "rw-r--r--");
    assert_eq!(dir.children[1].display_file_unit, "B ");
}

#[test]
fn last_entry_closes_the_branches() {
    let scheme = plain();
    let mut dir = File::new_file(meta("d", true, 0o040755, 0, 4096));
    let entries = vec![Some(meta("a", false, 0o100644, 0, 1)), Some(meta("b", false, 0o100644, 0, 2))];
    assert_eq!(dir.get_children(&scheme, Some(entries), 5), Ok(()));
    assert_eq!(dir.file_size, 2);
    assert_eq!(dir.children[0].display_name, "  ╠═══ a");
    assert_eq!(dir.children[1].display_name, "  ╚═══ b");
}

#[test]
fn unreadable_directory_has_size_minus_one() {
    let scheme = plain();
    let mut dir = File::new_file(meta("d", true, 0o040755, 0, 4096));
    assert_eq!(dir.get_children(&scheme, None, 2), Err(ListingError::DirUnreadable));
    assert_eq!(dir.file_size, -1);
    assert!(dir.children.is_empty());
}

#[test]
fn unreadable_entry_stops_the_listing() {
    let scheme = plain();
    let mut dir = File::new_file(meta("d", true, 0o040755, 0, 4096));
    let entries = vec![Some(meta("a", false, 0o100644, 0, 1)), None, Some(meta("c", false, 0o100644, 0, 3))];
    assert_eq!(dir.get_children(&scheme, Some(entries), 5), Err(ListingError::EntryUnreadable(1)));
    assert_eq!(dir.file_size, 2);
    assert_eq!(dir.children.len(), 1);
    assert_eq!(dir.children[0].display_name, "  ╠═══ a");
}

#[test]
fn unreadable_entry_beyond_the_limit_is_only_counted() {
    let scheme = plain();
    let mut dir = File::new_file(meta("d", true, 0o040755, 0, 4096));
    let entries = vec![Some(meta("a", false, 0o100644, 0, 1)), None];
    assert_eq!(dir.get_children(&scheme, Some(entries), 1), Ok(()));
    assert_eq!(dir.file_size, 2);
    assert_eq!(dir.children.len(), 1);
    assert_eq!(dir.children[0].display_name, "  ╚═══ a");
}

fn entry(m: FileMeta) -> DirItem {
    DirItem::Entry { name: m.name.clone(), meta: Some(m), listing: None }
}

#[test]
fn prepare_files_leaves_out_hidden_entries() {
    let scheme = plain();
    let dir = vec![
        entry(meta(".hidden", false, 0o100644, 0, 1)),
        entry(meta("shown", false, 0o100644, 0, 1)),
        DirItem::Entry { name: ".broken".to_string(), meta: None, listing: None },
    ];
    let files = prepare_files(dir, true, 0, scheme, 2).unwrap();
    assert_eq!(files.len(), 1);
    assert_eq!(files[0].name, "shown");
    assert_eq!(files[0].display_name, "shown");
    assert_eq!(files[0].display_perm, "");
    assert_eq!(files[0].display_file_unit, "");
}

#[test]
fn prepare_files_keeps_hidden_entries_with_all() {
    let scheme = plain();
    let dir = vec![entry(meta(".hidden", false, 0o100644, 0, 1)), entry(meta("shown", false, 0o100644, 0, 1))];
    let files = prepare_files(dir, false, 0, scheme, 2).unwrap();
    assert_eq!(files.len(), 2);
    assert_eq!(files[0].name, ".hidden");
}

#[test]
fn prepare_files_fails_at_first_unreadable_item() {
    let scheme = plain();
    let dir = vec![
        entry(meta("a", false, 0o100644, 0, 1)),
        DirItem::Unreadable,
        DirItem::Entry { name: "b".to_string(), meta: None, listing: None },
    ];
    assert_eq!(prepare_files(dir, true, 1, scheme, 2).err(), Some(1));
    let scheme = plain();
    let dir = vec![entry(meta("a", false, 0o100644, 0, 1)), DirItem::Entry { name: "b".to_string(), meta: None, listing: None }];
    assert_eq!(prepare_files(dir, true, 1, scheme, 2).err(), Some(1));
}

#[test]
fn prepare_files_long_listing_shows_details() {
    let scheme = plain();
    let dir = vec![entry(meta("big", false, 0o100600, 1000, 2_000_000))];
    let files = prepare_files(dir, true, 1, scheme, 2).unwrap();
    assert_eq!(files[0].display_perm, "rw-------");
    assert_eq!(files[0].display_uid, "1000");
    assert_eq!(files[0].file_size, 2);
    assert_eq!(files[0].size_bytes, 2_000_000);
    assert_eq!(files[0].display_file_unit, "MB");
}

#[test]
fn sort_by_size_uses_bytes_not_the_shown_number() {
    let scheme = plain();
    let dir = vec![entry(meta("five_kb", false, 0o100644, 0, 5000)), entry(meta("small", false, 0o100644, 0, 999))];
    let files = prepare_files(dir, true, 1, scheme, 2).unwrap();
    assert_eq!(files[0].file_size, 5);
    let sorted = sort_files(files, true);
    assert_eq!(sorted[0].name, "small");
    assert_eq!(sorted[1].name, "five_kb");
}

#[test]
fn shown_listing_and_children_predicates() {
    let m = meta("sub", true, 0o040755, 0, 4096);
    assert!(shows_listing(&"sub".to_string(), &m, true, 2));
    assert!(!shows_listing(&"sub".to_string(), &m, true, 1));
    let h = meta(".sub", true, 0o040755, 0, 4096);
    assert!(!shows_listing(&".sub".to_string(), &h, true, 2));
    assert!(shows_listing(&".sub".to_string(), &h, false, 2));
    assert!(child_is_shown(1, 2));
    assert!(!child_is_shown(2, 2));
    assert!(!child_is_shown(0, usize::MAX));
}

#[test]
fn prepare_files_lists_directory_entries_at_level_two() {
    let scheme = plain();
    let listing = vec![Some(meta("x", false, 0o100644, 0, 1)), Some(meta("y", false, 0o100644, 0, 1)), Some(meta("z", false, 0o100644, 0, 1))];
    let dir = vec![
        DirItem::Entry { name: "sub".to_string(), meta: Some(meta("sub", true, 0o040755, 0, 4096)), listing: Some(listing) },
        DirItem::Entry { name: "gone".to_string(), meta: Some(meta("gone", true, 0o040755, 0, 4096)), listing: None },
    ];
    let files = prepare_files(dir, true, 2, scheme, 2).unwrap();
    assert_eq!(files[0].file_size, 3);
    assert_eq!(files[0].display_file_unit, "F ");
    assert_eq!(files[0].children.len(), 2);
    assert_eq!(files[0].children[1].display_name, "  ╚═══ y");
    assert_eq!(files[1].file_size, -1);
    assert_eq!(files[1].display_file_unit, "F ");
}
