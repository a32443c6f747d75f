use lsc::cli::{file_to_string, get_columns, long_output_vec, normal_output, MaxMetadata};
use lsc::{File, FileKind, FileMeta};
use std::path::PathBuf;

fn shown(name: &str, size: i64, gid_text: &str) -> File {
    let mut f = File::new_file(FileMeta {
        path: PathBuf::from(name),
        name: name.to_string(),
        kind: FileKind { is_dir: false, is_symlink: false },
        mode: 0o100755,
        uid: 1000,
        gid: 1000,
        size,
    });
    f.display_name = name.to_string();
    f.dn_len = name.len();
    f.display_perm = "rwxr-xr-x".to_string();
    f.display_uid = "1000".to_string();
    f.display_gid = gid_text.to_string();
    f.display_file_unit = "B ".to_string();
    f
}

#[test]
fn columns_take_the_widest_names_that_fit() {
    let files = vec![shown("abc", 1, "1"), shown("abcde", 1, "1"), shown("a", 1, "1")];
    assert_eq!(get_columns(&files, 13), 2);
    assert_eq!(get_columns(&files, 16), 3);
    assert_eq!(get_columns(&files, 15), 2);
    assert_eq!(get_columns(&files, 5), 1);
    assert_eq!(get_columns(&files, 0), 1);
    assert_eq!(get_columns(&Vec::new(), 80), 1);
}

#[test]
fn column_count_is_independent_of_order() {
    let a = vec![shown("abc", 1, "1"), shown("abcde", 1, "1"), shown("a", 1, "1")];
    let b = vec![shown("a", 1, "1"), shown("abc", 1, "1"), shown("abcde", 1, "1")];
    for w in 0..30 {
        assert_eq!(get_columns(&a, w), get_columns(&b, w));
    }
}

#[test]
fn normal_output_in_one_row() {
    let files = vec![shown("a", 1, "1"), shown("bb", 1, "1"), shown("c", 1, "1")];
    assert_eq!(normal_output(&files, 100), "a  bb  c  \n");
}

#[test]
fn normal_output_in_one_column() {
    let files = vec![shown("a", 1, "1"), shown("bb", 1, "1"), shown("c", 1, "1")];
    assert_eq!(normal_output(&files, 6), "a   \nbb  \nc   \n");
}

#[test]
fn normal_output_in_two_columns() {
    let files = vec![shown("aaa", 1, "1"), shown("b", 1, "1"), shown("cc", 1, "1")];
    assert_eq!(get_columns(&files, 10), 2);
    assert_eq!(normal_output(&files, 10), "aaa  b  \ncc   ");
}

#[test]
fn normal_output_pads_painted_names_by_their_visible_width() {
    let mut f = shown("ab", 1, "1");
    f.display_name = "\x1b[1mab\x1b[0m".to_string();
    let files = vec![f, shown("c", 1, "1")];
    assert_eq!(normal_output(&files, 100), "\x1b[1mab\x1b[0m  c  \n");
}

#[test]
fn max_metadata_of_files() {
    let files = vec![shown("a", 5, "12"), shown("b", 12345, "1"), shown("c", -1, "123")];
    let m = MaxMetadata::new(&files);
    assert_eq!(m, MaxMetadata { max_size_len: 5, max_uid_len: 4, max_gid_len: 3 });
    let none = MaxMetadata::new(&Vec::new());
    assert_eq!(none, MaxMetadata { max_size_len: 1, max_uid_len: 0, max_gid_len: 0 });
}

#[test]
fn update_keeps_the_larger_widths() {
    let m = MaxMetadata { max_size_len: 2, max_uid_len: 30, max_gid_len: 1 };
    let files = vec![shown("a", 123456, "12")];
    assert_eq!(m.update(&files), MaxMetadata { max_size_len: 6, max_uid_len: 30, max_gid_len: 2 });
}

#[test]
fn long_line_of_a_file() {
    let f = shown("x", 42, "1000");
    let m = MaxMetadata { max_size_len: 3, max_uid_len: 4, max_gid_len: 4 };
    let expected = format!(
        "{}  {}{:>3} {}  {}",
        "rwxr-xr-x",
        format!(" {:^25} {:^25} ", "1000", "1000"),
        42,
        "B ",
        "x"
    );
    assert_eq!(file_to_string(&f, &m), expected);
}

#[test]
fn long_output_with_header_and_children() {
    let gid = "g".repeat(21);
    let mut dir = shown("d", 2, &gid);
    dir.display_file_unit = "F ".to_string();
    dir.children.push(shown("  ╚═══ k", 7, "1"));
    let files = vec![dir, shown("f", 10, &gid)];
    let out = long_output_vec(&files);
    let m = MaxMetadata::new(&files);
    let cm = m.update(&files[0].children);
    let expected = format!(
        "Permissions {:<4} Group  Size   Name\n{}\n{}\n{}",
        "User",
        file_to_string(&files[0], &m),
        file_to_string(&files[0].children[0], &cm),
        file_to_string(&files[1], &m)
    );
    assert_eq!(out, expected);
    assert!(out.starts_with("Permissions User Group  Size   Name\n"));
}

#[test]
fn max_metadata_of_concatenation_is_update() {
    let a = vec![shown("a", 5, "12"), shown("b", 99, "1")];
    let b = vec![shown("c", 123456, "1"), shown("d", 1, "1234")];
    let mut ab = vec![shown("a", 5, "12"), shown("b", 99, "1")];
    ab.push(shown("c", 123456, "1"));
    ab.push(shown("d", 1, "1234"));
    let m = MaxMetadata::new(&a).update(&b);
    assert_eq!(MaxMetadata::new(&ab), m);
    assert_eq!(m.update(&b), m);
}

#[test]
fn wider_terminal_never_gives_fewer_columns() {
    let files = vec![shown("abc", 1, "1"), shown("abcde", 1, "1"), shown("a", 1, "1"), shown("zz", 1, "1")];
    let shorter = vec![shown("ab", 1, "1"), shown("abc", 1, "1"), shown("a", 1, "1"), shown("z", 1, "1")];
    let mut last = 0;
    for w in 0..40 {
        let c = get_columns(&files, w);
        assert!(c >= last);
        assert!(get_columns(&shorter, w) >= c);
        last = c;
    }
}
