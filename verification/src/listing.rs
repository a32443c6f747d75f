//! A whole listing: the options, the program's palette, and the run from the
//! entries read to the text printed.
use vstd::prelude::*;
use vstd::string::*;
use std::path::PathBuf;
use crate::cli::{
    grid_text, long_blocks, long_header, long_output_vec, max_gid_len, normal_output,
    spec_columns, spec_max_metadata,
};
use crate::colors::{Color, ColorScheme};
use crate::file::{
    children_keys_ok, item_fails, item_keys_ok, item_prepared, lemma_listed_from, listed, names_agree,
    prepare_files, DirItem,
    File, is_listed,
};
use crate::order::{sort_files, sorted_by_key};
use crate::text::{byte_len, text_bytes};

verus! {

broadcast use vstd::seq_lib::group_to_multiset_ensures;

/// The options of a listing.
#[derive(Debug, Default)]
pub struct Config {
    /// The directory to list.
    pub path: PathBuf,
    /// How many times `-l` was given: 0 lists names only, 1 adds permissions,
    /// owner and size, 2 and more list the entries of each directory too.
    pub long_list: u8,
    /// Lists hidden entries too.
    pub all_files: bool,
    /// Sorts by size, in place of the first character of the name.
    pub sort_size: bool,
    /// How many entries of each directory are listed below it.
    pub number_subfolders: usize,
}

/// Why a listing gave no text.
#[derive(Clone, Copy, PartialEq, Eq, Debug)]
pub enum RunError {
    /// The entry at this position of the directory could not be read.
    Entry(usize),
    /// The long layout needs shown group ids of at least 21 bytes (the escape
    /// sequences of a painting); plain ones make its header width negative.
    NarrowGroupColumn,
    /// A name field of the column layout would be wider than `usize::MAX`.
    FieldTooWide,
}

/// The colors of `lsc`.
pub open spec fn is_lsc_palette(scheme: ColorScheme) -> bool {
    &&& scheme.color_of("dir"@) == Some(Color::RGB { r: 33, g: 158, b: 188 })
    &&& scheme.color_of("sym_link"@) == Some(Color::RGB { r: 33, g: 131, b: 128 })
    &&& scheme.color_of("ex_file"@) == Some(Color::RGB { r: 255, g: 183, b: 3 })
    &&& scheme.color_of("other"@) == Some(Color::RGB { r: 255, g: 255, b: 255 })
    &&& scheme.color_of("user_perm"@) == Some(Color::RGB { r: 0, g: 121, b: 140 })
    &&& scheme.color_of("group_perm"@) == Some(Color::RGB { r: 209, g: 73, b: 91 })
    &&& scheme.color_of("other_perm"@) == Some(Color::RGB { r: 237, g: 174, b: 73 })
    &&& scheme.color_of("user_name_perm"@) == Some(Color::RGB { r: 0, g: 121, b: 140 })
    &&& scheme.color_of("group_name_perm"@) == Some(Color::RGB { r: 209, g: 73, b: 91 })
    &&& scheme.color_of("kb"@) == Some(Color::RGB { r: 173, g: 40, b: 49 })
    &&& scheme.color_of("mb"@) == Some(Color::RGB { r: 128, g: 14, b: 19 })
    &&& scheme.color_of("gb"@) == Some(Color::RGB { r: 100, g: 13, b: 20 })
    &&& scheme.color_of("file_num"@) == Some(Color::RGB { r: 33, g: 158, b: 188 })
}

/// The color scheme of `lsc`.
pub fn lsc_color_scheme() -> (color_scheme: ColorScheme)
    ensures
        is_lsc_palette(color_scheme),
{
    proof {
        reveal_strlit("dir");
        reveal_strlit("sym_link");
        reveal_strlit("ex_file");
        reveal_strlit("other");
        reveal_strlit("user_perm");
        reveal_strlit("group_perm");
        reveal_strlit("other_perm");
        reveal_strlit("user_name_perm");
        reveal_strlit("group_name_perm");
        reveal_strlit("kb");
        reveal_strlit("mb");
        reveal_strlit("gb");
        reveal_strlit("file_num");
        // The element names differ: by their length, or else by their first character.
        assert("dir"@.len() == 3);
        assert("sym_link"@.len() == 8);
        assert("ex_file"@.len() == 7);
        assert("other"@.len() == 5);
        assert("user_perm"@.len() == 9);
        assert("group_perm"@.len() == 10);
        assert("other_perm"@.len() == 10);
        assert("user_name_perm"@.len() == 14);
        assert("group_name_perm"@.len() == 15);
        assert("kb"@.len() == 2);
        assert("mb"@.len() == 2);
        assert("gb"@.len() == 2);
        assert("file_num"@.len() == 8);
        assert("group_perm"@[0] != "other_perm"@[0]);
        assert("kb"@[0] != "mb"@[0]);
        assert("kb"@[0] != "gb"@[0]);
        assert("mb"@[0] != "gb"@[0]);
        assert("sym_link"@[0] != "file_num"@[0]);
    }
    let mut color_scheme = ColorScheme::new();
    color_scheme.add_rgb(String::from_str("dir"), 33, 158, 188);
    color_scheme.add_rgb(String::from_str("sym_link"), 33, 131, 128);
    color_scheme.add_rgb(String::from_str("ex_file"), 255, 183, 3);
    color_scheme.add_rgb(String::from_str("other"), 255, 255, 255);
    color_scheme.add_rgb(String::from_str("user_perm"), 0, 121, 140);
    color_scheme.add_rgb(String::from_str("group_perm"), 209, 73, 91);
    color_scheme.add_rgb(String::from_str("other_perm"), 237, 174, 73);
    color_scheme.add_rgb(String::from_str("user_name_perm"), 0, 121, 140);
    color_scheme.add_rgb(String::from_str("group_name_perm"), 209, 73, 91);
    color_scheme.add_rgb(String::from_str("kb"), 173, 40, 49);
    color_scheme.add_rgb(String::from_str("mb"), 128, 14, 19);
    color_scheme.add_rgb(String::from_str("gb"), 100, 13, 20);
    color_scheme.add_rgb(String::from_str("file_num"), 33, 158, 188);
    color_scheme
}


/// Every listing read below an entry counts fewer than `i64::MAX` entries.
pub open spec fn listings_countable(dir: Seq<DirItem>) -> bool {
    forall|i: int|
        0 <= i < dir.len() ==> (#[trigger] dir[i] matches DirItem::Entry { listing: Some(es), .. }
            ==> es@.len() < i64::MAX)
}

/// Every listed entry whose metadata was read has a name of at least one
/// character.
pub open spec fn names_present(dir: Seq<DirItem>, remove_hidden: bool) -> bool {
    forall|i: int|
        0 <= i < dir.len() ==> (#[trigger] dir[i] matches DirItem::Entry { meta: Some(m), .. }
            ==> (is_listed(dir[i], remove_hidden) ==> m.name@.len() > 0))
}

/// The text of a listing of the (sorted) entries `files`.
pub open spec fn layout(files: Seq<File>, long_list: u8, max_col: usize) -> Seq<char> {
    if long_list > 0 {
        let m = spec_max_metadata(files);
        long_header(m) + long_blocks(files, m, files.len() as int)
    } else {
        grid_text(files, spec_columns(files, max_col) as int, files.len() as int)
    }
}

/// A name field of the column layout would be wider than `usize::MAX`.
pub open spec fn fields_overflow(files: Seq<File>) -> bool {
    exists|i: int, j: int|
        0 <= i < files.len() && 0 <= j < files.len() && (#[trigger] files[j]).dn_len + 2
            + byte_len((#[trigger] files[i]).display_name@) > usize::MAX
}

/// Why laying out `files` fails, if it does.
pub open spec fn layout_error(files: Seq<File>, long_list: u8) -> Option<RunError> {
    if long_list > 0 {
        if max_gid_len(files) < 21 {
            Some(RunError::NarrowGroupColumn)
        } else {
            None
        }
    } else if fields_overflow(files) {
        Some(RunError::FieldTooWide)
    } else {
        None
    }
}

/// `res` is the outcome of a listing of `dir` with the options `args`, whose
/// entries were shown as `prep` in the scheme `scheme` and sorted into `files`.
pub open spec fn run_outcome(
    args: Config,
    dir: Seq<DirItem>,
    max_col: usize,
    scheme: ColorScheme,
    prep: Seq<File>,
    files: Seq<File>,
    res: Result<String, RunError>,
) -> bool {
    let shown = listed(dir, !args.all_files);
    &&& is_lsc_palette(scheme)
    &&& prep.len() == shown.len()
    &&& forall|j: int|
        0 <= j < shown.len() ==> item_prepared(
            #[trigger] prep[j],
            shown[j],
            scheme,
            args.long_list,
            args.number_subfolders,
        )
    &&& files.to_multiset() == prep.to_multiset()
    &&& sorted_by_key(files, args.sort_size)
    &&& match layout_error(files, args.long_list) {
        Some(e) => res == Err::<String, RunError>(e),
        None => res matches Ok(out) && out@ == layout(files, args.long_list, max_col),
    }
}

proof fn lemma_palette_colors_items(
    dir: Seq<DirItem>,
    remove_hidden: bool,
    scheme: ColorScheme,
    l_num: u8,
    num_of_children: usize,
)
    requires
        is_lsc_palette(scheme),
        listings_countable(dir),
    ensures
        forall|i: int|
            0 <= i < dir.len() ==> item_keys_ok(
                #[trigger] dir[i],
                remove_hidden,
                scheme,
                l_num,
                num_of_children,
            ),
{
    assert(scheme.resolves("dir"@));
    assert(scheme.resolves("sym_link"@));
    assert(scheme.resolves("ex_file"@));
    assert(scheme.resolves("other"@));
    assert(scheme.resolves("user_perm"@));
    assert(scheme.resolves("group_perm"@));
    assert(scheme.resolves("other_perm"@));
    assert(scheme.resolves("kb"@));
    assert(scheme.resolves("mb"@));
    assert(scheme.resolves("gb"@));
    assert(scheme.resolves("file_num"@));
    assert forall|i: int| 0 <= i < dir.len() implies item_keys_ok(
        #[trigger] dir[i],
        remove_hidden,
        scheme,
        l_num,
        num_of_children,
    ) by {
        match dir[i] {
            DirItem::Entry { meta: Some(m), listing, .. } => {
                match listing {
                    Some(es) => {
                        assert(children_keys_ok(es@, num_of_children, scheme));
                    },
                    None => {},
                }
            },
            _ => {},
        }
    }
}

/// The longest name and the longest shown name (in bytes) of `files`.
fn widest_fields(files: &Vec<File>) -> (res: (usize, usize))
    ensures
        forall|i: int| 0 <= i < files@.len() ==> (#[trigger] files@[i]).dn_len <= res.0,
        forall|i: int| 0 <= i < files@.len() ==> byte_len((#[trigger] files@[i]).display_name@) <= res.1,
        (exists|i: int| 0 <= i < files@.len() && (#[trigger] files@[i]).dn_len == res.0) || res.0 == 0,
        (exists|i: int| 0 <= i < files@.len() && byte_len((#[trigger] files@[i]).display_name@) == res.1) || res.1 == 0,
{
    let mut widest_name: usize = 0;
    let mut widest_shown: usize = 0;
    let n = files.len();
    let mut i: usize = 0;
    while i < n
        invariant
            i <= n,
            n == files@.len(),
            forall|k: int| 0 <= k < i ==> (#[trigger] files@[k]).dn_len <= widest_name,
            forall|k: int| 0 <= k < i ==> byte_len((#[trigger] files@[k]).display_name@) <= widest_shown,
            (exists|k: int| 0 <= k < i && (#[trigger] files@[k]).dn_len == widest_name) || widest_name == 0,
            (exists|k: int| 0 <= k < i && byte_len((#[trigger] files@[k]).display_name@) == widest_shown) || widest_shown == 0,
        decreases n - i,
    {
        let d = files[i].dn_len;
        let b = text_bytes(&files[i].display_name);
        if d >= widest_name {
            widest_name = d;
        }
        if b >= widest_shown {
            widest_shown = b;
        }
        assert(files@[i as int].dn_len <= widest_name);
        i = i + 1;
    }
    (widest_name, widest_shown)
}

/// Lists the entries `dir` of the directory `args.path` as `lsc` prints them:
/// shown in the colors of `lsc`, hidden ones left out unless `args.all_files`,
/// sorted by size in bytes (`args.sort_size`) or by the first character of the name,
/// in columns for a terminal `max_col` characters wide, or in the long layout
/// when `args.long_list` is above 0. Fails where an entry could not be read,
/// and where the layout cannot be made.
pub fn run(args: &Config, dir: Vec<DirItem>, max_col: usize) -> (res: Result<String, RunError>)
    requires
        listings_countable(dir@),
        names_agree(dir@),
        !args.sort_size && (forall|j: int|
            0 <= j < dir@.len() ==> !item_fails(#[trigger] dir@[j], !args.all_files)) ==> names_present(
            dir@,
            !args.all_files,
        ),
    ensures
        match res {
            Err(RunError::Entry(i)) => {
                &&& i < dir@.len()
                &&& item_fails(dir@[i as int], !args.all_files)
                &&& forall|j: int| 0 <= j < i ==> !item_fails(#[trigger] dir@[j], !args.all_files)
            },
            _ => {
                &&& forall|j: int| 0 <= j < dir@.len() ==> !item_fails(#[trigger] dir@[j], !args.all_files)
                &&& exists|scheme: ColorScheme, prep: Seq<File>, files: Seq<File>|
                    run_outcome(*args, dir@, max_col, scheme, prep, files, res)
            },
        },
{
    let ghost items = dir@;
    let color_scheme = lsc_color_scheme();
    let ghost scheme = color_scheme;
    proof {
        lemma_palette_colors_items(dir@, !args.all_files, color_scheme, args.long_list, args.number_subfolders);
    }
    let prepared = match prepare_files(
        dir,
        !args.all_files,
        args.long_list,
        color_scheme,
        args.number_subfolders,
    ) {
        Ok(files) => files,
        Err(i) => {
            return Err(RunError::Entry(i));
        },
    };
    let ghost prep = prepared@;
    let ghost shown = listed(items, !args.all_files);
    proof {
        if !args.sort_size {
            assert forall|j: int| 0 <= j < prep.len() implies (#[trigger] prep[j]).name@.len() > 0 by {
                lemma_listed_from(items, !args.all_files, j);
                let i = choose|i: int| 0 <= i < items.len() && items[i] == shown[j];
                assert(item_prepared(prep[j], shown[j], scheme, args.long_list, args.number_subfolders));
                assert(items[i] matches DirItem::Entry { meta: Some(m), .. });
            }
        }
    }
    let sorted = sort_files(prepared, args.sort_size);
    let ghost files = sorted@;
    if args.long_list > 0 {
        let widths = crate::cli::MaxMetadata::new(&sorted);
        if widths.max_gid_len < 21 {
            let res = Err(RunError::NarrowGroupColumn);
            assert(run_outcome(*args, items, max_col, scheme, prep, files, res));
            return res;
        }
        let out = long_output_vec(&sorted);
        let res = Ok(out);
        assert(run_outcome(*args, items, max_col, scheme, prep, files, res));
        res
    } else {
        let (widest_name, widest_shown) = widest_fields(&sorted);
        if widest_name > usize::MAX - 2 || widest_shown > usize::MAX - 2 - widest_name {
            let res = Err(RunError::FieldTooWide);
            assert(fields_overflow(files)) by {
                if widest_name > usize::MAX - 2 {
                    let a = choose|i: int| 0 <= i < files.len() && (#[trigger] files[i]).dn_len == widest_name;
                    assert(files[a].dn_len + 2 + byte_len(files[a].display_name@) > usize::MAX);
                } else {
                    let b = choose|i: int| 0 <= i < files.len() && byte_len((#[trigger] files[i]).display_name@) == widest_shown;
                    if widest_name == 0 {
                        assert(files[b].dn_len + 2 + byte_len(files[b].display_name@) > usize::MAX);
                    } else {
                        let a = choose|i: int| 0 <= i < files.len() && (#[trigger] files[i]).dn_len == widest_name;
                        assert(files[a].dn_len + 2 + byte_len(files[b].display_name@) > usize::MAX);
                    }
                }
            }
            assert(run_outcome(*args, items, max_col, scheme, prep, files, res));
            return res;
        }
        let out = normal_output(&sorted, max_col);
        let res = Ok(out);
        assert(run_outcome(*args, items, max_col, scheme, prep, files, res));
        res
    }
}

} // verus!
