//! The two layouts of a listing: names in columns, and one long line per entry.
use vstd::prelude::*;
use vstd::string::*;
use crate::file::File;
use crate::order::{
    law_sorted_desc_of_monotone, lemma_sorted_desc_of, lemma_sorted_desc_unique, sort_desc,
    sorted_desc, sorted_desc_of,
};
use crate::text::{
    byte_len, decimal, pad_after, pad_before, pad_center, push_centered, push_char,
    push_padded_after, push_padded_before, push_text, signed_decimal, text_bytes, i64_to_text,
};

verus! {

broadcast use vstd::seq_lib::group_to_multiset_ensures;

/// The width each name takes in the column layout: its length and two spaces.
pub open spec fn name_widths(files: Seq<File>) -> Seq<usize> {
    files.map_values(|f: File| (f.dn_len + 2) as usize)
}

/// The name widths from the widest down.
pub open spec fn widest_first(files: Seq<File>) -> Seq<usize> {
    choose|t: Seq<usize>| t.to_multiset() == name_widths(files).to_multiset() && sorted_desc(t)
}

/// How many of the widths `s`, taken in order, fit (strictly) within `max_col`
/// after `used` columns are taken already.
pub open spec fn fit_count(s: Seq<usize>, max_col: int, used: int) -> nat
    decreases s.len(),
{
    if s.len() == 0 {
        0
    } else if used + s[0] < max_col {
        1 + fit_count(s.drop_first(), max_col, used + s[0])
    } else {
        0
    }
}

/// The number of columns: as many of the widest names as fit side by side in
/// a terminal `max_col` characters wide, and at least one.
pub open spec fn spec_columns(files: Seq<File>, max_col: usize) -> usize {
    let c = fit_count(widest_first(files), max_col as int, 0);
    if c < 1 {
        1
    } else {
        c as usize
    }
}

proof fn lemma_fit_count_bound(s: Seq<usize>, max_col: int, used: int)
    ensures
        fit_count(s, max_col, used) <= s.len(),
    decreases s.len(),
{
    if s.len() > 0 {
        lemma_fit_count_bound(s.drop_first(), max_col, used + s[0]);
    }
}

/// The number of columns the names of `files` are laid out in, for a terminal
/// `max_col` characters wide.
pub fn get_columns(files: &Vec<File>, max_col: usize) -> (columns: usize)
    requires
        forall|i: int| 0 <= i < files@.len() ==> (#[trigger] files@[i]).dn_len <= usize::MAX - 2,
    ensures
        columns == spec_columns(files@, max_col),
        1 <= columns,
        columns <= files@.len() || columns == 1,
{
    let mut total_lenght: Vec<usize> = Vec::new();
    let n = files.len();
    let mut i: usize = 0;
    while i < n
        invariant
            i <= n,
            n == files@.len(),
            forall|k: int| 0 <= k < files@.len() ==> (#[trigger] files@[k]).dn_len <= usize::MAX - 2,
            total_lenght@ == name_widths(files@).take(i as int),
        decreases n - i,
    {
        total_lenght.push(files[i].dn_len + 2);
        assert(total_lenght@ =~= name_widths(files@).take(i + 1));
        i = i + 1;
    }
    assert(total_lenght@ =~= name_widths(files@));
    let sorted = sort_desc(&total_lenght);
    proof {
        let t = widest_first(files@);
        assert(sorted@.to_multiset() == name_widths(files@).to_multiset() && sorted_desc(sorted@));
        lemma_sorted_desc_unique(sorted@, t);
        lemma_fit_count_bound(sorted@, max_col as int, 0);
        assert(sorted@.len() == sorted@.to_multiset().len());
        assert(total_lenght@.len() == total_lenght@.to_multiset().len());
    }
    let mut columns: usize = 0;
    let mut counter: usize = 0;
    let m = sorted.len();
    let mut j: usize = 0;
    assert(sorted@.skip(0) =~= sorted@);
    while j < m
        invariant
            j <= m,
            m == sorted@.len(),
            counter <= max_col,
            columns == j,
            fit_count(sorted@, max_col as int, 0) == columns + fit_count(
                sorted@.skip(j as int),
                max_col as int,
                counter as int,
            ),
        ensures
            fit_count(sorted@, max_col as int, 0) == columns,
        decreases m - j,
    {
        let l = sorted[j];
        assert(sorted@.skip(j as int)[0] == l);
        assert(sorted@.skip(j as int).drop_first() =~= sorted@.skip(j + 1));
        if l < max_col - counter {
            counter = counter + l;
            columns = columns + 1;
            j = j + 1;
        } else {
            break;
        }
    }
    if columns < 1 {
        columns = 1;
    }
    columns
}

/// The widest name of the column `col` of `nc` columns (0 for an empty column).
pub open spec fn col_max(files: Seq<File>, col: int, nc: int) -> usize
    decreases files.len(),
{
    if files.len() == 0 {
        0
    } else {
        let m = col_max(files.drop_last(), col, nc);
        if (files.len() - 1) % nc == col && files.last().dn_len > m {
            files.last().dn_len
        } else {
            m
        }
    }
}

/// Every name fits the width of its column.
pub proof fn law_column_holds_its_names(files: Seq<File>, i: int, nc: int)
    requires
        0 <= i < files.len(),
        nc > 0,
    ensures
        col_max(files, i % nc, nc) >= files[i].dn_len,
    decreases files.len(),
{
    if i < files.len() - 1 {
        law_column_holds_its_names(files.drop_last(), i, nc);
    }
}

proof fn lemma_col_max_bound(files: Seq<File>, col: int, nc: int, bound: int)
    requires
        bound >= 0,
        forall|j: int| 0 <= j < files.len() ==> (#[trigger] files[j]).dn_len <= bound,
    ensures
        col_max(files, col, nc) <= bound,
    decreases files.len(),
{
    if files.len() > 0 {
        lemma_col_max_bound(files.drop_last(), col, nc, bound);
    }
}

/// The field the `i`-th name is written in: the width of its column, two
/// spaces, and the bytes of its painting that take no column on screen.
pub open spec fn cell_width(files: Seq<File>, i: int, nc: int) -> int {
    col_max(files, i % nc, nc) + 2 + byte_len(files[i].display_name@) - files[i].dn_len
}

/// The `i`-th name in its field, and a line break after the last column.
pub open spec fn cell(files: Seq<File>, i: int, nc: int) -> Seq<char> {
    pad_after(files[i].display_name@, cell_width(files, i, nc) as nat) + if (i + 1) % nc == 0 {
        seq!['\n']
    } else {
        seq![]
    }
}

/// The first `upto` names laid out in `nc` columns, row by row.
pub open spec fn grid_text(files: Seq<File>, nc: int, upto: int) -> Seq<char>
    decreases upto,
{
    if upto <= 0 {
        seq![]
    } else {
        grid_text(files, nc, upto - 1) + cell(files, upto - 1, nc)
    }
}

/// The names of `files` in columns (the output of `ls` and `ls -a`), for a
/// terminal `max_col` characters wide.
pub fn normal_output(files: &Vec<File>, max_col: usize) -> (output: String)
    requires
        forall|i: int, j: int|
            0 <= i < files@.len() && 0 <= j < files@.len() ==> (#[trigger] files@[j]).dn_len + 2
                + byte_len((#[trigger] files@[i]).display_name@) <= usize::MAX,
    ensures
        output@ == grid_text(files@, spec_columns(files@, max_col) as int, files@.len() as int),
{
    let n = files.len();
    proof {
        assert forall|i: int| 0 <= i < files@.len() implies (#[trigger] files@[i]).dn_len <= usize::MAX - 2 by {
            assert(files@[i].dn_len + 2 + byte_len(files@[i].display_name@) <= usize::MAX);
        }
    }
    let num_col = get_columns(files, max_col);
    let ghost nc = num_col as int;
    let mut col_width: Vec<usize> = Vec::new();
    let mut c: usize = 0;
    while c < num_col
        invariant
            c <= num_col,
            col_width@.len() == c,
            forall|k: int| 0 <= k < c ==> col_width@[k] == 0,
        decreases num_col - c,
    {
        col_width.push(0);
        c = c + 1;
    }
    let mut i: usize = 0;
    while i < n
        invariant
            i <= n,
            n == files@.len(),
            num_col >= 1,
            nc == num_col,
            col_width@.len() == num_col,
            forall|k: int| 0 <= k < num_col ==> #[trigger] col_width@[k] == col_max(files@.take(i as int), k, nc),
        decreases n - i,
    {
        let k = i % num_col;
        assert(files@.take(i + 1).drop_last() =~= files@.take(i as int));
        assert(files@.take(i + 1).last() == files@[i as int]);
        assert(files@.take(i + 1).len() - 1 == i);
        if files[i].dn_len > col_width[k] {
            col_width.set(k, files[i].dn_len);
        }
        i = i + 1;
    }
    assert(files@.take(n as int) =~= files@);
    let mut output = String::new();
    let mut e: usize = 0;
    while e < n
        invariant
            e <= n,
            n == files@.len(),
            num_col >= 1,
            nc == num_col,
            col_width@.len() == num_col,
            forall|k: int| 0 <= k < num_col ==> #[trigger] col_width@[k] == col_max(files@, k, nc),
            forall|a: int, b: int|
                0 <= a < files@.len() && 0 <= b < files@.len() ==> (#[trigger] files@[b]).dn_len + 2
                    + byte_len((#[trigger] files@[a]).display_name@) <= usize::MAX,
            output@ == grid_text(files@, nc, e as int),
        decreases n - e,
    {
        let f = &files[e];
        let dlen = text_bytes(&f.display_name);
        proof {
            law_column_holds_its_names(files@, e as int, nc);
            lemma_col_max_bound(files@, e as int % nc, nc, usize::MAX - 2 - byte_len(files@[e as int].display_name@));
        }
        let width = col_width[e % num_col] + 2 + dlen - f.dn_len;
        push_padded_after(&mut output, f.display_name.as_str(), width);
        if (e + 1) % num_col == 0 {
            push_char(&mut output, '\n');
        }
        assert(output@ =~= grid_text(files@, nc, e + 1));
        e = e + 1;
    }
    output
}


/// The widths of the long layout's columns of numbers: the digits of the
/// largest size, and the longest (in bytes) shown user and group ids.
#[derive(Clone, Copy, Debug, PartialEq, Eq)]
pub struct MaxMetadata {
    pub max_size_len: usize,
    pub max_uid_len: usize,
    pub max_gid_len: usize,
}

/// The largest size of `files`, and 0 where none is larger.
pub open spec fn max_size(files: Seq<File>) -> i64
    decreases files.len(),
{
    if files.len() == 0 {
        0
    } else {
        let m = max_size(files.drop_last());
        if files.last().file_size > m {
            files.last().file_size
        } else {
            m
        }
    }
}

/// The byte length of the longest shown user id of `files`.
pub open spec fn max_uid_len(files: Seq<File>) -> usize
    decreases files.len(),
{
    if files.len() == 0 {
        0
    } else {
        let m = max_uid_len(files.drop_last());
        if byte_len(files.last().display_uid@) > m {
            byte_len(files.last().display_uid@)
        } else {
            m
        }
    }
}

/// The byte length of the longest shown group id of `files`.
pub open spec fn max_gid_len(files: Seq<File>) -> usize
    decreases files.len(),
{
    if files.len() == 0 {
        0
    } else {
        let m = max_gid_len(files.drop_last());
        if byte_len(files.last().display_gid@) > m {
            byte_len(files.last().display_gid@)
        } else {
            m
        }
    }
}

proof fn lemma_max_size_nonneg(files: Seq<File>)
    ensures
        max_size(files) >= 0,
    decreases files.len(),
{
    if files.len() > 0 {
        lemma_max_size_nonneg(files.drop_last());
    }
}

/// The larger of two numbers.
pub open spec fn larger(a: usize, b: usize) -> usize {
    if a > b {
        a
    } else {
        b
    }
}

/// The widths `files` need.
pub open spec fn spec_max_metadata(files: Seq<File>) -> MaxMetadata {
    MaxMetadata {
        max_size_len: decimal(max_size(files) as nat).len() as usize,
        max_uid_len: max_uid_len(files),
        max_gid_len: max_gid_len(files),
    }
}

fn scan_maxima(files: &Vec<File>) -> (res: (i64, usize, usize))
    ensures
        res.0 == max_size(files@),
        res.1 == max_uid_len(files@),
        res.2 == max_gid_len(files@),
{
    let mut max_size_v: i64 = 0;
    let mut max_uid: usize = 0;
    let mut max_gid: usize = 0;
    let n = files.len();
    let mut i: usize = 0;
    while i < n
        invariant
            i <= n,
            n == files@.len(),
            max_size_v == max_size(files@.take(i as int)),
            max_uid == max_uid_len(files@.take(i as int)),
            max_gid == max_gid_len(files@.take(i as int)),
        decreases n - i,
    {
        let file = &files[i];
        assert(files@.take(i + 1).drop_last() =~= files@.take(i as int));
        assert(files@.take(i + 1).last() == files@[i as int]);
        max_size_v = if file.file_size > max_size_v { file.file_size } else { max_size_v };
        let gl = text_bytes(&file.display_gid);
        max_gid = if gl > max_gid { gl } else { max_gid };
        let ul = text_bytes(&file.display_uid);
        max_uid = if ul > max_uid { ul } else { max_uid };
        i = i + 1;
    }
    assert(files@.take(n as int) =~= files@);
    (max_size_v, max_uid, max_gid)
}

fn digit_count(n: i64) -> (len: usize)
    requires
        n >= 0,
    ensures
        len == decimal(n as nat).len(),
{
    let t = crate::text::u64_to_text(n as u64);
    t.as_str().unicode_len()
}

impl MaxMetadata {
    /// The widths that `files` need.
    pub fn new(files: &Vec<File>) -> (m: MaxMetadata)
        ensures
            m == spec_max_metadata(files@),
    {
        let (max_size_v, max_uid, max_gid) = scan_maxima(files);
        proof {
            lemma_max_size_nonneg(files@);
        }
        MaxMetadata {
            max_size_len: digit_count(max_size_v),
            max_gid_len: max_gid,
            max_uid_len: max_uid,
        }
    }

    /// The widths that both these widths and `files` need.
    pub open spec fn spec_update(self, files: Seq<File>) -> MaxMetadata {
        let m = spec_max_metadata(files);
        MaxMetadata {
            max_size_len: larger(m.max_size_len, self.max_size_len),
            max_uid_len: larger(m.max_uid_len, self.max_uid_len),
            max_gid_len: larger(m.max_gid_len, self.max_gid_len),
        }
    }

    /// The widths that both these widths and `files` need.
    pub fn update(&self, files: &Vec<File>) -> (m: MaxMetadata)
        ensures
            m == self.spec_update(files@),
    {
        let fresh = MaxMetadata::new(files);
        MaxMetadata {
            max_size_len: if fresh.max_size_len > self.max_size_len {
                fresh.max_size_len
            } else {
                self.max_size_len
            },
            max_gid_len: if fresh.max_gid_len > self.max_gid_len {
                fresh.max_gid_len
            } else {
                self.max_gid_len
            },
            max_uid_len: if fresh.max_uid_len > self.max_uid_len {
                fresh.max_uid_len
            } else {
                self.max_uid_len
            },
        }
    }
}

/// The long line of one entry: permissions, user and group ids centered in
/// fields of at least 25, the size right-aligned with its unit, and the name.
pub open spec fn long_line(f: File, m: MaxMetadata) -> Seq<char> {
    f.display_perm@ + seq![' ', ' ', ' '] + pad_center(f.display_uid@, larger(m.max_uid_len, 25) as nat)
        + seq![' '] + pad_center(f.display_gid@, larger(m.max_gid_len, 25) as nat) + seq![' ']
        + pad_before(signed_decimal(f.file_size as int), m.max_size_len as nat) + seq![' ']
        + f.display_file_unit@ + seq![' ', ' '] + f.display_name@
}

/// The long line of `file`, in the widths `max_meta`.
pub fn file_to_string(file: &File, max_meta: &MaxMetadata) -> (buffer: String)
    ensures
        buffer@ == long_line(*file, *max_meta),
{
    let mut buffer = String::new();
    push_text(&mut buffer, file.display_perm.as_str());
    push_char(&mut buffer, ' ');
    push_char(&mut buffer, ' ');
    push_char(&mut buffer, ' ');
    let uwidth = if max_meta.max_uid_len > 25 { max_meta.max_uid_len } else { 25 };
    let gwidth = if max_meta.max_gid_len > 25 { max_meta.max_gid_len } else { 25 };
    push_centered(&mut buffer, file.display_uid.as_str(), uwidth);
    push_char(&mut buffer, ' ');
    push_centered(&mut buffer, file.display_gid.as_str(), gwidth);
    push_char(&mut buffer, ' ');
    let size = i64_to_text(file.file_size);
    push_padded_before(&mut buffer, size.as_str(), max_meta.max_size_len);
    push_char(&mut buffer, ' ');
    push_text(&mut buffer, file.display_file_unit.as_str());
    push_char(&mut buffer, ' ');
    push_char(&mut buffer, ' ');
    push_text(&mut buffer, file.display_name.as_str());
    assert(buffer@ =~= long_line(*file, *max_meta));
    buffer
}

/// The header line of the long layout.
pub open spec fn long_header(m: MaxMetadata) -> Seq<char> {
    "Permissions "@ + pad_after("User"@, larger(4, (m.max_gid_len - 21) as usize) as nat)
        + " Group  Size   Name"@
}

/// The long lines of the shown entries of a directory, each after a line break.
pub open spec fn children_lines(children: Seq<File>, m: MaxMetadata, upto: int) -> Seq<char>
    decreases upto,
{
    if upto <= 0 {
        seq![]
    } else {
        children_lines(children, m, upto - 1) + seq!['\n'] + long_line(children[upto - 1], m)
    }
}

/// The lines of one entry: its long line, then those of its shown entries in
/// the widths they need together with the listing's.
pub open spec fn entry_block(f: File, m: MaxMetadata) -> Seq<char> {
    long_line(f, m) + if f.children@.len() > 0 {
        children_lines(f.children@, m.spec_update(f.children@), f.children@.len() as int)
    } else {
        seq![]
    }
}

/// The long layout of the first `upto` entries, each after a line break.
pub open spec fn long_blocks(files: Seq<File>, m: MaxMetadata, upto: int) -> Seq<char>
    decreases upto,
{
    if upto <= 0 {
        seq![]
    } else {
        long_blocks(files, m, upto - 1) + seq!['\n'] + entry_block(files[upto - 1], m)
    }
}

/// The long layout (`ls -l`): the header, then a line per entry, each
/// followed by the lines of its shown directory entries.
pub fn long_output_vec(files: &Vec<File>) -> (output: String)
    requires
        max_gid_len(files@) >= 21,
    ensures
        output@ == long_header(spec_max_metadata(files@)) + long_blocks(
            files@,
            spec_max_metadata(files@),
            files@.len() as int,
        ),
{
    let max_meta = MaxMetadata::new(files);
    let mut output = String::new();
    push_text(&mut output, "Permissions ");
    let over = max_meta.max_gid_len - 21;
    let uwidth = if 4 > over { 4 } else { over };
    push_padded_after(&mut output, "User", uwidth);
    push_text(&mut output, " Group  Size   Name");
    let ghost head = output@;
    assert(head =~= long_header(max_meta));
    let n = files.len();
    let mut i: usize = 0;
    while i < n
        invariant
            i <= n,
            n == files@.len(),
            max_meta == spec_max_metadata(files@),
            output@ == head + long_blocks(files@, max_meta, i as int),
        decreases n - i,
    {
        let file = &files[i];
        let mut buffer = file_to_string(file, &max_meta);
        let ghost line = buffer@;
        if file.children.len() > 0 {
            let child_max_metadata = max_meta.update(&file.children);
            let cn = file.children.len();
            let mut j: usize = 0;
            while j < cn
                invariant
                    j <= cn,
                    cn == file.children@.len(),
                    child_max_metadata == max_meta.spec_update(file.children@),
                    buffer@ == line + children_lines(file.children@, child_max_metadata, j as int),
                decreases cn - j,
            {
                push_char(&mut buffer, '\n');
                let child_line = file_to_string(&file.children[j], &child_max_metadata);
                push_text(&mut buffer, child_line.as_str());
                assert(buffer@ =~= line + children_lines(file.children@, child_max_metadata, j + 1));
                j = j + 1;
            }
        }
        assert(buffer@ =~= entry_block(files@[i as int], max_meta));
        push_char(&mut output, '\n');
        push_text(&mut output, buffer.as_str());
        assert(output@ =~= head + long_blocks(files@, max_meta, i + 1));
        i = i + 1;
    }
    output
}


/// The sum of the widths `s`.
pub open spec fn width_sum(s: Seq<usize>) -> int
    decreases s.len(),
{
    if s.len() == 0 {
        0
    } else {
        s[0] + width_sum(s.drop_first())
    }
}

/// The widths counted by `fit_count` fit within `max_col` side by side, and
/// one more would not.
pub proof fn law_columns_fit(s: Seq<usize>, max_col: int, used: int)
    ensures
        fit_count(s, max_col, used) > 0 ==> used + width_sum(s.take(fit_count(s, max_col, used) as int)) < max_col,
        fit_count(s, max_col, used) < s.len() ==> used + width_sum(
            s.take(fit_count(s, max_col, used) as int + 1),
        ) >= max_col,
    decreases s.len(),
{
    lemma_fit_count_bound(s, max_col, used);
    if s.len() > 0 {
        let c = fit_count(s, max_col, used);
        let rest = s.drop_first();
        law_columns_fit(rest, max_col, used + s[0]);
        lemma_fit_count_bound(rest, max_col, used + s[0]);
        if used + s[0] < max_col {
            let c1 = fit_count(rest, max_col, used + s[0]);
            assert(c == c1 + 1);
            assert(s.take(c as int).drop_first() =~= rest.take(c1 as int));
            assert(width_sum(s.take(c as int)) == s[0] + width_sum(rest.take(c1 as int)));
            if c1 == 0 {
                assert(rest.take(0) =~= Seq::<usize>::empty());
            }
            if c1 < rest.len() {
                assert(s.take(c as int + 1).drop_first() =~= rest.take(c1 as int + 1));
                assert(width_sum(s.take(c as int + 1)) == s[0] + width_sum(rest.take(c1 as int + 1)));
            }
        } else {
            assert(s.take(1).drop_first() =~= Seq::<usize>::empty());
            assert(width_sum(s.take(1)) == s[0] + width_sum(Seq::<usize>::empty()));
        }
    }
}

/// No user id of `files` is longer (in bytes) than the widths say, and so on
/// for group ids and sizes.
pub proof fn law_max_metadata_covers(files: Seq<File>, i: int)
    requires
        0 <= i < files.len(),
    ensures
        byte_len(files[i].display_uid@) <= max_uid_len(files),
        byte_len(files[i].display_gid@) <= max_gid_len(files),
        files[i].file_size <= max_size(files),
    decreases files.len(),
{
    if i < files.len() - 1 {
        law_max_metadata_covers(files.drop_last(), i);
    }
}

/// Updated widths cover both the widths they were updated from and those of
/// the new entries.
pub proof fn law_update_covers(m: MaxMetadata, files: Seq<File>)
    ensures
        m.spec_update(files).max_size_len >= m.max_size_len,
        m.spec_update(files).max_uid_len >= m.max_uid_len,
        m.spec_update(files).max_gid_len >= m.max_gid_len,
        m.spec_update(files).max_size_len >= spec_max_metadata(files).max_size_len,
        m.spec_update(files).max_uid_len >= spec_max_metadata(files).max_uid_len,
        m.spec_update(files).max_gid_len >= spec_max_metadata(files).max_gid_len,
{
}


/// The number of columns depends on the widths of the names alone, not on
/// the order of the entries.
pub proof fn law_columns_ignore_order(a: Seq<File>, b: Seq<File>, max_col: usize)
    requires
        name_widths(a).to_multiset() == name_widths(b).to_multiset(),
    ensures
        spec_columns(a, max_col) == spec_columns(b, max_col),
{
    assert(widest_first(a) == widest_first(b));
}


proof fn lemma_decimal_len_monotone(x: nat, y: nat)
    requires
        x <= y,
    ensures
        decimal(x).len() <= decimal(y).len(),
    decreases y,
{
    if x >= 10 {
        lemma_decimal_len_monotone(x / 10, y / 10);
    }
}

/// `10` to the power `k`.
pub open spec fn ten_to(k: nat) -> nat
    decreases k,
{
    if k == 0 {
        1
    } else {
        10 * ten_to((k - 1) as nat)
    }
}

proof fn lemma_decimal_len_bound(n: nat, k: nat)
    requires
        k >= 1,
        n < ten_to(k),
    ensures
        decimal(n).len() <= k,
    decreases k,
{
    if n >= 10 {
        let t = ten_to((k - 1) as nat);
        assert(n < 10 * t);
        assert(n / 10 < t) by (nonlinear_arith)
            requires
                n < 10 * t,
        ;
        if k == 1 {
            assert(ten_to(1) == 10 * ten_to(0));
        } else {
            lemma_decimal_len_bound(n / 10, (k - 1) as nat);
        }
    }
}

proof fn lemma_max_size_concat(a: Seq<File>, b: Seq<File>)
    ensures
        max_size(a + b) == if max_size(b) > max_size(a) { max_size(b) } else { max_size(a) },
    decreases b.len(),
{
    lemma_max_size_nonneg(a);
    if b.len() == 0 {
        assert(a + b =~= a);
    } else {
        assert((a + b).drop_last() =~= a + b.drop_last());
        lemma_max_size_concat(a, b.drop_last());
    }
}

proof fn lemma_max_ids_concat(a: Seq<File>, b: Seq<File>)
    ensures
        max_uid_len(a + b) == larger(max_uid_len(b), max_uid_len(a)),
        max_gid_len(a + b) == larger(max_gid_len(b), max_gid_len(a)),
    decreases b.len(),
{
    if b.len() == 0 {
        assert(a + b =~= a);
    } else {
        assert((a + b).drop_last() =~= a + b.drop_last());
        lemma_max_ids_concat(a, b.drop_last());
    }
}

/// The widths that a listing followed by more entries needs are the widths
/// of the listing updated by those entries.
pub proof fn law_max_metadata_of_concat(a: Seq<File>, b: Seq<File>)
    ensures
        spec_max_metadata(a + b) == spec_max_metadata(a).spec_update(b),
{
    lemma_max_size_concat(a, b);
    lemma_max_ids_concat(a, b);
    lemma_max_size_nonneg(a);
    lemma_max_size_nonneg(b);
    let sa = max_size(a) as nat;
    let sb = max_size(b) as nat;
    assert(ten_to(19) == 10000000000000000000) by {
        reveal_with_fuel(ten_to, 20);
    }
    lemma_decimal_len_bound(sa, 19);
    lemma_decimal_len_bound(sb, 19);
    if sb > sa {
        lemma_decimal_len_monotone(sa, sb);
    } else {
        lemma_decimal_len_monotone(sb, sa);
    }
}

/// Updating twice by the same entries is updating once.
pub proof fn law_update_idempotent(m: MaxMetadata, b: Seq<File>)
    ensures
        m.spec_update(b).spec_update(b) == m.spec_update(b),
{
}


proof fn lemma_fit_count_monotone(s: Seq<usize>, t: Seq<usize>, w1: int, w2: int, u1: int, u2: int)
    requires
        s.len() == t.len(),
        forall|i: int| 0 <= i < s.len() ==> t[i] <= s[i],
        u2 <= u1,
        w1 <= w2,
    ensures
        fit_count(s, w1, u1) <= fit_count(t, w2, u2),
    decreases s.len(),
{
    if s.len() > 0 && u1 + s[0] < w1 {
        lemma_fit_count_monotone(s.drop_first(), t.drop_first(), w1, w2, u1 + s[0], u2 + t[0]);
    }
}

/// The name widths from the widest down are those that sorting by insertion
/// gives.
pub proof fn lemma_widest_first_sorted(files: Seq<File>)
    ensures
        widest_first(files) == sorted_desc_of(name_widths(files)),
        widest_first(files).len() == files.len(),
{
    let w = name_widths(files);
    lemma_sorted_desc_of(w);
    let t = widest_first(files);
    assert(sorted_desc_of(w).to_multiset() == w.to_multiset() && sorted_desc(sorted_desc_of(w)));
    lemma_sorted_desc_unique(t, sorted_desc_of(w));
}

/// A terminal at least as wide, or names at most as long, never give fewer
/// columns.
pub proof fn law_columns_monotone(a: Seq<File>, b: Seq<File>, w1: usize, w2: usize)
    requires
        a.len() == b.len(),
        a.len() <= usize::MAX,
        forall|i: int| 0 <= i < a.len() ==> (#[trigger] a[i]).dn_len <= usize::MAX - 2,
        forall|i: int| 0 <= i < a.len() ==> (#[trigger] b[i]).dn_len <= a[i].dn_len,
        w1 <= w2,
    ensures
        spec_columns(a, w1) <= spec_columns(b, w2),
{
    let wa = name_widths(a);
    let wb = name_widths(b);
    assert forall|i: int| 0 <= i < wa.len() implies wb[i] <= wa[i] by {
        assert(b[i].dn_len <= a[i].dn_len);
    }
    law_sorted_desc_of_monotone(wa, wb);
    lemma_widest_first_sorted(a);
    lemma_widest_first_sorted(b);
    lemma_sorted_desc_of(wa);
    lemma_sorted_desc_of(wb);
    lemma_fit_count_monotone(widest_first(a), widest_first(b), w1 as int, w2 as int, 0, 0);
    lemma_fit_count_bound(widest_first(a), w1 as int, 0);
    lemma_fit_count_bound(widest_first(b), w2 as int, 0);
}

} // verus!
