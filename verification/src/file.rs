//! The entries of a listing and how each is shown: name, permissions, owner, size.
use vstd::prelude::*;
use vstd::string::*;
use std::path::PathBuf;
use crate::colors::{ColorScheme, is_painting};
use crate::text::{byte_len, decimal, push_char, push_text, text_bytes, u64_to_text};

verus! {

/// A file system path, carried through the listing unread.
#[verifier::external_type_specification]
#[verifier::external_body]
pub struct ExPathBuf(PathBuf);

/// The kind of a directory entry, as its (not followed) metadata tells it.
#[derive(Clone, Copy)]
pub struct FileKind {
    pub is_dir: bool,
    pub is_symlink: bool,
}

/// What the file system reports of one directory entry.
pub struct FileMeta {
    pub path: PathBuf,
    /// The entry's name, with invalid UTF-8 replaced.
    pub name: String,
    pub kind: FileKind,
    /// `st_mode`: the permission bits and the file type bits.
    pub mode: u32,
    pub uid: u32,
    pub gid: u32,
    pub size: i64,
}

/// One entry of the listing, with the texts that show it.
pub struct File {
    pub path: PathBuf,
    pub name: String,
    pub display_name: String,
    /// Byte length of the name: the columns the name takes on screen.
    pub dn_len: usize,
    pub f_type: FileKind,
    pub permissions: u32,
    pub display_perm: String,
    pub uid: u32,
    pub gid: u32,
    pub display_uid: String,
    pub display_gid: String,
    /// The size (scaled to its unit once shown), the number of entries of a
    /// listed directory, or -1 for a directory that could not be read.
    pub file_size: i64,
    /// The size in bytes as the file system reports it, kept unscaled; the
    /// listing is sorted by it.
    pub size_bytes: i64,
    /// The unit of the shown size: `B ` (plain) below 1000 bytes, else the
    /// painted `KB`, `MB` or `GB`, or the painted `F ` for a directory whose
    /// entries are counted.
    pub display_file_unit: String,
    pub children: Vec<File>,
    pub display_children: Vec<String>,
}

/// `out` is `text` painted in the scheme's color of the element `key`.
pub open spec fn paints(out: Seq<char>, text: Seq<char>, scheme: ColorScheme, key: Seq<char>) -> bool {
    is_painting(out, text, scheme.rgb_of(key))
}

/// The element whose color shows a name: directories, links, executables, others.
pub open spec fn name_key(kind: FileKind, permissions: u32) -> Seq<char> {
    if kind.is_dir {
        "dir"@
    } else if kind.is_symlink {
        "sym_link"@
    } else if permissions & 0o100u32 > 0 {
        "ex_file"@
    } else {
        "other"@
    }
}

/// The letter of the `i`-th permission bit, from the owner's read bit on.
pub open spec fn perm_letter(i: int) -> Seq<char> {
    if i % 3 == 0 {
        "r"@
    } else if i % 3 == 1 {
        "w"@
    } else {
        "x"@
    }
}

/// The element whose color shows the `i`-th permission letter.
pub open spec fn perm_key(i: int) -> Seq<char> {
    if i < 3 {
        "user_perm"@
    } else if i < 6 {
        "group_perm"@
    } else {
        "other_perm"@
    }
}

/// `2` to the power `k`.
pub open spec fn two_to(k: nat) -> nat
    decreases k,
{
    if k == 0 {
        1
    } else {
        2 * two_to((k - 1) as nat)
    }
}

proof fn lemma_two_to_pos(k: nat)
    ensures
        two_to(k) > 0,
    decreases k,
{
    if k > 0 {
        lemma_two_to_pos((k - 1) as nat);
    }
}

/// The binary digits of `p`, lowest first, as `format!("{:b}", p)` writes them
/// backwards.
pub open spec fn bin_digits(p: nat) -> Seq<bool>
    decreases p,
{
    if p < 2 {
        seq![p == 1]
    } else {
        seq![p % 2 == 1] + bin_digits(p / 2)
    }
}

/// The last (at most nine) binary digits of `p`, highest first: for a mode
/// with file type bits, its nine permission bits; for a smaller number, only
/// as many as its binary notation has.
pub open spec fn perm_mask(p: u32) -> Seq<bool> {
    let d = bin_digits(p as nat);
    let k: int = if d.len() < 9 { d.len() as int } else { 9 };
    d.take(k).reverse()
}

/// The permission text: for each digit of the mask, the painted letter where
/// it is set and `-` where it is not.
pub open spec fn perm_text(mask: Seq<bool>, painted: Seq<Seq<char>>) -> Seq<char>
    decreases mask.len(),
{
    if mask.len() == 0 {
        seq![]
    } else {
        perm_text(mask.drop_last(), painted) + if mask.last() {
            painted[mask.len() - 1]
        } else {
            seq!['-']
        }
    }
}

/// `out` shows the permission bits of `permissions` in the scheme's colors.
pub open spec fn perm_shown(out: Seq<char>, permissions: u32, scheme: ColorScheme) -> bool {
    exists|painted: Seq<Seq<char>>|
        {
            &&& painted.len() == 9
            &&& forall|i: int|
                0 <= i < 9 ==> paints(#[trigger] painted[i], perm_letter(i), scheme, perm_key(i))
            &&& out == perm_text(perm_mask(permissions), painted)
        }
}

/// The scheme colors every permission letter.
pub open spec fn perm_keys_ok(scheme: ColorScheme) -> bool {
    &&& scheme.resolves("user_perm"@)
    &&& scheme.resolves("group_perm"@)
    &&& scheme.resolves("other_perm"@)
}

/// A size as shown: in bytes below 1000, else in whole thousands, millions or
/// billions.
pub open spec fn scaled_size(size: i64) -> i64 {
    if size < 1000 {
        size
    } else if size < 1000000 {
        (size / 1000) as i64
    } else if size < 1000000000 {
        (size / 1000000) as i64
    } else {
        (size / 1000000000) as i64
    }
}

/// The element whose color shows the unit of a size of at least 1000 bytes.
pub open spec fn unit_key(size: i64) -> Seq<char> {
    if size < 1000000 {
        "kb"@
    } else if size < 1000000000 {
        "mb"@
    } else {
        "gb"@
    }
}

/// The unit of a size of at least 1000 bytes.
pub open spec fn unit_letters(size: i64) -> Seq<char> {
    if size < 1000000 {
        "KB"@
    } else if size < 1000000000 {
        "MB"@
    } else {
        "GB"@
    }
}

/// `unit` shows the unit of `size`: `B ` plain below 1000, else painted.
pub open spec fn unit_shown(unit: Seq<char>, size: i64, scheme: ColorScheme) -> bool {
    if size < 1000 {
        unit == "B "@
    } else {
        paints(unit, unit_letters(size), scheme, unit_key(size))
    }
}

/// The scheme colors what showing the size `size` needs.
pub open spec fn unit_key_ok(size: i64, scheme: ColorScheme) -> bool {
    size >= 1000 ==> scheme.resolves(unit_key(size))
}

fn perm_letter_text(i: usize) -> (s: &'static str)
    ensures
        s@ == perm_letter(i as int),
{
    if i % 3 == 0 {
        "r"
    } else if i % 3 == 1 {
        "w"
    } else {
        "x"
    }
}

fn perm_key_text(i: usize) -> (s: String)
    ensures
        s@ == perm_key(i as int),
{
    if i < 3 {
        String::from_str("user_perm")
    } else if i < 6 {
        String::from_str("group_perm")
    } else {
        String::from_str("other_perm")
    }
}

/// The binary digits of `p`, lowest first.
fn binary_digits(p: u32) -> (digits: Vec<bool>)
    ensures
        digits@ == bin_digits(p as nat),
{
    let mut digits: Vec<bool> = Vec::new();
    let mut q: u32 = p;
    while q >= 2
        invariant
            digits@ + bin_digits(q as nat) == bin_digits(p as nat),
        decreases q,
    {
        let ghost before = digits@;
        digits.push(q % 2 == 1);
        assert(before + bin_digits(q as nat) =~= digits@ + bin_digits((q / 2) as nat));
        q = q / 2;
    }
    let ghost before = digits@;
    digits.push(q == 1);
    assert(before + bin_digits(q as nat) =~= digits@);
    digits
}

/// The permission text of `permissions`, with the painted letters `painted`.
pub fn perm_mask_display(permissions: u32, painted: &Vec<String>) -> (out: String)
    requires
        painted@.len() == 9,
    ensures
        out@ == perm_text(perm_mask(permissions), painted@.map_values(|s: String| s@)),
{
    let digits = binary_digits(permissions);
    let k: usize = if digits.len() < 9 { digits.len() } else { 9 };
    let ghost mask = perm_mask(permissions);
    let ghost views = painted@.map_values(|s: String| s@);
    assert(mask.len() == k);
    let mut out = String::new();
    let mut i: usize = 0;
    while i < k
        invariant
            i <= k,
            k <= 9,
            k <= digits@.len(),
            digits@ == bin_digits(permissions as nat),
            mask == perm_mask(permissions),
            mask.len() == k,
            painted@.len() == 9,
            views == painted@.map_values(|s: String| s@),
            out@ == perm_text(mask.take(i as int), views),
        decreases k - i,
    {
        assert(mask[i as int] == digits@[k - 1 - i]);
        if digits[k - 1 - i] {
            push_text(&mut out, painted[i].as_str());
        } else {
            push_char(&mut out, '-');
        }
        assert(mask.take(i + 1).drop_last() =~= mask.take(i as int));
        assert(out@ =~= perm_text(mask.take(i + 1), views));
        i = i + 1;
    }
    assert(mask.take(k as int) =~= mask);
    out
}

impl File {
    /// The entry as the file system reports it, with nothing shown yet.
    pub open spec fn fresh_from(self, meta: FileMeta) -> bool {
        &&& self.path == meta.path
        &&& self.name == meta.name
        &&& self.display_name@ == Seq::<char>::empty()
        &&& self.dn_len == 0
        &&& self.f_type == meta.kind
        &&& self.permissions == meta.mode
        &&& self.display_perm@ == Seq::<char>::empty()
        &&& self.uid == meta.uid
        &&& self.gid == meta.gid
        &&& self.display_uid@ == Seq::<char>::empty()
        &&& self.display_gid@ == Seq::<char>::empty()
        &&& self.file_size == meta.size
        &&& self.size_bytes == meta.size
        &&& self.display_file_unit@ == Seq::<char>::empty()
        &&& self.children@.len() == 0
        &&& self.display_children@.len() == 0
    }

    /// `self` and `other` are the same entry of the file system.
    pub open spec fn same_entry(self, other: File) -> bool {
        &&& self.path == other.path
        &&& self.name == other.name
        &&& self.f_type == other.f_type
        &&& self.permissions == other.permissions
        &&& self.uid == other.uid
        &&& self.gid == other.gid
        &&& self.size_bytes == other.size_bytes
        &&& self.display_children == other.display_children
    }

    /// The entry that `meta` describes, with nothing shown yet.
    pub fn new_file(meta: FileMeta) -> (file: File)
        ensures
            file.fresh_from(meta),
    {
        File {
            path: meta.path,
            name: meta.name,
            display_name: String::new(),
            dn_len: 0,
            f_type: meta.kind,
            permissions: meta.mode,
            display_perm: String::new(),
            uid: meta.uid,
            gid: meta.gid,
            display_uid: String::new(),
            display_gid: String::new(),
            file_size: meta.size,
            size_bytes: meta.size,
            display_file_unit: String::new(),
            children: Vec::new(),
            display_children: Vec::new(),
        }
    }

    /// Appends the name, painted in the color of its kind, to the shown name,
    /// and records the name's byte length.
    pub fn name_to_display(&mut self, color_scheme: &ColorScheme)
        requires
            color_scheme.resolves(name_key(old(self).f_type, old(self).permissions)),
        ensures
            final(self).same_entry(*old(self)),
            exists|p: Seq<char>|
                paints(p, old(self).name@, *color_scheme, name_key(old(self).f_type, old(self).permissions))
                    && #[trigger] final(self).display_name@ == old(self).display_name@ + p,
            final(self).dn_len == byte_len(old(self).name@),
            final(self).display_perm == old(self).display_perm,
            final(self).display_uid == old(self).display_uid,
            final(self).display_gid == old(self).display_gid,
            final(self).file_size == old(self).file_size,
            final(self).display_file_unit == old(self).display_file_unit,
            final(self).children == old(self).children,
    {
        let key = if self.f_type.is_dir {
            String::from_str("dir")
        } else if self.f_type.is_symlink {
            String::from_str("sym_link")
        } else if self.permissions & 0o100u32 > 0 {
            String::from_str("ex_file")
        } else {
            String::from_str("other")
        };
        let painted = color_scheme.parse_text(key, self.name.as_str());
        push_text(&mut self.display_name, painted.as_str());
        self.dn_len = text_bytes(&self.name);
    }

    /// Shows the nine permission bits: a letter painted in the color of its
    /// class of users where the bit is set, `-` where it is not.
    pub fn perm_to_display(&mut self, color_scheme: &ColorScheme)
        requires
            perm_keys_ok(*color_scheme),
        ensures
            final(self).same_entry(*old(self)),
            perm_shown(final(self).display_perm@, old(self).permissions, *color_scheme),
            final(self).display_name == old(self).display_name,
            final(self).dn_len == old(self).dn_len,
            final(self).display_uid == old(self).display_uid,
            final(self).display_gid == old(self).display_gid,
            final(self).file_size == old(self).file_size,
            final(self).display_file_unit == old(self).display_file_unit,
            final(self).children == old(self).children,
    {
        let mut perm: Vec<String> = Vec::new();
        let mut i: usize = 0;
        while i < 9
            invariant
                i <= 9,
                perm@.len() == i,
                perm_keys_ok(*color_scheme),
                forall|j: int|
                    0 <= j < i ==> paints(#[trigger] perm@[j]@, perm_letter(j), *color_scheme, perm_key(j)),
            decreases 9 - i,
        {
            let key = perm_key_text(i);
            let letter = perm_letter_text(i);
            let p = color_scheme.parse_text(key, letter);
            perm.push(p);
            i = i + 1;
        }
        let out = perm_mask_display(self.permissions, &perm);
        let ghost painted = perm@.map_values(|s: String| s@);
        assert(painted.len() == 9);
        assert(forall|j: int| 0 <= j < 9 ==> painted[j] == perm@[j]@);
        self.display_perm = out;
    }

    /// Shows the owner's user id in the user color, and the same user id again
    /// in the group color in the group's field (the group id itself is not
    /// shown).
    pub fn id_to_display(&mut self, color_scheme: &ColorScheme)
        requires
            color_scheme.resolves("user_perm"@),
            color_scheme.resolves("group_perm"@),
        ensures
            final(self).same_entry(*old(self)),
            paints(final(self).display_uid@, decimal(old(self).uid as nat), *color_scheme, "user_perm"@),
            paints(final(self).display_gid@, decimal(old(self).uid as nat), *color_scheme, "group_perm"@),
            final(self).display_name == old(self).display_name,
            final(self).dn_len == old(self).dn_len,
            final(self).display_perm == old(self).display_perm,
            final(self).file_size == old(self).file_size,
            final(self).display_file_unit == old(self).display_file_unit,
            final(self).children == old(self).children,
    {
        let uid_text = u64_to_text(self.uid as u64);
        self.display_uid = color_scheme.parse_text(String::from_str("user_perm"), uid_text.as_str());
        let uid_text = u64_to_text(self.uid as u64);
        self.display_gid = color_scheme.parse_text(String::from_str("group_perm"), uid_text.as_str());
    }

    /// Scales the size to its unit and shows the unit.
    pub fn size_to_display(&mut self, color_scheme: &ColorScheme)
        requires
            unit_key_ok(old(self).file_size, *color_scheme),
        ensures
            final(self).same_entry(*old(self)),
            final(self).file_size == scaled_size(old(self).file_size),
            unit_shown(final(self).display_file_unit@, old(self).file_size, *color_scheme),
            final(self).display_name == old(self).display_name,
            final(self).dn_len == old(self).dn_len,
            final(self).display_perm == old(self).display_perm,
            final(self).display_uid == old(self).display_uid,
            final(self).display_gid == old(self).display_gid,
            final(self).children == old(self).children,
    {
        if self.file_size < 1000 {
            self.display_file_unit = String::from_str("B ");
        } else if self.file_size < 1000000 {
            self.file_size = self.file_size / 1000;
            self.display_file_unit = color_scheme.parse_text(String::from_str("kb"), "KB");
        } else if self.file_size < 1000000000 {
            self.file_size = self.file_size / 1000000;
            self.display_file_unit = color_scheme.parse_text(String::from_str("mb"), "MB");
        } else {
            self.file_size = self.file_size / 1000000000;
            self.display_file_unit = color_scheme.parse_text(String::from_str("gb"), "GB");
        }
    }
}


/// Why the entries of a directory could not all be listed.
#[derive(Clone, Copy, PartialEq, Eq, Debug)]
pub enum ListingError {
    /// The directory itself could not be read.
    DirUnreadable,
    /// The entry at this position, or its metadata, could not be read.
    EntryUnreadable(usize),
}

/// How many entries of a directory are shown: `num_of_children`, read as an
/// `i64` (a count beyond `i64::MAX` reads as negative, so none is shown).
pub open spec fn child_limit(num_of_children: usize) -> int {
    if num_of_children <= i64::MAX {
        num_of_children as int
    } else {
        0
    }
}

/// The position of the first entry below `bound` that could not be read, or
/// `bound` where all of them were read.
pub open spec fn first_missing(entries: Seq<Option<FileMeta>>, bound: int) -> int
    decreases bound,
{
    if bound <= 0 {
        0
    } else {
        let e = first_missing(entries, bound - 1);
        if e < bound - 1 {
            e
        } else if entries[bound - 1] is None {
            bound - 1
        } else {
            bound
        }
    }
}

/// The branch drawn before the name of a shown directory entry.
pub open spec fn branch(last: bool) -> Seq<char> {
    if last {
        "  ╚═══ "@
    } else {
        "  ╠═══ "@
    }
}

/// The scheme colors all that showing the entry `meta` of a directory needs.
pub open spec fn child_keys_ok(meta: FileMeta, scheme: ColorScheme) -> bool {
    &&& scheme.resolves(name_key(meta.kind, meta.mode))
    &&& perm_keys_ok(scheme)
    &&& unit_key_ok(meta.size, scheme)
}

/// The number of shown entries of a listing: all below the limit, up to the
/// first that could not be read.
pub open spec fn shown_children(entries: Seq<Option<FileMeta>>, num_of_children: usize) -> int {
    let lim = child_limit(num_of_children);
    let bound = if entries.len() < lim { entries.len() as int } else { lim };
    first_missing(entries, bound)
}

/// The scheme colors all shown entries of a listing.
pub open spec fn children_keys_ok(
    entries: Seq<Option<FileMeta>>,
    num_of_children: usize,
    scheme: ColorScheme,
) -> bool {
    forall|j: int|
        0 <= j < shown_children(entries, num_of_children) ==> child_keys_ok(
            #[trigger] entries[j].unwrap(),
            scheme,
        )
}

/// `c` shows the directory entry `meta`, below a branch that is the last one
/// where `last` holds.
pub open spec fn child_shown(c: File, meta: FileMeta, scheme: ColorScheme, last: bool) -> bool {
    &&& c.path == meta.path
    &&& c.name == meta.name
    &&& c.f_type == meta.kind
    &&& c.permissions == meta.mode
    &&& c.uid == meta.uid
    &&& c.gid == meta.gid
    &&& c.size_bytes == meta.size
    &&& exists|p: Seq<char>|
        paints(p, meta.name@, scheme, name_key(meta.kind, meta.mode)) && #[trigger] c.display_name@
            == branch(last) + p
    &&& c.dn_len == byte_len(meta.name@)
    &&& perm_shown(c.display_perm@, meta.mode, scheme)
    &&& paints(c.display_uid@, decimal(meta.uid as nat), scheme, "user_perm"@)
    &&& paints(c.display_gid@, decimal(meta.uid as nat), scheme, "group_perm"@)
    &&& c.file_size == scaled_size(meta.size)
    &&& unit_shown(c.display_file_unit@, meta.size, scheme)
    &&& c.children@.len() == 0
    &&& c.display_children@.len() == 0
}

/// The `j`-th entry of a listing of `n` entries is drawn with the last branch.
pub open spec fn is_last_child(j: int, n: int, num_of_children: usize) -> bool {
    j + 1 == child_limit(num_of_children) || j + 1 == n
}

/// The items of `v` in the opposite order.
pub fn reversed<T>(v: Vec<T>) -> (r: Vec<T>)
    ensures
        r@ == v@.reverse(),
{
    let ghost orig = v@;
    let n = v.len();
    let mut v = v;
    let mut r: Vec<T> = Vec::new();
    while v.len() > 0
        invariant
            n == orig.len(),
            v.len() <= n,
            v@ == orig.take(v.len() as int),
            r@ == orig.skip(v.len() as int).reverse(),
        decreases v.len(),
    {
        let x = v.pop().unwrap();
        r.push(x);
        assert(v@ =~= orig.take(v.len() as int));
        assert(r@ =~= orig.skip(v.len() as int).reverse());
    }
    assert(r@ =~= orig.reverse());
    r
}

/// The entry `meta` of a directory, shown below a branch.
fn list_child(meta: FileMeta, color_scheme: &ColorScheme, last: bool) -> (child: File)
    requires
        child_keys_ok(meta, *color_scheme),
    ensures
        child_shown(child, meta, *color_scheme, last),
{
    let ghost m = meta;
    let mut child = File::new_file(meta);
    child.name_to_display(color_scheme);
    let ghost p = child.display_name@;
    assert(exists|q: Seq<char>|
        paints(q, m.name@, *color_scheme, name_key(m.kind, m.mode)) && p == Seq::<char>::empty() + q);
    assert(paints(p, m.name@, *color_scheme, name_key(m.kind, m.mode))) by {
        let q = choose|q: Seq<char>|
            paints(q, m.name@, *color_scheme, name_key(m.kind, m.mode)) && p == Seq::<char>::empty() + q;
        assert(p =~= q);
    }
    let mut shown = if last {
        String::from_str("  ╚═══ ")
    } else {
        String::from_str("  ╠═══ ")
    };
    push_text(&mut shown, child.display_name.as_str());
    child.display_name = shown;
    assert(child.display_name@ == branch(last) + p);
    child.perm_to_display(color_scheme);
    child.id_to_display(color_scheme);
    child.size_to_display(color_scheme);
    child
}

impl File {
    /// Lists the entries of this directory below it: `listing` holds them as
    /// read (`None` where the directory could not be read, an entry `None`
    /// where it or its metadata could not be read). The size becomes the
    /// number of entries; the first `num_of_children` are shown, each below a
    /// branch, the last shown one below the closing branch.
    pub fn get_children(
        &mut self,
        color_scheme: &ColorScheme,
        listing: Option<Vec<Option<FileMeta>>>,
        num_of_children: usize,
    ) -> (res: Result<(), ListingError>)
        requires
            listing matches Some(entries) ==> {
                &&& entries@.len() < i64::MAX
                &&& children_keys_ok(entries@, num_of_children, *color_scheme)
            },
        ensures
            final(self).same_entry(*old(self)),
            final(self).display_name == old(self).display_name,
            final(self).dn_len == old(self).dn_len,
            final(self).display_perm == old(self).display_perm,
            final(self).display_uid == old(self).display_uid,
            final(self).display_gid == old(self).display_gid,
            final(self).display_file_unit == old(self).display_file_unit,
            match listing {
                None => {
                    &&& final(self).file_size == -1
                    &&& final(self).children == old(self).children
                    &&& res == Err::<(), ListingError>(ListingError::DirUnreadable)
                },
                Some(entries) => {
                    let n = entries@.len() as int;
                    let e = shown_children(entries@, num_of_children);
                    let k = old(self).children@.len() as int;
                    &&& final(self).children@.len() == k + e
                    &&& final(self).children@.take(k) == old(self).children@
                    &&& forall|j: int|
                        0 <= j < e ==> child_shown(
                            #[trigger] final(self).children@[k + j],
                            entries@[j].unwrap(),
                            *color_scheme,
                            is_last_child(j, n, num_of_children),
                        )
                    &&& if e < n && e < child_limit(num_of_children) {
                        &&& final(self).file_size == e + 1
                        &&& res == Err::<(), ListingError>(ListingError::EntryUnreadable(e as usize))
                    } else {
                        &&& final(self).file_size == n
                        &&& res == Ok::<(), ListingError>(())
                    }
                },
            },
    {
        match listing {
            None => {
                self.file_size = -1;
                Err(ListingError::DirUnreadable)
            },
            Some(entries) => {
                let ghost es = entries@;
                let ghost k = self.children@.len() as int;
                let ghost old_children = self.children@;
                let n = entries.len();
                let lim: usize = if (num_of_children as u64) <= (i64::MAX as u64) {
                    num_of_children
                } else {
                    0
                };
                assert(lim == child_limit(num_of_children));
                let ghost bound: int = if n < lim { n as int } else { lim as int };
                let mut rest = reversed(entries);
                self.file_size = 0;
                let mut i: usize = 0;
                #[verifier::loop_isolation(false)]
                while i < n
                    invariant
                        i <= n,
                        n == es.len(),
                        n < i64::MAX,
                        lim == child_limit(num_of_children),
                        bound == if n < lim { n as int } else { lim as int },
                        rest@ == es.skip(i as int).reverse(),
                        self.file_size == i,
                        children_keys_ok(es, num_of_children, *color_scheme),
                        shown_children(es, num_of_children) == first_missing(es, bound),
                        first_missing(es, if i < lim { i as int } else { lim as int }) == if i < lim { i as int } else { lim as int },
                        self.children@.len() == k + (if i < lim { i as int } else { lim as int }),
                        self.children@.take(k) == old_children,
                        forall|j: int|
                            0 <= j < (if i < lim { i as int } else { lim as int }) ==> child_shown(
                                #[trigger] self.children@[k + j],
                                es[j].unwrap(),
                                *color_scheme,
                                is_last_child(j, n as int, num_of_children),
                            ),
                        self.same_entry(*old(self)),
                        self.display_name == old(self).display_name,
                        self.dn_len == old(self).dn_len,
                        self.display_perm == old(self).display_perm,
                        self.display_uid == old(self).display_uid,
                        self.display_gid == old(self).display_gid,
                        self.display_file_unit == old(self).display_file_unit,
                    decreases n - i,
                {
                    assert(es.skip(i as int).reverse().last() == es[i as int]);
                    let item = rest.pop().unwrap();
                    assert(rest@ =~= es.skip(i + 1).reverse());
                    self.file_size = self.file_size + 1;
                    if i < lim {
                        match item {
                            None => {
                                assert(first_missing(es, i + 1) == i);
                                proof {
                                    lemma_first_missing_stays(es, i as int + 1, bound);
                                }
                                return Err(ListingError::EntryUnreadable(i));
                            },
                            Some(meta) => {
                                assert(first_missing(es, i + 1) == i + 1);
                                proof {
                                    lemma_first_missing_below(es, i as int + 1, bound);
                                }
                                let last = i + 1 == lim || i + 1 == n;
                                let child = list_child(meta, color_scheme, last);
                                let ghost before = self.children@;
                                self.children.push(child);
                                assert(self.children@.take(k) =~= before.take(k));
                            },
                        }
                    }
                    i = i + 1;
                }
                proof {
                    lemma_first_missing_stays(es, bound, bound);
                }
                Ok(())
            },
        }
    }
}

/// Once an entry below `b` is missing, the first missing entry stays the same
/// for every larger bound.
proof fn lemma_first_missing_stays(entries: Seq<Option<FileMeta>>, b: int, c: int)
    requires
        0 <= b <= c,
        first_missing(entries, b) < b || b == c,
    ensures
        first_missing(entries, c) == first_missing(entries, b),
    decreases c - b,
{
    if b < c {
        lemma_first_missing_stays(entries, b, c - 1);
    }
}

/// While no entry below `b` is missing, the first missing entry for a larger
/// bound is at least `b`.
proof fn lemma_first_missing_below(entries: Seq<Option<FileMeta>>, b: int, c: int)
    requires
        0 <= b <= c,
        first_missing(entries, b) == b,
    ensures
        first_missing(entries, c) >= b,
    decreases c - b,
{
    if b < c {
        lemma_first_missing_below(entries, b, c - 1);
    }
}


/// One entry of the directory being listed, as read from the file system.
pub enum DirItem {
    /// The directory could not yield this entry.
    Unreadable,
    /// An entry, its metadata (`None` where it could not be read), and, for a
    /// directory whose entries are shown, its own listing (`None` where it
    /// could not be read).
    Entry { name: String, meta: Option<FileMeta>, listing: Option<Vec<Option<FileMeta>>> },
}

pub(crate) proof fn lemma_listed_from(items: Seq<DirItem>, remove_hidden: bool, j: int)
    requires
        0 <= j < listed(items, remove_hidden).len(),
    ensures
        exists|i: int| 0 <= i < items.len() && items[i] == listed(items, remove_hidden)[j],
        is_listed(listed(items, remove_hidden)[j], remove_hidden),
    decreases items.len(),
{
    let rest = listed(items.drop_last(), remove_hidden);
    if j < rest.len() {
        lemma_listed_from(items.drop_last(), remove_hidden, j);
        let i = choose|i: int| 0 <= i < items.drop_last().len() && items.drop_last()[i] == rest[j];
        assert(items[i] == listed(items, remove_hidden)[j]);
    } else {
        assert(items[items.len() - 1] == listed(items, remove_hidden)[j]);
    }
}

/// Each entry is named as its metadata names it.
pub open spec fn names_agree(items: Seq<DirItem>) -> bool {
    forall|i: int|
        0 <= i < items.len() ==> (#[trigger] items[i] matches DirItem::Entry { name, meta: Some(m), .. }
            ==> name@ == m.name@)
}

/// A hidden name starts with a dot.
pub open spec fn is_hidden(name: Seq<char>) -> bool {
    name.len() > 0 && name[0] == '.'
}

/// The item is listed: it is not a hidden entry that the listing leaves out.
pub open spec fn is_listed(item: DirItem, remove_hidden: bool) -> bool {
    match item {
        DirItem::Unreadable => true,
        DirItem::Entry { name, .. } => !(remove_hidden && is_hidden(name@)),
    }
}

/// Listing the item fails: the entry or the metadata of a listed entry could
/// not be read.
pub open spec fn item_fails(item: DirItem, remove_hidden: bool) -> bool {
    match item {
        DirItem::Unreadable => true,
        DirItem::Entry { meta, .. } => is_listed(item, remove_hidden) && meta is None,
    }
}

/// The items that are listed, in their order.
pub open spec fn listed(items: Seq<DirItem>, remove_hidden: bool) -> Seq<DirItem>
    decreases items.len(),
{
    if items.len() == 0 {
        seq![]
    } else {
        let rest = listed(items.drop_last(), remove_hidden);
        if is_listed(items.last(), remove_hidden) {
            rest.push(items.last())
        } else {
            rest
        }
    }
}

/// The directory entries of a listed directory are shown: its long listing
/// level is above 1.
pub open spec fn shows_children(meta: FileMeta, l_num: u8) -> bool {
    l_num > 1 && meta.kind.is_dir
}

/// The scheme colors all that showing the entry `meta` (and its own listing)
/// needs, at the long listing level `l_num`.
pub open spec fn entry_keys_ok(
    meta: FileMeta,
    listing: Option<Vec<Option<FileMeta>>>,
    scheme: ColorScheme,
    l_num: u8,
    num_of_children: usize,
) -> bool {
    &&& scheme.resolves(name_key(meta.kind, meta.mode))
    &&& l_num > 0 ==> perm_keys_ok(scheme) && unit_key_ok(meta.size, scheme)
    &&& shows_children(meta, l_num) ==> {
        &&& scheme.resolves("file_num"@)
        &&& listing matches Some(entries) ==> {
            &&& entries@.len() < i64::MAX
            &&& children_keys_ok(entries@, num_of_children, scheme)
        }
    }
}

/// The scheme colors the item, if it is listed and read.
pub open spec fn item_keys_ok(
    item: DirItem,
    remove_hidden: bool,
    scheme: ColorScheme,
    l_num: u8,
    num_of_children: usize,
) -> bool {
    match item {
        DirItem::Entry { meta: Some(m), listing, .. } => is_listed(item, remove_hidden)
            ==> entry_keys_ok(m, listing, scheme, l_num, num_of_children),
        _ => true,
    }
}

/// `f` shows the entry `meta` at the long listing level `l_num`: the painted
/// name; at level 1 and above the permissions, owner and size with its unit;
/// at level 2 and above, for a directory, its count of entries, the first
/// `num_of_children` of them, and the unit `F `.
pub open spec fn prepared(
    f: File,
    meta: FileMeta,
    listing: Option<Vec<Option<FileMeta>>>,
    scheme: ColorScheme,
    l_num: u8,
    num_of_children: usize,
) -> bool {
    &&& f.path == meta.path
    &&& f.name == meta.name
    &&& f.f_type == meta.kind
    &&& f.permissions == meta.mode
    &&& f.uid == meta.uid
    &&& f.gid == meta.gid
    &&& f.size_bytes == meta.size
    &&& paints(f.display_name@, meta.name@, scheme, name_key(meta.kind, meta.mode))
    &&& f.dn_len == byte_len(meta.name@)
    &&& if l_num > 0 {
        &&& perm_shown(f.display_perm@, meta.mode, scheme)
        &&& paints(f.display_uid@, decimal(meta.uid as nat), scheme, "user_perm"@)
        &&& paints(f.display_gid@, decimal(meta.uid as nat), scheme, "group_perm"@)
    } else {
        &&& f.display_perm@ == Seq::<char>::empty()
        &&& f.display_uid@ == Seq::<char>::empty()
        &&& f.display_gid@ == Seq::<char>::empty()
    }
    &&& if shows_children(meta, l_num) {
        &&& paints(f.display_file_unit@, "F "@, scheme, "file_num"@)
        &&& match listing {
            None => f.file_size == -1 && f.children@.len() == 0,
            Some(entries) => {
                let n = entries@.len() as int;
                let e = shown_children(entries@, num_of_children);
                &&& f.children@.len() == e
                &&& forall|j: int|
                    0 <= j < e ==> child_shown(
                        #[trigger] f.children@[j],
                        entries@[j].unwrap(),
                        scheme,
                        is_last_child(j, n, num_of_children),
                    )
                &&& f.file_size == if e < n && e < child_limit(num_of_children) {
                    e + 1
                } else {
                    n
                }
            },
        }
    } else if l_num > 0 {
        &&& f.file_size == scaled_size(meta.size)
        &&& unit_shown(f.display_file_unit@, meta.size, scheme)
        &&& f.children@.len() == 0
    } else {
        &&& f.file_size == meta.size
        &&& f.display_file_unit@ == Seq::<char>::empty()
        &&& f.children@.len() == 0
    }
    &&& f.display_children@.len() == 0
}

/// `f` shows the listed item `item`.
pub open spec fn item_prepared(
    f: File,
    item: DirItem,
    scheme: ColorScheme,
    l_num: u8,
    num_of_children: usize,
) -> bool {
    match item {
        DirItem::Entry { meta: Some(m), listing, .. } => prepared(
            f,
            m,
            listing,
            scheme,
            l_num,
            num_of_children,
        ),
        _ => false,
    }
}

/// Whether the listing of the entry `meta` (named `name`) is shown: the
/// entry is listed and its directory entries are shown.
pub fn shows_listing(name: &String, meta: &FileMeta, remove_hidden: bool, l_num: u8) -> (res: bool)
    ensures
        res == (!(remove_hidden && is_hidden(name@)) && shows_children(*meta, l_num)),
{
    !(remove_hidden && starts_with_dot(name)) && l_num > 1 && meta.kind.is_dir
}

/// Whether the entry at `index` of a directory's listing is shown (so its
/// metadata is read).
pub fn child_is_shown(index: usize, num_of_children: usize) -> (res: bool)
    ensures
        res == (index < child_limit(num_of_children)),
{
    (num_of_children as u64) <= (i64::MAX as u64) && index < num_of_children
}

fn starts_with_dot(name: &String) -> (res: bool)
    ensures
        res == is_hidden(name@),
{
    let s = name.as_str();
    if s.is_empty() {
        false
    } else {
        s.get_char(0) == '.'
    }
}

/// One entry, shown at the long listing level `l_num`.
fn prepare_entry(
    meta: FileMeta,
    listing: Option<Vec<Option<FileMeta>>>,
    color_scheme: &ColorScheme,
    l_num: u8,
    num_of_children: usize,
) -> (f: File)
    requires
        entry_keys_ok(meta, listing, *color_scheme, l_num, num_of_children),
    ensures
        prepared(f, meta, listing, *color_scheme, l_num, num_of_children),
{
    let ghost m = meta;
    let ghost lst = listing;
    let is_dir = meta.kind.is_dir;
    let mut f = File::new_file(meta);
    f.name_to_display(color_scheme);
    assert(paints(f.display_name@, m.name@, *color_scheme, name_key(m.kind, m.mode))) by {
        let q = choose|q: Seq<char>|
            paints(q, m.name@, *color_scheme, name_key(m.kind, m.mode)) && f.display_name@
                == Seq::<char>::empty() + q;
        assert(f.display_name@ =~= q);
    }
    if l_num > 0 {
        f.perm_to_display(color_scheme);
        f.id_to_display(color_scheme);
        f.size_to_display(color_scheme);
    }
    if l_num > 1 && is_dir {
        let _ = f.get_children(color_scheme, listing, num_of_children);
        f.display_file_unit = color_scheme.parse_text(String::from_str("file_num"), "F ");
        proof {
            match lst {
                Some(entries) => {
                    assert forall|j: int| 0 <= j < shown_children(entries@, num_of_children) implies
                        child_shown(
                            #[trigger] f.children@[j],
                            entries@[j].unwrap(),
                            *color_scheme,
                            is_last_child(j, entries@.len() as int, num_of_children),
                        ) by {
                        assert(f.children@[0 + j] == f.children@[j]);
                    }
                },
                None => {},
            }
        }
    }
    f
}

/// Shows the entries of a directory at the long listing level `l_num` (`-l`
/// once or more), leaving out hidden ones where `remove_hidden` holds, and
/// listing the first `num_of_children` entries of each directory from level 2
/// on. Fails with the position of the first listed item that could not be
/// read.
pub fn prepare_files(
    dir: Vec<DirItem>,
    remove_hidden: bool,
    l_num: u8,
    color_scheme: ColorScheme,
    num_of_children: usize,
) -> (res: Result<Vec<File>, usize>)
    requires
        forall|i: int|
            0 <= i < dir@.len() && (forall|j: int| 0 <= j < i ==> !item_fails(dir@[j], remove_hidden))
                ==> item_keys_ok(#[trigger] dir@[i], remove_hidden, color_scheme, l_num, num_of_children),
        names_agree(dir@),
    ensures
        match res {
            Err(i) => {
                &&& i < dir@.len()
                &&& item_fails(dir@[i as int], remove_hidden)
                &&& forall|j: int| 0 <= j < i ==> !item_fails(#[trigger] dir@[j], remove_hidden)
            },
            Ok(files) => {
                let shown = listed(dir@, remove_hidden);
                &&& forall|j: int| 0 <= j < dir@.len() ==> !item_fails(#[trigger] dir@[j], remove_hidden)
                &&& files@.len() == shown.len()
                &&& remove_hidden ==> forall|j: int|
                    0 <= j < files@.len() ==> !is_hidden((#[trigger] files@[j]).name@)
                &&& forall|j: int|
                    0 <= j < shown.len() ==> item_prepared(
                        #[trigger] files@[j],
                        shown[j],
                        color_scheme,
                        l_num,
                        num_of_children,
                    )
            },
        },
{
    let ghost items = dir@;
    let n = dir.len();
    let mut rest = reversed(dir);
    let mut string_files: Vec<File> = Vec::new();
    let mut i: usize = 0;
    #[verifier::loop_isolation(false)]
    while i < n
        invariant
            i <= n,
            n == items.len(),
            rest@ == items.skip(i as int).reverse(),
            forall|j: int| 0 <= j < i ==> !item_fails(#[trigger] items[j], remove_hidden),
            forall|k: int|
                0 <= k < items.len() && (forall|j: int|
                    0 <= j < k ==> !item_fails(items[j], remove_hidden)) ==> item_keys_ok(
                    #[trigger] items[k],
                    remove_hidden,
                    color_scheme,
                    l_num,
                    num_of_children,
                ),
            string_files@.len() == listed(items.take(i as int), remove_hidden).len(),
            forall|j: int|
                0 <= j < string_files@.len() ==> item_prepared(
                    #[trigger] string_files@[j],
                    listed(items.take(i as int), remove_hidden)[j],
                    color_scheme,
                    l_num,
                    num_of_children,
                ),
        decreases n - i,
    {
        assert(items.skip(i as int).reverse().last() == items[i as int]);
        let item = rest.pop().unwrap();
        assert(rest@ =~= items.skip(i + 1).reverse());
        let ghost it = item;
        assert(items.take(i + 1).drop_last() =~= items.take(i as int));
        assert(items.take(i + 1).last() == it);
        assert(item_keys_ok(items[i as int], remove_hidden, color_scheme, l_num, num_of_children));
        match item {
            DirItem::Unreadable => {
                return Err(i);
            },
            DirItem::Entry { name, meta, listing } => {
                if remove_hidden && starts_with_dot(&name) {
                    i = i + 1;
                    continue;
                }
                match meta {
                    None => {
                        return Err(i);
                    },
                    Some(meta) => {
                        let f = prepare_entry(meta, listing, &color_scheme, l_num, num_of_children);
                        string_files.push(f);
                    },
                }
            },
        }
        i = i + 1;
    }
    assert(items.take(n as int) =~= items);
    proof {
        if remove_hidden {
            assert forall|j: int| 0 <= j < string_files@.len() implies !is_hidden(
                (#[trigger] string_files@[j]).name@,
            ) by {
                let shown = listed(items, remove_hidden);
                lemma_listed_from(items, remove_hidden, j);
                law_hidden_left_out(items, j);
                let i = choose|i: int| 0 <= i < items.len() && items[i] == shown[j];
                assert(item_prepared(string_files@[j], shown[j], color_scheme, l_num, num_of_children));
                assert(items[i] matches DirItem::Entry { meta: Some(m), .. });
            }
        }
    }
    Ok(string_files)
}


proof fn lemma_bin_digit(p: nat, i: nat)
    requires
        i < bin_digits(p).len(),
    ensures
        bin_digits(p)[i as int] == ((p / two_to(i)) % 2 == 1),
    decreases p,
{
    if p >= 2 && i > 0 {
        lemma_bin_digit(p / 2, (i - 1) as nat);
        assert(bin_digits(p)[i as int] == bin_digits(p / 2)[i - 1]);
        assert(two_to(i) == 2 * two_to((i - 1) as nat));
        lemma_two_to_pos((i - 1) as nat);
        vstd::arithmetic::div_mod::lemma_div_denominator(p as int, 2, two_to((i - 1) as nat) as int);
    } else {
        assert(i == 0);
        assert(two_to(0) == 1);
        assert(p / 1 == p);
    }
}

proof fn lemma_bin_digits_len(p: nat, k: nat)
    requires
        p >= two_to(k),
    ensures
        bin_digits(p).len() > k,
    decreases k,
{
    if k > 0 {
        lemma_two_to_pos((k - 1) as nat);
        lemma_bin_digits_len(p / 2, (k - 1) as nat);
    }
}

/// For a mode with a bit above the nine permission bits (as every `st_mode`
/// has, by its file type), the permission text shows the nine permission bits,
/// the owner's read bit first.
pub proof fn law_perm_mask_shows_nine_bits(p: u32)
    requires
        p >= 256,
    ensures
        perm_mask(p).len() == 9,
        forall|i: int| 0 <= i < 9 ==> #[trigger] perm_mask(p)[i] == (((p as nat) / two_to((8 - i) as nat)) % 2 == 1),
{
    assert(two_to(8) == 256) by {
        reveal_with_fuel(two_to, 9);
    }
    lemma_bin_digits_len(p as nat, 8);
    assert forall|i: int| 0 <= i < 9 implies #[trigger] perm_mask(p)[i] == (((p as nat) / two_to((8 - i) as nat)) % 2 == 1) by {
        lemma_bin_digit(p as nat, (8 - i) as nat);
    }
}

/// For modes with file type bits, only the nine permission bits count: the
/// file type, setuid, setgid and sticky bits leave the permission text as it is.
pub proof fn law_perm_mask_low_bits(p1: u32, p2: u32)
    requires
        p1 >= 256,
        p2 >= 256,
        p1 % 512 == p2 % 512,
    ensures
        perm_mask(p1) == perm_mask(p2),
{
    law_perm_mask_shows_nine_bits(p1);
    law_perm_mask_shows_nine_bits(p2);
    assert forall|i: int| 0 <= i < 9 implies perm_mask(p1)[i] == perm_mask(p2)[i] by {
        lemma_low_bits_same_digit(p1 as nat, p2 as nat, (8 - i) as nat);
    }
    assert(perm_mask(p1) =~= perm_mask(p2));
}

proof fn lemma_low_bits_same_digit(p1: nat, p2: nat, k: nat)
    requires
        k <= 8,
        p1 % 512 == p2 % 512,
    ensures
        (p1 / two_to(k)) % 2 == (p2 / two_to(k)) % 2,
{
    let t = two_to(k);
    lemma_two_to_pos(k);
    let m = lemma_two_to_half_divides((8 - k) as nat, k);
    lemma_digit_of_remainder(p1 as int, t, m);
    lemma_digit_of_remainder(p2 as int, t, m);
}

/// `two_to(8 - k)` times `two_to(k)` is 256, so `512 == two_to(k) * (2 * m)`.
proof fn lemma_two_to_half_divides(j: nat, k: nat) -> (m: int)
    requires
        j + k == 8,
    ensures
        m >= 1,
        512 == two_to(k) * (2 * m),
    decreases k,
{
    if k == 0 {
        assert(two_to(8) == 256) by {
            reveal_with_fuel(two_to, 9);
        }
        assert(two_to(0) == 1);
        256
    } else {
        let m0 = lemma_two_to_half_divides(j + 1, (k - 1) as nat);
        assert(two_to(k) == 2 * two_to((k - 1) as nat));
        lemma_two_to_quotient_even((k - 1) as nat, m0);
        assert(512 == two_to(k) * (2 * (m0 / 2))) by (nonlinear_arith)
            requires
                512 == two_to((k - 1) as nat) * (2 * m0),
                two_to(k) == 2 * two_to((k - 1) as nat),
                m0 % 2 == 0,
        ;
        assert(m0 / 2 >= 1) by (nonlinear_arith)
            requires
                m0 >= 1,
                m0 % 2 == 0,
        ;
        m0 / 2
    }
}

proof fn lemma_two_to_quotient_even(k: nat, m0: int)
    requires
        k <= 7,
        512 == two_to(k) * (2 * m0),
    ensures
        m0 % 2 == 0,
{
    reveal_with_fuel(two_to, 9);
    if k == 0 {
        assert(two_to(0) == 1);
        assert(512 == 1 * (2 * m0));
    } else if k == 1 {
        assert(two_to(1) == 2);
        assert(512 == 2 * (2 * m0));
    } else if k == 2 {
        assert(two_to(2) == 4);
        assert(512 == 4 * (2 * m0));
    } else if k == 3 {
        assert(two_to(3) == 8);
        assert(512 == 8 * (2 * m0));
    } else if k == 4 {
        assert(two_to(4) == 16);
        assert(512 == 16 * (2 * m0));
    } else if k == 5 {
        assert(two_to(5) == 32);
        assert(512 == 32 * (2 * m0));
    } else if k == 6 {
        assert(two_to(6) == 64);
        assert(512 == 64 * (2 * m0));
    } else {
        assert(two_to(7) == 128);
        assert(512 == 128 * (2 * m0));
    }
}

/// The digit of `p` at weight `t` depends on `p % 512` alone, where `512` is an
/// even multiple of `t`.
proof fn lemma_digit_of_remainder(p: int, t: nat, m: int)
    requires
        p >= 0,
        t > 0,
        m >= 1,
        512 == t * (2 * m),
    ensures
        (p / t as int) % 2 == ((p % 512) / t as int) % 2,
{
    let q = p / 512;
    let r = p % 512;
    vstd::arithmetic::div_mod::lemma_fundamental_div_mod(p, 512);
    assert(p == r + (q * (2 * m)) * t) by (nonlinear_arith)
        requires
            p == 512 * q + r,
            512 == t * (2 * m),
    ;
    vstd::arithmetic::div_mod::lemma_hoist_over_denominator(r, q * (2 * m), t);
    assert(p / t as int == r / t as int + q * (2 * m));
    vstd::arithmetic::div_mod::lemma_mod_multiples_vanish(q * m, r / t as int, 2);
    assert(2 * (q * m) == q * (2 * m)) by (nonlinear_arith);
}

/// For a mode with file type bits, the permission text has one symbol per
/// permission bit: the painted letter where the bit is set, `-` where not.
pub proof fn law_perm_text_nine_symbols(p: u32, painted: Seq<Seq<char>>)
    requires
        p >= 256,
        painted.len() == 9,
        forall|i: int| 0 <= i < 9 ==> (#[trigger] painted[i]).len() == 1,
    ensures
        perm_text(perm_mask(p), painted).len() == 9,
{
    law_perm_mask_shows_nine_bits(p);
    lemma_perm_text_len(perm_mask(p), painted);
}

proof fn lemma_perm_text_len(mask: Seq<bool>, painted: Seq<Seq<char>>)
    requires
        mask.len() <= painted.len(),
        forall|i: int| 0 <= i < painted.len() ==> (#[trigger] painted[i]).len() == 1,
    ensures
        perm_text(mask, painted).len() == mask.len(),
    decreases mask.len(),
{
    if mask.len() > 0 {
        lemma_perm_text_len(mask.drop_last(), painted);
    }
}

/// With hidden entries shown (`-a`), every item is listed, in its order.
pub proof fn law_all_items_listed(items: Seq<DirItem>)
    ensures
        listed(items, false) == items,
    decreases items.len(),
{
    if items.len() > 0 {
        law_all_items_listed(items.drop_last());
        assert(items.drop_last().push(items.last()) =~= items);
    }
}

/// The listed items are the items that are not hidden entries left out, in
/// their order.
pub proof fn law_listed_keeps_order(items: Seq<DirItem>, remove_hidden: bool)
    ensures
        listed(items, remove_hidden) == items.filter(|it: DirItem| is_listed(it, remove_hidden)),
    decreases items.len(),
{
    reveal(Seq::filter);
    if items.len() > 0 {
        law_listed_keeps_order(items.drop_last(), remove_hidden);
    }
}

/// Without `-a`, no listed entry has a hidden name.
pub proof fn law_hidden_left_out(items: Seq<DirItem>, j: int)
    requires
        0 <= j < listed(items, true).len(),
    ensures
        listed(items, true)[j] matches DirItem::Entry { name, .. } ==> !is_hidden(name@),
    decreases items.len(),
{
    let rest = listed(items.drop_last(), true);
    if j < rest.len() {
        law_hidden_left_out(items.drop_last(), j);
    }
}

/// A size below 1000 billion bytes is shown as a number below 1000.
pub proof fn law_scaled_size_below_thousand(size: i64)
    requires
        0 <= size < 1000000000000,
    ensures
        0 <= scaled_size(size) < 1000,
{
}

/// Where every entry of a directory was read, the first `num_of_children`
/// of them are shown (all of them, if there are fewer).
pub proof fn law_all_read_children_shown(entries: Seq<Option<FileMeta>>, num_of_children: usize)
    requires
        forall|i: int| 0 <= i < entries.len() ==> (#[trigger] entries[i]) is Some,
    ensures
        shown_children(entries, num_of_children) == if entries.len() < child_limit(num_of_children) {
            entries.len() as int
        } else {
            child_limit(num_of_children)
        },
{
    let lim = child_limit(num_of_children);
    let bound = if entries.len() < lim { entries.len() as int } else { lim };
    lemma_first_missing_all_present(entries, bound);
}

proof fn lemma_first_missing_all_present(entries: Seq<Option<FileMeta>>, b: int)
    requires
        0 <= b <= entries.len(),
        forall|i: int| 0 <= i < entries.len() ==> (#[trigger] entries[i]) is Some,
    ensures
        first_missing(entries, b) == b,
    decreases b,
{
    if b > 0 {
        lemma_first_missing_all_present(entries, b - 1);
    }
}

/// Of the entries a directory could show, only the last one is drawn below
/// the closing branch.
pub proof fn law_closing_branch_is_last(j: int, n: int, num_of_children: usize)
    requires
        0 <= j,
        j < n,
        j < child_limit(num_of_children),
    ensures
        is_last_child(j, n, num_of_children) <==> j + 1 == (if n < child_limit(num_of_children) {
            n
        } else {
            child_limit(num_of_children)
        }),
{
}


/// The number of bytes one unit of the shown size stands for.
pub open spec fn unit_bytes(unit: Seq<char>) -> int {
    if unit == "KB"@ {
        1000
    } else if unit == "MB"@ {
        1000000
    } else {
        1000000000
    }
}

/// A size of at least 1000 bytes (and below 1000 billion) is shown in the
/// largest of KB, MB, GB that it fills at least once: a number from 1 to 999
/// of that unit, the whole units it holds, in the unit's own color.
pub proof fn law_size_shown_in_its_unit(size: i64)
    requires
        1000 <= size < 1000000000000,
    ensures
        1 <= scaled_size(size) <= 999,
        unit_letters(size) == "KB"@ && unit_key(size) == "kb"@ || unit_letters(size) == "MB"@
            && unit_key(size) == "mb"@ || unit_letters(size) == "GB"@ && unit_key(size) == "gb"@,
        scaled_size(size) * unit_bytes(unit_letters(size)) <= size,
        size < (scaled_size(size) + 1) * unit_bytes(unit_letters(size)),
{
    reveal_strlit("KB");
    reveal_strlit("MB");
    reveal_strlit("GB");
    assert("KB"@[0] != "MB"@[0]);
    assert("KB"@[0] != "GB"@[0]);
    assert("MB"@[0] != "GB"@[0]);
}

/// Below 1000 bytes (or for a negative size) the size is shown as it is, in
/// bytes, with the plain unit `B `.
pub proof fn law_small_size_shown_in_bytes(size: i64, unit: Seq<char>, scheme: ColorScheme)
    requires
        size < 1000,
        unit_shown(unit, size, scheme),
    ensures
        scaled_size(size) == size,
        unit == "B "@,
{
}

/// A name's color is decided by its kind first: a directory is shown in the
/// directory color and a link in the link color, whatever their permission
/// bits; among other entries, those the owner may execute in the executable
/// color, the rest in the color of other files.
pub proof fn law_name_color_by_kind(kind: FileKind, permissions: u32)
    ensures
        kind.is_dir ==> name_key(kind, permissions) == "dir"@,
        !kind.is_dir && kind.is_symlink ==> name_key(kind, permissions) == "sym_link"@,
        !kind.is_dir && !kind.is_symlink ==> (name_key(kind, permissions) == "ex_file"@ <==> (
        permissions / 64) % 2 == 1),
        !kind.is_dir && !kind.is_symlink && (permissions / 64) % 2 == 0 ==> name_key(kind, permissions)
            == "other"@,
{
    reveal_strlit("ex_file");
    reveal_strlit("other");
    assert("ex_file"@[0] != "other"@[0]);
    assert((permissions & 0o100u32 > 0) == ((permissions / 64) % 2 == 1)) by (bit_vector);
}

proof fn lemma_listed_contains(items: Seq<DirItem>, remove_hidden: bool, i: int)
    requires
        0 <= i < items.len(),
        is_listed(items[i], remove_hidden),
    ensures
        listed(items, remove_hidden).contains(items[i]),
    decreases items.len(),
{
    let rest = listed(items.drop_last(), remove_hidden);
    if i < items.len() - 1 {
        lemma_listed_contains(items.drop_last(), remove_hidden, i);
        let j = choose|j: int| 0 <= j < rest.len() && rest[j] == items[i];
        assert(listed(items, remove_hidden)[j] == items[i]);
    } else {
        assert(listed(items, remove_hidden)[rest.len() as int] == items[i]);
    }
}

/// Without `-a`, an entry is left out exactly when its name begins with a
/// dot: every entry whose first character is anything else (or whose name is
/// empty) is listed, and none whose first character is a dot.
pub proof fn law_dot_names_left_out(items: Seq<DirItem>, i: int)
    requires
        0 <= i < items.len(),
    ensures
        items[i] matches DirItem::Entry { name, .. } ==> (listed(items, true).contains(items[i])
            <==> !(name@.len() > 0 && name@[0] == '.')),
        items[i] is Unreadable ==> listed(items, true).contains(items[i]),
{
    if is_listed(items[i], true) {
        lemma_listed_contains(items, true, i);
    } else {
        if listed(items, true).contains(items[i]) {
            let j = choose|j: int| 0 <= j < listed(items, true).len() && listed(items, true)[j] == items[i];
            lemma_listed_from(items, true, j);
        }
    }
}

/// With `-a`, every entry is listed, whatever its name.
pub proof fn law_all_names_listed(items: Seq<DirItem>, i: int)
    requires
        0 <= i < items.len(),
    ensures
        listed(items, false).contains(items[i]),
{
    law_all_items_listed(items);
}

/// At every level, an entry that is not a directory keeps its own size: at
/// level 0 as read, from level 1 on scaled to its unit, and never with an
/// entry count, the unit `F ` or entries below it. From level 2 on, a
/// directory's size is its entry count (or -1) and its unit the painted `F `.
pub proof fn law_only_directories_count_entries(
    f: File,
    meta: FileMeta,
    listing: Option<Vec<Option<FileMeta>>>,
    scheme: ColorScheme,
    l_num: u8,
    num_of_children: usize,
)
    requires
        prepared(f, meta, listing, scheme, l_num, num_of_children),
    ensures
        !meta.kind.is_dir && l_num > 0 ==> f.file_size == scaled_size(meta.size) && unit_shown(
            f.display_file_unit@,
            meta.size,
            scheme,
        ) && f.children@.len() == 0,
        !meta.kind.is_dir && l_num == 0 ==> f.file_size == meta.size && f.children@.len() == 0,
        meta.kind.is_dir && l_num > 1 ==> paints(f.display_file_unit@, "F "@, scheme, "file_num"@),
        meta.kind.is_dir && l_num > 1 && listing is None ==> f.file_size == -1,
{
}

} // verus!
