//! Sorting: widths from the widest down, and entries by their sort key.
use vstd::prelude::*;
use crate::file::File;

verus! {

broadcast use vstd::seq_lib::group_to_multiset_ensures;

/// The numbers of `s` run from the largest down.
pub open spec fn sorted_desc(s: Seq<usize>) -> bool {
    forall|i: int, j: int| 0 <= i <= j < s.len() ==> s[i] >= s[j]
}

/// `v` sorted from the largest number down.
pub fn sort_desc(v: &Vec<usize>) -> (r: Vec<usize>)
    ensures
        r@.to_multiset() == v@.to_multiset(),
        sorted_desc(r@),
{
    let mut r: Vec<usize> = Vec::new();
    let n = v.len();
    let mut i: usize = 0;
    while i < n
        invariant
            i <= n,
            n == v@.len(),
            r@.to_multiset() == v@.take(i as int).to_multiset(),
            sorted_desc(r@),
        decreases n - i,
    {
        let x = v[i];
        let mut pos: usize = 0;
        while pos < r.len() && r[pos] >= x
            invariant
                pos <= r@.len(),
                forall|k: int| 0 <= k < pos ==> r@[k] >= x,
            decreases r@.len() - pos,
        {
            pos = pos + 1;
        }
        let ghost before = r@;
        r.insert(pos, x);
        assert(r@ == before.insert(pos as int, x));
        assert(v@.take(i + 1) =~= v@.take(i as int).push(x));
        assert(sorted_desc(r@)) by {
            assert forall|a: int, b: int| 0 <= a <= b < r@.len() implies r@[a] >= r@[b] by {
                if a < pos && b > pos {
                    assert(r@[b] == before[b - 1]);
                    assert(before[b - 1] <= before[a] || b - 1 < pos);
                } else if a == pos && b > pos {
                    assert(r@[b] == before[b - 1]);
                    assert(before[b - 1] < x || b - 1 < pos);
                }
            }
        }
        i = i + 1;
    }
    assert(v@.take(n as int) =~= v@);
    r
}

/// Two sequences that hold the same numbers and run from the largest down are
/// the same sequence.
pub proof fn lemma_sorted_desc_unique(a: Seq<usize>, b: Seq<usize>)
    requires
        sorted_desc(a),
        sorted_desc(b),
        a.to_multiset() == b.to_multiset(),
    ensures
        a == b,
    decreases a.len(),
{
    assert(a.len() == b.to_multiset().len());
    if a.len() > 0 {
        assert(a.to_multiset().count(a[0]) > 0) by {
            assert(a.contains(a[0]));
        }
        assert(b.contains(a[0]));
        assert(b.contains(b[0]));
        assert(b.to_multiset().count(b[0]) > 0);
        assert(a.to_multiset().count(b[0]) > 0);
        assert(a.contains(b[0]));
        let ia = choose|k: int| 0 <= k < a.len() && a[k] == b[0];
        let ib = choose|k: int| 0 <= k < b.len() && b[k] == a[0];
        assert(a[0] >= a[ia]);
        assert(b[0] >= b[ib]);
        assert(a[0] == b[0]);
        assert(a.remove(0).to_multiset() == a.to_multiset().remove(a[0]));
        assert(b.remove(0).to_multiset() == b.to_multiset().remove(b[0]));
        assert(a.remove(0) =~= a.drop_first());
        assert(b.remove(0) =~= b.drop_first());
        lemma_sorted_desc_unique(a.drop_first(), b.drop_first());
        assert(a =~= seq![a[0]] + a.drop_first());
        assert(b =~= seq![b[0]] + b.drop_first());
    } else {
        assert(b.len() == 0);
        assert(a =~= b);
    }
}

/// The key an entry is sorted by: its size in bytes, or the code of the
/// first character of its name.
pub open spec fn sort_key(f: File, by_size: bool) -> int {
    if by_size {
        f.size_bytes as int
    } else {
        f.name@[0] as u32 as int
    }
}

/// The entries of `s` run by growing key.
pub open spec fn sorted_by_key(s: Seq<File>, by_size: bool) -> bool {
    forall|i: int, j: int| 0 <= i <= j < s.len() ==> sort_key(s[i], by_size) <= sort_key(s[j], by_size)
}

fn key_of(f: &File, by_size: bool) -> (k: i64)
    requires
        !by_size ==> f.name@.len() > 0,
    ensures
        k == sort_key(*f, by_size),
{
    if by_size {
        f.size_bytes
    } else {
        let c = f.name.as_str().get_char(0);
        (c as u32) as i64
    }
}

/// `files` sorted by growing size in bytes (`by_size`), or by the first character of
/// the name.
pub fn sort_files(files: Vec<File>, by_size: bool) -> (r: Vec<File>)
    requires
        !by_size ==> forall|i: int| 0 <= i < files@.len() ==> (#[trigger] files@[i]).name@.len() > 0,
    ensures
        r@.to_multiset() == files@.to_multiset(),
        sorted_by_key(r@, by_size),
{
    let ghost orig = files@;
    let n = files.len();
    let mut rest = crate::file::reversed(files);
    let mut r: Vec<File> = Vec::new();
    let mut i: usize = 0;
    while i < n
        invariant
            i <= n,
            n == orig.len(),
            rest@ == orig.skip(i as int).reverse(),
            !by_size ==> forall|k: int| 0 <= k < orig.len() ==> (#[trigger] orig[k]).name@.len() > 0,
            r@.to_multiset() == orig.take(i as int).to_multiset(),
            sorted_by_key(r@, by_size),
            forall|k: int| 0 <= k < r@.len() ==> orig.take(i as int).contains(#[trigger] r@[k]),
        decreases n - i,
    {
        assert(orig.skip(i as int).reverse().last() == orig[i as int]);
        let x = rest.pop().unwrap();
        assert(rest@ =~= orig.skip(i + 1).reverse());
        let kx = key_of(&x, by_size);
        let mut pos: usize = 0;
        while pos < r.len() && key_of(&r[pos], by_size) <= kx
            invariant
                pos <= r@.len(),
                forall|k: int| 0 <= k < pos ==> sort_key(r@[k], by_size) <= kx,
                !by_size ==> forall|k: int| 0 <= k < r@.len() ==> (#[trigger] r@[k]).name@.len() > 0,
            decreases r@.len() - pos,
        {
            pos = pos + 1;
        }
        let ghost before = r@;
        let ghost xv = x;
        r.insert(pos, x);
        assert(r@ == before.insert(pos as int, xv));
        assert(orig.take(i + 1) =~= orig.take(i as int).push(xv));
        assert(sorted_by_key(r@, by_size)) by {
            assert forall|a: int, b: int| 0 <= a <= b < r@.len() implies sort_key(r@[a], by_size)
                <= sort_key(r@[b], by_size) by {
                if a < pos && b > pos {
                    assert(r@[b] == before[b - 1]);
                } else if a == pos && b > pos {
                    assert(r@[b] == before[b - 1]);
                }
            }
        }
        assert forall|k: int| 0 <= k < r@.len() implies orig.take(i + 1).contains(#[trigger] r@[k]) by {
            if k < pos {
                assert(orig.take(i as int).contains(before[k]));
            } else if k > pos {
                assert(orig.take(i as int).contains(before[k - 1]));
            } else {
                assert(orig.take(i + 1)[i as int] == xv);
            }
        }
        i = i + 1;
    }
    assert(orig.take(n as int) =~= orig);
    r
}


/// Where `x` goes into the descending `s`: before the first smaller number.
pub open spec fn insert_pos(s: Seq<usize>, x: usize) -> int
    decreases s.len(),
{
    if s.len() == 0 {
        0
    } else if s[0] < x {
        0
    } else {
        1 + insert_pos(s.drop_first(), x)
    }
}

/// `x` inserted into the descending `s`, keeping it descending.
pub open spec fn insert_desc(s: Seq<usize>, x: usize) -> Seq<usize> {
    s.insert(insert_pos(s, x), x)
}

/// `s` sorted from the largest number down, by insertion.
pub open spec fn sorted_desc_of(s: Seq<usize>) -> Seq<usize>
    decreases s.len(),
{
    if s.len() == 0 {
        s
    } else {
        insert_desc(sorted_desc_of(s.drop_last()), s.last())
    }
}

proof fn lemma_insert_pos(s: Seq<usize>, x: usize)
    ensures
        0 <= insert_pos(s, x) <= s.len(),
        forall|k: int| 0 <= k < insert_pos(s, x) ==> s[k] >= x,
        insert_pos(s, x) < s.len() ==> s[insert_pos(s, x)] < x,
    decreases s.len(),
{
    if s.len() > 0 && s[0] >= x {
        lemma_insert_pos(s.drop_first(), x);
        assert forall|k: int| 0 <= k < insert_pos(s, x) implies s[k] >= x by {
            if k > 0 {
                assert(s[k] == s.drop_first()[k - 1]);
            }
        }
    }
}

proof fn lemma_insert_desc(s: Seq<usize>, x: usize)
    requires
        sorted_desc(s),
    ensures
        sorted_desc(insert_desc(s, x)),
        insert_desc(s, x).to_multiset() == s.to_multiset().insert(x),
        insert_desc(s, x).len() == s.len() + 1,
{
    lemma_insert_pos(s, x);
    let p = insert_pos(s, x);
    let r = insert_desc(s, x);
    assert forall|a: int, b: int| 0 <= a <= b < r.len() implies r[a] >= r[b] by {
        if a < p && b > p {
            assert(r[b] == s[b - 1]);
        } else if a == p && b > p {
            assert(r[b] == s[b - 1]);
        } else if a > p {
            assert(r[a] == s[a - 1]);
            assert(r[b] == s[b - 1]);
        }
    }
}

/// Sorting by insertion gives a descending permutation.
pub proof fn lemma_sorted_desc_of(s: Seq<usize>)
    ensures
        sorted_desc(sorted_desc_of(s)),
        sorted_desc_of(s).to_multiset() == s.to_multiset(),
        sorted_desc_of(s).len() == s.len(),
    decreases s.len(),
{
    if s.len() > 0 {
        lemma_sorted_desc_of(s.drop_last());
        lemma_insert_desc(sorted_desc_of(s.drop_last()), s.last());
        assert(s.drop_last().push(s.last()) =~= s);
    }
}

/// The number at position `k` of the descending `s` (or -1 past its end).
pub open spec fn at_or_below(s: Seq<usize>, k: int) -> int {
    if k < s.len() {
        s[k] as int
    } else {
        -1
    }
}

/// The number before position `k` of the descending `s` (or above any
/// number at its start).
pub open spec fn before_or_above(s: Seq<usize>, k: int) -> int {
    if k == 0 {
        usize::MAX + 1
    } else {
        s[k - 1] as int
    }
}

proof fn lemma_insert_desc_at(s: Seq<usize>, x: usize, k: int)
    requires
        sorted_desc(s),
        0 <= k <= s.len(),
    ensures
        insert_desc(s, x)[k] as int == {
            let m = if before_or_above(s, k) < x { before_or_above(s, k) } else { x as int };
            if at_or_below(s, k) > m {
                at_or_below(s, k)
            } else {
                m
            }
        },
{
    lemma_insert_pos(s, x);
    let p = insert_pos(s, x);
    if k > p {
        assert(s[k - 1] <= s[p]);
        if k < s.len() {
            assert(s[k] <= s[k - 1]);
        }
    } else if k < p {
        if k > 0 {
            assert(s[k - 1] >= s[k]);
        }
    }
}

/// Sorting keeps a pointwise order: where every number of `b` is at most
/// the number of `a` at its position, so is every number of `b` sorted.
pub proof fn law_sorted_desc_of_monotone(a: Seq<usize>, b: Seq<usize>)
    requires
        a.len() == b.len(),
        forall|i: int| 0 <= i < a.len() ==> b[i] <= a[i],
    ensures
        forall|k: int| 0 <= k < a.len() ==> sorted_desc_of(b)[k] <= sorted_desc_of(a)[k],
    decreases a.len(),
{
    if a.len() > 0 {
        law_sorted_desc_of_monotone(a.drop_last(), b.drop_last());
        let sa = sorted_desc_of(a.drop_last());
        let sb = sorted_desc_of(b.drop_last());
        lemma_sorted_desc_of(a.drop_last());
        lemma_sorted_desc_of(b.drop_last());
        assert forall|k: int| 0 <= k < a.len() implies sorted_desc_of(b)[k] <= sorted_desc_of(a)[k] by {
            lemma_insert_desc_at(sa, a.last(), k);
            lemma_insert_desc_at(sb, b.last(), k);
        }
    }
}

} // verus!
