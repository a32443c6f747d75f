//! Decimal rendering and fixed-width padding of text.
use vstd::prelude::*;
use vstd::string::*;

verus! {

/// The character of a decimal digit.
pub open spec fn digit_char(d: nat) -> char {
    ((48 + d) as u8) as char
}

/// Decimal notation of a natural number, without leading zeros.
pub open spec fn decimal(n: nat) -> Seq<char>
    decreases n,
{
    if n < 10 {
        seq![digit_char(n)]
    } else {
        decimal(n / 10).push(digit_char(n % 10))
    }
}

/// Appends one character; `String::push`.
#[verifier::external_body]
pub(crate) fn push_char(s: &mut String, c: char)
    ensures
        final(s)@ == old(s)@.push(c),
{
    s.push(c)
}

fn push_decimal(s: &mut String, n: u64)
    ensures
        final(s)@ == old(s)@ + decimal(n as nat),
    decreases n,
{
    if n < 10 {
        let d: u8 = n as u8;
        push_char(s, (48u8 + d) as char);
        assert(old(s)@.push(digit_char(n as nat)) =~= old(s)@ + decimal(n as nat));
    } else {
        push_decimal(s, n / 10);
        let d: u8 = (n % 10) as u8;
        push_char(s, (48u8 + d) as char);
        assert(old(s)@ + decimal(n as nat) =~= old(s)@ + decimal((n / 10) as nat) + seq![digit_char((n % 10) as nat)]);
    }
}

/// Decimal notation of `n`, as `n.to_string()` writes it.
pub fn u64_to_text(n: u64) -> (s: String)
    ensures
        s@ == decimal(n as nat),
{
    let mut s = String::new();
    push_decimal(&mut s, n);
    assert(s@ =~= decimal(n as nat));
    s
}


/// Decimal notation of a signed number: a minus sign before the digits of a negative one.
pub open spec fn signed_decimal(v: int) -> Seq<char> {
    if v < 0 {
        seq!['-'] + decimal((-v) as nat)
    } else {
        decimal(v as nat)
    }
}

/// Decimal notation of `n`, as `n.to_string()` writes it.
pub fn i64_to_text(n: i64) -> (s: String)
    ensures
        s@ == signed_decimal(n as int),
{
    let mut s = String::new();
    if n < 0 {
        push_char(&mut s, '-');
        let m: u64 = (0i128 - (n as i128)) as u64;
        push_decimal(&mut s, m);
        assert(s@ =~= signed_decimal(n as int));
    } else {
        push_decimal(&mut s, n as u64);
        assert(s@ =~= signed_decimal(n as int));
    }
    s
}

/// `n` spaces.
pub open spec fn spaces(n: nat) -> Seq<char> {
    Seq::new(n, |_i: int| ' ')
}

/// `s` left-aligned in a field of `w` characters (`{:<w$}`).
pub open spec fn pad_after(s: Seq<char>, w: nat) -> Seq<char> {
    if s.len() < w {
        s + spaces((w - s.len()) as nat)
    } else {
        s
    }
}

/// `s` right-aligned in a field of `w` characters (`{:>w$}`).
pub open spec fn pad_before(s: Seq<char>, w: nat) -> Seq<char> {
    if s.len() < w {
        spaces((w - s.len()) as nat) + s
    } else {
        s
    }
}

/// `s` centered in a field of `w` characters (`{:^w$}`): of an odd padding the
/// extra space goes after the text.
pub open spec fn pad_center(s: Seq<char>, w: nat) -> Seq<char> {
    if s.len() < w {
        let p = (w - s.len()) as nat;
        spaces(p / 2) + s + spaces((p + 1) / 2)
    } else {
        s
    }
}

/// Number of bytes of the UTF-8 encoding of `s` (what `str::len` counts; a
/// string held in memory has fewer bytes than `usize::MAX`).
pub open spec fn byte_len(s: Seq<char>) -> usize {
    vstd::utf8::encode_utf8(s).len() as usize
}

/// Byte length of a string.
pub fn text_bytes(s: &String) -> (n: usize)
    ensures
        n == byte_len(s@),
{
    s.as_str().len()
}

/// Appends `n` spaces.
pub fn push_spaces(s: &mut String, n: usize)
    ensures
        final(s)@ == old(s)@ + spaces(n as nat),
{
    let mut i: usize = 0;
    while i < n
        invariant
            i <= n,
            s@ == old(s)@ + spaces(i as nat),
        decreases n - i,
    {
        push_char(s, ' ');
        assert(old(s)@ + spaces((i + 1) as nat) =~= old(s)@ + spaces(i as nat) + seq![' ']);
        i = i + 1;
    }
}

/// Appends a whole string.
pub fn push_text(s: &mut String, t: &str)
    ensures
        final(s)@ == old(s)@ + t@,
{
    s.append(t);
}

/// Appends `t` left-aligned in a field of `w` characters.
pub fn push_padded_after(s: &mut String, t: &str, w: usize)
    ensures
        final(s)@ == old(s)@ + pad_after(t@, w as nat),
{
    let n = t.unicode_len();
    push_text(s, t);
    if n < w {
        push_spaces(s, w - n);
    }
    assert(s@ =~= old(s)@ + pad_after(t@, w as nat));
}

/// Appends `t` right-aligned in a field of `w` characters.
pub fn push_padded_before(s: &mut String, t: &str, w: usize)
    ensures
        final(s)@ == old(s)@ + pad_before(t@, w as nat),
{
    let n = t.unicode_len();
    if n < w {
        push_spaces(s, w - n);
    }
    push_text(s, t);
    assert(s@ =~= old(s)@ + pad_before(t@, w as nat));
}

/// Appends `t` centered in a field of `w` characters.
pub fn push_centered(s: &mut String, t: &str, w: usize)
    ensures
        final(s)@ == old(s)@ + pad_center(t@, w as nat),
{
    let n = t.unicode_len();
    if n < w {
        let p = w - n;
        push_spaces(s, p / 2);
        push_text(s, t);
        push_spaces(s, p - p / 2);
        assert(p - p / 2 == (p + 1) / 2);
    } else {
        push_text(s, t);
    }
    assert(s@ =~= old(s)@ + pad_center(t@, w as nat));
}

} // verus!
