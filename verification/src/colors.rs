//! Colors, their hexadecimal notation, and the color scheme that paints text.
use vstd::prelude::*;
use vstd::utf8::{
    encode_utf8, encode_utf8_valid_utf8, is_ascii_chars, is_ascii_chars_encode_utf8, is_char_boundary,
    is_char_boundary_iff_not_is_continuation_byte,
};
use crate::text::{decimal, digit_char};

verus! {

/// A color given by its red, green and blue parts, or by six hexadecimal digits.
pub enum Color {
    RGB { r: u8, g: u8, b: u8 },
    Hex(String),
}

/// Value of one hexadecimal digit byte (`0-9`, `a-f`, `A-F`).
pub open spec fn hex_digit_value(b: u8) -> Option<u8> {
    if 48 <= b <= 57 {
        Some((b - 48) as u8)
    } else if 97 <= b <= 102 {
        Some((b - 87) as u8)
    } else if 65 <= b <= 70 {
        Some((b - 55) as u8)
    } else {
        None
    }
}

/// What `u8::from_str_radix(s, 16)` gives for a string of the two bytes `b0 b1`:
/// two hexadecimal digits, or a `+` sign and one digit.
pub open spec fn hex_pair_value(b0: u8, b1: u8) -> Option<u8> {
    match (hex_digit_value(b0), hex_digit_value(b1)) {
        (Some(h), Some(l)) => Some((16 * h + l) as u8),
        (None, Some(l)) => if b0 == 43 { Some(l) } else { None },
        _ => None,
    }
}

/// The color that six bytes of hexadecimal notation denote, if they do.
pub open spec fn hex_color_value(bytes: Seq<u8>) -> Option<(u8, u8, u8)> {
    if bytes.len() == 6 {
        match (
            hex_pair_value(bytes[0], bytes[1]),
            hex_pair_value(bytes[2], bytes[3]),
            hex_pair_value(bytes[4], bytes[5]),
        ) {
            (Some(r), Some(g), Some(b)) => Some((r, g, b)),
            _ => None,
        }
    } else {
        None
    }
}

impl Color {
    /// The red, green and blue parts of the color, if it has a valid notation.
    pub open spec fn spec_convert(self) -> Option<(u8, u8, u8)> {
        match self {
            Color::RGB { r, g, b } => Some((r, g, b)),
            Color::Hex(hex) => hex_color_value(encode_utf8(hex@)),
        }
    }

    /// A hexadecimal notation of six bytes is cut into three pairs of bytes;
    /// this holds unless one of the cuts falls inside a character.
    pub open spec fn cuts_cleanly(self) -> bool {
        match self {
            Color::RGB { .. } => true,
            Color::Hex(hex) => {
                let bytes = encode_utf8(hex@);
                bytes.len() == 6 ==> is_char_boundary(bytes, 2) && is_char_boundary(bytes, 4)
            },
        }
    }

    /// The red, green and blue parts of the color: given directly, or read
    /// from six hexadecimal digits (`None` where the notation is not valid).
    pub fn convert(&self) -> (res: Option<(u8, u8, u8)>)
        requires
            self.cuts_cleanly(),
        ensures
            res == self.spec_convert(),
    {
        match self {
            Color::RGB { r, g, b } => Some((*r, *g, *b)),
            Color::Hex(hex) => {
                let bytes = hex.as_str().as_bytes();
                if bytes.len() == 6 {
                    let r = hex_pair(bytes[0], bytes[1]);
                    let g = hex_pair(bytes[2], bytes[3]);
                    let b = hex_pair(bytes[4], bytes[5]);
                    match (r, g, b) {
                        (Some(r), Some(g), Some(b)) => Some((r, g, b)),
                        _ => None,
                    }
                } else {
                    None
                }
            },
        }
    }
}

fn hex_digit(b: u8) -> (res: Option<u8>)
    ensures
        res == hex_digit_value(b),
{
    if 48 <= b && b <= 57 {
        Some(b - 48)
    } else if 97 <= b && b <= 102 {
        Some(b - 87)
    } else if 65 <= b && b <= 70 {
        Some(b - 55)
    } else {
        None
    }
}

fn hex_pair(b0: u8, b1: u8) -> (res: Option<u8>)
    ensures
        res == hex_pair_value(b0, b1),
{
    match (hex_digit(b0), hex_digit(b1)) {
        (Some(h), Some(l)) => Some(16 * h + l),
        (None, Some(l)) => if b0 == 43 { Some(l) } else { None },
        _ => None,
    }
}

/// The escape sequence that ends a painted text.
pub open spec fn reset_sequence() -> Seq<char> {
    seq!['\x1b', '[', '0', 'm']
}

/// `t` holds the reset sequence somewhere.
pub open spec fn contains_reset(t: Seq<char>) -> bool {
    exists|i: int| 0 <= i && i + 4 <= t.len() && #[trigger] t.subrange(i, i + 4) == reset_sequence()
}

/// The code of a 24-bit foreground color: `38;2;r;g;b`.
pub open spec fn truecolor_code(rgb: (u8, u8, u8)) -> Seq<char> {
    seq!['3', '8', ';', '2', ';'] + decimal(rgb.0 as nat) + seq![';'] + decimal(rgb.1 as nat)
        + seq![';'] + decimal(rgb.2 as nat)
}

/// The red, green and blue parts of the `i`-th of the sixteen basic colors
/// (black, red, green, yellow, blue, magenta, cyan, white, then their bright
/// forms), as the terminal is taken to show them.
pub open spec fn basic_rgb(i: int) -> (int, int, int) {
    if i == 0 {
        (0, 0, 0)
    } else if i == 1 {
        (205, 0, 0)
    } else if i == 2 {
        (0, 205, 0)
    } else if i == 3 {
        (205, 205, 0)
    } else if i == 4 {
        (0, 0, 238)
    } else if i == 5 {
        (205, 0, 205)
    } else if i == 6 {
        (0, 205, 205)
    } else if i == 7 {
        (229, 229, 229)
    } else if i == 8 {
        (127, 127, 127)
    } else if i == 9 {
        (255, 0, 0)
    } else if i == 10 {
        (0, 255, 0)
    } else if i == 11 {
        (255, 255, 0)
    } else if i == 12 {
        (92, 92, 255)
    } else if i == 13 {
        (255, 0, 255)
    } else if i == 14 {
        (0, 255, 255)
    } else {
        (255, 255, 255)
    }
}

/// The code of the `i`-th basic foreground color: `30`-`37`, then `90`-`97`.
pub open spec fn basic_code(i: int) -> Seq<char> {
    seq![if i < 8 { '3' } else { '9' }, digit_char((i % 8) as nat)]
}

/// The squared distance between `rgb` and the `i`-th basic color.
pub open spec fn basic_distance(i: int, rgb: (u8, u8, u8)) -> int {
    let c = basic_rgb(i);
    (c.0 - rgb.0) * (c.0 - rgb.0) + (c.1 - rgb.1) * (c.1 - rgb.1) + (c.2 - rgb.2) * (c.2 - rgb.2)
}

/// The first of the first `n` basic colors nearest to `rgb`.
pub open spec fn nearest_basic(rgb: (u8, u8, u8), n: nat) -> int
    decreases n,
{
    if n <= 1 {
        0
    } else {
        let b = nearest_basic(rgb, (n - 1) as nat);
        if basic_distance(n - 1, rgb) < basic_distance(b, rgb) {
            n - 1
        } else {
            b
        }
    }
}

/// `out` is `text` painted in the color `rgb`: either `text` itself (where the
/// environment asks for no colors), or `text` between the escape sequence that
/// selects the color (24-bit, or, where the terminal does not announce 24-bit
/// colors, the first basic color at the least squared distance) and the reset
/// sequence.
pub open spec fn is_painting(out: Seq<char>, text: Seq<char>, rgb: (u8, u8, u8)) -> bool {
    ||| out == text
    ||| exists|code: Seq<char>, body: Seq<char>|
        {
            &&& (code == truecolor_code(rgb) || code == basic_code(nearest_basic(rgb, 16)))
            &&& (!contains_reset(text) ==> body == text)
            &&& out == seq!['\x1b', '['] + code + seq!['m'] + body + reset_sequence()
        }
}

/// Paints `text` with `colored`: `format!("{}", text.truecolor(r, g, b))`.
/// The contract claims the two forms that `colored`'s `Display` writes: the
/// bare text when colors are off (by the environment or the terminal), else the
/// text between the color's escape sequence (`38;2;r;g;b`, or, when
/// `COLORTERM` does not announce 24-bit colors, the code of the first of the
/// sixteen basic colors at the least squared distance) and the reset sequence.
/// Left unsaid: how reset sequences inside the text are followed by the
/// color's sequence again.
#[verifier::external_body]
fn paint(text: &str, r: u8, g: u8, b: u8) -> (out: String)
    ensures
        is_painting(out@, text@, (r, g, b)),
{
    format!("{}", colored::Colorize::truecolor(text, r, g, b))
}

/// The color the first entry named `name` holds.
pub open spec fn lookup(entries: Seq<(String, Color)>, name: Seq<char>) -> Option<Color>
    decreases entries.len(),
{
    if entries.len() == 0 {
        None
    } else if entries[0].0@ == name {
        Some(entries[0].1)
    } else {
        lookup(entries.drop_first(), name)
    }
}

proof fn lemma_lookup_found(entries: Seq<(String, Color)>, name: Seq<char>, i: int)
    requires
        0 <= i < entries.len(),
        entries[i].0@ == name,
        forall|j: int| 0 <= j < i ==> entries[j].0@ != name,
    ensures
        lookup(entries, name) == Some(entries[i].1),
    decreases i,
{
    if i > 0 {
        lemma_lookup_found(entries.drop_first(), name, i - 1);
    }
}

proof fn lemma_lookup_absent(entries: Seq<(String, Color)>, name: Seq<char>)
    requires
        forall|j: int| 0 <= j < entries.len() ==> entries[j].0@ != name,
    ensures
        lookup(entries, name) == None::<Color>,
    decreases entries.len(),
{
    if entries.len() > 0 {
        lemma_lookup_absent(entries.drop_first(), name);
    }
}

proof fn lemma_lookup_update(
    entries: Seq<(String, Color)>,
    i: int,
    entry: (String, Color),
    key: Seq<char>,
)
    requires
        0 <= i < entries.len(),
        entries[i].0@ == entry.0@,
        forall|j: int| 0 <= j < i ==> entries[j].0@ != entry.0@,
    ensures
        lookup(entries.update(i, entry), key) == if key == entry.0@ {
            Some(entry.1)
        } else {
            lookup(entries, key)
        },
    decreases i,
{
    let updated = entries.update(i, entry);
    if i == 0 {
        assert(updated.drop_first() =~= entries.drop_first());
    } else {
        assert(updated.drop_first() =~= entries.drop_first().update(i - 1, entry));
        lemma_lookup_update(entries.drop_first(), i - 1, entry, key);
    }
}

proof fn lemma_lookup_push(entries: Seq<(String, Color)>, entry: (String, Color), key: Seq<char>)
    requires
        forall|j: int| 0 <= j < entries.len() ==> entries[j].0@ != entry.0@,
    ensures
        lookup(entries.push(entry), key) == if key == entry.0@ {
            Some(entry.1)
        } else {
            lookup(entries, key)
        },
    decreases entries.len(),
{
    let pushed = entries.push(entry);
    if entries.len() > 0 {
        assert(pushed.drop_first() =~= entries.drop_first().push(entry));
        lemma_lookup_push(entries.drop_first(), entry, key);
    } else {
        assert(pushed.drop_first() =~= entries);
    }
}

/// The colors of the program's elements, found by the element's name.
pub struct ColorScheme {
    pub colors: Vec<(String, Color)>,
}

impl ColorScheme {
    /// The color that the scheme gives `name`.
    pub open spec fn color_of(self, name: Seq<char>) -> Option<Color> {
        lookup(self.colors@, name)
    }

    /// `name` has a color whose notation is valid, so text can be painted in it.
    pub open spec fn resolves(self, name: Seq<char>) -> bool {
        match self.color_of(name) {
            Some(c) => c.cuts_cleanly() && c.spec_convert() is Some,
            None => false,
        }
    }

    /// The red, green and blue parts of the color of `name`.
    pub open spec fn rgb_of(self, name: Seq<char>) -> (u8, u8, u8) {
        self.color_of(name).unwrap().spec_convert().unwrap()
    }

    /// An empty scheme.
    pub fn new() -> (scheme: ColorScheme)
        ensures
            scheme.colors@.len() == 0,
            forall|name: Seq<char>| #[trigger] scheme.color_of(name) == None::<Color>,
    {
        ColorScheme { colors: Vec::new() }
    }

    fn find(&self, name: &String) -> (res: Option<usize>)
        ensures
            match res {
                Some(i) => {
                    &&& i < self.colors@.len()
                    &&& self.colors@[i as int].0@ == name@
                    &&& forall|j: int| 0 <= j < i ==> self.colors@[j].0@ != name@
                },
                None => forall|j: int|
                    0 <= j < self.colors@.len() ==> self.colors@[j].0@ != name@,
            },
    {
        let n = self.colors.len();
        let mut i: usize = 0;
        while i < n
            invariant
                i <= n,
                n == self.colors@.len(),
                forall|j: int| 0 <= j < i ==> self.colors@[j].0@ != name@,
            decreases n - i,
        {
            if self.colors[i].0 == *name {
                return Some(i);
            }
            i = i + 1;
        }
        None
    }

    /// Gives the element `elem_name` the color `(r, g, b)`, in place of any
    /// color it had.
    pub fn add_rgb(&mut self, elem_name: String, r: u8, g: u8, b: u8)
        ensures
            forall|name: Seq<char>| #[trigger]
                final(self).color_of(name) == if name == elem_name@ {
                    Some(Color::RGB { r, g, b })
                } else {
                    old(self).color_of(name)
                },
    {
        let ghost entry = (elem_name, Color::RGB { r, g, b });
        match self.find(&elem_name) {
            Some(i) => {
                self.colors[i] = (elem_name, Color::RGB { r, g, b });
                proof {
                    assert forall|name: Seq<char>| #[trigger]
                        self.color_of(name) == if name == entry.0@ {
                            Some(entry.1)
                        } else {
                            old(self).color_of(name)
                        } by {
                        lemma_lookup_update(old(self).colors@, i as int, entry, name);
                        assert(self.colors@ =~= old(self).colors@.update(i as int, entry));
                    }
                }
            },
            None => {
                self.colors.push((elem_name, Color::RGB { r, g, b }));
                proof {
                    assert forall|name: Seq<char>| #[trigger]
                        self.color_of(name) == if name == entry.0@ {
                            Some(entry.1)
                        } else {
                            old(self).color_of(name)
                        } by {
                        lemma_lookup_push(old(self).colors@, entry, name);
                        assert(self.colors@ =~= old(self).colors@.push(entry));
                    }
                }
            },
        }
    }

    /// `text` painted in the color of the element `elem_name`.
    pub fn parse_text(&self, elem_name: String, text: &str) -> (out: String)
        requires
            self.resolves(elem_name@),
        ensures
            is_painting(out@, text@, self.rgb_of(elem_name@)),
    {
        match self.find(&elem_name) {
            Some(i) => {
                proof {
                    lemma_lookup_found(self.colors@, elem_name@, i as int);
                }
                match self.colors[i].1.convert() {
                    Some((r, g, b)) => paint(text, r, g, b),
                    None => String::new(),
                }
            },
            None => {
                proof {
                    lemma_lookup_absent(self.colors@, elem_name@);
                }
                String::new()
            },
        }
    }
}

impl Default for ColorScheme {
    fn default() -> (scheme: Self)
        ensures
            forall|name: Seq<char>| #[trigger] scheme.color_of(name) == None::<Color>,
    {
        Self::new()
    }
}


/// The lower-case hexadecimal digit of `d` (below 16).
pub open spec fn hex_char(d: u8) -> char {
    if d < 10 {
        ((48 + d) as u8) as char
    } else {
        ((87 + d) as u8) as char
    }
}

/// The six-digit lower-case hexadecimal notation of a color.
pub open spec fn hex_notation(rgb: (u8, u8, u8)) -> Seq<char> {
    seq![
        hex_char(rgb.0 / 16), hex_char(rgb.0 % 16),
        hex_char(rgb.1 / 16), hex_char(rgb.1 % 16),
        hex_char(rgb.2 / 16), hex_char(rgb.2 % 16),
    ]
}

proof fn lemma_hex_char_value(d: u8)
    requires
        d < 16,
    ensures
        '\0' <= hex_char(d) <= '\u{7f}',
        hex_digit_value(hex_char(d) as u8) == Some(d),
{
}

/// The six-digit hexadecimal notation of a color, in the digits `digit`.
pub open spec fn hex_notation_in(rgb: (u8, u8, u8), digit: spec_fn(u8) -> char) -> Seq<char> {
    seq![
        digit(rgb.0 / 16), digit(rgb.0 % 16),
        digit(rgb.1 / 16), digit(rgb.1 % 16),
        digit(rgb.2 / 16), digit(rgb.2 % 16),
    ]
}

/// Six ASCII hexadecimal digits that the digit function `digit` writes are
/// read back as the color they denote.
proof fn lemma_hex_round_trip(hex: String, rgb: (u8, u8, u8), digit: spec_fn(u8) -> char)
    requires
        hex@ == hex_notation_in(rgb, digit),
        forall|d: u8| d < 16 ==> '\0' <= #[trigger] digit(d) <= '\u{7f}' && hex_digit_value(digit(d) as u8) == Some(d),
    ensures
        Color::Hex(hex).cuts_cleanly(),
        Color::Hex(hex).spec_convert() == Some(rgb),
{
    let chars = hex@;
    assert('\0' <= digit(rgb.0 / 16) <= '\u{7f}');
    assert('\0' <= digit(rgb.0 % 16) <= '\u{7f}');
    assert('\0' <= digit(rgb.1 / 16) <= '\u{7f}');
    assert('\0' <= digit(rgb.1 % 16) <= '\u{7f}');
    assert('\0' <= digit(rgb.2 / 16) <= '\u{7f}');
    assert('\0' <= digit(rgb.2 % 16) <= '\u{7f}');
    assert(is_ascii_chars(chars));
    is_ascii_chars_encode_utf8(chars);
    let bytes = encode_utf8(chars);
    assert(bytes.len() == 6);
    assert forall|i: int| 0 <= i < 6 implies bytes[i] == chars[i] as u8 by {}
    encode_utf8_valid_utf8(chars);
    is_char_boundary_iff_not_is_continuation_byte(bytes, 2);
    is_char_boundary_iff_not_is_continuation_byte(bytes, 4);
    assert(hex_pair_value(bytes[0], bytes[1]) == Some(rgb.0));
    assert(hex_pair_value(bytes[2], bytes[3]) == Some(rgb.1));
    assert(hex_pair_value(bytes[4], bytes[5]) == Some(rgb.2));
}

/// A color written in six lower-case hexadecimal digits is read back as the
/// same color, as the one given by its parts is.
pub proof fn law_hex_notation_round_trip(hex: String, rgb: (u8, u8, u8))
    requires
        hex@ == hex_notation(rgb),
    ensures
        Color::Hex(hex).cuts_cleanly(),
        Color::Hex(hex).spec_convert() == Some(rgb),
        Color::Hex(hex).spec_convert() == (Color::RGB { r: rgb.0, g: rgb.1, b: rgb.2 }).spec_convert(),
{
    let digit = |d: u8| hex_char(d);
    assert forall|d: u8| d < 16 implies '\0' <= #[trigger] digit(d) <= '\u{7f}' && hex_digit_value(digit(d) as u8) == Some(d) by {
        lemma_hex_char_value(d);
    }
    assert(hex_notation_in(rgb, digit) =~= hex_notation(rgb));
    lemma_hex_round_trip(hex, rgb, digit);
}

/// An element given a color by its parts can be painted, and is painted in
/// exactly those parts.
pub proof fn law_rgb_color_paints_as_given(scheme: ColorScheme, name: Seq<char>, r: u8, g: u8, b: u8)
    requires
        scheme.color_of(name) == Some(Color::RGB { r, g, b }),
    ensures
        scheme.resolves(name),
        scheme.rgb_of(name) == (r, g, b),
{
}


/// The upper-case hexadecimal digit of `d` (below 16).
pub open spec fn hex_char_upper(d: u8) -> char {
    if d < 10 {
        ((48 + d) as u8) as char
    } else {
        ((55 + d) as u8) as char
    }
}

/// The six-digit upper-case hexadecimal notation of a color.
pub open spec fn hex_notation_upper(rgb: (u8, u8, u8)) -> Seq<char> {
    seq![
        hex_char_upper(rgb.0 / 16), hex_char_upper(rgb.0 % 16),
        hex_char_upper(rgb.1 / 16), hex_char_upper(rgb.1 % 16),
        hex_char_upper(rgb.2 / 16), hex_char_upper(rgb.2 % 16),
    ]
}

proof fn lemma_hex_char_upper_value(d: u8)
    requires
        d < 16,
    ensures
        '\0' <= hex_char_upper(d) <= '\u{7f}',
        hex_digit_value(hex_char_upper(d) as u8) == Some(d),
{
}

/// A color written in six upper-case hexadecimal digits is read back as the
/// same color, as the one given by its parts is.
pub proof fn law_hex_upper_notation_round_trip(hex: String, rgb: (u8, u8, u8))
    requires
        hex@ == hex_notation_upper(rgb),
    ensures
        Color::Hex(hex).cuts_cleanly(),
        Color::Hex(hex).spec_convert() == Some(rgb),
        Color::Hex(hex).spec_convert() == (Color::RGB { r: rgb.0, g: rgb.1, b: rgb.2 }).spec_convert(),
{
    let digit = |d: u8| hex_char_upper(d);
    assert forall|d: u8| d < 16 implies '\0' <= #[trigger] digit(d) <= '\u{7f}' && hex_digit_value(digit(d) as u8) == Some(d) by {
        lemma_hex_char_upper_value(d);
    }
    assert(hex_notation_in(rgb, digit) =~= hex_notation_upper(rgb));
    lemma_hex_round_trip(hex, rgb, digit);
}

/// What follows the first `m` of `s` (the end of an escape sequence), or
/// nothing where `s` has no `m`.
pub open spec fn after_sequence_end(s: Seq<char>) -> Seq<char>
    decreases s.len(),
{
    if s.len() == 0 {
        s
    } else if s[0] == 'm' {
        s.drop_first()
    } else {
        after_sequence_end(s.drop_first())
    }
}

/// Skipping an escape sequence never lengthens the text.
pub proof fn lemma_after_sequence_end_len(s: Seq<char>)
    ensures
        after_sequence_end(s).len() <= s.len(),
    decreases s.len(),
{
    if s.len() > 0 && s[0] != 'm' {
        lemma_after_sequence_end_len(s.drop_first());
    }
}

/// `s` with its escape sequences (from an escape character up to the next
/// `m`) removed: the text a terminal shows of it.
pub open spec fn strip_escapes(s: Seq<char>) -> Seq<char>
    decreases s.len(),
{
    if s.len() == 0 {
        s
    } else if s[0] == '\x1b' {
        proof {
            lemma_after_sequence_end_len(s.drop_first());
        }
        strip_escapes(after_sequence_end(s.drop_first()))
    } else {
        seq![s[0]] + strip_escapes(s.drop_first())
    }
}

/// `s` holds no escape character.
pub open spec fn no_escape(s: Seq<char>) -> bool {
    forall|i: int| 0 <= i < s.len() ==> s[i] != '\x1b'
}

proof fn lemma_after_sequence_end_skips(p: Seq<char>, q: Seq<char>)
    requires
        forall|i: int| 0 <= i < p.len() ==> p[i] != 'm',
    ensures
        after_sequence_end(p + seq!['m'] + q) == q,
    decreases p.len(),
{
    let s = p + seq!['m'] + q;
    if p.len() == 0 {
        assert(s.drop_first() =~= q);
    } else {
        assert(s.drop_first() =~= p.drop_first() + seq!['m'] + q);
        lemma_after_sequence_end_skips(p.drop_first(), q);
    }
}

proof fn lemma_strip_plain_prefix(t: Seq<char>, u: Seq<char>)
    requires
        no_escape(t),
    ensures
        strip_escapes(t + u) == t + strip_escapes(u),
    decreases t.len(),
{
    if t.len() == 0 {
        assert(t + u =~= u);
        assert(t + strip_escapes(u) =~= strip_escapes(u));
    } else {
        assert((t + u).drop_first() =~= t.drop_first() + u);
        lemma_strip_plain_prefix(t.drop_first(), u);
        assert(t + strip_escapes(u) =~= seq![t[0]] + (t.drop_first() + strip_escapes(u)));
    }
}

proof fn lemma_digit_char(d: nat)
    requires
        d < 10,
    ensures
        digit_char(d) != 'm',
        digit_char(d) != '\x1b',
{
    assert(((48 + d) as u8) as u32 == 48 + d);
    vstd::utf8::char_u32_cast(digit_char(d), digit_char(d) as u32);
}

proof fn lemma_decimal_digits(n: nat)
    ensures
        forall|i: int| 0 <= i < decimal(n).len() ==> #[trigger] decimal(n)[i] != 'm',
    decreases n,
{
    if n >= 10 {
        lemma_decimal_digits(n / 10);
        lemma_digit_char(n % 10);
        let prev = decimal(n / 10);
        assert forall|i: int| 0 <= i < decimal(n).len() implies #[trigger] decimal(n)[i] != 'm' by {
            if i < prev.len() {
                assert(decimal(n)[i] == prev[i]);
            }
        }
    } else {
        lemma_digit_char(n);
    }
}

/// Removing the escape sequences from a painting of a text without escape
/// characters gives the text back.
pub proof fn law_painting_strips_to_text(out: Seq<char>, text: Seq<char>, rgb: (u8, u8, u8))
    requires
        is_painting(out, text, rgb),
        no_escape(text),
    ensures
        strip_escapes(out) == text,
{
    lemma_strip_plain_prefix(text, seq![]);
    assert(text + seq![] =~= text);
    if out != text {
        let (code, body) = choose|code: Seq<char>, body: Seq<char>|
            {
                &&& (code == truecolor_code(rgb) || code == basic_code(nearest_basic(rgb, 16)))
                &&& (!contains_reset(text) ==> body == text)
                &&& out == seq!['\x1b', '['] + code + seq!['m'] + body + reset_sequence()
            };
        assert(!contains_reset(text)) by {
            if contains_reset(text) {
                let i = choose|i: int| 0 <= i && i + 4 <= text.len() && #[trigger] text.subrange(i, i + 4) == reset_sequence();
                assert(text.subrange(i, i + 4)[0] == text[i]);
            }
        }
        lemma_decimal_digits(rgb.0 as nat);
        lemma_decimal_digits(rgb.1 as nat);
        lemma_decimal_digits(rgb.2 as nat);
        let p = seq!['['] + code;
        assert forall|i: int| 0 <= i < p.len() implies p[i] != 'm' by {
            if i > 0 {
                assert(p[i] == code[i - 1]);
                if code == truecolor_code(rgb) {
                    let d0 = decimal(rgb.0 as nat);
                    let d1 = decimal(rgb.1 as nat);
                    let d2 = decimal(rgb.2 as nat);
                    assert(code =~= seq!['3', '8', ';', '2', ';'] + d0 + seq![';'] + d1 + seq![';'] + d2);
                    let k = i - 1;
                    if k >= 5 && k < 5 + d0.len() {
                        assert(code[k] == d0[k - 5]);
                    } else if k >= 6 + d0.len() && k < 6 + d0.len() + d1.len() {
                        assert(code[k] == d1[k - 6 - d0.len()]);
                    } else if k >= 7 + d0.len() + d1.len() {
                        assert(code[k] == d2[k - 7 - d0.len() - d1.len()]);
                    }
                }
            }
        }
        let rest = text + reset_sequence();
        assert(out.drop_first() =~= p + seq!['m'] + rest);
        lemma_after_sequence_end_skips(p, rest);
        lemma_strip_plain_prefix(text, reset_sequence());
        let r = reset_sequence();
        assert(r.drop_first() =~= seq!['['] + seq!['0'] + seq!['m'] + Seq::<char>::empty());
        lemma_after_sequence_end_skips(seq!['[', '0'], Seq::<char>::empty());
        assert(seq!['['] + seq!['0'] + seq!['m'] + Seq::<char>::empty() =~= seq!['[', '0'] + seq!['m'] + Seq::<char>::empty());
        assert(strip_escapes(r) == strip_escapes(Seq::<char>::empty()));
    }
}

} // verus!
