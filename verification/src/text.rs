//! Small string utilities shared by the rest of the crate.

use vstd::prelude::*;
use vstd::string::*;
use vstd::utf8::is_ascii_chars;

verus! {

/// Appends one character to a string.
///
/// Trusted: wraps `String::push`, which adds `c` after the last character and
/// changes nothing else.
#[verifier::external_body]
pub(crate) fn push_char(s: &mut String, c: char)
    ensures
        final(s)@ == old(s)@.push(c),
{
    s.push(c)
}

/// The characters of `s` with `n` spaces after them.
pub open spec fn with_spaces(s: Seq<char>, n: nat) -> Seq<char> {
    s + Seq::new(n, |i: int| ' ')
}

/// `s` left-aligned in a field of `width` characters: spaces are added on the
/// right until the field is full; a longer `s` is kept whole.
pub open spec fn padded(s: Seq<char>, width: nat) -> Seq<char> {
    if s.len() >= width {
        s
    } else {
        with_spaces(s, (width - s.len()) as nat)
    }
}

/// Left-aligns `s` in a field of `width` characters.
pub fn pad_right(s: &str, width: usize) -> (r: String)
    ensures
        r@ == padded(s@, width as nat),
{
    let mut r = String::from_str(s);
    let len = s.unicode_len();
    let mut n: usize = len;
    while n < width
        invariant
            len == s@.len(),
            len <= n,
            n == len || n <= width,
            r@ == with_spaces(s@, (n - len) as nat),
        decreases width - n,
    {
        push_char(&mut r, ' ');
        n = n + 1;
        assert(r@ =~= with_spaces(s@, (n - len) as nat));
    }
    assert(r@ =~= padded(s@, width as nat));
    r
}

/// The lower-case form of one character of the ASCII range: the letters `A`
/// to `Z` become `a` to `z`, every other character stays.
pub open spec fn lower_char(c: char) -> char {
    if 'A' <= c && c <= 'Z' {
        ((c as u8) + 32) as char
    } else {
        c
    }
}

/// `s` with each character replaced by its `lower_char`.
pub open spec fn ascii_lowercase(s: Seq<char>) -> Seq<char> {
    Seq::new(s.len(), |i: int| lower_char(s[i]))
}

/// What `str::to_lowercase` returns for the characters `s`.
pub uninterp spec fn unicode_lowercase(s: Seq<char>) -> Seq<char>;

/// The lower-case form of `s`: letter by letter where `s` is all ASCII, the
/// Unicode lower-case mapping of the whole string otherwise.
pub open spec fn lowercase(s: Seq<char>) -> Seq<char> {
    if is_ascii_chars(s) {
        ascii_lowercase(s)
    } else {
        unicode_lowercase(s)
    }
}

/// Whether `s` is made of the letters `a` to `z` and the digits, with at
/// least one character.
pub open spec fn plain(s: Seq<char>) -> bool {
    s.len() > 0 && forall|i: int|
        0 <= i < s.len() ==> {
            let c = #[trigger] s[i];
            ('a' <= c && c <= 'z') || ('0' <= c && c <= '9')
        }
}

/// A plain string is its own lower-case form and holds no `.`.
pub proof fn lemma_plain(s: Seq<char>)
    requires
        plain(s),
    ensures
        is_ascii_chars(s),
        lowercase(s) == s,
        forall|i: int| 0 <= i < s.len() ==> s[i] != '.',
{
    assert(is_ascii_chars(s));
    assert(ascii_lowercase(s) =~= s);
}

/// Lower-casing an ASCII string keeps its length, and keeps each `.` and
/// nothing else as a `.`.
pub proof fn lemma_ascii_lowercase_dots(s: Seq<char>)
    ensures
        ascii_lowercase(s).len() == s.len(),
        forall|i: int| 0 <= i < s.len() ==> (ascii_lowercase(s)[i] == '.' <==> s[i] == '.'),
{
}

/// Lower-cases a string by the Unicode rules.
///
/// Trusted: wraps `str::to_lowercase`. Nothing is claimed of the result but
/// that it is determined by the characters of `s`.
#[verifier::external_body]
fn to_unicode_lowercase(s: &str) -> (r: String)
    ensures
        r@ == unicode_lowercase(s@),
{
    s.to_lowercase()
}

/// Lower-cases a string.
pub fn to_lowercase(s: &str) -> (r: String)
    ensures
        r@ == lowercase(s@),
{
    if s.is_ascii() {
        let len = s.unicode_len();
        let mut r = String::new();
        let mut i: usize = 0;
        while i < len
            invariant
                is_ascii_chars(s@),
                len == s@.len(),
                i <= len,
                r@ == ascii_lowercase(s@).subrange(0, i as int),
            decreases len - i,
        {
            let b = s.get_ascii(i);
            let c = if 65 <= b && b <= 90 {
                (b + 32) as char
            } else {
                b as char
            };
            assert(c == lower_char(s@[i as int]));
            push_char(&mut r, c);
            i = i + 1;
            assert(r@ =~= ascii_lowercase(s@).subrange(0, i as int));
        }
        assert(r@ =~= ascii_lowercase(s@));
        r
    } else {
        to_unicode_lowercase(s)
    }
}

/// What formatting the characters `s` with `{:?}` gives: the string in double
/// quotes, with its special characters escaped.
pub uninterp spec fn debug_quoted(s: Seq<char>) -> Seq<char>;

/// Renders a string as a quoted, escaped literal.
///
/// Trusted: wraps the `Debug` formatting of `str`. Nothing is claimed of the
/// result but that it is determined by the characters of `s`.
#[verifier::external_body]
pub(crate) fn quote(s: &str) -> (r: String)
    ensures
        r@ == debug_quoted(s@),
{
    format!("{:?}", s)
}

/// The character of the decimal digit `d`.
pub open spec fn digit_char(d: nat) -> char
    recommends
        d < 10,
{
    ((48 + d) as u8) as char
}

/// The decimal numeral of `n`, without sign or leading zeros.
pub open spec fn decimal(n: nat) -> Seq<char>
    decreases n,
{
    if n < 10 {
        seq![digit_char(n)]
    } else {
        decimal(n / 10).push(digit_char(n % 10))
    }
}

/// Writes `n` as a decimal numeral.
pub fn to_decimal(n: u64) -> (r: String)
    ensures
        r@ == decimal(n as nat),
    decreases n,
{
    let d: u8 = (n % 10) as u8;
    let c = (48 + d) as char;
    assert(c == digit_char((n % 10) as nat));
    if n < 10 {
        let mut r = String::new();
        push_char(&mut r, c);
        assert(r@ =~= seq![digit_char(n as nat)]);
        r
    } else {
        let mut r = to_decimal(n / 10);
        push_char(&mut r, c);
        r
    }
}

} // verus!
