//! Character-level helpers shared by the parsers and formatters of the library.
use vstd::prelude::*;
use vstd::string::*;
use crate::clash::config_merge::{is_digit, all_digits, digits_value, lemma_digits_value_step, lemma_digits_value_grows};

verus! {

/// Appends one character to a string (`String::push`).
#[verifier::external_body]
pub fn push_char(s: &mut String, c: char)
    ensures
        final(s)@ == old(s)@.push(c),
{
    s.push(c);
}

/// Appends a string slice.
pub fn push_text(out: &mut String, s: &str)
    ensures
        final(out)@ == old(out)@ + s@,
{
    let cs = chars_of(s);
    let mut i: usize = 0;
    while i < cs.len()
        invariant
            i <= cs.len(),
            cs@ == s@,
            out@ == old(out)@ + s@.subrange(0, i as int),
        decreases cs.len() - i,
    {
        push_char(out, cs[i]);
        proof { assert(old(out)@ + s@.subrange(0, i + 1) =~= old(out)@ + s@.subrange(0, i as int) + seq![cs@[i as int]]); }
        i = i + 1;
    }
    proof { assert(s@.subrange(0, s@.len() as int) =~= s@); }
}

/// The characters of a string slice, in order.
pub fn chars_of(s: &str) -> (v: Vec<char>)
    ensures
        v@ == s@,
{
    let mut v: Vec<char> = Vec::new();
    for c in it: s.chars()
        invariant
            v@ == it.seq().subrange(0, it.index() as int),
            it.seq() == s@,
    {
        v.push(c);
    }
    v
}

/// A string holding exactly the given characters.
pub fn string_from_chars(v: &Vec<char>) -> (s: String)
    ensures
        s@ == v@,
{
    let mut s = String::new();
    let mut i: usize = 0;
    while i < v.len()
        invariant
            i <= v.len(),
            s@ == v@.subrange(0, i as int),
        decreases v.len() - i,
    {
        push_char(&mut s, v[i]);
        i = i + 1;
    }
    proof { assert(v@.subrange(0, v.len() as int) == v@); }
    s
}


/// The ASCII digit for `d < 10`.
pub open spec fn digit_char(d: nat) -> char {
    (('0' as nat) + d) as char
}

/// The decimal representation of `n`, without sign or leading zeros.
pub open spec fn decimal(n: nat) -> Seq<char>
    decreases n,
{
    if n < 10 {
        seq![digit_char(n)]
    } else {
        decimal(n / 10).push(digit_char(n % 10))
    }
}

/// Appends the decimal representation of `n`.
pub fn push_decimal(out: &mut String, n: u64)
    ensures
        final(out)@ == old(out)@ + decimal(n as nat),
    decreases n,
{
    if n >= 10 {
        push_decimal(out, n / 10);
    }
    push_char(out, ascii_digit((n % 10) as u8));
}

/// The ASCII digit for `d`.
pub fn ascii_digit(d: u8) -> (c: char)
    requires
        d < 10,
    ensures
        c == digit_char(d as nat),
{
    match d {
        0 => '0',
        1 => '1',
        2 => '2',
        3 => '3',
        4 => '4',
        5 => '5',
        6 => '6',
        7 => '7',
        8 => '8',
        _ => '9',
    }
}

/// Whether two string slices hold the same characters.
pub fn text_eq(a: &str, b: &str) -> (r: bool)
    ensures
        r == (a@ == b@),
{
    let x = chars_of(a);
    let y = chars_of(b);
    if x.len() != y.len() {
        return false;
    }
    let mut i: usize = 0;
    while i < x.len()
        invariant
            i <= x.len(),
            x.len() == y.len(),
            x@ == a@,
            y@ == b@,
            forall|j: int| 0 <= j < i ==> x@[j] == y@[j],
        decreases x.len() - i,
    {
        if x[i] != y[i] {
            return false;
        }
        i = i + 1;
    }
    proof { assert(x@ =~= y@); }
    true
}


// ---------------------------------------------------------------------------
// Whitespace

/// A Unicode white-space character, the set that `char::is_whitespace` recognises.
pub open spec fn is_space(c: char) -> bool {
    ||| ('\u{9}' <= c && c <= '\u{d}')
    ||| c == ' '
    ||| c == '\u{85}'
    ||| c == '\u{a0}'
    ||| c == '\u{1680}'
    ||| ('\u{2000}' <= c && c <= '\u{200a}')
    ||| c == '\u{2028}'
    ||| c == '\u{2029}'
    ||| c == '\u{202f}'
    ||| c == '\u{205f}'
    ||| c == '\u{3000}'
}

/// Whether `c` is white space.
pub fn is_space_char(c: char) -> (r: bool)
    ensures
        r == is_space(c),
{
    ('\u{9}' <= c && c <= '\u{d}') || c == ' ' || c == '\u{85}' || c == '\u{a0}' || c == '\u{1680}'
        || ('\u{2000}' <= c && c <= '\u{200a}') || c == '\u{2028}' || c == '\u{2029}'
        || c == '\u{202f}' || c == '\u{205f}' || c == '\u{3000}'
}

/// `s` without its leading white space.
pub open spec fn trim_start(s: Seq<char>) -> Seq<char>
    decreases s.len(),
{
    if s.len() > 0 && is_space(s[0]) { trim_start(s.drop_first()) } else { s }
}

/// `s` without its trailing white space.
pub open spec fn trim_end(s: Seq<char>) -> Seq<char>
    decreases s.len(),
{
    if s.len() > 0 && is_space(s.last()) { trim_end(s.drop_last()) } else { s }
}

/// `s` without leading and trailing white space.
pub open spec fn trimmed(s: Seq<char>) -> Seq<char> {
    trim_end(trim_start(s))
}

/// The bounds `[start, end)` of the trimmed part of `v`.
pub fn trim_bounds(v: &Vec<char>) -> (r: (usize, usize))
    ensures
        r.0 <= r.1 <= v.len(),
        v@.subrange(r.0 as int, r.1 as int) == trimmed(v@),
{
    let n = v.len();
    let mut i: usize = 0;
    proof { assert(v@.subrange(0, n as int) =~= v@); }
    while i < n && is_space_char(v[i])
        invariant
            i <= n,
            n == v.len(),
            trim_start(v@) == trim_start(v@.subrange(i as int, n as int)),
        decreases n - i,
    {
        proof { assert(v@.subrange(i as int, n as int).drop_first() =~= v@.subrange(i + 1, n as int)); }
        i = i + 1;
    }
    let ghost t = v@.subrange(i as int, n as int);
    proof {
        if i == n {
            assert(t.len() == 0);
        }
        assert(trim_start(v@) == t);
    }
    let mut j: usize = n;
    proof { assert(v@.subrange(i as int, j as int) =~= t); }
    while j > i && is_space_char(v[j - 1])
        invariant
            i <= j <= n,
            n == v.len(),
            trim_end(t) == trim_end(v@.subrange(i as int, j as int)),
        decreases j,
    {
        proof { assert(v@.subrange(i as int, j as int).drop_last() =~= v@.subrange(i as int, j - 1)); }
        j = j - 1;
    }
    (i, j)
}

/// `s` without leading and trailing white space.
pub fn trim_text(s: &str) -> (r: String)
    ensures
        r@ == trimmed(s@),
{
    let v = chars_of(s);
    let (a, b) = trim_bounds(&v);
    let mut out = String::new();
    let mut k: usize = a;
    while k < b
        invariant
            a <= k <= b <= v.len(),
            out@ == v@.subrange(a as int, k as int),
        decreases b - k,
    {
        push_char(&mut out, v[k]);
        proof { assert(v@.subrange(a as int, k + 1) =~= v@.subrange(a as int, k as int).push(v@[k as int])); }
        k = k + 1;
    }
    out
}

// ---------------------------------------------------------------------------
// Case

/// `d` is the ASCII lower case of `c`: a letter `A`..`Z` maps to `a`..`z`, anything else
/// to itself.
pub open spec fn lower_of(c: char, d: char) -> bool {
    if 'A' <= c && c <= 'Z' { (c as u32) + 32 == (d as u32) } else { c == d }
}

/// `lower` is `s` with its ASCII letters in lower case (`str::to_ascii_lowercase`).
pub open spec fn ascii_lowercase_is(s: Seq<char>, lower: Seq<char>) -> bool {
    s.len() == lower.len() && forall|i: int| 0 <= i < s.len() ==> lower_of(#[trigger] s[i], lower[i])
}

/// Whether `s`, with its ASCII letters in lower case, equals `lower`.
pub fn ascii_lowercase_eq(s: &str, lower: &str) -> (r: bool)
    ensures
        r == ascii_lowercase_is(s@, lower@),
{
    let x = chars_of(s);
    let y = chars_of(lower);
    if x.len() != y.len() {
        return false;
    }
    let mut i: usize = 0;
    while i < x.len()
        invariant
            i <= x.len(),
            x.len() == y.len(),
            x@ == s@,
            y@ == lower@,
            forall|j: int| 0 <= j < i ==> lower_of(#[trigger] x@[j], y@[j]),
        decreases x.len() - i,
    {
        let c = x[i];
        let d = y[i];
        let same = if 'A' <= c && c <= 'Z' { (c as u32) + 32 == (d as u32) } else { c == d };
        if !same {
            proof { assert(!lower_of(s@[i as int], lower@[i as int])); }
            return false;
        }
        i = i + 1;
    }
    true
}

/// A character in ASCII lower case.
pub open spec fn ascii_lower_char(c: char) -> char {
    if 'A' <= c && c <= 'Z' { ((c as int) + 32) as char } else { c }
}

/// A text with its ASCII letters in lower case (`str::to_ascii_lowercase`).
pub open spec fn ascii_lower(s: Seq<char>) -> Seq<char> {
    s.map_values(|c: char| ascii_lower_char(c))
}

/// The characters with ASCII letters in lower case.
pub fn ascii_lower_chars(v: &Vec<char>) -> (r: Vec<char>)
    ensures
        r@ == v@.map_values(|c: char| ascii_lower_char(c)),
{
    let mut out: Vec<char> = Vec::new();
    let mut i: usize = 0;
    while i < v.len()
        invariant
            i <= v.len(),
            out@ == v@.subrange(0, i as int).map_values(|c: char| ascii_lower_char(c)),
        decreases v.len() - i,
    {
        let c = v[i];
        let l = if 'A' <= c && c <= 'Z' { ((c as u8) + 32) as char } else { c };
        proof { assert(l == ascii_lower_char(c)); }
        out.push(l);
        proof {
            assert(v@.subrange(0, i + 1).map_values(|c: char| ascii_lower_char(c))
                =~= v@.subrange(0, i as int).map_values(|c: char| ascii_lower_char(c)).push(ascii_lower_char(c)));
        }
        i = i + 1;
    }
    proof { assert(v@.subrange(0, v.len() as int) =~= v@); }
    out
}

/// The lower case of a text (`str::to_lowercase`, by Unicode rules).
pub uninterp spec fn lowercase(s: Seq<char>) -> Seq<char>;

/// The text in lower case by Unicode rules.
///
/// Trusted: calls `str::to_lowercase`; the contract names its result, a function of the
/// text alone, and states that it is empty exactly when the text is (each character has
/// a lower case of one or more characters, as `char::to_lowercase` documents).
#[verifier::external_body]
pub fn to_lowercase(s: &str) -> (r: String)
    ensures
        r@ == lowercase(s@),
        r@.len() == 0 <==> s@.len() == 0,
{
    s.to_lowercase()
}

// ---------------------------------------------------------------------------
// Joining and numbers

/// The texts one after another with `sep` between each two (`[String]::join`).
pub open spec fn join_with(parts: Seq<Seq<char>>, sep: Seq<char>) -> Seq<char>
    decreases parts.len(),
{
    if parts.len() == 0 {
        Seq::empty()
    } else if parts.len() == 1 {
        parts[0]
    } else {
        join_with(parts.drop_last(), sep) + sep + parts.last()
    }
}

/// The views of a list of strings.
pub open spec fn texts_view(v: Seq<String>) -> Seq<Seq<char>> {
    v.map_values(|s: String| s@)
}

/// The strings one after another with `sep` between each two.
pub fn join_texts(parts: &Vec<String>, sep: &str) -> (r: String)
    ensures
        r@ == join_with(texts_view(parts@), sep@),
{
    let mut out = String::new();
    let mut i: usize = 0;
    while i < parts.len()
        invariant
            i <= parts.len(),
            out@ == join_with(texts_view(parts@.subrange(0, i as int)), sep@),
        decreases parts.len() - i,
    {
        let ghost before = texts_view(parts@.subrange(0, i as int));
        if i > 0 {
            push_text(&mut out, sep);
        }
        push_text(&mut out, parts[i].as_str());
        proof {
            let after = texts_view(parts@.subrange(0, i + 1));
            assert(after.drop_last() =~= before);
            assert(after.last() == parts@[i as int]@);
            if i == 0 {
                assert(after.len() == 1);
            }
        }
        i = i + 1;
    }
    proof { assert(parts@.subrange(0, parts.len() as int) =~= parts@); }
    out
}

/// An unsigned number as `u64::from_str` reads it: an optional `+`, then one or more
/// ASCII digits whose value fits in 64 bits.
pub open spec fn u64_text(t: Seq<char>) -> Option<u64> {
    let d = if t.len() > 0 && t[0] == '+' { t.drop_first() } else { t };
    if all_digits(d) && digits_value(d) <= u64::MAX {
        Some(digits_value(d) as u64)
    } else {
        None
    }
}

/// Reads `cs[start..]` as an unsigned 64-bit number.
pub fn parse_u64_from(cs: &Vec<char>, start: usize) -> (r: Option<u64>)
    requires
        start <= cs.len(),
    ensures
        r == u64_text(cs@.subrange(start as int, cs.len() as int)),
{
    let ghost t = cs@.subrange(start as int, cs.len() as int);
    let first: usize = if start < cs.len() && cs[start] == '+' { start + 1 } else { start };
    let ghost d = if t.len() > 0 && t[0] == '+' { t.drop_first() } else { t };
    proof {
        assert(d =~= cs@.subrange(first as int, cs.len() as int));
    }
    if first == cs.len() {
        return None;
    }
    let mut value: u64 = 0;
    let mut k: usize = first;
    while k < cs.len()
        invariant
            first <= k <= cs.len(),
            first < cs.len(),
            d == cs@.subrange(first as int, cs.len() as int),
            t == cs@.subrange(start as int, cs.len() as int),
            d == (if t.len() > 0 && t[0] == '+' { t.drop_first() } else { t }),
            forall|j: int| 0 <= j < k - first ==> is_digit(#[trigger] d[j]),
            value as nat == digits_value(d.subrange(0, k - first)),
        decreases cs.len() - k,
    {
        let c = cs[k];
        if !('0' <= c && c <= '9') {
            proof { assert(!is_digit(d[k - first])); }
            return None;
        }
        let digit = (c as u32 - '0' as u32) as u64;
        proof { lemma_digits_value_step(d, k - first); }
        if value > (u64::MAX - digit) / 10 {
            proof {
                assert(digits_value(d.subrange(0, k - first + 1)) > u64::MAX);
                if all_digits(d) {
                    lemma_digits_value_grows(d, k - first + 1, d.len() as int);
                    assert(d.subrange(0, d.len() as int) =~= d);
                }
            }
            return None;
        }
        value = value * 10 + digit;
        k = k + 1;
    }
    proof { assert(d.subrange(0, d.len() as int) =~= d); }
    Some(value)
}

// ---------------------------------------------------------------------------
// Substrings

/// `needle` occurs in `hay` starting at `i`.
pub open spec fn occurs_at(hay: Seq<char>, needle: Seq<char>, i: int) -> bool {
    0 <= i && i + needle.len() <= hay.len() && hay.subrange(i, i + needle.len()) == needle
}

/// `needle` occurs somewhere in `hay` (the empty text occurs everywhere).
pub open spec fn contains_text(hay: Seq<char>, needle: Seq<char>) -> bool {
    exists|i: int| occurs_at(hay, needle, i)
}

/// Whether `needle` occurs in `hay`.
pub fn find_text(hay: &Vec<char>, needle: &Vec<char>) -> (r: bool)
    ensures
        r == contains_text(hay@, needle@),
{
    if needle.len() > hay.len() {
        proof {
            assert forall|i: int| !occurs_at(hay@, needle@, i) by {}
        }
        return false;
    }
    let last = hay.len() - needle.len();
    let mut i: usize = 0;
    while i <= last
        invariant
            last == hay.len() - needle.len(),
            needle.len() <= hay.len(),
            forall|t: int| 0 <= t < i ==> !occurs_at(hay@, needle@, t),
        decreases last + 1 - i,
    {
        let mut j: usize = 0;
        while j < needle.len() && hay[i + j] == needle[j]
            invariant
                i <= last,
                last == hay.len() - needle.len(),
                j <= needle.len(),
                forall|t: int| 0 <= t < j ==> hay@[i + t] == needle@[t],
            decreases needle.len() - j,
        {
            j = j + 1;
        }
        if j == needle.len() {
            proof {
                assert(hay@.subrange(i as int, i + needle.len()) =~= needle@);
                assert(occurs_at(hay@, needle@, i as int));
            }
            return true;
        }
        proof {
            assert(hay@.subrange(i as int, i + needle.len())[j as int] != needle@[j as int]);
        }
        if i == last {
            proof {
                assert forall|t: int| !occurs_at(hay@, needle@, t) by {
                    if 0 <= t && t <= i {
                    }
                }
            }
            return false;
        }
        i = i + 1;
    }
    false
}

} // verus!
