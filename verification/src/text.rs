//! Text helpers over `char` sequences: the protocols that speak text are
//! parsed on the characters of the message.

use vstd::prelude::*;

verus! {

broadcast use vstd::string::axiom_spec_iter;

/// `String::push`: appends one character.
#[verifier::external_body]
pub(crate) fn string_push(s: &mut String, c: char)
    ensures
        final(s)@ == old(s)@.push(c),
{
    s.push(c)
}

/// The characters of a string slice, in order.
pub fn chars_of(s: &str) -> (v: Vec<char>)
    ensures
        v@ == s@,
{
    let mut v: Vec<char> = Vec::new();
    for c in it: s.chars()
        invariant
            v@ == it.seq().take(it.index() as int),
    {
        v.push(c);
    }
    v
}

} // verus!

verus! {

/// A string holding exactly the given characters.
pub fn string_from_chars(v: &Vec<char>) -> (s: String)
    ensures
        s@ == v@,
{
    let mut s = String::new();
    let mut i: usize = 0;
    while i < v.len()
        invariant
            i <= v.len(),
            s@ == v@.take(i as int),
        decreases v.len() - i,
    {
        string_push(&mut s, v[i]);
        i = i + 1;
        assert(s@ =~= v@.take(i as int));
    }
    assert(v@.take(v.len() as int) =~= v@);
    s
}

/// A string holding the characters of a string slice.
pub fn string_from_str(t: &str) -> (s: String)
    ensures
        s@ == t@,
{
    let v = chars_of(t);
    string_from_chars(&v)
}

/// Character-wise equality of two character vectors.
pub fn chars_eq(a: &Vec<char>, b: &Vec<char>) -> (r: bool)
    ensures
        r == (a@ == b@),
{
    if a.len() != b.len() {
        return false;
    }
    let mut i: usize = 0;
    while i < a.len()
        invariant
            i <= a.len(),
            a.len() == b.len(),
            forall|j: int| 0 <= j < i ==> a@[j] == b@[j],
        decreases a.len() - i,
    {
        if a[i] != b[i] {
            return false;
        }
        i = i + 1;
    }
    assert(a@ =~= b@);
    true
}

/// Whether the characters of `a` are those of the string slice `lit`.
pub fn chars_eq_str(a: &Vec<char>, lit: &str) -> (r: bool)
    ensures
        r == (a@ == lit@),
{
    let b = chars_of(lit);
    chars_eq(a, &b)
}

/// The pieces between the separators, as `str::split` with a `char`
/// pattern gives them: `n` separators make `n + 1` pieces, empty ones kept.
pub open spec fn split_on(s: Seq<char>, sep: char) -> Seq<Seq<char>>
    decreases s.len(),
{
    if s.len() == 0 {
        seq![Seq::<char>::empty()]
    } else {
        let p = split_on(s.drop_last(), sep);
        if s.last() == sep {
            p.push(Seq::<char>::empty())
        } else {
            p.update(p.len() - 1, p.last().push(s.last()))
        }
    }
}

pub proof fn lemma_split_on_nonempty(s: Seq<char>, sep: char)
    ensures
        split_on(s, sep).len() >= 1,
    decreases s.len(),
{
    if s.len() > 0 {
        lemma_split_on_nonempty(s.drop_last(), sep);
    }
}

/// The characters of each piece.
pub open spec fn pieces_view(parts: Seq<Vec<char>>) -> Seq<Seq<char>> {
    parts.map_values(|p: Vec<char>| p@)
}

/// Splits the characters at every `sep`.
pub fn split_chars(v: &Vec<char>, sep: char) -> (parts: Vec<Vec<char>>)
    ensures
        pieces_view(parts@) == split_on(v@, sep),
        parts.len() >= 1,
{
    let mut parts: Vec<Vec<char>> = Vec::new();
    let mut cur: Vec<char> = Vec::new();
    let mut i: usize = 0;
    while i < v.len()
        invariant
            i <= v.len(),
            pieces_view(parts@).push(cur@) == split_on(v@.take(i as int), sep),
        decreases v.len() - i,
    {
        let c = v[i];
        proof {
            let t = v@.take(i as int + 1);
            assert(t.drop_last() =~= v@.take(i as int));
            assert(t.last() == c);
            lemma_split_on_nonempty(t.drop_last(), sep);
        }
        if c == sep {
            let done = cur;
            let ghost before = parts@;
            parts.push(done);
            assert(pieces_view(parts@) =~= pieces_view(before).push(done@));
            cur = Vec::new();
            assert(pieces_view(parts@).push(cur@) =~= split_on(v@.take(i as int + 1), sep));
        } else {
            
            cur.push(c);
            assert(pieces_view(parts@).push(cur@) =~= split_on(v@.take(i as int + 1), sep));
        }
        i = i + 1;
    }
    assert(v@.take(v.len() as int) =~= v@);
    let ghost before = parts@;
    parts.push(cur);
    assert(pieces_view(parts@) =~= pieces_view(before).push(cur@));
    parts
}

/// Characters that a trim removes.
pub enum TrimSet {
    /// `*`, `#`, carriage return and line feed: the framing of H02 text.
    H02Frame,
    /// Unicode `White_Space`, as `char::is_whitespace` defines it.
    Whitespace,
    /// The digit zero.
    Zeros,
}

/// `char::is_whitespace`: the Unicode `White_Space` property.
pub open spec fn is_white_space(c: char) -> bool {
    ||| c == ' '
    ||| '\t' <= c <= '\r'
    ||| c == '\u{85}'
    ||| c == '\u{a0}'
    ||| c == '\u{1680}'
    ||| '\u{2000}' <= c <= '\u{200a}'
    ||| c == '\u{2028}'
    ||| c == '\u{2029}'
    ||| c == '\u{202f}'
    ||| c == '\u{205f}'
    ||| c == '\u{3000}'
}

pub open spec fn in_trim_set(set: TrimSet, c: char) -> bool {
    match set {
        TrimSet::H02Frame => c == '*' || c == '#' || c == '\r' || c == '\n',
        TrimSet::Whitespace => is_white_space(c),
        TrimSet::Zeros => c == '0',
    }
}

pub fn is_in_trim_set(set: &TrimSet, c: char) -> (r: bool)
    ensures
        r == in_trim_set(*set, c),
{
    match set {
        TrimSet::H02Frame => c == '*' || c == '#' || c == '\r' || c == '\n',
        TrimSet::Whitespace => {
            c == ' ' || ('\t' <= c && c <= '\r') || c == '\u{85}' || c == '\u{a0}' || c
                == '\u{1680}' || ('\u{2000}' <= c && c <= '\u{200a}') || c == '\u{2028}' || c
                == '\u{2029}' || c == '\u{202f}' || c == '\u{205f}' || c == '\u{3000}'
        },
        TrimSet::Zeros => c == '0',
    }
}

/// The characters left once leading members of the set are dropped.
pub open spec fn trim_start_set(s: Seq<char>, set: TrimSet) -> Seq<char>
    decreases s.len(),
{
    if s.len() > 0 && in_trim_set(set, s[0]) {
        trim_start_set(s.drop_first(), set)
    } else {
        s
    }
}

/// The characters left once trailing members of the set are dropped.
pub open spec fn trim_end_set(s: Seq<char>, set: TrimSet) -> Seq<char>
    decreases s.len(),
{
    if s.len() > 0 && in_trim_set(set, s.last()) {
        trim_end_set(s.drop_last(), set)
    } else {
        s
    }
}

/// `trim_start_matches` with the set.
pub fn trim_start_chars(v: &Vec<char>, set: &TrimSet) -> (r: Vec<char>)
    ensures
        r@ == trim_start_set(v@, *set),
{
    let mut i: usize = 0;
    assert(v@.skip(0) =~= v@);
    while i < v.len() && is_in_trim_set(set, v[i])
        invariant
            i <= v.len(),
            trim_start_set(v@, *set) == trim_start_set(v@.skip(i as int), *set),
        decreases v.len() - i,
    {
        assert(v@.skip(i as int).drop_first() =~= v@.skip(i as int + 1));
        i = i + 1;
    }
    let mut r: Vec<char> = Vec::new();
    let mut j: usize = i;
    while j < v.len()
        invariant
            i <= j <= v.len(),
            r@ == v@.subrange(i as int, j as int),
        decreases v.len() - j,
    {
        r.push(v[j]);
        j = j + 1;
        assert(r@ =~= v@.subrange(i as int, j as int));
    }
    assert(r@ =~= v@.skip(i as int));
    r
}

/// `trim_end_matches` with the set.
pub fn trim_end_chars(v: &Vec<char>, set: &TrimSet) -> (r: Vec<char>)
    ensures
        r@ == trim_end_set(v@, *set),
{
    let mut n: usize = v.len();
    assert(v@.take(n as int) =~= v@);
    while n > 0 && is_in_trim_set(set, v[n - 1])
        invariant
            n <= v.len(),
            trim_end_set(v@, *set) == trim_end_set(v@.take(n as int), *set),
        decreases n,
    {
        assert(v@.take(n as int).drop_last() =~= v@.take(n as int - 1));
        n = n - 1;
    }
    let mut r: Vec<char> = Vec::new();
    let mut j: usize = 0;
    while j < n
        invariant
            j <= n <= v.len(),
            r@ == v@.take(j as int),
        decreases n - j,
    {
        r.push(v[j]);
        j = j + 1;
        assert(r@ =~= v@.take(j as int));
    }
    r
}

/// `trim_matches` with the set: both ends.
pub fn trim_chars(v: &Vec<char>, set: &TrimSet) -> (r: Vec<char>)
    ensures
        r@ == trim_end_set(trim_start_set(v@, *set), *set),
{
    let a = trim_start_chars(v, set);
    trim_end_chars(&a, set)
}

} // verus!

verus! {

/// The uppercase hexadecimal digit of a nibble.
pub open spec fn hex_digit_upper(n: int) -> char {
    if n < 10 {
        ((n + 48) as u8) as char
    } else {
        ((n + 55) as u8) as char
    }
}

/// Appends a byte as two uppercase hexadecimal digits (`{:02X}`).
pub fn push_hex_upper(s: &mut String, b: u8)
    ensures
        final(s)@ == old(s)@ + seq![hex_digit_upper(b as int / 16), hex_digit_upper(b as int % 16)],
{
    let hi: u8 = b / 16;
    let lo: u8 = b % 16;
    let ch: char = if hi < 10 {
        (hi + 48) as char
    } else {
        (hi + 55) as char
    };
    let cl: char = if lo < 10 {
        (lo + 48) as char
    } else {
        (lo + 55) as char
    };
    string_push(s, ch);
    string_push(s, cl);
    assert(s@ =~= old(s)@ + seq![hex_digit_upper(b as int / 16), hex_digit_upper(b as int % 16)]);
}

} // verus!

verus! {

/// The first `n` characters (all of them when there are fewer).
pub fn take_chars(v: &Vec<char>, n: usize) -> (r: Vec<char>)
    ensures
        r@ == (if v@.len() > n {
            v@.take(n as int)
        } else {
            v@
        }),
{
    let mut r: Vec<char> = Vec::new();
    let mut i: usize = 0;
    while i < v.len() && i < n
        invariant
            i <= v.len(),
            i <= n,
            r@ == v@.take(i as int),
        decreases v.len() - i,
    {
        r.push(v[i]);
        i = i + 1;
        assert(r@ =~= v@.take(i as int));
    }
    assert(v@.take(v.len() as int) =~= v@);
    r
}

} // verus!

verus! {

/// Appends the characters of a string slice.
pub fn push_str(s: &mut String, t: &str)
    ensures
        final(s)@ == old(s)@ + t@,
{
    let v = chars_of(t);
    let mut i: usize = 0;
    while i < v.len()
        invariant
            i <= v@.len(),
            v@ == t@,
            s@ == old(s)@ + v@.take(i as int),
        decreases v.len() - i,
    {
        string_push(s, v[i]);
        i = i + 1;
        assert(s@ =~= old(s)@ + v@.take(i as int));
    }
    assert(v@.take(v@.len() as int) =~= v@);
}

/// What `String::from_utf8_lossy` makes of the bytes.
pub uninterp spec fn utf8_lossy(b: Seq<u8>) -> Seq<char>;

/// `String::from_utf8_lossy`: valid UTF-8 is decoded as it is; each invalid
/// sequence becomes U+FFFD, which is left unstated here beyond the name.
#[verifier::external_body]
pub(crate) fn from_utf8_lossy(b: &[u8]) -> (s: String)
    ensures
        s@ == utf8_lossy(b@),
        vstd::utf8::valid_utf8(b@) ==> s@ == vstd::utf8::decode_utf8(b@),
{
    String::from_utf8_lossy(b).into_owned()
}

} // verus!
