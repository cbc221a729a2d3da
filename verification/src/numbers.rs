//! Reading numbers out of text, in the syntax of the standard library's
//! parsers, and writing integers as decimal text.

use vstd::prelude::*;

use crate::text::string_push;

verus! {

pub open spec fn is_dec_digit(c: char) -> bool {
    '0' <= c <= '9'
}

pub open spec fn dec_value(c: char) -> int {
    c as int - '0' as int
}

pub open spec fn is_hex_digit(c: char) -> bool {
    ('0' <= c <= '9') || ('a' <= c <= 'f') || ('A' <= c <= 'F')
}

pub open spec fn hex_value(c: char) -> int {
    if '0' <= c <= '9' {
        c as int - '0' as int
    } else if 'a' <= c <= 'f' {
        c as int - 'a' as int + 10
    } else {
        c as int - 'A' as int + 10
    }
}

/// The value of a nonempty run of digits in the radix, or none.
pub open spec fn digits_value(s: Seq<char>, hex: bool) -> Option<int>
    decreases s.len(),
{
    if s.len() == 0 {
        None
    } else {
        let c = s.last();
        let ok = if hex {
            is_hex_digit(c)
        } else {
            is_dec_digit(c)
        };
        let d = if hex {
            hex_value(c)
        } else {
            dec_value(c)
        };
        if !ok {
            None
        } else if s.len() == 1 {
            Some(d)
        } else {
            match digits_value(s.drop_last(), hex) {
                Some(v) => Some(v * (if hex {
                    16int
                } else {
                    10int
                }) + d),
                None => None,
            }
        }
    }
}

proof fn lemma_digits_value_nonneg(s: Seq<char>, hex: bool)
    ensures
        digits_value(s, hex) matches Some(v) ==> v >= 0,
    decreases s.len(),
{
    if s.len() > 1 {
        lemma_digits_value_nonneg(s.drop_last(), hex);
    }
}

/// Drops one leading `+`.
pub open spec fn strip_plus(s: Seq<char>) -> Seq<char> {
    if s.len() > 0 && s[0] == '+' {
        s.drop_first()
    } else {
        s
    }
}

/// `u32::from_str_radix(s, 16)`: an optional `+`, then hexadecimal digits,
/// the value fitting in 32 bits.
pub open spec fn parse_hex_u32(s: Seq<char>) -> Option<u32> {
    match digits_value(strip_plus(s), true) {
        Some(v) => if v <= u32::MAX {
            Some(v as u32)
        } else {
            None
        },
        None => None,
    }
}

/// `str::parse::<u32>()`: an optional `+`, then decimal digits, the value
/// fitting in 32 bits.
pub open spec fn parse_dec_u32(s: Seq<char>) -> Option<u32> {
    match digits_value(strip_plus(s), false) {
        Some(v) => if v <= u32::MAX {
            Some(v as u32)
        } else {
            None
        },
        None => None,
    }
}

/// `str::parse::<i64>()`: an optional sign, then decimal digits, the value
/// fitting in 64 bits.
pub open spec fn parse_dec_i64(s: Seq<char>) -> Option<i64> {
    if s.len() > 0 && s[0] == '-' {
        match digits_value(s.drop_first(), false) {
            Some(v) => if -v >= i64::MIN {
                Some((-v) as i64)
            } else {
                None
            },
            None => None,
        }
    } else {
        match digits_value(strip_plus(s), false) {
            Some(v) => if v <= i64::MAX {
                Some(v as i64)
            } else {
                None
            },
            None => None,
        }
    }
}

/// Reads a run of digits; stops with none once the value exceeds `limit`.
fn read_digits(s: &Vec<char>, from: usize, hex: bool, limit: u64) -> (r: Option<u64>)
    requires
        from <= s@.len(),
    ensures
        match r {
            Some(v) => digits_value(s@.skip(from as int), hex) == Some(v as int) && v <= limit,
            None => match digits_value(s@.skip(from as int), hex) {
                Some(v) => v > limit,
                None => true,
            },
        },
{
    if from >= s.len() {
        assert(s@.skip(from as int).len() == 0);
        return None;
    }
    let mut v: u64 = 0;
    let mut i: usize = from;
    while i < s.len()
        invariant
            from <= i <= s@.len(),
            v <= limit,
            i > from ==> digits_value(s@.subrange(from as int, i as int), hex) == Some(v as int),
            i == from ==> v == 0,
        decreases s.len() - i,
    {
        let c = s[i];
        let ok = if hex {
            ('0' <= c && c <= '9') || ('a' <= c && c <= 'f') || ('A' <= c && c <= 'F')
        } else {
            '0' <= c && c <= '9'
        };
        let ghost t = s@.subrange(from as int, i as int + 1);
        assert(t.drop_last() =~= s@.subrange(from as int, i as int));
        assert(t.last() == c);
        if !ok {
            proof {
                assert(s@.skip(from as int).take((i - from) as int + 1) =~= t);
                lemma_digits_prefix_none(s@.skip(from as int), (i - from) as int + 1, hex);
            }
            return None;
        }
        let d: u64 = if '0' <= c && c <= '9' {
            (c as u64) - ('0' as u64)
        } else if 'a' <= c && c <= 'f' {
            (c as u64) - ('a' as u64) + 10
        } else {
            (c as u64) - ('A' as u64) + 10
        };
        assert(d < 16);
        let nv: u128 = if hex {
            (v as u128) * 16 + (d as u128)
        } else {
            (v as u128) * 10 + (d as u128)
        };
        if nv > limit as u128 {
            proof {
                assert(s@.skip(from as int).take((i - from) as int + 1) =~= t);
                assert(digits_value(t, hex) == Some(nv as int));
                lemma_digits_prefix_exceeds(
                    s@.skip(from as int),
                    (i - from) as int + 1,
                    hex,
                    limit as int,
                );
            }
            return None;
        }
        v = nv as u64;
        i = i + 1;
    }
    assert(s@.subrange(from as int, s@.len() as int) =~= s@.skip(from as int));
    Some(v)
}

/// A run with a non-digit among its first `k` characters has no value.
proof fn lemma_digits_prefix_none(s: Seq<char>, k: int, hex: bool)
    requires
        0 < k <= s.len(),
        digits_value(s.take(k), hex) is None,
    ensures
        digits_value(s, hex) is None,
    decreases s.len(),
{
    if k < s.len() {
        assert(s.drop_last().take(k) =~= s.take(k));
        lemma_digits_prefix_none(s.drop_last(), k, hex);
    } else {
        assert(s.take(k) =~= s);
    }
}

/// A run whose first `k` characters exceed the limit exceeds it too, or has
/// no value.
proof fn lemma_digits_prefix_exceeds(s: Seq<char>, k: int, hex: bool, limit: int)
    requires
        0 < k <= s.len(),
        limit >= 0,
        digits_value(s.take(k), hex) matches Some(v) && v > limit,
    ensures
        digits_value(s, hex) matches Some(v) ==> v > limit,
    decreases s.len(),
{
    if k < s.len() {
        assert(s.drop_last().take(k) =~= s.take(k));
        lemma_digits_prefix_exceeds(s.drop_last(), k, hex, limit);
        lemma_digits_value_nonneg(s.drop_last(), hex);
    } else {
        assert(s.take(k) =~= s);
    }
}

} // verus!

verus! {

pub fn parse_hex_u32_of(s: &Vec<char>) -> (r: Option<u32>)
    ensures
        r == parse_hex_u32(s@),
{
    let from: usize = if s.len() > 0 && s[0] == '+' {
        1
    } else {
        0
    };
    assert(strip_plus(s@) =~= s@.skip(from as int));
    match read_digits(s, from, true, 0xFFFF_FFFF) {
        Some(v) => Some(v as u32),
        None => None,
    }
}

pub fn parse_dec_u32_of(s: &Vec<char>) -> (r: Option<u32>)
    ensures
        r == parse_dec_u32(s@),
{
    let from: usize = if s.len() > 0 && s[0] == '+' {
        1
    } else {
        0
    };
    assert(strip_plus(s@) =~= s@.skip(from as int));
    match read_digits(s, from, false, 0xFFFF_FFFF) {
        Some(v) => Some(v as u32),
        None => None,
    }
}

pub fn parse_dec_i64_of(s: &Vec<char>) -> (r: Option<i64>)
    ensures
        r == parse_dec_i64(s@),
{
    if s.len() > 0 && s[0] == '-' {
        assert(s@.drop_first() =~= s@.skip(1));
        match read_digits(s, 1, false, 0x8000_0000_0000_0000) {
            Some(v) => {
                if v == 0x8000_0000_0000_0000 {
                    Some(i64::MIN)
                } else {
                    Some(-(v as i64))
                }
            },
            None => None,
        }
    } else {
        let from: usize = if s.len() > 0 && s[0] == '+' {
            1
        } else {
            0
        };
        assert(strip_plus(s@) =~= s@.skip(from as int));
        match read_digits(s, from, false, 0x7FFF_FFFF_FFFF_FFFF) {
            Some(v) => Some(v as i64),
            None => None,
        }
    }
}

/// `str::parse::<bool>()`: exactly `true` or `false`.
pub open spec fn parse_bool(s: Seq<char>) -> Option<bool> {
    if s == seq!['t', 'r', 'u', 'e'] {
        Some(true)
    } else if s == seq!['f', 'a', 'l', 's', 'e'] {
        Some(false)
    } else {
        None
    }
}

pub fn parse_bool_of(s: &Vec<char>) -> (r: Option<bool>)
    ensures
        r == parse_bool(s@),
{
    if s.len() == 4 && s[0] == 't' && s[1] == 'r' && s[2] == 'u' && s[3] == 'e' {
        assert(s@ =~= seq!['t', 'r', 'u', 'e']);
        Some(true)
    } else if s.len() == 5 && s[0] == 'f' && s[1] == 'a' && s[2] == 'l' && s[3] == 's' && s[4]
        == 'e' {
        assert(s@ =~= seq!['f', 'a', 'l', 's', 'e']);
        Some(false)
    } else {
        assert(s@ != seq!['t', 'r', 'u', 'e'] && s@ != seq!['f', 'a', 'l', 's', 'e']) by {
            if s@ == seq!['t', 'r', 'u', 'e'] {
                assert(s@[0] == 't' && s@[1] == 'r' && s@[2] == 'u' && s@[3] == 'e');
            }
            if s@ == seq!['f', 'a', 'l', 's', 'e'] {
                assert(s@[0] == 'f' && s@[1] == 'a' && s@[2] == 'l' && s@[3] == 's' && s@[4] == 'e');
            }
        }
        None
    }
}

} // verus!

verus! {

// ─── The syntax of `f64`'s parser ───────────────────────────────────

pub open spec fn lower_ascii(c: char) -> char {
    if 'A' <= c <= 'Z' {
        ((c as int) + 32) as char
    } else {
        c
    }
}

pub open spec fn strip_sign(s: Seq<char>) -> Seq<char> {
    if s.len() > 0 && (s[0] == '+' || s[0] == '-') {
        s.drop_first()
    } else {
        s
    }
}

/// `inf`, `infinity` or `nan`, in any case.
pub open spec fn is_float_word(b: Seq<char>) -> bool {
    let l = b.map_values(|c: char| lower_ascii(c));
    l == seq!['i', 'n', 'f'] || l == seq!['i', 'n', 'f', 'i', 'n', 'i', 't', 'y'] || l == seq![
        'n',
        'a',
        'n',
    ]
}

/// The index of the first `e` or `E`, or the length.
pub open spec fn exp_index(b: Seq<char>) -> int
    decreases b.len(),
{
    if b.len() == 0 {
        0
    } else if b[0] == 'e' || b[0] == 'E' {
        0
    } else {
        1 + exp_index(b.drop_first())
    }
}

/// Digits with at most one point, and at least one digit.
pub open spec fn mantissa_ok(m: Seq<char>) -> bool {
    &&& forall|i: int| 0 <= i < m.len() ==> is_dec_digit(#[trigger] m[i]) || m[i] == '.'
    &&& forall|i: int, j: int| 0 <= i < j < m.len() ==> !(#[trigger] m[i] == '.' && #[trigger] m[j] == '.')
    &&& exists|i: int| 0 <= i < m.len() && is_dec_digit(#[trigger] m[i])
}

/// An optional sign, then at least one digit.
pub open spec fn exponent_ok(x: Seq<char>) -> bool {
    let y = strip_sign(x);
    y.len() >= 1 && forall|i: int| 0 <= i < y.len() ==> is_dec_digit(#[trigger] y[i])
}

/// Whether `str::parse::<f64>()` accepts the text: an optional sign, then
/// `inf`, `infinity` or `nan` in any case, or digits with at most one point
/// and at least one digit, followed by an optional exponent (`e` or `E`, an
/// optional sign, digits).
pub open spec fn f64_syntax(s: Seq<char>) -> bool {
    let b = strip_sign(s);
    let e = exp_index(b);
    is_float_word(b) || (mantissa_ok(b.take(e)) && (e == b.len() || exponent_ok(b.skip(e + 1))))
}

pub proof fn lemma_exp_index(b: Seq<char>)
    ensures
        0 <= exp_index(b) <= b.len(),
        exp_index(b) < b.len() ==> (b[exp_index(b)] == 'e' || b[exp_index(b)] == 'E'),
        forall|k: int| 0 <= k < exp_index(b) ==> b[k] != 'e' && b[k] != 'E',
    decreases b.len(),
{
    if b.len() > 0 && !(b[0] == 'e' || b[0] == 'E') {
        lemma_exp_index(b.drop_first());
        assert forall|k: int| 0 <= k < exp_index(b) implies b[k] != 'e' && b[k] != 'E' by {
            if k > 0 {
                assert(b[k] == b.drop_first()[k - 1]);
            }
        }
    }
}

fn lower_ascii_of(c: char) -> (r: char)
    ensures
        r == lower_ascii(c),
{
    if 'A' <= c && c <= 'Z' {
        ((c as u32) + 32) as u8 as char
    } else {
        c
    }
}

fn skip_chars(s: &Vec<char>, from: usize) -> (r: Vec<char>)
    requires
        from <= s@.len(),
    ensures
        r@ == s@.skip(from as int),
{
    let mut r: Vec<char> = Vec::new();
    let mut i: usize = from;
    while i < s.len()
        invariant
            from <= i <= s@.len(),
            r@ == s@.subrange(from as int, i as int),
        decreases s.len() - i,
    {
        r.push(s[i]);
        i = i + 1;
        assert(r@ =~= s@.subrange(from as int, i as int));
    }
    assert(r@ =~= s@.skip(from as int));
    r
}

fn is_float_word_of(b: &Vec<char>) -> (r: bool)
    ensures
        r == is_float_word(b@),
{
    let ghost l = b@.map_values(|c: char| lower_ascii(c));
    if b.len() == 3 {
        let c0 = lower_ascii_of(b[0]);
        let c1 = lower_ascii_of(b[1]);
        let c2 = lower_ascii_of(b[2]);
        assert(l[0] == c0 && l[1] == c1 && l[2] == c2);
        let r = (c0 == 'i' && c1 == 'n' && c2 == 'f') || (c0 == 'n' && c1 == 'a' && c2 == 'n');
        if r {
            assert(l =~= seq![c0, c1, c2]);
        } else {
            assert(l != seq!['i', 'n', 'f']) by {
                if l == seq!['i', 'n', 'f'] {
                    assert(l[0] == 'i' && l[1] == 'n' && l[2] == 'f');
                }
            }
            assert(l != seq!['n', 'a', 'n']) by {
                if l == seq!['n', 'a', 'n'] {
                    assert(l[0] == 'n' && l[1] == 'a' && l[2] == 'n');
                }
            }
            assert(l.len() != seq!['i', 'n', 'f', 'i', 'n', 'i', 't', 'y'].len());
        }
        r
    } else if b.len() == 8 {
        let mut i: usize = 0;
        let w: Vec<char> = vec!['i', 'n', 'f', 'i', 'n', 'i', 't', 'y'];
        while i < 8
            invariant
                i <= 8,
                b@.len() == 8,
                w@ == seq!['i', 'n', 'f', 'i', 'n', 'i', 't', 'y'],
                l == b@.map_values(|c: char| lower_ascii(c)),
                forall|k: int| 0 <= k < i ==> l[k] == w@[k],
            decreases 8 - i,
        {
            if lower_ascii_of(b[i]) != w[i] {
                assert(l[i as int] != seq!['i', 'n', 'f', 'i', 'n', 'i', 't', 'y'][i as int]);
                assert(l.len() != seq!['i', 'n', 'f'].len());
                assert(l.len() != seq!['n', 'a', 'n'].len());
                return false;
            }
            i = i + 1;
        }
        assert(l =~= seq!['i', 'n', 'f', 'i', 'n', 'i', 't', 'y']);
        true
    } else {
        assert(l.len() == b@.len());
        assert(l.len() != seq!['i', 'n', 'f'].len());
        assert(l.len() != seq!['n', 'a', 'n'].len());
        assert(l.len() != seq!['i', 'n', 'f', 'i', 'n', 'i', 't', 'y'].len());
        false
    }
}

fn mantissa_ok_of(b: &Vec<char>, e: usize) -> (r: bool)
    requires
        e <= b@.len(),
    ensures
        r == mantissa_ok(b@.take(e as int)),
{
    let ghost m = b@.take(e as int);
    let mut i: usize = 0;
    let mut dot: bool = false;
    let mut digit: bool = false;
    while i < e
        invariant
            i <= e <= b@.len(),
            m == b@.take(e as int),
            forall|k: int| 0 <= k < i ==> is_dec_digit(#[trigger] m[k]) || m[k] == '.',
            forall|k: int, j: int| 0 <= k < j < i ==> !(#[trigger] m[k] == '.' && #[trigger] m[j] == '.'),
            dot == (exists|k: int| 0 <= k < i && #[trigger] m[k] == '.'),
            digit == (exists|k: int| 0 <= k < i && is_dec_digit(#[trigger] m[k])),
        decreases e - i,
    {
        let c = b[i];
        assert(m[i as int] == c);
        if '0' <= c && c <= '9' {
            digit = true;
        } else if c == '.' {
            if dot {
                proof {
                    let k = choose|k: int| 0 <= k < i && #[trigger] m[k] == '.';
                    assert(m[k] == '.' && m[i as int] == '.' && k < i);
                }
                return false;
            }
            dot = true;
        } else {
            return false;
        }
        i = i + 1;
    }
    digit
}

fn exponent_ok_of(b: &Vec<char>, from: usize) -> (r: bool)
    requires
        from <= b@.len(),
    ensures
        r == exponent_ok(b@.skip(from as int)),
{
    let x = skip_chars(b, from);
    let start: usize = if x.len() > 0 && (x[0] == '+' || x[0] == '-') {
        1
    } else {
        0
    };
    let ghost y = strip_sign(x@);
    assert(y =~= x@.skip(start as int));
    if start >= x.len() {
        return false;
    }
    let mut i: usize = start;
    while i < x.len()
        invariant
            start <= i <= x@.len(),
            y == x@.skip(start as int),
            x@ == b@.skip(from as int),
            y == strip_sign(x@),
            forall|k: int| 0 <= k < i - start ==> is_dec_digit(#[trigger] y[k]),
        decreases x.len() - i,
    {
        if !('0' <= x[i] && x[i] <= '9') {
            assert(y[i - start] == x@[i as int]);
            assert(!is_dec_digit(y[i - start]));
            return false;
        }
        i = i + 1;
    }
    true
}

/// Whether `str::parse::<f64>()` accepts the characters.
pub fn f64_syntax_of(s: &Vec<char>) -> (r: bool)
    ensures
        r == f64_syntax(s@),
{
    let from: usize = if s.len() > 0 && (s[0] == '+' || s[0] == '-') {
        1
    } else {
        0
    };
    let b = skip_chars(s, from);
    assert(b@ =~= strip_sign(s@));
    if is_float_word_of(&b) {
        return true;
    }
    proof {
        lemma_exp_index(b@);
    }
    let mut e: usize = 0;
    while e < b.len() && b[e] != 'e' && b[e] != 'E'
        invariant
            e <= b@.len(),
            e <= exp_index(b@),
            forall|k: int| 0 <= k < exp_index(b@) ==> b@[k] != 'e' && b@[k] != 'E',
            exp_index(b@) < b@.len() ==> (b@[exp_index(b@)] == 'e' || b@[exp_index(b@)] == 'E'),
            exp_index(b@) <= b@.len(),
        decreases b.len() - e,
    {
        e = e + 1;
    }
    assert(e == exp_index(b@));
    if !mantissa_ok_of(&b, e) {
        return false;
    }
    if e == b.len() {
        return true;
    }
    exponent_ok_of(&b, e + 1)
}

// ─── Decimal text ───────────────────────────────────────────────────

pub open spec fn dec_digit_char(d: int) -> char {
    ((d + 48) as u8) as char
}

/// The decimal digits of a natural number, without leading zeros.
pub open spec fn dec_digits(v: nat) -> Seq<char>
    decreases v,
{
    if v < 10 {
        seq![dec_digit_char(v as int)]
    } else {
        dec_digits(v / 10).push(dec_digit_char((v % 10) as int))
    }
}

/// An integer as `{}` formats it.
pub open spec fn dec_text(v: int) -> Seq<char> {
    if v < 0 {
        seq!['-'] + dec_digits((-v) as nat)
    } else {
        dec_digits(v as nat)
    }
}

fn push_digits(s: &mut String, v: u64)
    ensures
        final(s)@ == old(s)@ + dec_digits(v as nat),
    decreases v,
{
    if v >= 10 {
        push_digits(s, v / 10);
    }
    let d: u8 = (v % 10) as u8;
    string_push(s, (d + 48) as char);
    assert(s@ =~= old(s)@ + dec_digits(v as nat));
}

/// Appends an integer in decimal.
pub fn push_dec(s: &mut String, v: i64)
    ensures
        final(s)@ == old(s)@ + dec_text(v as int),
{
    if v < 0 {
        string_push(s, '-');
        let m: u64 = if v == i64::MIN {
            0x8000_0000_0000_0000
        } else {
            (-v) as u64
        };
        push_digits(s, m);
        assert(s@ =~= old(s)@ + dec_text(v as int));
    } else {
        push_digits(s, v as u64);
    }
}

/// Appends a number below one hundred as two digits (`{:02}`).
pub fn push_two_digits(s: &mut String, v: u64)
    requires
        v < 100,
    ensures
        final(s)@ == old(s)@ + seq![dec_digit_char(v as int / 10), dec_digit_char(v as int % 10)],
{
    string_push(s, ((v / 10) as u8 + 48) as char);
    string_push(s, ((v % 10) as u8 + 48) as char);
    assert(s@ =~= old(s)@ + seq![dec_digit_char(v as int / 10), dec_digit_char(v as int % 10)]);
}

} // verus!
