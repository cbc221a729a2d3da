//! OsmAnd: positions sent over HTTP as URL parameters
//! (`GET /?id=123456&timestamp=...&lat=..&lon=..`) or as a JSON body.

use bytes::{Bytes, BytesMut};
use vstd::prelude::*;

use crate::buffer::{bytes_mut_as_slice, bytes_mut_view};
use crate::helper::{default_str_hash, hash_device_id, simple_device_id, utc_now_millis};
use crate::json::{
    as_bool, as_i64, as_number, as_str, json_at, json_bool, json_i64, json_number, json_parsed,
    json_str, parse_json, JsonDocument,
};
use crate::model::{
    attr, decode_outcome, encode_outcome, new_position, single, AttrKey, AttrKeyModel,
    AttrValue, AttrValueModel, Command, DecodeOutcome, DeviceSession,
    EncodeOutcome, Position, PositionModel, ProtocolError, ProtocolErrorModel, ProtocolKind,
    Quantity, QuantityModel, SpeedUnit,
};
use crate::numbers::{
    digits_value, exp_index, f64_syntax, f64_syntax_of, is_hex_digit, hex_value, parse_bool,
    parse_bool_of, parse_dec_i64, parse_dec_i64_of, strip_plus,
};
use crate::registry::{ProtocolDefinition, ProtocolDefinitionModel, ProtocolRegistry, Transport};
use crate::text::{
    chars_eq_str, chars_of, from_utf8_lossy, is_white_space, split_chars, split_on,
    string_from_chars, string_from_str, string_push, trim_chars, trim_end_set, trim_start_chars,
    trim_start_set, utf8_lossy, TrimSet,
};

verus! {

pub const PROTOCOL_NAME: &'static str = "osmand";

pub const DEFAULT_PORT: u16 = 5055;

// ─── URL decoding ───────────────────────────────────────────────────

/// `u8::from_str_radix(h, 16)` of two characters.
pub open spec fn hex_pair(h: Seq<char>) -> Option<int> {
    match digits_value(strip_plus(h), true) {
        Some(v) => if v <= 255 {
            Some(v)
        } else {
            None
        },
        None => None,
    }
}

/// `%XX` becomes the character with code XX, `+` a space; a `%` not
/// followed by two hexadecimal digits stays as it is.
pub open spec fn url_decode_spec(s: Seq<char>) -> Seq<char>
    decreases s.len(),
{
    if s.len() == 0 {
        Seq::empty()
    } else if s[0] == '%' {
        let rest = s.drop_first();
        let h = if rest.len() >= 2 {
            rest.take(2)
        } else {
            rest
        };
        if h.len() == 2 && hex_pair(h) is Some {
            seq![((hex_pair(h).unwrap()) as u8) as char] + url_decode_spec(rest.skip(2))
        } else {
            seq!['%'] + h + url_decode_spec(rest.skip(h.len() as int))
        }
    } else if s[0] == '+' {
        seq![' '] + url_decode_spec(s.drop_first())
    } else {
        seq![s[0]] + url_decode_spec(s.drop_first())
    }
}

fn hex_char_value(c: char) -> (r: Option<u8>)
    ensures
        match r {
            Some(v) => is_hex_digit(c) && v as int == hex_value(c),
            None => !is_hex_digit(c),
        },
{
    if '0' <= c && c <= '9' {
        Some(((c as u32) - ('0' as u32)) as u8)
    } else if 'a' <= c && c <= 'f' {
        Some(((c as u32) - ('a' as u32) + 10) as u8)
    } else if 'A' <= c && c <= 'F' {
        Some(((c as u32) - ('A' as u32) + 10) as u8)
    } else {
        None
    }
}

fn hex_pair_of(a: char, b: char) -> (r: Option<u8>)
    ensures
        match r {
            Some(v) => hex_pair(seq![a, b]) == Some(v as int),
            None => hex_pair(seq![a, b]) is None,
        },
{
    let ghost h = seq![a, b];
    proof {
        reveal_with_fuel(digits_value, 3);
    }
    if a == '+' {
        assert(strip_plus(h) =~= seq![b]);
        hex_char_value(b)
    } else {
        assert(strip_plus(h) == h);
        assert(h.drop_last() =~= seq![a]);
        match hex_char_value(a) {
            Some(x) => match hex_char_value(b) {
                Some(y) => Some(x * 16 + y),
                None => None,
            },
            None => None,
        }
    }
}

/// Decodes `%XX` escapes and `+`.
pub fn url_decode(s: &str) -> (r: String)
    ensures
        r@ == url_decode_spec(s@),
{
    let v = chars_of(s);
    let mut r = String::new();
    let mut i: usize = 0;
    assert(v@.skip(0) =~= v@);
    while i < v.len()
        invariant
            i <= v@.len(),
            v@ == s@,
            r@ + url_decode_spec(v@.skip(i as int)) == url_decode_spec(v@),
        decreases v.len() - i,
    {
        let ghost t = v@.skip(i as int);
        let ghost before = r@;
        let c = v[i];
        assert(t[0] == c);
        if c == '%' {
            let ghost rest = t.drop_first();
            assert(rest =~= v@.skip(i as int + 1));
            if v.len() - i > 2 {
                let a = v[i + 1];
                let b = v[i + 2];
                assert(rest.take(2) =~= seq![a, b]);
                match hex_pair_of(a, b) {
                    Some(x) => {
                        string_push(&mut r, x as char);
                        assert(rest.skip(2) =~= v@.skip(i as int + 3));
                        i = i + 3;
                    },
                    None => {
                        string_push(&mut r, '%');
                        string_push(&mut r, a);
                        string_push(&mut r, b);
                        assert(rest.skip(2) =~= v@.skip(i as int + 3));
                        i = i + 3;
                    },
                }
            } else {
                string_push(&mut r, '%');
                let ghost h = rest;
                let mut j: usize = i + 1;
                while j < v.len()
                    invariant
                        i + 1 <= j <= v@.len(),
                        r@ == before + seq!['%'] + v@.subrange(i as int + 1, j as int),
                    decreases v.len() - j,
                {
                    string_push(&mut r, v[j]);
                    j = j + 1;
                    assert(r@ =~= before + seq!['%'] + v@.subrange(i as int + 1, j as int));
                }
                assert(v@.subrange(i as int + 1, v@.len() as int) =~= rest);
                assert(rest.skip(rest.len() as int) =~= v@.skip(v@.len() as int));
                i = v.len();
            }
        } else if c == '+' {
            string_push(&mut r, ' ');
            assert(t.drop_first() =~= v@.skip(i as int + 1));
            i = i + 1;
        } else {
            string_push(&mut r, c);
            assert(t.drop_first() =~= v@.skip(i as int + 1));
            i = i + 1;
        }
        assert(r@ + url_decode_spec(v@.skip(i as int)) =~= url_decode_spec(v@));
    }
    assert(url_decode_spec(v@.skip(i as int)) =~= Seq::<char>::empty());
    assert(r@ + Seq::<char>::empty() =~= r@);
    r
}

} // verus!

verus! {

// ─── Query strings ──────────────────────────────────────────────────

/// The index of the first occurrence of the character.
pub open spec fn first_index(s: Seq<char>, c: char) -> Option<int>
    decreases s.len(),
{
    if s.len() == 0 {
        None
    } else if s[0] == c {
        Some(0)
    } else {
        match first_index(s.drop_first(), c) {
            Some(i) => Some(i + 1),
            None => None,
        }
    }
}

proof fn lemma_first_index(s: Seq<char>, c: char)
    ensures
        first_index(s, c) matches Some(i) ==> 0 <= i < s.len() && s[i] == c && forall|k: int|
            0 <= k < i ==> s[k] != c,
        first_index(s, c) is None ==> forall|k: int| 0 <= k < s.len() ==> s[k] != c,
    decreases s.len(),
{
    if s.len() > 0 && s[0] != c {
        lemma_first_index(s.drop_first(), c);
        assert forall|k: int| 0 < k < s.len() implies s[k] == s.drop_first()[k - 1] by {}
    }
}

/// The index of the pair with the key.
pub open spec fn key_index(m: Seq<(Seq<char>, Seq<char>)>, k: Seq<char>) -> Option<int>
    decreases m.len(),
{
    if m.len() == 0 {
        None
    } else if m[0].0 == k {
        Some(0)
    } else {
        match key_index(m.drop_first(), k) {
            Some(i) => Some(i + 1),
            None => None,
        }
    }
}

proof fn lemma_key_index(m: Seq<(Seq<char>, Seq<char>)>, k: Seq<char>)
    ensures
        key_index(m, k) matches Some(i) ==> 0 <= i < m.len() && m[i].0 == k && forall|j: int|
            0 <= j < i ==> m[j].0 != k,
        key_index(m, k) is None ==> forall|j: int| 0 <= j < m.len() ==> m[j].0 != k,
    decreases m.len(),
{
    if m.len() > 0 && m[0].0 != k {
        lemma_key_index(m.drop_first(), k);
        assert forall|j: int| 0 < j < m.len() implies m[j] == m.drop_first()[j - 1] by {}
    }
}

/// A map insertion into pairs: the value replaces that of an equal key,
/// else the pair is appended.
pub open spec fn assoc_insert(m: Seq<(Seq<char>, Seq<char>)>, k: Seq<char>, v: Seq<char>) -> Seq<
    (Seq<char>, Seq<char>),
> {
    match key_index(m, k) {
        Some(i) => m.update(i, (k, v)),
        None => m.push((k, v)),
    }
}

/// The pairs of `key=value` pieces (split at the first `=`, key nonempty,
/// value URL-decoded), a later key replacing an earlier one.
pub open spec fn query_pairs_of(pieces: Seq<Seq<char>>) -> Seq<(Seq<char>, Seq<char>)>
    decreases pieces.len(),
{
    if pieces.len() == 0 {
        Seq::empty()
    } else {
        let m = query_pairs_of(pieces.drop_last());
        let p = pieces.last();
        match first_index(p, '=') {
            Some(i) => if i > 0 {
                assoc_insert(m, p.take(i), url_decode_spec(p.skip(i + 1)))
            } else {
                m
            },
            None => m,
        }
    }
}

pub open spec fn query_pairs(q: Seq<char>) -> Seq<(Seq<char>, Seq<char>)> {
    query_pairs_of(split_on(q, '&'))
}

/// The value of the key, if present.
pub open spec fn pair_value(m: Seq<(Seq<char>, Seq<char>)>, k: Seq<char>) -> Option<Seq<char>> {
    match key_index(m, k) {
        Some(i) => Some(m[i].1),
        None => None,
    }
}

/// One query parameter.
#[derive(Debug, Clone, PartialEq)]
pub struct QueryParam {
    pub key: String,
    pub value: String,
}

/// Query parameters by key: each key once, with its last value, in the order
/// the keys first appeared.
#[derive(Debug, Clone, PartialEq)]
pub struct QueryParams {
    pub params: Vec<QueryParam>,
}

impl View for QueryParams {
    type V = Seq<(Seq<char>, Seq<char>)>;

    open spec fn view(&self) -> Seq<(Seq<char>, Seq<char>)> {
        self.params@.map_values(|p: QueryParam| (p.key@, p.value@))
    }
}

impl QueryParams {
    fn find(&self, key: &Vec<char>) -> (r: Option<usize>)
        ensures
            match r {
                Some(i) => key_index(self@, key@) == Some(i as int),
                None => key_index(self@, key@) is None,
            },
    {
        proof {
            lemma_key_index(self@, key@);
        }
        let mut i: usize = 0;
        while i < self.params.len()
            invariant
                i <= self.params@.len(),
                forall|j: int| 0 <= j < i ==> self@[j].0 != key@,
                key_index(self@, key@) matches Some(x) ==> x >= i,
            decreases self.params.len() - i,
        {
            proof {
                lemma_key_index(self@, key@);
            }
            let k = chars_of(self.params[i].key.as_str());
            assert(self@[i as int].0 == k@);
            if crate::text::chars_eq(&k, key) {
                return Some(i);
            }
            i = i + 1;
        }
        proof {
            lemma_key_index(self@, key@);
        }
        None
    }

    /// The value of the key.
    pub fn get(&self, key: &str) -> (r: Option<&String>)
        ensures
            match r {
                Some(v) => pair_value(self@, key@) == Some(v@),
                None => pair_value(self@, key@) is None,
            },
    {
        let k = chars_of(key);
        proof {
            lemma_key_index(self@, key@);
        }
        match self.find(&k) {
            Some(i) => Some(&self.params[i].value),
            None => None,
        }
    }

    /// The number of keys.
    pub fn len(&self) -> (n: usize)
        ensures
            n == self@.len(),
    {
        self.params.len()
    }

    fn insert(&mut self, key: String, value: String)
        ensures
            final(self)@ == assoc_insert(old(self)@, key@, value@),
    {
        let k = chars_of(key.as_str());
        proof {
            lemma_key_index(self@, key@);
        }
        match self.find(&k) {
            Some(i) => {
                let ghost before = self@;
                self.params.set(i, QueryParam { key, value });
                assert(self@ =~= before.update(i as int, (key@, value@)));
            },
            None => {
                let ghost before = self@;
                self.params.push(QueryParam { key, value });
                assert(self@ =~= before.push((key@, value@)));
            },
        }
    }
}

/// Parses a URL query string into its parameters.
pub fn parse_query_string(query: &str) -> (r: QueryParams)
    ensures
        r@ == query_pairs(query@),
{
    let q = chars_of(query);
    let pieces = split_chars(&q, '&');
    let ghost pv = crate::text::pieces_view(pieces@);
    let mut r = QueryParams { params: Vec::new() };
    assert(r@ =~= Seq::<(Seq<char>, Seq<char>)>::empty());
    let mut i: usize = 0;
    while i < pieces.len()
        invariant
            i <= pieces@.len(),
            pv == crate::text::pieces_view(pieces@),
            pv.len() == pieces@.len(),
            r@ == query_pairs_of(pv.take(i as int)),
        decreases pieces.len() - i,
    {
        let p = &pieces[i];
        assert(pv[i as int] == p@);
        assert(pv.take(i as int + 1).drop_last() =~= pv.take(i as int));
        proof {
            lemma_first_index(p@, '=');
        }
        let mut e: usize = 0;
        while e < p.len() && p[e] != '='
            invariant
                e <= p@.len(),
                forall|k: int| 0 <= k < e ==> p@[k] != '=',
            decreases p.len() - e,
        {
            e = e + 1;
        }
        if e < p.len() && e > 0 {
            assert(first_index(p@, '=') == Some(e as int));
            let mut key: Vec<char> = Vec::new();
            let mut k: usize = 0;
            while k < e
                invariant
                    k <= e < p@.len(),
                    key@ == p@.take(k as int),
                decreases e - k,
            {
                key.push(p[k]);
                k = k + 1;
                assert(key@ =~= p@.take(k as int));
            }
            let mut raw: Vec<char> = Vec::new();
            let mut k2: usize = e + 1;
            while k2 < p.len()
                invariant
                    e + 1 <= k2 <= p@.len(),
                    raw@ == p@.subrange(e as int + 1, k2 as int),
                decreases p.len() - k2,
            {
                raw.push(p[k2]);
                k2 = k2 + 1;
                assert(raw@ =~= p@.subrange(e as int + 1, k2 as int));
            }
            assert(raw@ =~= p@.skip(e as int + 1));
            let raw_s = string_from_chars(&raw);
            let value = url_decode(raw_s.as_str());
            r.insert(string_from_chars(&key), value);
        } else {
            assert(e < p@.len() ==> first_index(p@, '=') == Some(0int));
            assert(e == p@.len() ==> first_index(p@, '=') is None);
        }
        i = i + 1;
    }
    assert(pv.take(pieces@.len() as int) =~= pv);
    r
}

// ─── Request lines ──────────────────────────────────────────────────

/// The whitespace-separated words, as `split_whitespace` gives them.
pub open spec fn words(s: Seq<char>) -> Seq<Seq<char>>
    decreases s.len(),
{
    if s.len() == 0 {
        Seq::empty()
    } else {
        let w = words(s.drop_last());
        let c = s.last();
        if is_white_space(c) {
            w
        } else if s.len() >= 2 && !is_white_space(s[s.len() - 2]) && w.len() > 0 {
            w.update(w.len() - 1, w.last().push(c))
        } else {
            w.push(seq![c])
        }
    }
}

fn words_of(v: &Vec<char>) -> (r: Vec<Vec<char>>)
    ensures
        crate::text::pieces_view(r@) == words(v@),
{
    let mut r: Vec<Vec<char>> = Vec::new();
    let mut cur: Vec<char> = Vec::new();
    let mut i: usize = 0;
    while i < v.len()
        invariant
            i <= v@.len(),
            (cur@.len() > 0) == (i > 0 && !is_white_space(v@[i - 1])),
            cur@.len() > 0 ==> crate::text::pieces_view(r@).push(cur@) == words(v@.take(i as int)),
            cur@.len() == 0 ==> crate::text::pieces_view(r@) == words(v@.take(i as int)),
        decreases v.len() - i,
    {
        let c = v[i];
        let ghost t = v@.take(i as int + 1);
        assert(t.drop_last() =~= v@.take(i as int));
        assert(t.last() == c);
        let ws = crate::text::is_in_trim_set(&TrimSet::Whitespace, c);
        if ws {
            if cur.len() > 0 {
                let done = cur;
                let ghost before = r@;
                r.push(done);
                assert(crate::text::pieces_view(r@) =~= crate::text::pieces_view(before).push(done@));
                cur = Vec::new();
            }
        } else {
            if i > 0 {
                assert(t[t.len() - 2] == v@[i - 1]);
            }
            let ghost old_cur = cur@;
            let ghost w = words(v@.take(i as int));
            let ghost pr = crate::text::pieces_view(r@);
            cur.push(c);
            proof {
                if old_cur.len() > 0 {
                    assert(w == pr.push(old_cur));
                    assert(words(t) == w.update(w.len() - 1, w.last().push(c)));
                    assert(w.update(w.len() - 1, w.last().push(c)) =~= pr.push(cur@));
                } else {
                    assert(w == pr);
                    assert(words(t) == w.push(seq![c]));
                    assert(cur@ =~= seq![c]);
                }
            }
        }
        i = i + 1;
    }
    assert(v@.take(v@.len() as int) =~= v@);
    if cur.len() > 0 {
        let ghost before = r@;
        let ghost last = cur@;
        r.push(cur);
        assert(crate::text::pieces_view(r@) =~= crate::text::pieces_view(before).push(last));
    }
    r
}

} // verus!

verus! {

pub open spec fn starts_with(s: Seq<char>, p: Seq<char>) -> bool {
    p.len() <= s.len() && s.take(p.len() as int) == p
}

/// The query part of a request: for a `GET` or `POST` request line, what
/// follows the first `?` of the target (up to a second `?`); for a line with
/// an `=`, the line without surrounding whitespace; else nothing.
pub open spec fn extract_query(data: Seq<char>) -> Seq<char> {
    if starts_with(data, "GET "@) || starts_with(data, "POST "@) {
        let w = words(data);
        if w.len() >= 2 && split_on(w[1], '?').len() >= 2 {
            split_on(w[1], '?')[1]
        } else {
            Seq::empty()
        }
    } else if data.contains('=') {
        trim_end_set(trim_start_set(data, TrimSet::Whitespace), TrimSet::Whitespace)
    } else {
        Seq::empty()
    }
}

fn starts_with_of(s: &Vec<char>, p: &str) -> (r: bool)
    ensures
        r == starts_with(s@, p@),
{
    let pv = chars_of(p);
    if pv.len() > s.len() {
        return false;
    }
    let mut i: usize = 0;
    while i < pv.len()
        invariant
            i <= pv@.len() <= s@.len(),
            pv@ == p@,
            forall|k: int| 0 <= k < i ==> s@[k] == pv@[k],
        decreases pv.len() - i,
    {
        if s[i] != pv[i] {
            assert(s@.take(pv@.len() as int)[i as int] != pv@[i as int]);
            return false;
        }
        i = i + 1;
    }
    assert(s@.take(pv@.len() as int) =~= pv@);
    true
}

fn contains_char(s: &Vec<char>, c: char) -> (r: bool)
    ensures
        r == s@.contains(c),
{
    let mut i: usize = 0;
    while i < s.len()
        invariant
            i <= s@.len(),
            forall|k: int| 0 <= k < i ==> s@[k] != c,
        decreases s.len() - i,
    {
        if s[i] == c {
            assert(s@[i as int] == c);
            return true;
        }
        i = i + 1;
    }
    false
}

/// The query part of a request line or raw parameter string.
pub fn extract_query_string(data: &str) -> (r: String)
    ensures
        r@ == extract_query(data@),
{
    let d = chars_of(data);
    if starts_with_of(&d, "GET ") || starts_with_of(&d, "POST ") {
        let w = words_of(&d);
        let ghost wv = crate::text::pieces_view(w@);
        if w.len() >= 2 {
            assert(wv[1] == w@[1]@);
            let ps = split_chars(&w[1], '?');
            let ghost pv = crate::text::pieces_view(ps@);
            if ps.len() >= 2 {
                assert(pv[1] == ps@[1]@);
                return string_from_chars(&ps[1]);
            }
        }
        String::new()
    } else if contains_char(&d, '=') {
        let t = trim_chars(&d, &TrimSet::Whitespace);
        string_from_chars(&t)
    } else {
        String::new()
    }
}

/// What an OsmAnd request carries.
#[derive(Debug, Clone, PartialEq)]
pub enum OsmAndRequest {
    /// Nothing to decode.
    Nothing,
    /// A JSON body, to be read as a document and given to `decode_json`.
    Json(String),
    /// URL parameters, to be given to `decode_params`.
    Params(String),
}

pub enum OsmAndRequestModel {
    Nothing,
    Json(Seq<char>),
    Params(Seq<char>),
}

impl View for OsmAndRequest {
    type V = OsmAndRequestModel;

    open spec fn view(&self) -> OsmAndRequestModel {
        match self {
            OsmAndRequest::Nothing => OsmAndRequestModel::Nothing,
            OsmAndRequest::Json(s) => OsmAndRequestModel::Json(s@),
            OsmAndRequest::Params(s) => OsmAndRequestModel::Params(s@),
        }
    }
}

/// The request in the bytes: a body whose first non-blank character is `{`
/// is JSON; else the query part of the line, if any.
pub open spec fn osmand_request(b: Seq<u8>) -> OsmAndRequestModel {
    let data = utf8_lossy(b);
    if data.len() == 0 {
        OsmAndRequestModel::Nothing
    } else if starts_with(trim_start_set(data, TrimSet::Whitespace), seq!['{']) {
        OsmAndRequestModel::Json(data)
    } else if extract_query(data).len() == 0 {
        OsmAndRequestModel::Nothing
    } else {
        OsmAndRequestModel::Params(extract_query(data))
    }
}

// ─── Timestamps ─────────────────────────────────────────────────────

/// A timestamp parameter: an integer is seconds since the Unix epoch below
/// `i32::MAX`, milliseconds from there on; text with a `T` is read as RFC
/// 3339 when it is one; else as `yyyy-MM-dd HH:mm:ss` (UTC). In milliseconds;
/// none when no reading applies.
pub open spec fn osmand_timestamp(v: Seq<char>) -> Option<i64> {
    match parse_dec_i64(v) {
        Some(ts) => if ts < i32::MAX {
            crate::helper::secs_to_millis(ts as int)
        } else {
            Some(ts)
        },
        None => if v.contains('T') && crate::helper::rfc3339_millis(v) is Some {
            crate::helper::rfc3339_millis(v)
        } else {
            crate::helper::naive_datetime_millis(v)
        },
    }
}

/// Reads a timestamp parameter, in milliseconds since the Unix epoch.
pub fn parse_timestamp(value: &str) -> (r: Option<i64>)
    ensures
        r == osmand_timestamp(value@),
{
    let v = chars_of(value);
    match parse_dec_i64_of(&v) {
        Some(ts) => {
            if ts < i32::MAX as i64 {
                crate::helper::from_unix_secs(ts)
            } else {
                Some(ts)
            }
        },
        None => {
            if contains_char(&v, 'T') {
                match crate::helper::parse_rfc3339_millis(value) {
                    Some(t) => {
                        return Some(t);
                    },
                    None => {},
                }
            }
            crate::helper::parse_naive_datetime_millis(value)
        },
    }
}

} // verus!

verus! {

// ─── URL parameters ─────────────────────────────────────────────────

/// The decoder's state while it reads the parameters.
pub struct ParamState {
    pub pos: PositionModel,
    pub lat: Option<Seq<char>>,
    pub lon: Option<Seq<char>>,
}

/// The text when `f64`'s parser accepts it.
pub open spec fn decimal(v: Seq<char>) -> Option<Seq<char>> {
    if f64_syntax(v) {
        Some(v)
    } else {
        None
    }
}

/// One parameter applied to the state.
pub open spec fn apply_param(st: ParamState, k: Seq<char>, v: Seq<char>) -> ParamState {
    let p = st.pos;
    if k == "id"@ || k == "deviceid"@ {
        st
    } else if k == "valid"@ {
        ParamState {
            pos: PositionModel { valid: parse_bool(v) == Some(true) || v == "1"@, ..p },
            ..st
        }
    } else if k == "timestamp"@ {
        match osmand_timestamp(v) {
            Some(t) => ParamState { pos: PositionModel { fix_time: Some(t), ..p }, ..st },
            None => st,
        }
    } else if k == "lat"@ {
        ParamState { lat: decimal(v), ..st }
    } else if k == "lon"@ {
        ParamState { lon: decimal(v), ..st }
    } else if k == "location"@ {
        let parts = split_on(v, ',');
        if parts.len() >= 2 {
            ParamState { lat: decimal(parts[0]), lon: decimal(parts[1]), ..st }
        } else {
            st
        }
    } else if k == "speed"@ {
        if f64_syntax(v) {
            ParamState {
                pos: PositionModel {
                    speed: QuantityModel::Decimal(v),
                    speed_unit: SpeedUnit::Knots,
                    ..p
                },
                ..st
            }
        } else {
            st
        }
    } else if k == "bearing"@ || k == "heading"@ {
        if f64_syntax(v) {
            ParamState { pos: PositionModel { course: QuantityModel::Decimal(v), ..p }, ..st }
        } else {
            st
        }
    } else if k == "altitude"@ {
        if f64_syntax(v) {
            ParamState { pos: PositionModel { altitude: QuantityModel::Decimal(v), ..p }, ..st }
        } else {
            st
        }
    } else if k == "accuracy"@ {
        if f64_syntax(v) {
            ParamState { pos: PositionModel { accuracy: QuantityModel::Decimal(v), ..p }, ..st }
        } else {
            st
        }
    } else if k == "hdop"@ || k == "batt"@ {
        if f64_syntax(v) {
            let key = if k == "hdop"@ {
                AttrKeyModel::Hdop
            } else {
                AttrKeyModel::BatteryLevel
            };
            ParamState {
                pos: PositionModel {
                    attributes: p.attributes.push(
                        attr(key, AttrValueModel::Number(QuantityModel::Decimal(v))),
                    ),
                    ..p
                },
                ..st
            }
        } else {
            st
        }
    } else if k == "driverUniqueId"@ {
        ParamState {
            pos: PositionModel {
                attributes: p.attributes.push(
                    attr(AttrKeyModel::DriverUniqueId, AttrValueModel::Text(v)),
                ),
                ..p
            },
            ..st
        }
    } else if k == "charge"@ {
        match parse_bool(v) {
            Some(b) => ParamState {
                pos: PositionModel {
                    attributes: p.attributes.push(
                        attr(AttrKeyModel::Charge, AttrValueModel::Bool(b)),
                    ),
                    ..p
                },
                ..st
            },
            None => st,
        }
    } else {
        let value = if f64_syntax(v) {
            AttrValueModel::Number(QuantityModel::Decimal(v))
        } else if parse_bool(v) is Some {
            AttrValueModel::Bool(parse_bool(v).unwrap())
        } else {
            AttrValueModel::Text(v)
        };
        ParamState {
            pos: PositionModel {
                attributes: p.attributes.push(attr(AttrKeyModel::Custom(k), value)),
                ..p
            },
            ..st
        }
    }
}

/// The parameters applied in order.
pub open spec fn apply_params(st: ParamState, ps: Seq<(Seq<char>, Seq<char>)>) -> ParamState
    decreases ps.len(),
{
    if ps.len() == 0 {
        st
    } else {
        let s = apply_params(st, ps.drop_last());
        apply_param(s, ps.last().0, ps.last().1)
    }
}

/// The device's unique identifier: the `id` parameter, else `deviceid`.
pub open spec fn params_device(ps: Seq<(Seq<char>, Seq<char>)>) -> Seq<char> {
    match pair_value(ps, "id"@) {
        Some(v) => v,
        None => match pair_value(ps, "deviceid"@) {
            Some(v) => v,
            None => Seq::empty(),
        },
    }
}

/// The position that the parameters describe, the time of receipt `now`
/// standing for a missing fix time. Coordinates are taken only when both
/// were readable.
pub open spec fn params_position(ps: Seq<(Seq<char>, Seq<char>)>, device_id: i64, now: i64) -> PositionModel {
    let init = ParamState {
        pos: PositionModel { valid: true, ..new_position(ProtocolKind::OsmAnd, device_id) },
        lat: None,
        lon: None,
    };
    let st = apply_params(init, ps);
    let p = if st.lat is Some && st.lon is Some {
        PositionModel {
            latitude: QuantityModel::Decimal(st.lat.unwrap()),
            longitude: QuantityModel::Decimal(st.lon.unwrap()),
            ..st.pos
        }
    } else {
        st.pos
    };
    if p.fix_time is None {
        PositionModel { fix_time: Some(now), ..p }
    } else {
        p
    }
}

/// The answer to a query string, given the device identifier its unique
/// identifier hashed to and the time of receipt.
pub open spec fn params_outcome(q: Seq<char>, device_id: i64, now: i64) -> DecodeOutcome {
    let ps = query_pairs(q);
    if params_device(ps).len() == 0 {
        DecodeOutcome::Nothing
    } else {
        DecodeOutcome::Positions(seq![params_position(ps, device_id, now)])
    }
}

fn decimal_of(v: &Vec<char>) -> (r: Option<String>)
    ensures
        match r {
            Some(s) => decimal(v@) == Some(s@),
            None => decimal(v@) is None,
        },
{
    if f64_syntax_of(v) {
        Some(string_from_chars(v))
    } else {
        None
    }
}

struct ParamStateExec {
    pos: Position,
    lat: Option<String>,
    lon: Option<String>,
}

spec fn opt_view(o: Option<String>) -> Option<Seq<char>> {
    match o {
        Some(s) => Some(s@),
        None => None,
    }
}

spec fn state_view(s: ParamStateExec) -> ParamState {
    ParamState { pos: s.pos@, lat: opt_view(s.lat), lon: opt_view(s.lon) }
}

fn apply_param_exec(st: &mut ParamStateExec, k: &str, v: &str)
    ensures
        state_view(*final(st)) == apply_param(state_view(*old(st)), k@, v@),
{
    let kc = chars_of(k);
    let vc = chars_of(v);
    if chars_eq_str(&kc, "id") || chars_eq_str(&kc, "deviceid") {
    } else if chars_eq_str(&kc, "valid") {
        st.pos.valid = parse_bool_of(&vc) == Some(true) || chars_eq_str(&vc, "1");
    } else if chars_eq_str(&kc, "timestamp") {
        match parse_timestamp(v) {
            Some(t) => {
                st.pos.fix_time = Some(t);
            },
            None => {},
        }
    } else if chars_eq_str(&kc, "lat") {
        st.lat = decimal_of(&vc);
    } else if chars_eq_str(&kc, "lon") {
        st.lon = decimal_of(&vc);
    } else if chars_eq_str(&kc, "location") {
        let parts = split_chars(&vc, ',');
        let ghost pv = crate::text::pieces_view(parts@);
        if parts.len() >= 2 {
            assert(pv[0] == parts@[0]@ && pv[1] == parts@[1]@);
            st.lat = decimal_of(&parts[0]);
            st.lon = decimal_of(&parts[1]);
        }
    } else if chars_eq_str(&kc, "speed") {
        if f64_syntax_of(&vc) {
            st.pos.speed = Quantity::Decimal(string_from_str(v));
            st.pos.speed_unit = SpeedUnit::Knots;
        }
    } else if chars_eq_str(&kc, "bearing") || chars_eq_str(&kc, "heading") {
        if f64_syntax_of(&vc) {
            st.pos.course = Quantity::Decimal(string_from_str(v));
        }
    } else if chars_eq_str(&kc, "altitude") {
        if f64_syntax_of(&vc) {
            st.pos.altitude = Quantity::Decimal(string_from_str(v));
        }
    } else if chars_eq_str(&kc, "accuracy") {
        if f64_syntax_of(&vc) {
            st.pos.accuracy = Quantity::Decimal(string_from_str(v));
        }
    } else if chars_eq_str(&kc, "hdop") || chars_eq_str(&kc, "batt") {
        if f64_syntax_of(&vc) {
            let key = if chars_eq_str(&kc, "hdop") {
                AttrKey::Hdop
            } else {
                AttrKey::BatteryLevel
            };
            st.pos.set(key, AttrValue::Number(Quantity::Decimal(string_from_str(v))));
        }
    } else if chars_eq_str(&kc, "driverUniqueId") {
        st.pos.set(AttrKey::DriverUniqueId, AttrValue::Text(string_from_str(v)));
    } else if chars_eq_str(&kc, "charge") {
        match parse_bool_of(&vc) {
            Some(b) => st.pos.set(AttrKey::Charge, AttrValue::Bool(b)),
            None => {},
        }
    } else {
        let value = if f64_syntax_of(&vc) {
            AttrValue::Number(Quantity::Decimal(string_from_str(v)))
        } else {
            match parse_bool_of(&vc) {
                Some(b) => AttrValue::Bool(b),
                None => AttrValue::Text(string_from_str(v)),
            }
        };
        st.pos.set(AttrKey::Custom(string_from_str(k)), value);
    }
}

pub struct OsmAndDecoder;

impl OsmAndDecoder {
    /// What the request in the bytes carries.
    pub fn request(&self, buf: &BytesMut) -> (r: OsmAndRequest)
        ensures
            r@ == osmand_request(bytes_mut_view(*buf)),
    {
        let data = from_utf8_lossy(bytes_mut_as_slice(buf));
        let d = chars_of(data.as_str());
        if d.len() == 0 {
            return OsmAndRequest::Nothing;
        }
        let t = trim_start_chars(&d, &TrimSet::Whitespace);
        if t.len() > 0 && t[0] == '{' {
            assert(t@.take(1) =~= seq!['{']);
            return OsmAndRequest::Json(data);
        }
        assert(!starts_with(t@, seq!['{'])) by {
            if t@.len() >= 1 {
                assert(t@.take(1)[0] == t@[0]);
            }
        }
        let q = extract_query_string(data.as_str());
        if q.as_str().is_empty() {
            OsmAndRequest::Nothing
        } else {
            OsmAndRequest::Params(q)
        }
    }

    /// Decodes URL parameters at the time of receipt `now`: the `id` (or
    /// `deviceid`) names the device; without one, nothing is decoded.
    pub fn decode_params_at(&self, query: &str, session: &mut DeviceSession, now: i64) -> (r:
        Result<Option<Vec<Position>>, ProtocolError>)
        ensures
            params_device(query_pairs(query@)).len() == 0 ==> *final(session) == *old(session),
            params_device(query_pairs(query@)).len() > 0 ==> final(session).unique_id@
                == params_device(query_pairs(query@)),
            params_device(query_pairs(query@)).len() > 0 ==> final(session).device_id == hash_device_id(default_str_hash(final(session).unique_id@)),
            final(session).protocol == old(session).protocol,
            decode_outcome(r) == params_outcome(query@, final(session).device_id, now),
    {
        let params = parse_query_string(query);
        let ghost ps = params@;
        let id = match params.get("id") {
            Some(v) => string_from_str(v.as_str()),
            None => match params.get("deviceid") {
                Some(v) => string_from_str(v.as_str()),
                None => String::new(),
            },
        };
        assert(id@ == params_device(ps));
        if id.as_str().is_empty() {
            return Ok(None);
        }
        session.unique_id = id;
        session.device_id = simple_device_id(session.unique_id.as_str());
        let mut pos = Position::new(ProtocolKind::OsmAnd, session.device_id);
        pos.valid = true;
        let mut st = ParamStateExec { pos, lat: None, lon: None };
        let ghost init = state_view(st);
        let mut i: usize = 0;
        while i < params.params.len()
            invariant
                i <= params.params@.len(),
                ps == params@,
                ps.len() == params.params@.len(),
                state_view(st) == apply_params(init, ps.take(i as int)),
            decreases params.params.len() - i,
        {
            let p = &params.params[i];
            assert(ps[i as int] == (p.key@, p.value@));
            assert(ps.take(i as int + 1).drop_last() =~= ps.take(i as int));
            apply_param_exec(&mut st, p.key.as_str(), p.value.as_str());
            i = i + 1;
        }
        assert(ps.take(ps.len() as int) =~= ps);
        let mut pos = st.pos;
        match (st.lat, st.lon) {
            (Some(lat), Some(lon)) => {
                pos.latitude = Quantity::Decimal(lat);
                pos.longitude = Quantity::Decimal(lon);
            },
            _ => {},
        }
        if pos.fix_time.is_none() {
            pos.fix_time = Some(now);
        }
        Ok(Some(single(pos)))
    }

    /// Decodes URL parameters, a missing fix time taken as now.
    pub fn decode_params(&self, query: &str, session: &mut DeviceSession) -> (r: Result<
        Option<Vec<Position>>,
        ProtocolError,
    >)
        ensures
            params_device(query_pairs(query@)).len() == 0 ==> *final(session) == *old(session),
            params_device(query_pairs(query@)).len() > 0 ==> final(session).unique_id@
                == params_device(query_pairs(query@)),
            params_device(query_pairs(query@)).len() > 0 ==> final(session).device_id == hash_device_id(default_str_hash(final(session).unique_id@)),
            final(session).protocol == old(session).protocol,
            exists|now: i64| decode_outcome(r) == params_outcome(query@, final(session).device_id, now),
    {
        let now = utc_now_millis();
        self.decode_params_at(query, session, now)
    }
}

} // verus!

verus! {

// ─── JSON bodies ────────────────────────────────────────────────────

/// Whether the number written as the text is at least zero: it has no
/// leading minus sign, or its digits are all zero.
pub open spec fn nonnegative_text(t: Seq<char>) -> bool {
    !(t.len() > 0 && t[0] == '-') || forall|i: int|
        0 <= i < exp_index(t) ==> #[trigger] t[i] == '-' || t[i] == '0' || t[i] == '.'
}

fn nonnegative_text_of(t: &Vec<char>) -> (r: bool)
    ensures
        r == nonnegative_text(t@),
{
    if !(t.len() > 0 && t[0] == '-') {
        return true;
    }
    let mut i: usize = 0;
    while i < t.len() && t[i] != 'e' && t[i] != 'E'
        invariant
            i <= t@.len(),
            t@.len() > 0 && t@[0] == '-',
            forall|k: int| 0 <= k < i ==> t@[k] != 'e' && t@[k] != 'E',
            forall|k: int| 0 <= k < i ==> #[trigger] t@[k] == '-' || t@[k] == '0' || t@[k] == '.',
        decreases t.len() - i,
    {
        let c = t[i];
        if !(c == '-' || c == '0' || c == '.') {
            proof {
                assert(t@[i as int] == c);
                lemma_exp_index_bound(t@, i as int);
                assert(!(t@[i as int] == '-' || t@[i as int] == '0' || t@[i as int] == '.'));
                assert(t@.len() > 0 && t@[0] == '-');
            }
            return false;
        }
        i = i + 1;
    }
    proof {
        lemma_exp_index_at(t@, i as int);
    }
    true
}

proof fn lemma_exp_index_bound(b: Seq<char>, i: int)
    requires
        0 <= i < b.len(),
        forall|k: int| 0 <= k <= i ==> b[k] != 'e' && b[k] != 'E',
    ensures
        i < exp_index(b),
    decreases b.len(),
{
    if i > 0 {
        assert forall|k: int| 0 <= k <= i - 1 implies b.drop_first()[k] != 'e' && b.drop_first()[k]
            != 'E' by {
            assert(b.drop_first()[k] == b[k + 1]);
        }
        lemma_exp_index_bound(b.drop_first(), i - 1);
    } else {
        crate::numbers::lemma_exp_index(b.drop_first());
    }
}

proof fn lemma_exp_index_at(b: Seq<char>, i: int)
    requires
        0 <= i <= b.len(),
        forall|k: int| 0 <= k < i ==> b[k] != 'e' && b[k] != 'E',
        i == b.len() || b[i] == 'e' || b[i] == 'E',
    ensures
        exp_index(b) == i,
    decreases b.len(),
{
    if i > 0 {
        assert forall|k: int| 0 <= k < i - 1 implies b.drop_first()[k] != 'e' && b.drop_first()[k]
            != 'E' by {
            assert(b.drop_first()[k] == b[k + 1]);
        }
        if i < b.len() {
            assert(b.drop_first()[i - 1] == b[i]);
        }
        lemma_exp_index_at(b.drop_first(), i - 1);
    }
}

pub open spec fn p1(a: Seq<char>) -> Seq<Seq<char>> {
    seq![a]
}

pub open spec fn p2(a: Seq<char>, b: Seq<char>) -> Seq<Seq<char>> {
    seq![a, b]
}

pub open spec fn p3(a: Seq<char>, b: Seq<char>, c: Seq<char>) -> Seq<Seq<char>> {
    seq![a, b, c]
}

/// The coordinates of an OsmAnd location's `coords` object applied to a
/// position: valid; latitude, longitude, accuracy and altitude when they are
/// numbers; speed (meters per second) and heading when they are numbers not
/// below zero.
pub open spec fn json_coords(e: Seq<JsonEntryAlias>, p: PositionModel) -> PositionModel {
    let c = "coords"@;
    let l = "location"@;
    let q0 = PositionModel { valid: true, ..p };
    let q1 = match json_number(json_at(e, p3(l, c, "latitude"@))) {
        Some(t) => PositionModel { latitude: QuantityModel::Decimal(t), ..q0 },
        None => q0,
    };
    let q2 = match json_number(json_at(e, p3(l, c, "longitude"@))) {
        Some(t) => PositionModel { longitude: QuantityModel::Decimal(t), ..q1 },
        None => q1,
    };
    let q3 = match json_number(json_at(e, p3(l, c, "speed"@))) {
        Some(t) => if nonnegative_text(t) {
            PositionModel {
                speed: QuantityModel::Decimal(t),
                speed_unit: SpeedUnit::MetersPerSecond,
                ..q2
            }
        } else {
            q2
        },
        None => q2,
    };
    let q4 = match json_number(json_at(e, p3(l, c, "heading"@))) {
        Some(t) => if nonnegative_text(t) {
            PositionModel { course: QuantityModel::Decimal(t), ..q3 }
        } else {
            q3
        },
        None => q3,
    };
    let q5 = match json_number(json_at(e, p3(l, c, "accuracy"@))) {
        Some(t) => PositionModel { accuracy: QuantityModel::Decimal(t), ..q4 },
        None => q4,
    };
    match json_number(json_at(e, p3(l, c, "altitude"@))) {
        Some(t) => PositionModel { altitude: QuantityModel::Decimal(t), ..q5 },
        None => q5,
    }
}

pub type JsonEntryAlias = crate::json::JsonEntry;

pub open spec fn push_attr(p: PositionModel, k: AttrKeyModel, v: AttrValueModel) -> PositionModel {
    PositionModel { attributes: p.attributes.push(attr(k, v)), ..p }
}

/// The position that an OsmAnd JSON body describes: from its `location`
/// object when it has one (RFC 3339 timestamp, coordinates, event, motion,
/// odometer, battery), else from the flat `lat`, `lon` and `timestamp`
/// (seconds) members.
pub open spec fn json_position(e: Seq<JsonEntryAlias>, device_id: i64) -> PositionModel {
    let l = "location"@;
    let base = new_position(ProtocolKind::OsmAnd, device_id);
    if json_at(e, p1(l)) is Some {
        let a = match json_str(json_at(e, p2(l, "timestamp"@))) {
            Some(ts) => match crate::helper::rfc3339_millis(ts) {
                Some(t) => PositionModel { fix_time: Some(t), ..base },
                None => base,
            },
            None => base,
        };
        let b = if json_at(e, p2(l, "coords"@)) is Some {
            json_coords(e, a)
        } else {
            a
        };
        let c = match json_str(json_at(e, p2(l, "event"@))) {
            Some(s) => push_attr(b, AttrKeyModel::Event, AttrValueModel::Text(s)),
            None => b,
        };
        let d = match json_bool(json_at(e, p2(l, "is_moving"@))) {
            Some(m) => push_attr(c, AttrKeyModel::Motion, AttrValueModel::Bool(m)),
            None => c,
        };
        let f = match json_i64(json_at(e, p2(l, "odometer"@))) {
            Some(o) => push_attr(d, AttrKeyModel::Odometer, AttrValueModel::Int(o)),
            None => d,
        };
        if json_at(e, p2(l, "battery"@)) is Some {
            let g = match json_number(json_at(e, p3(l, "battery"@, "level"@))) {
                Some(t) => if nonnegative_text(t) {
                    push_attr(f, AttrKeyModel::BatteryLevel, AttrValueModel::Percent(t))
                } else {
                    f
                },
                None => f,
            };
            if json_bool(json_at(e, p3(l, "battery"@, "is_charging"@))) == Some(true) {
                push_attr(g, AttrKeyModel::Charge, AttrValueModel::Bool(true))
            } else {
                g
            }
        } else {
            f
        }
    } else {
        let a = PositionModel { valid: true, ..base };
        let b = match json_number(json_at(e, p1("lat"@))) {
            Some(t) => PositionModel { latitude: QuantityModel::Decimal(t), ..a },
            None => a,
        };
        let c = match json_number(json_at(e, p1("lon"@))) {
            Some(t) => PositionModel { longitude: QuantityModel::Decimal(t), ..b },
            None => b,
        };
        match json_i64(json_at(e, p1("timestamp"@))) {
            Some(ts) => match crate::helper::secs_to_millis(ts as int) {
                Some(t) => PositionModel { fix_time: Some(t), ..c },
                None => c,
            },
            None => c,
        }
    }
}

/// The device's unique identifier in a JSON body: `device_id` when present
/// (a string, else none), otherwise `id`.
pub open spec fn json_device(e: Seq<JsonEntryAlias>) -> Seq<char> {
    let f = if json_at(e, p1("device_id"@)) is Some {
        json_at(e, p1("device_id"@))
    } else {
        json_at(e, p1("id"@))
    };
    match json_str(f) {
        Some(s) => s,
        None => Seq::empty(),
    }
}

pub open spec fn json_outcome(e: Seq<JsonEntryAlias>, device_id: i64) -> DecodeOutcome {
    if json_device(e).len() == 0 {
        DecodeOutcome::Nothing
    } else {
        DecodeOutcome::Positions(seq![json_position(e, device_id)])
    }
}

fn decimal_text(t: &String) -> (r: Quantity)
    ensures
        r@ == QuantityModel::Decimal(t@),
{
    Quantity::Decimal(string_from_str(t.as_str()))
}

fn json_coords_of(doc: &JsonDocument, pos: &mut Position)
    ensures
        final(pos)@ == json_coords(doc.entries@, old(pos)@),
{
    pos.valid = true;
    let lat_p = vec!["location", "coords", "latitude"];
    assert(lat_p@.map_values(|s: &str| s@) =~= p3("location"@, "coords"@, "latitude"@));
    match as_number(doc.at(&lat_p)) {
        Some(t) => pos.latitude = decimal_text(t),
        None => {},
    }
    let lon_p = vec!["location", "coords", "longitude"];
    assert(lon_p@.map_values(|s: &str| s@) =~= p3("location"@, "coords"@, "longitude"@));
    match as_number(doc.at(&lon_p)) {
        Some(t) => pos.longitude = decimal_text(t),
        None => {},
    }
    let speed_p = vec!["location", "coords", "speed"];
    assert(speed_p@.map_values(|s: &str| s@) =~= p3("location"@, "coords"@, "speed"@));
    match as_number(doc.at(&speed_p)) {
        Some(t) => {
            if nonnegative_text_of(&chars_of(t.as_str())) {
                pos.speed = decimal_text(t);
                pos.speed_unit = SpeedUnit::MetersPerSecond;
            }
        },
        None => {},
    }
    let heading_p = vec!["location", "coords", "heading"];
    assert(heading_p@.map_values(|s: &str| s@) =~= p3("location"@, "coords"@, "heading"@));
    match as_number(doc.at(&heading_p)) {
        Some(t) => {
            if nonnegative_text_of(&chars_of(t.as_str())) {
                pos.course = decimal_text(t);
            }
        },
        None => {},
    }
    let acc_p = vec!["location", "coords", "accuracy"];
    assert(acc_p@.map_values(|s: &str| s@) =~= p3("location"@, "coords"@, "accuracy"@));
    match as_number(doc.at(&acc_p)) {
        Some(t) => pos.accuracy = decimal_text(t),
        None => {},
    }
    let alt_p = vec!["location", "coords", "altitude"];
    assert(alt_p@.map_values(|s: &str| s@) =~= p3("location"@, "coords"@, "altitude"@));
    match as_number(doc.at(&alt_p)) {
        Some(t) => pos.altitude = decimal_text(t),
        None => {},
    }
}

impl OsmAndDecoder {
    /// Decodes a JSON body: the device identifier names the device; without
    /// one, nothing is decoded.
    pub fn decode_json(&self, doc: &JsonDocument, session: &mut DeviceSession) -> (r: Result<
        Option<Vec<Position>>,
        ProtocolError,
    >)
        ensures
            json_device(doc.entries@).len() == 0 ==> *final(session) == *old(session),
            json_device(doc.entries@).len() > 0 ==> final(session).unique_id@ == json_device(
                doc.entries@,
            ),
            json_device(doc.entries@).len() > 0 ==> final(session).device_id == hash_device_id(default_str_hash(final(session).unique_id@)),
            final(session).protocol == old(session).protocol,
            decode_outcome(r) == json_outcome(doc.entries@, final(session).device_id),
    {
        let ghost e = doc.entries@;
        let dp = vec!["device_id"];
        assert(dp@.map_values(|s: &str| s@) =~= p1("device_id"@));
        let ip = vec!["id"];
        assert(ip@.map_values(|s: &str| s@) =~= p1("id"@));
        let field = match doc.at(&dp) {
            Some(f) => Some(f),
            None => doc.at(&ip),
        };
        let id = match as_str(field) {
            Some(s) => string_from_str(s.as_str()),
            None => String::new(),
        };
        assert(id@ == json_device(e));
        if id.as_str().is_empty() {
            return Ok(None);
        }
        session.unique_id = id;
        session.device_id = simple_device_id(session.unique_id.as_str());
        let mut pos = Position::new(ProtocolKind::OsmAnd, session.device_id);
        let lp = vec!["location"];
        assert(lp@.map_values(|s: &str| s@) =~= p1("location"@));
        if doc.at(&lp).is_some() {
            let tp = vec!["location", "timestamp"];
            assert(tp@.map_values(|s: &str| s@) =~= p2("location"@, "timestamp"@));
            match as_str(doc.at(&tp)) {
                Some(ts) => match crate::helper::parse_rfc3339_millis(ts.as_str()) {
                    Some(t) => pos.fix_time = Some(t),
                    None => {},
                },
                None => {},
            }
            let cp = vec!["location", "coords"];
            assert(cp@.map_values(|s: &str| s@) =~= p2("location"@, "coords"@));
            if doc.at(&cp).is_some() {
                json_coords_of(doc, &mut pos);
            }
            let ep = vec!["location", "event"];
            assert(ep@.map_values(|s: &str| s@) =~= p2("location"@, "event"@));
            match as_str(doc.at(&ep)) {
                Some(s) => pos.set(AttrKey::Event, AttrValue::Text(string_from_str(s.as_str()))),
                None => {},
            }
            let mp = vec!["location", "is_moving"];
            assert(mp@.map_values(|s: &str| s@) =~= p2("location"@, "is_moving"@));
            match as_bool(doc.at(&mp)) {
                Some(m) => pos.set(AttrKey::Motion, AttrValue::Bool(m)),
                None => {},
            }
            let op = vec!["location", "odometer"];
            assert(op@.map_values(|s: &str| s@) =~= p2("location"@, "odometer"@));
            match as_i64(doc.at(&op)) {
                Some(o) => pos.set(AttrKey::Odometer, AttrValue::Int(o)),
                None => {},
            }
            let bp = vec!["location", "battery"];
            assert(bp@.map_values(|s: &str| s@) =~= p2("location"@, "battery"@));
            if doc.at(&bp).is_some() {
                let blp = vec!["location", "battery", "level"];
                assert(blp@.map_values(|s: &str| s@) =~= p3("location"@, "battery"@, "level"@));
                match as_number(doc.at(&blp)) {
                    Some(t) => {
                        if nonnegative_text_of(&chars_of(t.as_str())) {
                            pos.set(
                                AttrKey::BatteryLevel,
                                AttrValue::Percent(string_from_str(t.as_str())),
                            );
                        }
                    },
                    None => {},
                }
                let bcp = vec!["location", "battery", "is_charging"];
                assert(bcp@.map_values(|s: &str| s@) =~= p3(
                    "location"@,
                    "battery"@,
                    "is_charging"@,
                ));
                if as_bool(doc.at(&bcp)) == Some(true) {
                    pos.set(AttrKey::Charge, AttrValue::Bool(true));
                }
            }
        } else {
            pos.valid = true;
            let ap = vec!["lat"];
            assert(ap@.map_values(|s: &str| s@) =~= p1("lat"@));
            match as_number(doc.at(&ap)) {
                Some(t) => pos.latitude = decimal_text(t),
                None => {},
            }
            let op = vec!["lon"];
            assert(op@.map_values(|s: &str| s@) =~= p1("lon"@));
            match as_number(doc.at(&op)) {
                Some(t) => pos.longitude = decimal_text(t),
                None => {},
            }
            let tp = vec!["timestamp"];
            assert(tp@.map_values(|s: &str| s@) =~= p1("timestamp"@));
            match as_i64(doc.at(&tp)) {
                Some(ts) => match crate::helper::from_unix_secs(ts) {
                    Some(t) => pos.fix_time = Some(t),
                    None => {},
                },
                None => {},
            }
        }
        Ok(Some(single(pos)))
    }
}

} // verus!

verus! {

pub struct OsmAndEncoder;

impl OsmAndEncoder {
    /// OsmAnd clients take no commands: every command is refused.
    pub fn encode(&self, command: &Command, unique_id: &str) -> (r: Result<Bytes, ProtocolError>)
        ensures
            encode_outcome(r) == EncodeOutcome::Failed(
                ProtocolErrorModel::UnsupportedCommand("OsmAnd is a read-only HTTP protocol"@),
            ),
    {
        Err(ProtocolError::UnsupportedCommand(string_from_str("OsmAnd is a read-only HTTP protocol")))
    }
}

/// The OsmAnd protocol definition: TCP (HTTP) on port 5055, no commands.
pub fn register(registry: &mut ProtocolRegistry)
    ensures
        final(registry)@ == old(registry)@.insert(
            PROTOCOL_NAME@,
            ProtocolDefinitionModel {
                name: PROTOCOL_NAME@,
                transport: Transport::Tcp,
                default_port: DEFAULT_PORT,
                kind: ProtocolKind::OsmAnd,
                supported_commands: Seq::empty(),
            },
        ),
{
    let def = ProtocolDefinition {
        name: string_from_str(PROTOCOL_NAME),
        transport: Transport::Tcp,
        default_port: DEFAULT_PORT,
        kind: ProtocolKind::OsmAnd,
        supported_commands: Vec::new(),
    };
    assert(def@.supported_commands =~= Seq::<Seq<char>>::empty());
    registry.register(def);
}

} // verus!

verus! {

/// Text without `%` or `+` is decoded as it is.
pub proof fn lemma_url_decode_plain(s: Seq<char>)
    requires
        forall|i: int| 0 <= i < s.len() ==> s[i] != '%' && s[i] != '+',
    ensures
        url_decode_spec(s) == s,
    decreases s.len(),
{
    if s.len() > 0 {
        lemma_url_decode_plain(s.drop_first());
        assert(seq![s[0]] + s.drop_first() =~= s);
    }
}

proof fn lemma_key_index_at(m: Seq<(Seq<char>, Seq<char>)>, k: Seq<char>, i: int)
    requires
        0 <= i < m.len(),
        m[i].0 == k,
        forall|j: int| 0 <= j < i ==> m[j].0 != k,
    ensures
        key_index(m, k) == Some(i),
    decreases i,
{
    if i > 0 {
        lemma_key_index_at(m.drop_first(), k, i - 1);
    }
}

/// After an insertion, the key has the inserted value.
proof fn lemma_assoc_insert_value(m: Seq<(Seq<char>, Seq<char>)>, k: Seq<char>, v: Seq<char>)
    ensures
        pair_value(assoc_insert(m, k, v), k) == Some(v),
{
    lemma_key_index(m, k);
    match key_index(m, k) {
        Some(i) => {
            lemma_key_index_at(m.update(i, (k, v)), k, i);
        },
        None => {
            lemma_key_index_at(m.push((k, v)), k, m.len() as int);
        },
    }
}

/// A later `key=value` piece gives the key its value, whatever came before:
/// the value URL-decoded, for a nonempty key without `=`.
pub proof fn lemma_query_later_wins(pieces: Seq<Seq<char>>, key: Seq<char>, value: Seq<char>)
    requires
        key.len() > 0,
        forall|i: int| 0 <= i < key.len() ==> key[i] != '=',
    ensures
        pair_value(query_pairs_of(pieces.push(key + seq!['='] + value)), key) == Some(
            url_decode_spec(value),
        ),
{
    let p = key + seq!['='] + value;
    let all = pieces.push(p);
    assert(all.drop_last() =~= pieces);
    assert(all.last() == p);
    lemma_first_index(p, '=');
    assert(p[key.len() as int] == '=');
    let i = first_index(p, '=').unwrap();
    assert(i == key.len()) by {
        if i < key.len() {
            assert(p[i] == key[i]);
        }
    }
    assert(p.take(i) =~= key);
    assert(p.skip(i + 1) =~= value);
    lemma_assoc_insert_value(query_pairs_of(pieces), key, url_decode_spec(value));
}

} // verus!

verus! {

/// What decoding URL parameters does to the session and answers, for some
/// time of receipt.
pub open spec fn params_decoded(
    q: Seq<char>,
    before: DeviceSession,
    after: DeviceSession,
    out: DecodeOutcome,
) -> bool {
    let id = params_device(query_pairs(q));
    &&& id.len() == 0 ==> after == before
    &&& id.len() > 0 ==> after.unique_id@ == id && after.device_id == hash_device_id(default_str_hash(after.unique_id@))
    &&& after.protocol == before.protocol
    &&& exists|now: i64| out == params_outcome(q, after.device_id, now)
}

/// What decoding a JSON document does to the session and answers.
pub open spec fn json_decoded(
    doc: JsonDocument,
    before: DeviceSession,
    after: DeviceSession,
    out: DecodeOutcome,
) -> bool {
    let id = json_device(doc.entries@);
    &&& id.len() == 0 ==> after == before
    &&& id.len() > 0 ==> after.unique_id@ == id && after.device_id == hash_device_id(default_str_hash(after.unique_id@))
    &&& after.protocol == before.protocol
    &&& out == json_outcome(doc.entries@, after.device_id)
}

/// What the OsmAnd decoder does with a request: a JSON body is parsed and
/// read (an unparsable one is an error); URL parameters are read; anything
/// else gives nothing.
pub open spec fn osmand_decoded(
    b: Seq<u8>,
    before: DeviceSession,
    after: DeviceSession,
    out: DecodeOutcome,
) -> bool {
    match osmand_request(b) {
        OsmAndRequestModel::Nothing => after == before && out == DecodeOutcome::Nothing,
        OsmAndRequestModel::Json(t) => match json_parsed(t) {
            Ok(doc) => json_decoded(doc, before, after, out),
            Err(m) => after == before && out == DecodeOutcome::Failed(
                ProtocolErrorModel::Decode("JSON parse error: "@ + m),
            ),
        },
        OsmAndRequestModel::Params(q) => params_decoded(q, before, after, out),
    }
}

impl OsmAndDecoder {
    /// Decodes one request: a JSON body or URL parameters.
    pub fn decode(&self, buf: &BytesMut, session: &mut DeviceSession) -> (r: Result<
        Option<Vec<Position>>,
        ProtocolError,
    >)
        ensures
            osmand_decoded(bytes_mut_view(*buf), *old(session), *final(session), decode_outcome(r)),
    {
        match self.request(buf) {
            OsmAndRequest::Nothing => Ok(None),
            OsmAndRequest::Json(text) => match parse_json(text.as_str()) {
                Ok(doc) => self.decode_json(&doc, session),
                Err(m) => {
                    let mut msg = string_from_str("JSON parse error: ");
                    crate::text::push_str(&mut msg, m.as_str());
                    Err(ProtocolError::Decode(msg))
                },
            },
            OsmAndRequest::Params(q) => self.decode_params(q.as_str(), session),
        }
    }
}

} // verus!

verus! {

/// URL decoding never lengthens text: each `+` or `%XX` becomes one
/// character, everything else stays as it is.
pub proof fn lemma_url_decode_len(s: Seq<char>)
    ensures
        url_decode_spec(s).len() <= s.len(),
    decreases s.len(),
{
    if s.len() > 0 {
        if s[0] == '%' {
            let rest = s.drop_first();
            let h = if rest.len() >= 2 {
                rest.take(2)
            } else {
                rest
            };
            if h.len() == 2 && hex_pair(h) is Some {
                lemma_url_decode_len(rest.skip(2));
            } else {
                lemma_url_decode_len(rest.skip(h.len() as int));
            }
        } else {
            lemma_url_decode_len(s.drop_first());
        }
    }
}

/// The key of a `key=value` piece: the text before its first `=`, when that
/// is not empty.
pub open spec fn piece_key(p: Seq<char>) -> Option<Seq<char>> {
    match first_index(p, '=') {
        Some(i) => if i > 0 {
            Some(p.take(i))
        } else {
            None
        },
        None => None,
    }
}

/// The value of a `key=value` piece: the text after its first `=`.
pub open spec fn piece_value(p: Seq<char>) -> Seq<char> {
    p.skip(first_index(p, '=').unwrap() + 1)
}

/// The last piece whose key is `k`.
pub open spec fn last_piece_with_key(pieces: Seq<Seq<char>>, k: Seq<char>) -> Option<int>
    decreases pieces.len(),
{
    if pieces.len() == 0 {
        None
    } else if piece_key(pieces.last()) == Some(k) {
        Some(pieces.len() - 1)
    } else {
        last_piece_with_key(pieces.drop_last(), k)
    }
}

proof fn lemma_key_index_none(m: Seq<(Seq<char>, Seq<char>)>, k: Seq<char>)
    requires
        forall|j: int| 0 <= j < m.len() ==> m[j].0 != k,
    ensures
        key_index(m, k) is None,
    decreases m.len(),
{
    if m.len() > 0 {
        lemma_key_index_none(m.drop_first(), k);
    }
}

/// An insertion under one key leaves the value of every other key.
proof fn lemma_assoc_insert_other(
    m: Seq<(Seq<char>, Seq<char>)>,
    k2: Seq<char>,
    v: Seq<char>,
    k: Seq<char>,
)
    requires
        k != k2,
    ensures
        pair_value(assoc_insert(m, k2, v), k) == pair_value(m, k),
{
    lemma_key_index(m, k2);
    lemma_key_index(m, k);
    let n = assoc_insert(m, k2, v);
    match key_index(m, k) {
        Some(i) => {
            assert forall|j: int| 0 <= j < i implies n[j].0 != k by {
                if let Some(a) = key_index(m, k2) {
                    if j == a {
                        assert(n[j].0 == k2);
                    } else {
                        assert(n[j] == m[j]);
                    }
                } else {
                    assert(n[j] == m[j]);
                }
            }
            if let Some(a) = key_index(m, k2) {
                assert(a != i);
            }
            assert(n[i] == m[i]);
            lemma_key_index_at(n, k, i);
        },
        None => {
            assert forall|j: int| 0 <= j < n.len() implies n[j].0 != k by {
                if let Some(a) = key_index(m, k2) {
                    if j != a {
                        assert(n[j] == m[j]);
                    }
                } else if j < m.len() {
                    assert(n[j] == m[j]);
                }
            }
            lemma_key_index_none(n, k);
        },
    }
}

/// A key has a value exactly when some piece is `key=value` with that
/// (nonempty) key before its first `=`; the value is that of the last such
/// piece, URL-decoded. Pieces without `=`, or with an empty key, add
/// nothing.
pub proof fn lemma_query_pairs_lookup(pieces: Seq<Seq<char>>, k: Seq<char>)
    ensures
        pair_value(query_pairs_of(pieces), k) == match last_piece_with_key(pieces, k) {
            Some(j) => Some(url_decode_spec(piece_value(pieces[j]))),
            None => None::<Seq<char>>,
        },
    decreases pieces.len(),
{
    if pieces.len() == 0 {
        assert(query_pairs_of(pieces) =~= Seq::<(Seq<char>, Seq<char>)>::empty());
    } else {
        let init = pieces.drop_last();
        let p = pieces.last();
        lemma_query_pairs_lookup(init, k);
        lemma_first_index(p, '=');
        let m = query_pairs_of(init);
        match first_index(p, '=') {
            Some(i) => if i > 0 {
                if p.take(i) == k {
                    lemma_assoc_insert_value(m, k, url_decode_spec(p.skip(i + 1)));
                } else {
                    lemma_assoc_insert_other(m, p.take(i), url_decode_spec(p.skip(i + 1)), k);
                }
            },
            None => {},
        }
        if let Some(j) = last_piece_with_key(init, k) {
            lemma_last_piece_in_range(init, k);
            assert(pieces[j] == init[j]);
        }
    }
}

/// The lookup law on a whole query string, split at `&`.
pub proof fn lemma_query_lookup(q: Seq<char>, k: Seq<char>)
    ensures
        pair_value(query_pairs(q), k) == match last_piece_with_key(split_on(q, '&'), k) {
            Some(j) => Some(url_decode_spec(piece_value(split_on(q, '&')[j]))),
            None => None::<Seq<char>>,
        },
{
    lemma_query_pairs_lookup(split_on(q, '&'), k);
}

proof fn lemma_last_piece_in_range(pieces: Seq<Seq<char>>, k: Seq<char>)
    ensures
        last_piece_with_key(pieces, k) matches Some(j) ==> 0 <= j < pieces.len(),
    decreases pieces.len(),
{
    if pieces.len() > 0 {
        lemma_last_piece_in_range(pieces.drop_last(), k);
    }
}

} // verus!

verus! {

/// The rules of URL decoding, one step at a time: `+` becomes a space; `%`
/// and two hexadecimal digits become the character with that code; a `%`
/// not followed by two hexadecimal digits is kept, with what follows it.
pub proof fn lemma_url_decode_rules(s: Seq<char>, a: char, b: char)
    ensures
        url_decode_spec(seq!['+'] + s) == seq![' '] + url_decode_spec(s),
        hex_pair(seq![a, b]) is Some ==> url_decode_spec(seq!['%', a, b] + s) == seq![
            (hex_pair(seq![a, b]).unwrap() as u8) as char,
        ] + url_decode_spec(s),
        hex_pair(seq![a, b]) is None ==> url_decode_spec(seq!['%', a, b] + s) == seq!['%', a, b]
            + url_decode_spec(s),
        url_decode_spec(seq!['%']) == seq!['%'],
        url_decode_spec(seq!['%', a]) == seq!['%', a],
{
    let p = seq!['+'] + s;
    assert(p.drop_first() =~= s);
    let q = seq!['%', a, b] + s;
    let rest = q.drop_first();
    assert(rest =~= seq![a, b] + s);
    assert(rest.take(2) =~= seq![a, b]);
    assert(rest.skip(2) =~= s);
    assert(seq!['%'] + seq![a, b] + url_decode_spec(s) =~= seq!['%', a, b] + url_decode_spec(s));
    let one = seq!['%'];
    assert(one.drop_first() =~= Seq::<char>::empty());
    assert(url_decode_spec(Seq::<char>::empty()) =~= Seq::<char>::empty());
    assert(one.drop_first().skip(0) =~= Seq::<char>::empty());
    let two = seq!['%', a];
    assert(two.drop_first() =~= seq![a]);
    assert(seq![a].skip(1) =~= Seq::<char>::empty());
    assert(seq!['%'] + seq![a] + Seq::<char>::empty() =~= seq!['%', a]);
    assert(seq!['%'] + Seq::<char>::empty() + Seq::<char>::empty() =~= seq!['%']);
}

} // verus!

verus! {

proof fn lemma_split_none(s: Seq<char>, sep: char)
    requires
        forall|i: int| 0 <= i < s.len() ==> s[i] != sep,
    ensures
        split_on(s, sep) == seq![s],
    decreases s.len(),
{
    if s.len() > 0 {
        lemma_split_none(s.drop_last(), sep);
        assert(s.drop_last().push(s.last()) =~= s);
        let p = seq![s.drop_last()];
        assert(p.update(p.len() - 1, p.last().push(s.last())) =~= seq![s]);
    } else {
        assert(s =~= Seq::<char>::empty());
    }
}

/// Text of two parts around one separator splits into those two parts.
proof fn lemma_split_two(a: Seq<char>, b: Seq<char>, sep: char)
    requires
        forall|i: int| 0 <= i < a.len() ==> a[i] != sep,
        forall|i: int| 0 <= i < b.len() ==> b[i] != sep,
    ensures
        split_on(a + seq![sep] + b, sep) == seq![a, b],
    decreases b.len(),
{
    let s = a + seq![sep] + b;
    if b.len() == 0 {
        assert(s.drop_last() =~= a);
        assert(s.last() == sep);
        lemma_split_none(a, sep);
        assert(b =~= Seq::<char>::empty());
        assert(seq![a].push(Seq::<char>::empty()) =~= seq![a, b]);
    } else {
        lemma_split_two(a, b.drop_last(), sep);
        assert(s.drop_last() =~= a + seq![sep] + b.drop_last());
        assert(s.last() == b.last());
        assert(b.drop_last().push(b.last()) =~= b);
        assert(seq![a, b.drop_last()].update(1, b.drop_last().push(b.last())) =~= seq![a, b]);
    }
}

/// Applying the parameters keeps the coordinates read so far, except where
/// a `lat`, `lon` or `location` parameter comes; a single `location=A,B`
/// among them, with no `lat` or `lon`, gives latitude A and longitude B.
proof fn lemma_location_coords(
    st: ParamState,
    ps: Seq<(Seq<char>, Seq<char>)>,
    i: int,
    a: Seq<char>,
    b: Seq<char>,
)
    requires
        0 <= i < ps.len(),
        ps[i] == ("location"@, a + seq![','] + b),
        forall|j: int|
            0 <= j < ps.len() && j != i ==> ps[j].0 != "location"@ && ps[j].0 != "lat"@
                && ps[j].0 != "lon"@,
        forall|j: int| 0 <= j < a.len() ==> a[j] != ',',
        forall|j: int| 0 <= j < b.len() ==> b[j] != ',',
    ensures
        apply_params(st, ps).lat == decimal(a),
        apply_params(st, ps).lon == decimal(b),
    decreases ps.len(),
{
    reveal_strlit("id");
    reveal_strlit("deviceid");
    reveal_strlit("valid");
    reveal_strlit("timestamp");
    reveal_strlit("lat");
    reveal_strlit("lon");
    reveal_strlit("location");
    let init = ps.drop_last();
    let last = ps.last();
    if i == ps.len() - 1 {
        lemma_split_two(a, b, ',');
        assert("location"@[0] != "deviceid"@[0]);
        assert("location"@ != "id"@ && "location"@ != "deviceid"@ && "location"@ != "valid"@);
        assert("location"@.len() == 8 && "timestamp"@.len() == 9 && "lat"@.len() == 3);
        assert("lon"@.len() == 3);
        assert("location"@ != "timestamp"@);
        assert("location"@ != "lat"@);
        assert("location"@ != "lon"@);
    } else {
        lemma_location_coords(st, init, i, a, b);
        let s = apply_params(st, init);
        assert(apply_param(s, last.0, last.1).lat == s.lat);
        assert(apply_param(s, last.0, last.1).lon == s.lon);
    }
}

/// The keys of the pairs from a query are all different.
proof fn lemma_query_pairs_unique(pieces: Seq<Seq<char>>)
    ensures
        forall|x: int, y: int|
            0 <= x < y < query_pairs_of(pieces).len() ==> query_pairs_of(pieces)[x].0
                != query_pairs_of(pieces)[y].0,
    decreases pieces.len(),
{
    if pieces.len() > 0 {
        lemma_query_pairs_unique(pieces.drop_last());
        let m = query_pairs_of(pieces.drop_last());
        let p = pieces.last();
        match first_index(p, '=') {
            Some(i) => if i > 0 {
                let k = p.take(i);
                lemma_key_index(m, k);
            },
            None => {},
        }
    }
}

/// A query whose only coordinate parameter is `location=A,B`, with A and B
/// decimal numbers, gives one position with latitude A and longitude B.
pub proof fn lemma_query_location(q: Seq<char>, a: Seq<char>, b: Seq<char>, device_id: i64, now: i64)
    requires
        params_device(query_pairs(q)).len() > 0,
        pair_value(query_pairs(q), "location"@) == Some(a + seq![','] + b),
        pair_value(query_pairs(q), "lat"@) is None,
        pair_value(query_pairs(q), "lon"@) is None,
        forall|j: int| 0 <= j < a.len() ==> a[j] != ',',
        forall|j: int| 0 <= j < b.len() ==> b[j] != ',',
        f64_syntax(a),
        f64_syntax(b),
    ensures
        params_outcome(q, device_id, now) matches DecodeOutcome::Positions(v) && v.len() == 1
            && v[0].latitude == QuantityModel::Decimal(a) && v[0].longitude
            == QuantityModel::Decimal(b),
{
    let ps = query_pairs(q);
    lemma_query_pairs_unique(split_on(q, '&'));
    lemma_key_index(ps, "location"@);
    lemma_key_index(ps, "lat"@);
    lemma_key_index(ps, "lon"@);
    let i = key_index(ps, "location"@).unwrap();
    assert forall|j: int|
        0 <= j < ps.len() && j != i implies ps[j].0 != "location"@ && ps[j].0 != "lat"@
        && ps[j].0 != "lon"@ by {
        if j < i {
        } else {
            assert(ps[i].0 != ps[j].0);
        }
    }
    let init = ParamState {
        pos: PositionModel { valid: true, ..new_position(ProtocolKind::OsmAnd, device_id) },
        lat: None,
        lon: None,
    };
    lemma_location_coords(init, ps, i, a, b);
}

} // verus!
