//! Framing: cutting whole messages off the front of a connection's buffer.

use bytes::BytesMut;
use vstd::prelude::*;

use crate::buffer::{bytes_mut_advance, bytes_mut_split_to, bytes_mut_view};
use crate::helper::{be16, be24, be32, read_be16, read_be24, read_be32};

verus! {

/// What a framer does with the buffer it is handed.
#[derive(Debug, Clone, Copy, PartialEq, Eq, Structural)]
pub enum FrameDecision {
    /// Leave the buffer as it is and wait for more bytes.
    Wait,
    /// Drop this many bytes from the front, emitting nothing.
    Skip(usize),
    /// Cut this many bytes off the front as one frame.
    Frame(usize),
    /// Cut the first count off as one frame, then drop the second count.
    FrameThenSkip(usize, usize),
    /// Drop the first count, then cut the second count off as one frame.
    SkipThenFrame(usize, usize),
}

pub open spec fn decision_fits(d: FrameDecision, len: nat) -> bool {
    match d {
        FrameDecision::Wait => true,
        FrameDecision::Skip(n) => n <= len,
        FrameDecision::Frame(n) => n <= len,
        FrameDecision::FrameThenSkip(n, k) => n + k <= len,
        FrameDecision::SkipThenFrame(k, n) => k + n <= len,
    }
}

/// The buffer before and after a framer ran, and what it emitted, agree with
/// the decision.
pub open spec fn frame_outcome(
    before: Seq<u8>,
    d: FrameDecision,
    emitted: Option<BytesMut>,
    after: Seq<u8>,
) -> bool {
    match d {
        FrameDecision::Wait => emitted is None && after == before,
        FrameDecision::Skip(n) => emitted is None && after == before.skip(n as int),
        FrameDecision::Frame(n) => match emitted {
            Some(f) => bytes_mut_view(f) == before.take(n as int) && after == before.skip(
                n as int,
            ),
            None => false,
        },
        FrameDecision::FrameThenSkip(n, k) => match emitted {
            Some(f) => bytes_mut_view(f) == before.take(n as int) && after == before.skip(
                n + k,
            ),
            None => false,
        },
        FrameDecision::SkipThenFrame(k, n) => match emitted {
            Some(f) => bytes_mut_view(f) == before.subrange(k as int, k + n) && after
                == before.skip(k + n),
            None => false,
        },
    }
}

/// Carries out a framing decision on the buffer.
pub fn apply_decision(buf: &mut BytesMut, d: FrameDecision) -> (r: Option<BytesMut>)
    requires
        decision_fits(d, bytes_mut_view(*old(buf)).len()),
    ensures
        frame_outcome(bytes_mut_view(*old(buf)), d, r, bytes_mut_view(*final(buf))),
{
    match d {
        FrameDecision::Wait => None,
        FrameDecision::Skip(n) => {
            bytes_mut_advance(buf, n);
            None
        },
        FrameDecision::Frame(n) => Some(bytes_mut_split_to(buf, n)),
        FrameDecision::FrameThenSkip(n, k) => {
            let f = bytes_mut_split_to(buf, n);
            bytes_mut_advance(buf, k);
            assert(bytes_mut_view(*old(buf)).skip(n as int).skip(k as int) =~= bytes_mut_view(
                *old(buf),
            ).skip(n + k));
            Some(f)
        },
        FrameDecision::SkipThenFrame(k, n) => {
            bytes_mut_advance(buf, k);
            let f = bytes_mut_split_to(buf, n);
            assert(bytes_mut_view(*old(buf)).skip(k as int).take(n as int) =~= bytes_mut_view(
                *old(buf),
            ).subrange(k as int, k + n));
            assert(bytes_mut_view(*old(buf)).skip(k as int).skip(n as int) =~= bytes_mut_view(
                *old(buf),
            ).skip(k + n));
            Some(f)
        },
    }
}

/// Framing loses no byte and reorders none: a frame followed by what stays
/// in the buffer is what the buffer held.
pub proof fn lemma_frame_keeps_bytes(
    before: Seq<u8>,
    d: FrameDecision,
    emitted: Option<BytesMut>,
    after: Seq<u8>,
)
    requires
        frame_outcome(before, d, emitted, after),
        decision_fits(d, before.len()),
    ensures
        d is Frame ==> (emitted matches Some(f) && bytes_mut_view(f) + after == before),
        d is Wait ==> after == before,
{
    if let Some(f) = emitted {
        if let FrameDecision::Frame(n) = d {
            assert(before.take(n as int) + before.skip(n as int) =~= before);
        }
    }
}

} // verus!

verus! {

// ─── Delimiter-based framing ────────────────────────────────────────

/// Whether the delimiter (a nonempty one) occurs at byte `i`.
pub open spec fn delimiter_at(s: Seq<u8>, i: int, d: Seq<u8>) -> bool {
    d.len() > 0 && 0 <= i && i + d.len() <= s.len() && s.subrange(i, i + d.len()) == d
}

/// The first of the delimiters, from the `j`th on, that occurs at `i`.
pub open spec fn delimiter_from(s: Seq<u8>, i: int, ds: Seq<Seq<u8>>, j: int) -> Option<int>
    decreases ds.len() - j,
{
    if j < 0 || j >= ds.len() {
        None
    } else if delimiter_at(s, i, ds[j]) {
        Some(j)
    } else {
        delimiter_from(s, i, ds, j + 1)
    }
}

/// The earliest position at or after `i` where a delimiter occurs, with the
/// length of the first delimiter that occurs there.
pub open spec fn earliest_delimiter(s: Seq<u8>, ds: Seq<Seq<u8>>, i: int) -> Option<(int, int)>
    decreases s.len() - i,
{
    if i < 0 || i >= s.len() {
        None
    } else {
        match delimiter_from(s, i, ds, 0) {
            Some(j) => Some((i, ds[j].len() as int)),
            None => earliest_delimiter(s, ds, i + 1),
        }
    }
}

/// The settings of a delimiter framer.
pub struct DelimiterConfig {
    pub max_frame_length: usize,
    pub strip_delimiter: bool,
    pub delimiters: Seq<Seq<u8>>,
}

/// What a delimiter framer does: cut up to the earliest delimiter (the
/// delimiter kept or dropped), drop a frame longer than the maximum with its
/// delimiter, drop a buffer longer than the maximum that holds no delimiter,
/// and otherwise wait.
pub open spec fn delimiter_decision(s: Seq<u8>, c: DelimiterConfig) -> FrameDecision {
    match earliest_delimiter(s, c.delimiters, 0) {
        Some((i, dl)) => if i > c.max_frame_length {
            FrameDecision::Skip((i + dl) as usize)
        } else if c.strip_delimiter {
            FrameDecision::FrameThenSkip(i as usize, dl as usize)
        } else {
            FrameDecision::Frame((i + dl) as usize)
        },
        None => if s.len() > c.max_frame_length {
            FrameDecision::Skip(s.len() as usize)
        } else {
            FrameDecision::Wait
        },
    }
}

proof fn lemma_delimiter_from(s: Seq<u8>, i: int, ds: Seq<Seq<u8>>, j: int)
    requires
        0 <= j,
    ensures
        delimiter_from(s, i, ds, j) matches Some(k) ==> j <= k < ds.len() && delimiter_at(
            s,
            i,
            ds[k],
        ),
    decreases ds.len() - j,
{
    if j < ds.len() && !delimiter_at(s, i, ds[j]) {
        lemma_delimiter_from(s, i, ds, j + 1);
    }
}

proof fn lemma_earliest_delimiter(s: Seq<u8>, ds: Seq<Seq<u8>>, i: int)
    requires
        0 <= i,
    ensures
        earliest_delimiter(s, ds, i) matches Some((k, dl)) ==> i <= k && 0 < dl && k + dl
            <= s.len(),
    decreases s.len() - i,
{
    if i < s.len() {
        lemma_delimiter_from(s, i, ds, 0);
        if delimiter_from(s, i, ds, 0) is None {
            lemma_earliest_delimiter(s, ds, i + 1);
        }
    }
}

/// The earliest delimiter from `i` on is the one at `k`, when none occurs
/// between.
pub proof fn lemma_earliest_delimiter_at(s: Seq<u8>, ds: Seq<Seq<u8>>, i: int, k: int, d: int)
    requires
        0 <= i <= k < s.len(),
        forall|j: int| i <= j < k ==> #[trigger] delimiter_from(s, j, ds, 0) is None,
        delimiter_from(s, k, ds, 0) == Some(d),
    ensures
        earliest_delimiter(s, ds, i) == Some((k, ds[d].len() as int)),
    decreases k - i,
{
    if i < k {
        lemma_earliest_delimiter_at(s, ds, i + 1, k, d);
    }
}

/// A delimiter framer's decision fits the buffer.
pub proof fn lemma_delimiter_decision_fits(s: Seq<u8>, c: DelimiterConfig)
    requires
        s.len() <= usize::MAX,
    ensures
        decision_fits(delimiter_decision(s, c), s.len()),
{
    lemma_earliest_delimiter(s, c.delimiters, 0);
}

/// Splits a buffer at delimiters.
pub struct DelimiterFrameDecoder {
    max_frame_length: usize,
    strip_delimiter: bool,
    delimiters: Vec<Vec<u8>>,
}

impl View for DelimiterFrameDecoder {
    type V = DelimiterConfig;

    closed spec fn view(&self) -> DelimiterConfig {
        DelimiterConfig {
            max_frame_length: self.max_frame_length,
            strip_delimiter: self.strip_delimiter,
            delimiters: self.delimiters@.map_values(|d: Vec<u8>| d@),
        }
    }
}

/// The bytes of a string slice.
fn str_bytes(t: &str) -> (b: Vec<u8>)
    ensures
        b@ == vstd::utf8::encode_utf8(t@),
{
    let src = t.as_bytes();
    let mut b: Vec<u8> = Vec::new();
    let mut i: usize = 0;
    while i < src.len()
        invariant
            i <= src@.len(),
            b@ == src@.take(i as int),
        decreases src.len() - i,
    {
        b.push(src[i]);
        i = i + 1;
        assert(b@ =~= src@.take(i as int));
    }
    assert(src@.take(src@.len() as int) =~= src@);
    b
}

impl DelimiterFrameDecoder {
    /// A framer splitting at the UTF-8 bytes of the given delimiters.
    pub fn from_strings(max_frame_length: usize, strip_delimiter: bool, delimiters: &[&str]) -> (r:
        DelimiterFrameDecoder)
        ensures
            r@.max_frame_length == max_frame_length,
            r@.strip_delimiter == strip_delimiter,
            r@.delimiters.len() == delimiters@.len(),
            forall|i: int|
                0 <= i < delimiters@.len() ==> #[trigger] r@.delimiters[i]
                    == vstd::utf8::encode_utf8(delimiters@[i]@),
    {
        let mut ds: Vec<Vec<u8>> = Vec::new();
        let mut i: usize = 0;
        while i < delimiters.len()
            invariant
                i <= delimiters@.len(),
                ds@.len() == i,
                forall|k: int|
                    0 <= k < i ==> #[trigger] ds@[k]@ == vstd::utf8::encode_utf8(delimiters@[k]@),
            decreases delimiters.len() - i,
        {
            ds.push(str_bytes(delimiters[i]));
            i = i + 1;
        }
        DelimiterFrameDecoder { max_frame_length, strip_delimiter, delimiters: ds }
    }

    fn delimiter_index(&self, s: &[u8], i: usize) -> (r: Option<usize>)
        requires
            i < s@.len(),
        ensures
            match r {
                Some(j) => delimiter_from(s@, i as int, self@.delimiters, 0) == Some(j as int),
                None => delimiter_from(s@, i as int, self@.delimiters, 0) is None,
            },
    {
        let ghost ds = self@.delimiters;
        let mut j: usize = 0;
        while j < self.delimiters.len()
            invariant
                j <= self.delimiters@.len(),
                ds == self@.delimiters,
                ds.len() == self.delimiters@.len(),
                i < s@.len(),
                delimiter_from(s@, i as int, ds, 0) == delimiter_from(s@, i as int, ds, j as int),
            decreases self.delimiters.len() - j,
        {
            let d = &self.delimiters[j];
            assert(ds[j as int] == d@);
            let dl = d.len();
            if dl > 0 && dl <= s.len() - i {
                let mut k: usize = 0;
                let mut same = true;
                while k < dl
                    invariant
                        k <= dl == d@.len(),
                        i + dl <= s@.len(),
                        s@.len() == s.len(),
                        same == (forall|m: int| 0 <= m < k ==> s@[i + m] == d@[m]),
                    decreases dl - k,
                {
                    if s[i + k] != d[k] {
                        same = false;
                    }
                    k = k + 1;
                }
                if same {
                    assert(s@.subrange(i as int, i + dl) =~= d@);
                    return Some(j);
                } else {
                    assert(s@.subrange(i as int, i + dl) != d@) by {
                        let m = choose|m: int| 0 <= m < dl && s@[i + m] != d@[m];
                        assert(s@.subrange(i as int, i + dl)[m] == s@[i + m]);
                    }
                }
            }
            j = j + 1;
        }
        None
    }

    /// The framing decision for the bytes.
    pub fn decision(&self, s: &[u8]) -> (d: FrameDecision)
        ensures
            d == delimiter_decision(s@, self@),
    {
        let ghost ds = self@.delimiters;
        let mut i: usize = 0;
        while i < s.len()
            invariant
                i <= s@.len(),
                ds == self@.delimiters,
                earliest_delimiter(s@, ds, 0) == earliest_delimiter(s@, ds, i as int),
            decreases s.len() - i,
        {
            match self.delimiter_index(s, i) {
                Some(j) => {
                    proof {
                        lemma_delimiter_from(s@, i as int, ds, 0);
                    }
                    let dl = self.delimiters[j].len();
                    assert(ds[j as int].len() == dl);
                    if i > self.max_frame_length {
                        return FrameDecision::Skip(i + dl);
                    } else if self.strip_delimiter {
                        return FrameDecision::FrameThenSkip(i, dl);
                    } else {
                        return FrameDecision::Frame(i + dl);
                    }
                },
                None => {},
            }
            i = i + 1;
        }
        if s.len() > self.max_frame_length {
            FrameDecision::Skip(s.len())
        } else {
            FrameDecision::Wait
        }
    }

    pub fn decode(&self, buf: &mut BytesMut) -> (r: Option<BytesMut>)
        ensures
            frame_outcome(
                bytes_mut_view(*old(buf)),
                delimiter_decision(bytes_mut_view(*old(buf)), self@),
                r,
                bytes_mut_view(*final(buf)),
            ),
    {
        let d = {
            let s = crate::buffer::bytes_mut_as_slice(buf);
            let ghost n = s.len();
            assert(s@.len() == n);
            proof {
                lemma_delimiter_decision_fits(s@, self@);
            }
            self.decision(s)
        };
        apply_decision(buf, d)
    }
}

} // verus!

verus! {

// ─── Line-based framing ─────────────────────────────────────────────

/// Splits a buffer into lines ending in `\n` or `\r\n`, the line ending
/// dropped.
pub struct LineBasedFrameDecoder {
    inner: DelimiterFrameDecoder,
}

impl View for LineBasedFrameDecoder {
    type V = DelimiterConfig;

    closed spec fn view(&self) -> DelimiterConfig {
        self.inner@
    }
}

impl LineBasedFrameDecoder {
    /// Lines of at most `max_length` bytes; a longer line is dropped.
    pub fn new(max_length: usize) -> (r: LineBasedFrameDecoder)
        ensures
            r@.max_frame_length == max_length,
            r@.strip_delimiter,
            r@.delimiters == seq![
                vstd::utf8::encode_utf8("\r\n"@),
                vstd::utf8::encode_utf8("\n"@),
            ],
    {
        let ends: [&str; 2] = ["\r\n", "\n"];
        let inner = DelimiterFrameDecoder::from_strings(max_length, true, &ends);
        assert(inner@.delimiters =~= seq![
            vstd::utf8::encode_utf8("\r\n"@),
            vstd::utf8::encode_utf8("\n"@),
        ]);
        LineBasedFrameDecoder { inner }
    }

    pub fn decode(&self, buf: &mut BytesMut) -> (r: Option<BytesMut>)
        ensures
            frame_outcome(
                bytes_mut_view(*old(buf)),
                delimiter_decision(bytes_mut_view(*old(buf)), self@),
                r,
                bytes_mut_view(*final(buf)),
            ),
    {
        self.inner.decode(buf)
    }
}

// ─── Length-field framing ───────────────────────────────────────────

/// The settings of a length-field framer.
#[derive(Debug, Clone, Copy, PartialEq, Eq, Structural)]
pub struct LengthFieldFrameDecoder {
    pub max_frame_length: usize,
    pub length_field_offset: usize,
    pub length_field_length: usize,
    pub length_adjustment: i64,
    pub initial_bytes_to_strip: usize,
}

/// The big-endian value of the `n`-byte field at `i` (`n` from 1 to 4).
pub open spec fn field_value(s: Seq<u8>, i: int, n: int) -> int {
    if n == 1 {
        s[i] as int
    } else if n == 2 {
        be16(s, i)
    } else if n == 3 {
        be24(s, i)
    } else {
        be32(s, i)
    }
}

/// What a length-field framer does. Once the length field is in, the frame
/// is the header (the bytes up to the end of the field), as many bytes as
/// the field says, and the adjustment. A frame shorter than its header
/// drops the header; one longer than the maximum is dropped, as far as the
/// buffer holds it; a frame shorter than the bytes to strip is dropped;
/// otherwise, once all of it is in, the frame without its first
/// `initial_bytes_to_strip` bytes is cut off.
pub open spec fn length_field_decision(s: Seq<u8>, c: LengthFieldFrameDecoder) -> FrameDecision {
    let header = c.length_field_offset + c.length_field_length;
    if s.len() < header {
        FrameDecision::Wait
    } else {
        let frame = header + field_value(s, c.length_field_offset as int, c.length_field_length as int)
            + c.length_adjustment;
        if frame < header {
            FrameDecision::Skip(header as usize)
        } else if frame > c.max_frame_length {
            FrameDecision::Skip((if frame < s.len() { frame } else { s.len() as int }) as usize)
        } else if s.len() < frame {
            FrameDecision::Wait
        } else if c.initial_bytes_to_strip > frame {
            FrameDecision::Skip(frame as usize)
        } else {
            FrameDecision::SkipThenFrame(
                c.initial_bytes_to_strip,
                (frame - c.initial_bytes_to_strip) as usize,
            )
        }
    }
}

impl LengthFieldFrameDecoder {
    pub fn new(
        max_frame_length: usize,
        length_field_offset: usize,
        length_field_length: usize,
        length_adjustment: i64,
        initial_bytes_to_strip: usize,
    ) -> (r: LengthFieldFrameDecoder)
        requires
            1 <= length_field_length <= 4,
        ensures
            r == (LengthFieldFrameDecoder {
                max_frame_length,
                length_field_offset,
                length_field_length,
                length_adjustment,
                initial_bytes_to_strip,
            }),
    {
        LengthFieldFrameDecoder {
            max_frame_length,
            length_field_offset,
            length_field_length,
            length_adjustment,
            initial_bytes_to_strip,
        }
    }

    /// The framing decision for the bytes.
    pub fn decision(&self, s: &[u8]) -> (d: FrameDecision)
        requires
            1 <= self.length_field_length <= 4,
        ensures
            d == length_field_decision(s@, *self),
            decision_fits(d, s@.len()),
    {
        let len = s.len();
        let off = self.length_field_offset;
        let n = self.length_field_length;
        if off > len || n > len - off {
            return FrameDecision::Wait;
        }
        let header = off + n;
        let v: u32 = if n == 1 {
            s[off] as u32
        } else if n == 2 {
            read_be16(s, off) as u32
        } else if n == 3 {
            read_be24(s, off)
        } else {
            read_be32(s, off)
        };
        let frame: i128 = header as i128 + v as i128 + self.length_adjustment as i128;
        if frame < header as i128 {
            FrameDecision::Skip(header)
        } else if frame > self.max_frame_length as i128 {
            if frame < len as i128 {
                FrameDecision::Skip(frame as usize)
            } else {
                FrameDecision::Skip(len)
            }
        } else if (len as i128) < frame {
            FrameDecision::Wait
        } else if self.initial_bytes_to_strip as i128 > frame {
            FrameDecision::Skip(frame as usize)
        } else {
            FrameDecision::SkipThenFrame(
                self.initial_bytes_to_strip,
                (frame - self.initial_bytes_to_strip as i128) as usize,
            )
        }
    }

    pub fn decode(&self, buf: &mut BytesMut) -> (r: Option<BytesMut>)
        requires
            1 <= self.length_field_length <= 4,
        ensures
            frame_outcome(
                bytes_mut_view(*old(buf)),
                length_field_decision(bytes_mut_view(*old(buf)), *self),
                r,
                bytes_mut_view(*final(buf)),
            ),
    {
        let d = {
            let s = crate::buffer::bytes_mut_as_slice(buf);
            self.decision(s)
        };
        apply_decision(buf, d)
    }
}

} // verus!
