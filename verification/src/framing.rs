//! The framer that cuts each protocol's messages out of a connection's
//! bytes.

use bytes::BytesMut;
use vstd::prelude::*;

use crate::buffer::bytes_mut_view;
use crate::codec::{
    frame_outcome, length_field_decision, LengthFieldFrameDecoder,
    LineBasedFrameDecoder, delimiter_decision,
};
use crate::gt06::{gt06_frame_decision, Gt06FrameDecoder};
use crate::h02::{h02_frame_decision, H02FrameDecoder};
use crate::model::ProtocolKind;

verus! {

/// One connection's framer.
pub enum FrameDecoder {
    Gt06(Gt06FrameDecoder),
    H02(H02FrameDecoder),
    Lines(LineBasedFrameDecoder),
    LengthField(LengthFieldFrameDecoder),
}

/// The framer's settings are ones it runs with.
pub open spec fn framer_ok(f: FrameDecoder) -> bool {
    f matches FrameDecoder::LengthField(c) ==> 1 <= c.length_field_length <= 4
}

/// The framer each protocol is served with: GT06 and H02 their own; OsmAnd
/// lines of at most 4096 bytes; Teltonika frames of at most 8192 bytes
/// whose four-byte length at offset 4 counts the data after it, the four
/// CRC bytes not included.
pub fn frame_decoder_for(kind: ProtocolKind) -> (f: FrameDecoder)
    ensures
        framer_ok(f),
        kind == ProtocolKind::Gt06 ==> f is Gt06,
        kind == ProtocolKind::H02 ==> f is H02,
        kind == ProtocolKind::OsmAnd ==> (f matches FrameDecoder::Lines(l)
            && l@.max_frame_length == 4096 && l@.strip_delimiter),
        kind == ProtocolKind::Teltonika ==> f == FrameDecoder::LengthField(
            LengthFieldFrameDecoder {
                max_frame_length: 8192,
                length_field_offset: 4,
                length_field_length: 4,
                length_adjustment: 4,
                initial_bytes_to_strip: 0,
            },
        ),
{
    match kind {
        ProtocolKind::Gt06 => FrameDecoder::Gt06(Gt06FrameDecoder),
        ProtocolKind::H02 => FrameDecoder::H02(H02FrameDecoder::new()),
        ProtocolKind::OsmAnd => FrameDecoder::Lines(LineBasedFrameDecoder::new(4096)),
        ProtocolKind::Teltonika => FrameDecoder::LengthField(
            LengthFieldFrameDecoder::new(8192, 4, 4, 4, 0),
        ),
    }
}

impl FrameDecoder {
    /// Cuts the next frame, if a whole one is in, as the protocol's framer
    /// decides.
    pub fn decode(&mut self, buf: &mut BytesMut) -> (r: Option<BytesMut>)
        requires
            framer_ok(*old(self)),
        ensures
            framer_ok(*final(self)),
            *old(self) is Gt06 ==> frame_outcome(
                bytes_mut_view(*old(buf)),
                gt06_frame_decision(bytes_mut_view(*old(buf))),
                r,
                bytes_mut_view(*final(buf)),
            ),
            *old(self) is H02 ==> frame_outcome(
                bytes_mut_view(*old(buf)),
                h02_frame_decision(bytes_mut_view(*old(buf))),
                r,
                bytes_mut_view(*final(buf)),
            ),
            *old(self) matches FrameDecoder::Lines(l) ==> frame_outcome(
                bytes_mut_view(*old(buf)),
                delimiter_decision(bytes_mut_view(*old(buf)), l@),
                r,
                bytes_mut_view(*final(buf)),
            ),
            *old(self) matches FrameDecoder::LengthField(c) ==> frame_outcome(
                bytes_mut_view(*old(buf)),
                length_field_decision(bytes_mut_view(*old(buf)), c),
                r,
                bytes_mut_view(*final(buf)),
            ),
    {
        match self {
            FrameDecoder::Gt06(d) => d.decode(buf),
            FrameDecoder::H02(d) => d.decode(buf),
            FrameDecoder::Lines(d) => d.decode(buf),
            FrameDecoder::LengthField(d) => d.decode(buf),
        }
    }
}

} // verus!
