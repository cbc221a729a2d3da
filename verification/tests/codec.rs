use bytes::BytesMut;
use traccar::codec::{FrameDecision, LengthFieldFrameDecoder, LineBasedFrameDecoder};
use traccar::framing::frame_decoder_for;
use traccar::model::ProtocolKind;

#[test]
fn codec_lines() {
    let framer = LineBasedFrameDecoder::new(8);
    let mut buf = BytesMut::from("ab\r\ncd\nef");
    assert_eq!(&framer.decode(&mut buf).unwrap()[..], b"ab");
    assert_eq!(&framer.decode(&mut buf).unwrap()[..], b"cd");
    assert!(framer.decode(&mut buf).is_none());
    assert_eq!(&buf[..], b"ef");
    let mut long = BytesMut::from("0123456789\nx");
    assert!(framer.decode(&mut long).is_none());
    assert_eq!(&long[..], b"x");
}

#[test]
fn codec_length_field() {
    let f = LengthFieldFrameDecoder::new(64, 1, 2, 0, 3);
    assert_eq!(f.decision(&[9, 0]), FrameDecision::Wait);
    assert_eq!(f.decision(&[9, 0, 2, 7]), FrameDecision::Wait);
    assert_eq!(f.decision(&[9, 0, 2, 7, 8, 1]), FrameDecision::SkipThenFrame(3, 2));
    let mut buf = BytesMut::from(&[9u8, 0, 2, 7, 8, 1][..]);
    assert_eq!(&f.decode(&mut buf).unwrap()[..], &[7u8, 8][..]);
    assert_eq!(&buf[..], &[1u8][..]);
    assert_eq!(f.decision(&[9, 0, 200, 1]), FrameDecision::Skip(4));
    let g = LengthFieldFrameDecoder::new(64, 0, 1, -5, 0);
    assert_eq!(g.decision(&[2, 0, 0]), FrameDecision::Skip(1));
}

#[test]
fn codec_osmand_framer_is_line_based() {
    let mut f = frame_decoder_for(ProtocolKind::OsmAnd);
    let mut buf = BytesMut::from("id=1&lat=2\r\nid=2");
    assert_eq!(&f.decode(&mut buf).unwrap()[..], b"id=1&lat=2");
    assert_eq!(&buf[..], b"id=2");
}
