use asyncdwmblocks::block::BlockRunMode;
use asyncdwmblocks::frame::{requests_in, Frame, Frames};
use asyncdwmblocks::statusbar::BlockRefreshMessage;

fn msg(name: &str, mode: BlockRunMode) -> BlockRefreshMessage {
    BlockRefreshMessage::new(String::from(name), mode)
}

#[test]
fn round_trip_normal_and_button() {
    for m in [
        msg("cpu", BlockRunMode::Normal),
        msg("memory", BlockRunMode::Button(0)),
        msg("battery", BlockRunMode::Button(255)),
        msg("ünïcödé-🦀", BlockRunMode::Button(42)),
    ] {
        let bytes = Frame::Message(m.clone()).encode();
        assert_eq!(Frame::decode(&bytes), Frame::Message(m));
    }
}

#[test]
fn encode_exact_bytes() {
    assert_eq!(
        Frame::Message(msg("date", BlockRunMode::Normal)).encode(),
        b"REFRESH date\r\n".to_vec()
    );
    assert_eq!(
        Frame::Message(msg("vol", BlockRunMode::Button(10))).encode(),
        b"BUTTON 10 vol\r\n".to_vec()
    );
    assert_eq!(Frame::Error.encode(), Vec::<u8>::new());
}

#[test]
fn buffered_requests_keep_order() {
    let ms = vec![
        msg("a", BlockRunMode::Normal),
        msg("b", BlockRunMode::Button(7)),
        msg("c", BlockRunMode::Normal),
    ];
    let bytes = Frames::from_messages(ms.clone()).encode();
    assert_eq!(requests_in(&bytes), ms);
    let frames = Frames::decode(&bytes).into_frames();
    assert_eq!(frames.len(), 3);
}

#[test]
fn keyword_case_is_ignored() {
    let a = Frame::from(b"refresh X".as_slice());
    let b = Frame::from(b"REFRESH X".as_slice());
    let c = Frame::from(b"ReFrEsH X".as_slice());
    assert_eq!(a, b);
    assert_eq!(b, c);
    assert_eq!(a, Frame::Message(msg("X", BlockRunMode::Normal)));
}

#[test]
fn whitespace_kinds_are_ignored() {
    let a = Frame::from(" \u{a0}BUTTON\u{2003}\t9\r\n  x \u{3000}".as_bytes());
    assert_eq!(a, Frame::Message(msg("x", BlockRunMode::Button(9))));
}

#[test]
fn rejected_inputs() {
    for bad in [
        b"".as_slice(),
        b"   \t ".as_slice(),
        b"REFRESH".as_slice(),
        b"REFRESH a b".as_slice(),
        b"BUTTON x a".as_slice(),
        b"BUTTON 256 a".as_slice(),
        b"BUTTON -1 a".as_slice(),
        b"BUTTON + a".as_slice(),
        b"REFRESH \xff".as_slice(),
    ] {
        assert_eq!(Frame::from(bad), Frame::Error);
    }
}

#[test]
fn button_number_forms() {
    assert_eq!(
        Frame::from(b"button +07 b".as_slice()),
        Frame::Message(msg("b", BlockRunMode::Button(7)))
    );
    assert_eq!(
        Frame::from(b"button 0255 b".as_slice()),
        Frame::Message(msg("b", BlockRunMode::Button(255)))
    );
}

#[test]
fn trailing_partial_record_dropped() {
    let frames = Frames::decode(b"REFRESH a\r\nbad line\r\nREFRESH b");
    assert_eq!(
        frames.frames(),
        &vec![Frame::Message(msg("a", BlockRunMode::Normal)), Frame::Error]
    );
    assert_eq!(requests_in(b"REFRESH a\r\nbad line\r\nREFRESH b"), vec![msg("a", BlockRunMode::Normal)]);
}

#[test]
fn message_accessors() {
    let m = msg("cpu", BlockRunMode::Button(3));
    assert_eq!(m.name(), "cpu");
    assert_eq!(m.mode(), BlockRunMode::Button(3));
    assert_eq!(BlockRunMode::Button(3).button(), Some(3));
    assert_eq!(BlockRunMode::Normal.button(), None);
    assert_eq!(Frame::from(m.clone()), Frame::Message(m));
}

#[test]
fn unicode_keyword_goes_through_uppercase() {
    // U+017F LATIN SMALL LETTER LONG S upper-cases to `S`.
    assert_eq!(
        Frame::from("refre\u{17f}h x".as_bytes()),
        Frame::Message(msg("x", BlockRunMode::Normal))
    );
    assert_eq!(Frame::from("réfresh x".as_bytes()), Frame::Error);
}
