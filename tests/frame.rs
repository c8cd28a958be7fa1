use asyncdwmblocks::block::BlockRunMode;
use asyncdwmblocks::frame::{Frame, Frames};
use asyncdwmblocks::statusbar::BlockRefreshMessage;

#[test]
fn frame_decode_empty() {
    let frame = Frame::from(b"".as_slice());
    assert_eq!(frame, Frame::Error);
}

#[test]
fn frame_decode_empty_whitespaces() {
    let frame = Frame::from(b" \t\t   ".as_slice());
    assert_eq!(frame, Frame::Error);
}

#[test]
fn frame_decode_invalid() {
    let frame1 = Frame::from(b"Invalid_frame".as_slice());
    let frame2 = Frame::from(b"Invalid frame".as_slice());
    let frame3 = Frame::from(b"block_id REFRESH".as_slice());
    let frame4 = Frame::from(b"REFRESH 3 my_block".as_slice());
    let frame5 = Frame::from(b"REFRESH block1 block2".as_slice());
    let frame6 = Frame::from(b"BuTN 5 blockID=1".as_slice());
    let frame7 = Frame::from(b"BUTTON block 1".as_slice());
    let frame8 = Frame::from(b"BUTTON 1 block1 extra".as_slice());

    assert_eq!(frame1, Frame::Error);
    assert_eq!(frame2, Frame::Error);
    assert_eq!(frame3, Frame::Error);
    assert_eq!(frame4, Frame::Error);
    assert_eq!(frame5, Frame::Error);
    assert_eq!(frame6, Frame::Error);
    assert_eq!(frame7, Frame::Error);
    assert_eq!(frame8, Frame::Error);
}

#[test]
fn frame_decode_invalid_utf8() {
    let frame = Frame::from(b"REFRESH\xf0\x90\x28\xbc block_id".as_slice());
    assert_eq!(frame, Frame::Error);
}

#[test]
fn frame_decode_refresh() {
    let frame = Frame::from(b"refresh block1".as_slice());
    assert_eq!(
        frame,
        Frame::Message(BlockRefreshMessage::new(
            "block1".into(),
            BlockRunMode::Normal
        ))
    );
}

#[test]
#[allow(non_snake_case)]
fn frame_decode_REFRESH() {
    let frame = Frame::from(b"REFRESH block1".as_slice());
    assert_eq!(
        frame,
        Frame::Message(BlockRefreshMessage::new(
            "block1".into(),
            BlockRunMode::Normal
        ))
    );
}

#[test]
fn frame_decode_refresh_different_cases() {
    let frame = Frame::from(b"rEFrEsH block1".as_slice());
    assert_eq!(
        frame,
        Frame::Message(BlockRefreshMessage::new(
            "block1".into(),
            BlockRunMode::Normal
        ))
    );
}

#[test]
fn frame_decode_refresh_extra_whitespaces() {
    let frame1 = Frame::from(b"REFRESH   block1 ".as_slice());
    let frame2 = Frame::from(b"REFRESH\tblock2".as_slice());
    let frame3 = Frame::from(b"REFRESH \t block3 \t".as_slice());
    let frame4 = Frame::from(b"REFRESH block4   ".as_slice());

    assert_eq!(
        frame1,
        Frame::Message(BlockRefreshMessage::new(
            "block1".into(),
            BlockRunMode::Normal
        ))
    );
    assert_eq!(
        frame2,
        Frame::Message(BlockRefreshMessage::new(
            "block2".into(),
            BlockRunMode::Normal
        ))
    );
    assert_eq!(
        frame3,
        Frame::Message(BlockRefreshMessage::new(
            "block3".into(),
            BlockRunMode::Normal
        ))
    );
    assert_eq!(
        frame4,
        Frame::Message(BlockRefreshMessage::new(
            "block4".into(),
            BlockRunMode::Normal
        ))
    );
}

#[test]
fn frame_decode_button() {
    let frame = Frame::from(b"button 1 block1".as_slice());
    assert_eq!(
        frame,
        Frame::Message(BlockRefreshMessage::new(
            "block1".into(),
            BlockRunMode::Button(1)
        ))
    );
}

#[test]
#[allow(non_snake_case)]
fn frame_decode_BUTTON() {
    let frame = Frame::from(b"BUTTON 1 block1".as_slice());
    assert_eq!(
        frame,
        Frame::Message(BlockRefreshMessage::new(
            "block1".into(),
            BlockRunMode::Button(1)
        ))
    );
}

#[test]
fn frame_decode_button_different_cases() {
    let frame = Frame::from(b"BuTTon 1 block1".as_slice());
    assert_eq!(
        frame,
        Frame::Message(BlockRefreshMessage::new(
            "block1".into(),
            BlockRunMode::Button(1)
        ))
    );
}

#[test]
fn frame_decode_button_extra_whitespaces() {
    let frame1 = Frame::from(b"BUTTON  1  block1 ".as_slice());
    let frame2 = Frame::from(b"BUTTON\t2\tblock2".as_slice());
    let frame3 = Frame::from(b"BUTTON   3 block3   ".as_slice());
    let frame4 = Frame::from(b"BUTTON \t4  block4\t".as_slice());
    let frame5 = Frame::from(b"BUTTON \t 5\t\tblock5 \t ".as_slice());

    assert_eq!(
        frame1,
        Frame::Message(BlockRefreshMessage::new(
            "block1".into(),
            BlockRunMode::Button(1)
        ))
    );
    assert_eq!(
        frame2,
        Frame::Message(BlockRefreshMessage::new(
            "block2".into(),
            BlockRunMode::Button(2)
        ))
    );
    assert_eq!(
        frame3,
        Frame::Message(BlockRefreshMessage::new(
            "block3".into(),
            BlockRunMode::Button(3)
        ))
    );
    assert_eq!(
        frame4,
        Frame::Message(BlockRefreshMessage::new(
            "block4".into(),
            BlockRunMode::Button(4)
        ))
    );
    assert_eq!(
        frame5,
        Frame::Message(BlockRefreshMessage::new(
            "block5".into(),
            BlockRunMode::Button(5)
        ))
    );
}

#[test]
fn frame_decode_button_wrong_number() {
    let frame1 = Frame::from(b"BUTTON 1024 block1".as_slice());
    let frame2 = Frame::from(b"BUTTON A31 block1".as_slice());

    assert_eq!(frame1, Frame::Error);
    assert_eq!(frame2, Frame::Error);
}

#[test]
fn frame_encode() {
    let empty = Frame::Error;
    let normal = Frame::Message(BlockRefreshMessage::new(
        String::from("date"),
        BlockRunMode::Normal,
    ));
    let button1 = Frame::Message(BlockRefreshMessage::new(
        String::from("battery"),
        BlockRunMode::Button(1),
    ));
    let button2 = Frame::Message(BlockRefreshMessage::new(
        String::from("backlight"),
        BlockRunMode::Button(2),
    ));

    assert_eq!(empty.encode(), Vec::<u8>::new());
    assert_eq!(normal.encode(), Vec::from("REFRESH date\r\n".as_bytes()));
    assert_eq!(
        button1.encode(),
        Vec::from("BUTTON 1 battery\r\n".as_bytes())
    );
    assert_eq!(
        button2.encode(),
        Vec::from("BUTTON 2 backlight\r\n".as_bytes())
    );
}

#[test]
fn frames_decode() {
    let data = b"REFRESH temperature\r\nREFRESH volume\r\nBUTTON 1 battery\r\nREFRESH cpu\r\n";
    let frames = Frames::from(data.as_slice());

    assert_eq!(
        frames.frames(),
        &vec![
            Frame::Message(BlockRefreshMessage::new(
                String::from("temperature"),
                BlockRunMode::Normal
            )),
            Frame::Message(BlockRefreshMessage::new(
                String::from("volume"),
                BlockRunMode::Normal
            )),
            Frame::Message(BlockRefreshMessage::new(
                String::from("battery"),
                BlockRunMode::Button(1)
            )),
            Frame::Message(BlockRefreshMessage::new(
                String::from("cpu"),
                BlockRunMode::Normal
            ))
        ]
    );
}

#[test]
fn frames_encode() {
    let frames = vec![
        Frame::Message(BlockRefreshMessage::new(
            String::from("date"),
            BlockRunMode::Normal,
        )),
        Frame::Message(BlockRefreshMessage::new(
            String::from("battery"),
            BlockRunMode::Button(1),
        )),
        Frame::Message(BlockRefreshMessage::new(
            String::from("backlight"),
            BlockRunMode::Button(2),
        )),
    ];
    let frames = Frames::from_iter(frames);

    assert_eq!(
        frames.encode(),
        Vec::from("REFRESH date\r\nBUTTON 1 battery\r\nBUTTON 2 backlight\r\n".as_bytes())
    );
}
