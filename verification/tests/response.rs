use ovata_infer_protocol::response::{encode_frame, tag, utf8};
use ovata_infer_protocol::{Frame, FrameError};

#[test]
fn token_roundtrip() {
    let frame = Frame::Token("hello".into());
    let encoded = frame.encode();
    let (decoded, consumed) = Frame::decode(&encoded).unwrap();
    assert_eq!(consumed, encoded.len());
    assert!(matches!(decoded, Frame::Token(ref t) if t == "hello"));
}

#[test]
fn done_roundtrip() {
    let frame = Frame::Done { tokens_used: 42 };
    let encoded = frame.encode();
    let (decoded, consumed) = Frame::decode(&encoded).unwrap();
    assert_eq!(consumed, encoded.len());
    assert!(matches!(decoded, Frame::Done { tokens_used: 42 }));
}

#[test]
fn error_roundtrip() {
    let frame = Frame::Error("model not loaded".into());
    let encoded = frame.encode();
    let (decoded, consumed) = Frame::decode(&encoded).unwrap();
    assert_eq!(consumed, encoded.len());
    assert!(matches!(decoded, Frame::Error(ref e) if e == "model not loaded"));
}

#[test]
fn json_roundtrip() {
    let frame = Frame::Json(r#"{"status":"ok"}"#.into());
    let encoded = frame.encode();
    let (decoded, consumed) = Frame::decode(&encoded).unwrap();
    assert_eq!(consumed, encoded.len());
    assert!(matches!(decoded, Frame::Json(ref j) if j == r#"{"status":"ok"}"#));
}

#[test]
fn incomplete_returns_error() {
    assert!(matches!(Frame::decode(&[0x01, 0x03]), Err(FrameError::Incomplete)));
}

#[test]
fn multi_frame_stream() {
    let frames = vec![
        Frame::Token("foo".into()),
        Frame::Token(" bar".into()),
        Frame::Done { tokens_used: 10 },
    ];
    let mut stream: Vec<u8> = frames.iter().flat_map(|f| f.encode()).collect();

    let mut decoded = Vec::new();
    while !stream.is_empty() {
        let (frame, consumed) = Frame::decode(&stream).unwrap();
        decoded.push(frame);
        stream.drain(..consumed);
    }
    assert_eq!(decoded.len(), 3);
}

#[test]
fn exported_tags_match_the_bytes_encode_writes() {
    assert_eq!(Frame::Token(String::new()).encode()[0], tag::TOKEN);
    assert_eq!(Frame::Done { tokens_used: 0 }.encode()[0], tag::DONE);
    assert_eq!(Frame::Error(String::new()).encode()[0], tag::ERROR);
    assert_eq!(Frame::Meta { model: String::new() }.encode()[0], tag::META);
    assert_eq!(Frame::Json(String::new()).encode()[0], tag::JSON);
}

#[test]
fn frames_have_these_bytes() {
    assert_eq!(Frame::Token("hé".into()).encode(), [1, 3, 0, b'h', 0xC3, 0xA9]);
    assert_eq!(
        Frame::Done { tokens_used: 0x0102_0304_0506_0708 }.encode(),
        [2, 8, 0, 8, 7, 6, 5, 4, 3, 2, 1]
    );
    assert_eq!(Frame::Error("".into()).encode(), [3, 0, 0]);
    assert_eq!(Frame::Meta { model: "m".into() }.encode(), [4, 1, 0, b'm']);
    assert_eq!(Frame::Json("{}".into()).encode(), [5, 2, 0, b'{', b'}']);
    let long = Frame::Token("a".repeat(0x1234)).encode();
    assert_eq!(&long[..3], &[1, 0x34, 0x12]);
    assert_eq!(encode_frame(9, &[7]), [9, 1, 0, 7]);
}

#[test]
fn meta_comes_back() {
    let (frame, consumed) = Frame::decode(&[4, 1, 0, b'm', 99]).unwrap();
    assert_eq!(consumed, 4);
    assert!(matches!(frame, Frame::Meta { ref model } if model == "m"));
}

#[test]
fn the_longest_payload_comes_back_and_one_more_does_not() {
    let text = "x".repeat(65_535);
    let bytes = Frame::Token(text.clone()).encode();
    assert_eq!(bytes.len(), 65_538);
    let (frame, consumed) = Frame::decode(&bytes).unwrap();
    assert_eq!(consumed, 65_538);
    assert!(matches!(frame, Frame::Token(ref t) if *t == text));

    let bytes = Frame::Token("x".repeat(65_536)).encode();
    assert_eq!(&bytes[..3], &[1, 0, 0]);
    let (frame, consumed) = Frame::decode(&bytes).unwrap();
    assert_eq!(consumed, 3);
    assert!(matches!(frame, Frame::Token(ref t) if t.is_empty()));
}

#[test]
fn every_cut_of_a_frame_is_incomplete() {
    let bytes = Frame::Meta { model: "é€".into() }.encode();
    for cut in 0..bytes.len() {
        assert!(matches!(Frame::decode(&bytes[..cut]), Err(FrameError::Incomplete)));
    }
}

#[test]
fn a_decoded_frame_encodes_to_the_bytes_it_took() {
    let buf = [5, 2, 0, 0xC3, 0xA9, 1, 2, 3];
    let (frame, consumed) = Frame::decode(&buf).unwrap();
    assert_eq!(frame.encode(), &buf[..consumed]);
}

#[test]
fn bad_frames_are_refused() {
    assert!(matches!(Frame::decode(&[0, 0, 0]), Err(FrameError::UnknownType(0))));
    assert!(matches!(Frame::decode(&[6, 1, 0, 9]), Err(FrameError::UnknownType(6))));
    assert!(matches!(Frame::decode(&[6, 1, 0]), Err(FrameError::Incomplete)));
    assert!(matches!(Frame::decode(&[1, 1, 0, 0xFF]), Err(FrameError::InvalidUtf8)));
    assert!(matches!(Frame::decode(&[3, 1, 0, 0xC3]), Err(FrameError::InvalidUtf8)));
    assert!(matches!(
        Frame::decode(&[4, 3, 0, 0xED, 0xA0, 0x80]),
        Err(FrameError::InvalidUtf8)
    ));
    assert!(matches!(
        Frame::decode(&[2, 0, 0]),
        Err(FrameError::Malformed("DONE payload must be 8 bytes"))
    ));
    assert!(matches!(
        Frame::decode(&[2, 9, 0, 0, 0, 0, 0, 0, 0, 0, 0, 0]),
        Err(FrameError::Malformed("DONE payload must be 8 bytes"))
    ));
}

#[test]
fn payload_text_is_checked() {
    assert_eq!(utf8(&[0xE2, 0x82, 0xAC]).unwrap(), "€");
    assert!(matches!(utf8(&[0x80]), Err(FrameError::InvalidUtf8)));
}

#[test]
fn frame_errors_speak() {
    assert_eq!(FrameError::Incomplete.message(), "incomplete frame buffer");
    assert_eq!(FrameError::InvalidUtf8.message(), "frame payload is not valid UTF-8");
    assert_eq!(FrameError::UnknownType(6).message(), "unknown frame type: 0x06");
    assert_eq!(FrameError::UnknownType(0xFA).message(), "unknown frame type: 0xfa");
    assert_eq!(FrameError::Malformed("odd").message(), "malformed frame: odd");
}

#[test]
fn no_frame_begins_another() {
    let frames = [
        Frame::Token(String::new()),
        Frame::Token("a".into()),
        Frame::Token("ab".into()),
        Frame::Error("a".into()),
        Frame::Done { tokens_used: 0 },
        Frame::Done { tokens_used: 1 },
        Frame::Json("{}".into()),
    ];
    for (i, one) in frames.iter().enumerate() {
        for (j, other) in frames.iter().enumerate() {
            assert_eq!(other.encode().starts_with(&one.encode()), i == j);
        }
    }
}

#[test]
fn a_token_that_does_not_fit_is_cut() {
    let bytes = Frame::Token("a".repeat(65_536 + 5)).encode();
    let (frame, consumed) = Frame::decode(&bytes).unwrap();
    assert!(matches!(frame, Frame::Token(ref t) if t == "aaaaa"));
    assert_eq!(consumed, 8);
    let bytes = Frame::Token("é".repeat(32_768) + "€€").encode();
    assert_eq!(Frame::decode(&bytes).unwrap().1, 9);
    let bytes = Frame::Token("a".to_owned() + &"é".repeat(32_769)).encode();
    assert!(matches!(Frame::decode(&bytes), Ok((Frame::Token(ref t), 6)) if t == "aé"));
    let bytes = Frame::Token("é".repeat(32_768) + "a").encode();
    assert!(matches!(Frame::decode(&bytes), Err(FrameError::InvalidUtf8)));
}
