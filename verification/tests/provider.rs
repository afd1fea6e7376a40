use ovata_infer_protocol::provider::{config_given, loaded, outcome_code, refusal, serve};
use ovata_infer_protocol::provider::{ERR_BAD_REQUEST, ERR_NULL_ARG, ERR_PANIC, OK};
use ovata_infer_protocol::{Frame, FrameSink, InferenceRequest, Provider};

// A minimal in-memory sink.
struct VecSink(Vec<Frame>);
impl FrameSink for VecSink {
    fn emit(&mut self, frame: Frame) {
        self.0.push(frame);
    }
}

#[test]
fn emit_text_chunks_under_the_frame_limit_and_reassembles() {
    // A payload larger than one frame can hold, with a multi-byte char at the
    // boundary to prove we split on char boundaries, not bytes.
    let text = "é".repeat(50_000); // 100_000 bytes
    let mut sink = VecSink(Vec::new());
    sink.emit_text(&text);

    assert!(sink.0.len() >= 2, "should have split into multiple frames");
    let mut reassembled = String::new();
    for f in &sink.0 {
        match f {
            Frame::Token(t) => {
                assert!(t.len() <= 60_000, "each token frame stays under the cap");
                reassembled.push_str(t);
            }
            other => panic!("expected only Token frames, got {other:?}"),
        }
    }
    assert_eq!(reassembled, text);
}

#[test]
fn emit_text_empty_produces_no_frames() {
    let mut sink = VecSink(Vec::new());
    sink.emit_text("");
    assert!(sink.0.is_empty());
}

#[test]
fn emit_text_fills_each_frame() {
    let mut sink = VecSink(Vec::new());
    sink.emit_text(&format!("{}€{}", "a".repeat(59_998), "b".repeat(59_997)));
    let lengths: Vec<usize> = sink.0.iter().map(|f| f.encode().len() - 3).collect();
    assert_eq!(lengths, [59_998, 60_000]);

    let mut sink = VecSink(Vec::new());
    sink.emit_text(&"a".repeat(60_000));
    assert_eq!(sink.0.len(), 1);
    sink.emit_text("b");
    assert!(matches!(sink.0[1], Frame::Token(ref t) if t == "b"));
}

#[test]
fn emitted_text_survives_the_wire() {
    let text = "€".repeat(30_000);
    let mut sink = VecSink(Vec::new());
    sink.emit_text(&text);
    let mut stream: Vec<u8> = sink.0.iter().flat_map(|f| f.encode()).collect();
    let mut back = String::new();
    while !stream.is_empty() {
        let (frame, consumed) = Frame::decode(&stream).unwrap();
        match frame {
            Frame::Token(t) => back.push_str(&t),
            other => panic!("expected only Token frames, got {other:?}"),
        }
        stream.drain(..consumed);
    }
    assert_eq!(back, text);
}

// A provider that echoes the prompt as one token and then completes.
struct Echo;
impl Provider for Echo {
    const NAME: &'static str = "echo";
    fn from_config(_config: &[u8]) -> Result<Self, String> {
        Ok(Echo)
    }
    fn infer<S: FrameSink + ?Sized>(&self, request: &InferenceRequest, sink: &mut S) {
        sink.emit(Frame::Token(request.prompt.clone()));
        sink.emit(Frame::Done { tokens_used: 1 });
    }
}

#[test]
fn serve_hands_the_decoded_request_to_the_provider() {
    assert_eq!(Echo::NAME, "echo");
    let request = InferenceRequest { prompt: "hi".into(), ..Default::default() };
    let body = request.encode_body().unwrap();
    let mut sink = VecSink(Vec::new());
    let echo = Echo::from_config(&[]).unwrap();
    assert_eq!(serve(&echo, &body, &mut sink), OK);
    assert_eq!(sink.0.len(), 2);
    assert!(matches!(sink.0[0], Frame::Token(ref t) if t == "hi"));
    assert!(matches!(sink.0[1], Frame::Done { tokens_used: 1 }));
}

#[test]
fn serve_refuses_what_is_no_request() {
    let mut sink = VecSink(Vec::new());
    assert_eq!(serve(&Echo, b"{}", &mut sink), ERR_BAD_REQUEST);
    assert_eq!(serve(&Echo, b"", &mut sink), ERR_BAD_REQUEST);
    assert!(sink.0.is_empty());
}

#[test]
fn a_null_argument_is_refused() {
    assert_eq!(refusal(true, false), Some(ERR_NULL_ARG));
    assert_eq!(refusal(false, true), Some(ERR_NULL_ARG));
    assert_eq!(refusal(true, true), Some(ERR_NULL_ARG));
    assert_eq!(refusal(false, false), None);
}

#[test]
fn a_panic_has_a_code_of_its_own() {
    assert_eq!(outcome_code(Some(OK)), OK);
    assert_eq!(outcome_code(Some(ERR_BAD_REQUEST)), ERR_BAD_REQUEST);
    assert_eq!(outcome_code(None), ERR_PANIC);
}

#[test]
fn only_a_built_provider_is_loaded() {
    assert_eq!(loaded(Some(Ok(7))), Some(7));
    assert_eq!(loaded::<i32>(Some(Err("no key".into()))), None);
    assert_eq!(loaded::<i32>(None), None);
    assert!(config_given(false, 1));
    assert!(!config_given(false, 0));
    assert!(!config_given(true, 1));
}

#[test]
fn serve_refuses_a_request_that_has_its_prefix() {
    let request = InferenceRequest { prompt: "hi".into(), ..Default::default() };
    let mut sink = VecSink(Vec::new());
    assert_eq!(serve(&Echo, &request.encode().unwrap(), &mut sink), ERR_BAD_REQUEST);
    assert!(sink.0.is_empty());
    assert_eq!(serve(&Echo, &request.encode_body().unwrap(), &mut sink), OK);
    assert!(matches!(sink.0[0], Frame::Token(ref t) if t == "hi"));
}

#[test]
fn a_text_takes_no_more_frames_than_it_must() {
    let mut sink = VecSink(Vec::new());
    sink.emit_text(&"a".repeat(180_000));
    assert_eq!(sink.0.len(), 3);
    let mut sink = VecSink(Vec::new());
    sink.emit_text(&"a".repeat(180_001));
    assert_eq!(sink.0.len(), 4);
}
