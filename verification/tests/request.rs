use ovata_infer_protocol::record::Held;
use ovata_infer_protocol::request::trust;
use ovata_infer_protocol::{InferenceRequest, RequestDecodeError};

fn req(prompt: &str) -> InferenceRequest {
    InferenceRequest {
        prompt: prompt.into(),
        model: "m".into(),
        max_tokens: 256,
        grammar: None,
        anchor: None,
        stop_anchor: None,
        count_only: false,
        stats_only: false,
        health_only: false,
        keep_anchors: false,
        trust: trust::TRUSTED,
        rlm: false,
    }
}

fn told(body: &[u8]) -> String {
    InferenceRequest::decode_body(body).err().unwrap().message()
}

fn same(a: &InferenceRequest, b: &InferenceRequest) -> bool {
    format!("{a:?}") == format!("{b:?}")
}

#[test]
fn request_roundtrip() {
    let r = InferenceRequest {
        prompt: "hello world".into(),
        model: "llama4-scout".into(),
        max_tokens: 256,
        grammar: None,
        anchor: None,
        stop_anchor: None,
        count_only: false,
        stats_only: false,
        health_only: false,
        keep_anchors: false,
        trust: trust::TRUSTED,
        rlm: false,
    };
    let decoded = InferenceRequest::decode(&r.encode().unwrap()).unwrap();
    assert_eq!(decoded.prompt, r.prompt);
    assert_eq!(decoded.model, r.model);
    assert_eq!(decoded.max_tokens, r.max_tokens);
}

#[test]
fn request_roundtrip_with_grammar() {
    let grammar = r#"root ::= "true" | "false""#.to_owned();
    let r = InferenceRequest {
        prompt: "true or false".into(),
        model: "llama4-scout".into(),
        max_tokens: 8,
        grammar: Some(grammar.clone()),
        anchor: None,
        stop_anchor: None,
        count_only: false,
        stats_only: false,
        health_only: false,
        keep_anchors: false,
        trust: trust::TRUSTED,
        rlm: false,
    };
    let decoded = InferenceRequest::decode(&r.encode().unwrap()).unwrap();
    assert_eq!(decoded.grammar, Some(grammar));
}

#[test]
fn request_roundtrip_with_anchor() {
    let grammar = r#"root ::= "true" | "false""#.to_owned();
    let r = InferenceRequest {
        prompt: "Answer: true or false?".into(),
        model: "llama4-scout".into(),
        max_tokens: 8,
        grammar: Some(grammar.clone()),
        anchor: Some("Answer: ".into()),
        stop_anchor: None,
        count_only: false,
        stats_only: false,
        health_only: false,
        keep_anchors: false,
        trust: trust::TRUSTED,
        rlm: false,
    };
    let decoded = InferenceRequest::decode(&r.encode().unwrap()).unwrap();
    assert_eq!(decoded.grammar, Some(grammar));
    assert_eq!(decoded.anchor, Some("Answer: ".into()));
}

#[test]
fn request_roundtrip_with_stop_anchor() {
    let grammar = r#"root ::= "{" [^}]* "}""#.to_owned();
    let r = InferenceRequest {
        prompt: "call a tool".into(),
        model: "m".into(),
        max_tokens: 64,
        grammar: Some(grammar.clone()),
        anchor: Some("<tool>".into()),
        stop_anchor: Some("</tool>".into()),
        count_only: false,
        stats_only: false,
        health_only: false,
        keep_anchors: false,
        trust: trust::TRUSTED,
        rlm: false,
    };
    let decoded = InferenceRequest::decode(&r.encode().unwrap()).unwrap();
    assert_eq!(decoded.anchor, Some("<tool>".into()));
    assert_eq!(decoded.stop_anchor, Some("</tool>".into()));
}

#[test]
fn request_roundtrip_with_keep_anchors() {
    let mut r = req("call a tool");
    r.anchor = Some("<tool>".into());
    r.stop_anchor = Some("</tool>".into());
    r.keep_anchors = true;
    let decoded = InferenceRequest::decode(&r.encode().unwrap()).unwrap();
    assert!(decoded.keep_anchors);
}

#[test]
fn keep_anchors_absent_from_json_defaults_to_false() {
    let json = br#"{"prompt":"hi","model":"m","max_tokens":10}"#;
    let len = json.len() as u32;
    let mut buf = len.to_le_bytes().to_vec();
    buf.extend_from_slice(json);
    let decoded = InferenceRequest::decode(&buf).unwrap();
    assert!(!decoded.keep_anchors);
}

#[test]
fn request_roundtrip_with_health_only() {
    let mut r = req("");
    r.health_only = true;
    let decoded = InferenceRequest::decode(&r.encode().unwrap()).unwrap();
    assert!(decoded.health_only);
}

#[test]
fn health_only_absent_from_json_defaults_to_false() {
    let json = br#"{"prompt":"hi","model":"m","max_tokens":10}"#;
    let len = json.len() as u32;
    let mut buf = len.to_le_bytes().to_vec();
    buf.extend_from_slice(json);
    let decoded = InferenceRequest::decode(&buf).unwrap();
    assert!(!decoded.health_only);
}

#[test]
fn anchor_absent_from_json_defaults_to_none() {
    let json = br#"{"prompt":"hi","model":"m","max_tokens":10,"grammar":"root ::= \"ok\""}"#;
    let len = json.len() as u32;
    let mut buf = len.to_le_bytes().to_vec();
    buf.extend_from_slice(json);
    let decoded = InferenceRequest::decode(&buf).unwrap();
    assert_eq!(decoded.anchor, None);
    assert_eq!(decoded.stop_anchor, None);
}

#[test]
fn grammar_absent_from_json_defaults_to_none() {
    let json = br#"{"prompt":"hi","model":"m","max_tokens":10}"#;
    let len = json.len() as u32;
    let mut buf = len.to_le_bytes().to_vec();
    buf.extend_from_slice(json);
    let decoded = InferenceRequest::decode(&buf).unwrap();
    assert_eq!(decoded.grammar, None);
}

#[test]
fn incomplete_buffer_returns_error() {
    assert!(matches!(
        InferenceRequest::decode(&[0x00, 0x00, 0x03]),
        Err(RequestDecodeError::Incomplete)
    ));
}

#[test]
fn empty_buffer_returns_incomplete() {
    assert!(matches!(
        InferenceRequest::decode(&[]),
        Err(RequestDecodeError::Incomplete)
    ));
}

#[test]
fn partial_payload_returns_incomplete() {
    let full = req("test").encode().unwrap();
    assert!(matches!(
        InferenceRequest::decode(&full[..5]),
        Err(RequestDecodeError::Incomplete)
    ));
}

#[test]
fn empty_prompt_roundtrip() {
    let decoded = InferenceRequest::decode(&req("no history").encode().unwrap()).unwrap();
    assert_eq!(decoded.prompt, "no history");
}

#[test]
fn request_with_special_characters() {
    let prompt = "Explain <memory> & \"unsafe\" in Rust — what's the difference?";
    let decoded = InferenceRequest::decode(&req(prompt).encode().unwrap()).unwrap();
    assert_eq!(decoded.prompt, prompt);
}

#[test]
fn request_roundtrip_with_trust() {
    let mut r = req("untrusted content");
    r.trust = trust::TAINTED;
    let decoded = InferenceRequest::decode(&r.encode().unwrap()).unwrap();
    assert_eq!(decoded.trust, trust::TAINTED);
}

#[test]
fn trust_absent_from_json_defaults_to_trusted() {
    let json = br#"{"prompt":"hi","model":"m","max_tokens":10}"#;
    let len = json.len() as u32;
    let mut buf = len.to_le_bytes().to_vec();
    buf.extend_from_slice(json);
    let decoded = InferenceRequest::decode(&buf).unwrap();
    assert_eq!(decoded.trust, trust::TRUSTED);
}

#[test]
fn extra_bytes_after_message_ignored() {
    let mut buf = req("test").encode().unwrap();
    buf.extend_from_slice(b"\xDE\xAD\xBE\xEF");
    let decoded = InferenceRequest::decode(&buf).unwrap();
    assert_eq!(decoded.prompt, "test");
}

#[test]
fn encode_is_a_length_prefix_over_encode_body() {
    let r = req("hello");
    let body = r.encode_body().unwrap();
    let framed = r.encode().unwrap();

    assert_eq!(&framed[..4], &(body.len() as u32).to_le_bytes());
    assert_eq!(&framed[4..], &body[..]);
}

#[test]
fn the_body_is_compact_json_in_field_order() {
    let mut r = req("say \"hi\"\n");
    assert_eq!(
        String::from_utf8(r.encode_body().unwrap()).unwrap(),
        "{\"prompt\":\"say \\\"hi\\\"\\n\",\"model\":\"m\",\"max_tokens\":256,\"grammar\":null,\
         \"count_only\":false,\"stats_only\":false,\"health_only\":false,\
         \"keep_anchors\":false,\"trust\":0,\"rlm\":false}"
    );
    r.grammar = Some("g".into());
    r.anchor = Some("a".into());
    r.stop_anchor = Some("s".into());
    r.rlm = true;
    r.trust = 255;
    assert_eq!(
        String::from_utf8(r.encode_body().unwrap()).unwrap(),
        "{\"prompt\":\"say \\\"hi\\\"\\n\",\"model\":\"m\",\"max_tokens\":256,\"grammar\":\"g\",\
         \"anchor\":\"a\",\"stop_anchor\":\"s\",\
         \"count_only\":false,\"stats_only\":false,\"health_only\":false,\
         \"keep_anchors\":false,\"trust\":255,\"rlm\":true}"
    );
}

#[test]
fn every_field_comes_back() {
    let r = InferenceRequest {
        prompt: "p\u{0} \u{1F600}".into(),
        model: "".into(),
        max_tokens: u32::MAX,
        grammar: Some("".into()),
        anchor: Some("a".into()),
        stop_anchor: Some("\\".into()),
        count_only: true,
        stats_only: true,
        health_only: true,
        keep_anchors: true,
        trust: 255,
        rlm: true,
    };
    assert!(same(&InferenceRequest::decode(&r.encode().unwrap()).unwrap(), &r));
    assert!(same(&InferenceRequest::decode_body(&r.encode_body().unwrap()).unwrap(), &r));
    let d = InferenceRequest::default();
    assert!(same(&InferenceRequest::decode(&d.encode().unwrap()).unwrap(), &d));
    assert_eq!(d.prompt, "");
    assert_eq!(d.max_tokens, 0);
    assert_eq!(d.grammar, None);
    assert!(!d.count_only);
}

#[test]
fn every_cut_of_a_request_is_incomplete() {
    let full = req("cut me").encode().unwrap();
    for cut in 0..full.len() {
        assert!(matches!(
            InferenceRequest::decode(&full[..cut]),
            Err(RequestDecodeError::Incomplete)
        ));
    }
    assert!(InferenceRequest::decode(&full).is_ok());
}

#[test]
fn unknown_members_count_for_nothing() {
    let body = br#"{"new":[1.5,{"x":null}],"prompt":"hi","model":"m","max_tokens":10}"#;
    assert_eq!(InferenceRequest::decode_body(body).unwrap().prompt, "hi");
}

#[test]
fn a_null_option_is_none() {
    let body = br#"{"prompt":"hi","model":"m","max_tokens":1,"grammar":null,"anchor":null}"#;
    let r = InferenceRequest::decode_body(body).unwrap();
    assert_eq!(r.grammar, None);
    assert_eq!(r.anchor, None);
}

#[test]
fn fields_may_come_in_declaration_order() {
    let r = InferenceRequest::decode_body(br#"["hi","m",10,null,"a"]"#).unwrap();
    assert_eq!(r.prompt, "hi");
    assert_eq!(r.model, "m");
    assert_eq!(r.max_tokens, 10);
    assert_eq!(r.grammar, None);
    assert_eq!(r.anchor, Some("a".into()));
    assert_eq!(r.stop_anchor, None);
    assert!(!r.rlm);
    let full = br#"["hi","m",10,"g","a","s",true,true,true,true,1,true]"#;
    let r = InferenceRequest::decode_body(full).unwrap();
    assert_eq!(r.stop_anchor, Some("s".into()));
    assert_eq!(r.trust, trust::TAINTED);
    assert!(r.count_only && r.stats_only && r.health_only && r.keep_anchors && r.rlm);
    assert_eq!(
        told(br#"["hi","m"]"#),
        "invalid length 2, expected struct InferenceRequest with 12 elements at line 1 column 10"
    );
    let long = br#"["hi","m",10,"g","a","s",true,true,true,true,1,true,0]"#;
    assert_eq!(told(long), "trailing characters at line 1 column 53");
}

#[test]
fn a_body_that_is_no_request_says_why() {
    assert_eq!(
        told(br#"{"model":"m","max_tokens":10}"#),
        "missing field `prompt` at line 1 column 29"
    );
    assert_eq!(
        told(br#"{"prompt":7,"model":"m","max_tokens":10}"#),
        "invalid type: integer `7`, expected a string at line 1 column 11"
    );
    assert_eq!(
        told(br#"{"max_tokens":4294967296}"#),
        "invalid value: integer `4294967296`, expected u32 at line 1 column 24"
    );
    assert_eq!(
        told(br#"{"max_tokens":-1}"#),
        "invalid value: integer `-1`, expected u32 at line 1 column 16"
    );
    assert_eq!(
        told(br#"{"max_tokens":1.0}"#),
        "invalid type: floating point `1.0`, expected u32 at line 1 column 17"
    );
    assert_eq!(
        told(br#"{"trust":256}"#),
        "invalid value: integer `256`, expected u8 at line 1 column 12"
    );
    assert_eq!(
        told(br#"{"rlm":null}"#),
        "invalid type: null, expected a boolean at line 1 column 11"
    );
    assert_eq!(
        told(br#"{"anchor":1}"#),
        "invalid type: integer `1`, expected a string at line 1 column 11"
    );
    assert_eq!(
        told(b"42"),
        "invalid type: integer `42`, expected struct InferenceRequest at line 1 column 2"
    );
    assert_eq!(told(b"{\"prompt\""), "EOF while parsing an object at line 1 column 9");
    assert_eq!(told(b"\xff"), "expected value at line 1 column 1");
    assert!(matches!(
        InferenceRequest::decode(&[0, 0, 0, 0]),
        Err(RequestDecodeError::Json(_))
    ));
}

#[test]
fn request_errors_speak() {
    assert_eq!(RequestDecodeError::Incomplete.message(), "incomplete request buffer");
    let e = InferenceRequest::decode(&[2, 0, 0, 0, b'{', b'}']).err().unwrap();
    assert_eq!(e.message(), "JSON decode: missing field `prompt` at line 1 column 2");
    let e = InferenceRequest::decode(&[1, 0, 0, 0, b'{']).err().unwrap();
    assert_eq!(
        e.message(),
        "JSON decode: EOF while parsing an object at line 1 column 1"
    );
}

#[test]
fn a_repeated_field_is_refused() {
    let twice = br#"{"prompt":"a","prompt":"b"}"#;
    assert_eq!(told(twice), "duplicate field `prompt` at line 1 column 22");
    let escaped = b"{\"prompt\":\"a\",\"pro\\u006dpt\":\"b\"}";
    assert_eq!(told(escaped), "duplicate field `prompt` at line 1 column 27");
    let defaulted = br#"{"prompt":"a","model":"m","max_tokens":1,"rlm":false,"rlm":false}"#;
    assert_eq!(told(defaulted), "duplicate field `rlm` at line 1 column 58");
}

#[test]
fn what_is_wrong_first_is_told() {
    let field_then_syntax = br#"{"prompt":5,"model":]"#;
    assert_eq!(
        told(field_then_syntax),
        "invalid type: integer `5`, expected a string at line 1 column 11"
    );
    let syntax_then_field = br#"{"x":],"prompt":5}"#;
    assert_eq!(told(syntax_then_field), "expected value at line 1 column 6");
    let twice_then_missing = br#"{"rlm":true,"rlm":true}"#;
    assert_eq!(told(twice_then_missing), "duplicate field `rlm` at line 1 column 17");
    let missing_then_more = br#"{} {}"#;
    assert_eq!(told(missing_then_more), "missing field `prompt` at line 1 column 2");
}

#[test]
fn a_prefixed_request_is_no_body() {
    for len in [0, 23, 123, 279, 8000] {
        let r = req(&"x".repeat(len));
        let bytes = r.encode().unwrap();
        assert!(InferenceRequest::decode_body(&bytes).is_err());
        assert!(same(&InferenceRequest::decode_body(&bytes[4..]).unwrap(), &r));
    }
    let zero = b"{\"prompt\":\"a\",\"model\":\"m\",\"max_tokens\":1,\"x\":\"\0\"}";
    assert!(InferenceRequest::decode_body(zero).is_err());
    assert!(InferenceRequest::decode_body(b"[\"a\",\"m\",1]\0").is_err());
}

#[test]
fn an_unknown_member_may_be_repeated() {
    let body = br#"{"x":1,"prompt":"a","x":2,"model":"m","max_tokens":1,"x":3}"#;
    assert_eq!(InferenceRequest::decode_body(body).unwrap().prompt, "a");
}

#[test]
fn an_unknown_member_needs_only_be_json() {
    let mut deep = Vec::new();
    deep.extend_from_slice(br#"{"prompt":"a","model":"m","max_tokens":1,"deep":"#);
    deep.extend_from_slice(&vec![b'['; 4000]);
    deep.extend_from_slice(&vec![b']'; 4000]);
    deep.push(b'}');
    assert_eq!(InferenceRequest::decode_body(&deep).unwrap().prompt, "a");

    let huge = br#"{"big":1e999,"prompt":"a","model":"m","max_tokens":1}"#;
    assert_eq!(InferenceRequest::decode_body(huge).unwrap().prompt, "a");

    let lone = br#"{"text":"\ud800","prompt":"a","model":"m","max_tokens":1}"#;
    assert_eq!(InferenceRequest::decode_body(lone).unwrap().prompt, "a");

    let broken = br#"{"text":[1,,2],"prompt":"a","model":"m","max_tokens":1}"#;
    assert_eq!(told(broken), "expected value at line 1 column 12");
}

#[test]
fn a_known_field_has_to_be_a_value() {
    let lone = br#"{"prompt":"\ud800","model":"m","max_tokens":1}"#;
    assert_eq!(told(lone), "unexpected end of hex escape at line 1 column 18");
    let huge = br#"{"prompt":"a","model":"m","max_tokens":1e999}"#;
    assert_eq!(told(huge), "number out of range at line 1 column 44");
}

#[test]
fn a_name_has_to_be_text() {
    let body = br#"{"\ud800":1,"prompt":"a","model":"m","max_tokens":1}"#;
    assert_eq!(told(body), "unexpected end of hex escape at line 1 column 9");
}

#[test]
fn space_and_escapes_change_nothing() {
    let body = b" \t\r\n{ \"pro\\u006dpt\" : \"a\\nb\" ,\n\"model\":\"m\" , \"max_tokens\" : 7 } \n";
    let r = InferenceRequest::decode_body(body).unwrap();
    assert_eq!(r.prompt, "a\nb");
    assert_eq!(r.model, "m");
    assert_eq!(r.max_tokens, 7);
    let array = b" [ \"a\" , \"m\" , 7 , null ] ";
    let r = InferenceRequest::decode_body(array).unwrap();
    assert_eq!(r.prompt, "a");
    assert_eq!(r.max_tokens, 7);
    assert_eq!(r.grammar, None);
}

#[test]
fn a_comma_joins_two_members() {
    let trailing = br#"{"prompt":"a","model":"m","max_tokens":1,}"#;
    assert_eq!(told(trailing), "trailing comma at line 1 column 42");
    let missing = br#"{"prompt":"a" "model":"m","max_tokens":1}"#;
    assert_eq!(told(missing), "expected `,` or `}` at line 1 column 15");
    let behind = br#"{"prompt":"a","model":"m","max_tokens":1} x"#;
    assert_eq!(told(behind), "trailing characters at line 1 column 43");
    assert_eq!(told(b""), "EOF while parsing a value at line 1 column 0");
}

#[test]
fn what_was_read_may_be_handed_over_directly() {
    let mut slots = vec![
        Some(Held::Text("a".to_owned())),
        Some(Held::Text("m".to_owned())),
        Some(Held::Word(3)),
        Some(Held::OptionalText(Some("g".to_owned()))),
    ];
    let r = InferenceRequest::from_slots(&slots);
    assert_eq!((r.prompt.as_str(), r.model.as_str(), r.max_tokens), ("a", "m", 3));
    assert_eq!(r.grammar, Some("g".to_owned()));
    assert_eq!(r.trust, trust::TRUSTED);
    slots.extend([None, None, Some(Held::Flag(true)), None, None, None, Some(Held::Byte(1))]);
    let r = InferenceRequest::from_slots(&slots);
    assert!(r.count_only && !r.stats_only && !r.rlm);
    assert_eq!(r.trust, trust::TAINTED);
}

#[test]
fn further_members_are_passed_over_wherever_they_stand() {
    let r = InferenceRequest { anchor: Some("<t>".into()), rlm: true, ..req("hi") };
    let body = String::from_utf8(r.encode_body().unwrap()).unwrap();
    let members: Vec<&str> = body[1..body.len() - 1].split(',').collect();
    assert_eq!(members.len(), 11);
    for further in [r#""later":{"a":[1.5,null]}"#, r#""Prompt":"x""#, r#""":1e999"#] {
        for at in 0..=members.len() {
            let mut longer = members.clone();
            longer.insert(at, further);
            let text = format!("{{{}}}", longer.join(","));
            assert!(same(&InferenceRequest::decode_body(text.as_bytes()).unwrap(), &r), "{text}");
            longer.push(further);
            let text = format!("{{{}}}", longer.join(","));
            assert!(same(&InferenceRequest::decode_body(text.as_bytes()).unwrap(), &r), "{text}");
        }
    }
}
