use ovata_infer_protocol::envelope::{build, build_prompt, from_value, parse};
use ovata_infer_protocol::envelope::{Envelope, Message, MESSAGES_ENVELOPE_KEY};

fn msg(role: &str, content: &str) -> Message {
    Message { role: role.to_owned(), content: content.to_owned() }
}

#[test]
fn build_and_parse_round_trip() {
    let msgs = vec![msg("user", "hi"), msg("assistant", "hello"), msg("tool", "26°C")];
    let json = build("be terse", &msgs).to_string();

    let env = parse(&json).expect("built envelope must parse");
    assert_eq!(env.system, "be terse");
    assert_eq!(env.messages, msgs);
}

#[test]
fn build_omits_empty_system() {
    let json = build("", &[msg("user", "hi")]);
    assert!(json.get("system").is_none());
    assert_eq!(parse(&json.to_string()).unwrap().system, "");
}

#[test]
fn plain_prompts_are_not_envelopes() {
    assert!(parse("Hello, what's the weather?").is_none());
    assert!(parse("").is_none());
    // valid JSON, but not an envelope
    assert!(parse(r#"{"role":"user","content":"hi"}"#).is_none());
    // not valid JSON at all, despite the leading brace
    assert!(parse("{not json").is_none());
}

#[test]
fn the_old_jade_marker_is_not_accepted() {
    let old = r#"{"_jade_protocol":"messages","messages":[{"role":"user","content":"hi"}]}"#;
    assert!(parse(old).is_none());
}

#[test]
fn wrong_marker_value_is_rejected() {
    let json = format!(r#"{{"{MESSAGES_ENVELOPE_KEY}":"turns","messages":[]}}"#);
    assert!(parse(&json).is_none());
}

#[test]
fn missing_messages_array_is_none() {
    let json = format!(r#"{{"{MESSAGES_ENVELOPE_KEY}":"messages","system":"s"}}"#);
    assert!(parse(&json).is_none());
    // present but not an array
    let json = format!(r#"{{"{MESSAGES_ENVELOPE_KEY}":"messages","messages":"nope"}}"#);
    assert!(parse(&json).is_none());
}

#[test]
fn malformed_turns_degrade_rather_than_reject() {
    let json = format!(
        r#"{{"{MESSAGES_ENVELOPE_KEY}":"messages","messages":[
            {{"content":"no role"}}, {{"role":"assistant"}}, {{"role":42,"content":7}}
        ]}}"#
    );
    let env = parse(&json).unwrap();
    assert_eq!(env.messages, vec![msg("user", "no role"), msg("assistant", ""), msg("user", "")]);
}

#[test]
fn empty_messages_array_parses() {
    let env = parse(&build("s", &[]).to_string()).unwrap();
    assert!(env.messages.is_empty());
}

#[test]
fn turn_order_is_preserved() {
    let msgs: Vec<Message> = (0..5).map(|i| msg("user", &i.to_string())).collect();
    assert_eq!(parse(&build("", &msgs).to_string()).unwrap().messages, msgs);
}

#[test]
fn build_prompt_writes_the_text_of_build() {
    let msgs = vec![msg("user", "a \"quoted\" line\n\u{1F600}"), msg("weird role", "")];
    let prompt = build_prompt("sys", &msgs);
    assert_eq!(prompt, build("sys", &msgs).to_string());
    assert_eq!(
        prompt,
        "{\"_ovata_infer_protocol\":\"messages\",\"messages\":[\
         {\"content\":\"a \\\"quoted\\\" line\\n\u{1F600}\",\"role\":\"user\"},\
         {\"content\":\"\",\"role\":\"weird role\"}],\"system\":\"sys\"}"
    );
    let envelope = parse(&prompt).unwrap();
    assert_eq!(envelope, Envelope { system: "sys".to_owned(), messages: msgs });
}

#[test]
fn a_turn_that_is_no_object_is_an_empty_user_turn() {
    let json = format!(r#"{{"{MESSAGES_ENVELOPE_KEY}":"messages","messages":[1,null,["role"]]}}"#);
    let env = parse(&json).unwrap();
    assert_eq!(env.messages, vec![msg("user", ""), msg("user", ""), msg("user", "")]);
}

#[test]
fn a_system_prompt_that_is_no_text_counts_as_none() {
    let json = format!(r#"{{"{MESSAGES_ENVELOPE_KEY}":"messages","system":7,"messages":[]}}"#);
    assert_eq!(parse(&json), Some(Envelope::default()));
}

#[test]
fn leading_space_makes_a_plain_prompt() {
    let json = build("s", &[]).to_string();
    assert!(parse(&json).is_some());
    assert!(parse(&format!(" {json}")).is_none());
}

#[test]
fn an_envelope_is_taken_out_of_a_value() {
    let msgs = vec![msg("user", "hi")];
    let value = build("s", &msgs);
    assert_eq!(from_value(&value), Some(Envelope { system: "s".to_owned(), messages: msgs }));
    assert_eq!(from_value(&serde_json::Value::Null), None);
    assert_eq!(from_value(&serde_json::Value::Array(vec![value])), None);
}
