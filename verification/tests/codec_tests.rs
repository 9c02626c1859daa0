use dit::hex_string::HexString;
use dit::message::{Message, parse_message};
use dit::mode_a::{ActionA, Spell};
use dit::text::chars_of;
use dit::traits::Action;

fn parse_line(line: &str) -> Option<Message<ActionA>> {
    parse_message::<ActionA>(&chars_of(line))
}

#[test]
fn action_texts_are_canonical() {
    assert_eq!(ActionA::NoOp.to_text(), "{\"type\":\"noop\"}");
    assert_eq!(
        ActionA::Marker { content: String::from("hi") }.to_text(),
        "{\"type\":\"marker\",\"content\":\"hi\"}"
    );
    assert_eq!(
        ActionA::UpdateVersion { version: 10200 }.to_text(),
        "{\"type\":\"updateversion\",\"version\":10200}"
    );
    assert_eq!(
        ActionA::AttemptSeekEncounter.to_text(),
        "{\"type\":\"attemptseekencounter\"}"
    );
    assert_eq!(
        ActionA::AttemptLearnSpell { spell: Spell::FireBall }.to_text(),
        "{\"type\":\"attemptlearnspell\",\"spell\":\"FireBall\"}"
    );
    assert_eq!(
        ActionA::CastSpell { spell: Spell::IceDagger }.to_text(),
        "{\"type\":\"castspell\",\"spell\":\"IceDagger\"}"
    );
}

#[test]
fn marker_content_is_escaped() {
    let a = ActionA::Marker { content: String::from("say \"hi\"\\\n") };
    let text = a.to_text();
    assert_eq!(
        text,
        "{\"type\":\"marker\",\"content\":\"say \\\"hi\\\"\\\\\\n\"}"
    );
    let back = ActionA::of_text(&text).expect("canonical text must parse");
    assert_eq!(back.to_text(), text);
    match back {
        ActionA::Marker { content } => assert_eq!(content, "say \"hi\"\\\n"),
        _ => panic!("wrong variant"),
    }
}

#[test]
fn action_parse_round_trips() {
    let actions = vec![
        ActionA::NoOp,
        ActionA::Marker { content: String::from("x") },
        ActionA::Marker { content: String::from("") },
        ActionA::UpdateVersion { version: 0 },
        ActionA::UpdateVersion { version: usize::MAX },
        ActionA::AttemptSeekEncounter,
        ActionA::AttemptLearnSpell { spell: Spell::FireBall },
        ActionA::AttemptLearnSpell { spell: Spell::IceDagger },
        ActionA::CastSpell { spell: Spell::FireBall },
        ActionA::CastSpell { spell: Spell::IceDagger },
    ];
    for a in actions {
        let text = a.to_text();
        let back = ActionA::of_text(&text).expect("canonical text must parse");
        assert_eq!(back.to_text(), text);
    }
}

#[test]
fn action_parse_rejects_junk() {
    assert!(ActionA::of_text("").is_none());
    assert!(ActionA::of_text("{\"type\":\"noop\"} ").is_none());
    assert!(ActionA::of_text("{\"type\":\"unknown\"}").is_none());
    assert!(ActionA::of_text("{\"type\":\"updateversion\",\"version\":}").is_none());
    assert!(ActionA::of_text("{\"type\":\"updateversion\",\"version\":007}").is_none());
    assert!(ActionA::of_text("{\"type\":\"marker\",\"content\":\"unterminated}").is_none());
    assert!(ActionA::of_text("{\"type\":\"castspell\",\"spell\":\"Lightning\"}").is_none());
}

#[test]
fn sede_test_messsage() {
    let m = Message {
        key: HexString::from_bytes(&[0x12, 0x34]),
        action: ActionA::Marker { content: String::from("hello world") },
    };
    let line = m.to_string();
    assert_eq!(
        line,
        "{\"key\":\"1234\",\"action\":{\"type\":\"marker\",\"content\":\"hello world\"}}"
    );
    let back = parse_line(&line).expect("canonical line must parse");
    assert_eq!(back.to_string(), line);
    assert_eq!(back.key().to_string(), "1234");
}

#[test]
fn message_parse_rejects_bad_lines() {
    assert!(parse_line("").is_none());
    assert!(parse_line("not json at all").is_none());
    assert!(parse_line("{\"key\":\"12\",\"action\":{\"type\":\"noop\"}} ").is_none());
    // invalid hex in the key field is a hard failure
    assert!(parse_line("{\"key\":\"xy\",\"action\":{\"type\":\"noop\"}}").is_none());
    assert!(parse_line("{\"key\":\"123\",\"action\":{\"type\":\"noop\"}}").is_none());
    assert!(parse_line("{\"key\":\"AB\",\"action\":{\"type\":\"noop\"}}").is_none());
    assert!(parse_line("{\"key\":\"12\",\"action\":{\"type\":\"nope\"}}").is_none());
}
