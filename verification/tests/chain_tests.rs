use std::cell::Cell;

use dit::action_interface::ActionInterface;
use dit::book::Book;
use dit::error::Error;
use dit::ledger::Ledger;
use dit::message::Message;
use dit::mode_a::{ActionA, StateA};
use dit::ops::{read_state, validate};
use dit::traits::{Action, State};

fn default_state() -> StateA {
    StateA::default_state()
}

fn origin() -> Message<ActionA> {
    Message::default()
}

#[test]
fn created_message_is_accepted_by_previous_message() {
    let state = default_state();
    let prev = origin();
    let action = ActionA::Marker { content: String::from("first step") };
    let next = prev
        .gen_next_message(action, &state)
        .expect("the search should find a key");
    assert!(prev.accepts_next_message(&next, &state));
}

#[test]
fn search_verify_agreement_many_runs() {
    let state = default_state();
    let mut prev = origin();
    for i in 0..8 {
        let action = ActionA::Marker { content: format!("step {}", i) };
        let next = prev
            .gen_next_message(action, &state)
            .expect("the search should find a key");
        assert!(prev.accepts_next_message(&next, &state));
        prev = next;
    }
}

#[test]
fn tampered_message_is_not_accepted_by_previous_message() {
    let state = default_state();
    let prev = origin();
    let next = prev
        .gen_next_message(ActionA::Marker { content: String::from("payload A") }, &state)
        .expect("the search should find a key");
    let tampered = Message {
        key: next.key().clone(),
        action: ActionA::Marker { content: String::from("payload B") },
    };
    assert!(!prev.accepts_next_message(&tampered, &state));
}

#[test]
fn tamper_detection_statistics() {
    // Marker actions cost 5 bits, so a random digest passes about 3% of
    // the time; a tampered payload must not do noticeably better.
    let state = default_state();
    let prev = origin();
    let trials = 200;
    let mut passed = 0;
    for i in 0..trials {
        let mined = prev
            .gen_next_message(ActionA::Marker { content: format!("genuine {}", i) }, &state)
            .expect("the search should find a key");
        assert!(prev.accepts_next_message(&mined, &state));
        let tampered = Message {
            key: mined.key().clone(),
            action: ActionA::Marker { content: format!("tampered {}", i) },
        };
        if prev.accepts_next_message(&tampered, &state) {
            passed += 1;
        }
    }
    assert!(passed * 10 < trials, "tampered payloads passed {} of {}", passed, trials);
}

fn two_link_log() -> (String, Message<ActionA>, Message<ActionA>) {
    let mut book: Book<ActionA> = Book::default();
    let state0 = book.state().clone();
    let m1 = origin()
        .gen_next_message(ActionA::Marker { content: String::from("one") }, &state0)
        .expect("the search should find a key");
    book.apply_message(m1.clone()).expect("first link applies");
    let state1 = book.state().clone();
    let m2 = m1
        .gen_next_message(ActionA::Marker { content: String::from("two") }, &state1)
        .expect("the search should find a key");
    book.apply_message(m2.clone()).expect("second link applies");
    let text = format!("{}\n{}\n", m1.to_string(), m2.to_string());
    (text, m1, m2)
}

#[test]
fn test_validate() {
    let (text, _m1, _m2) = two_link_log();
    assert!(validate::<ActionA>("log", &text).is_ok());
}

#[test]
fn validation_reports_corrupted_second_line() {
    let (_text, m1, m2) = two_link_log();
    let tampered = Message {
        key: m2.key().clone(),
        action: ActionA::Marker { content: String::from("two!") },
    };
    let corrupted = format!("{}\n{}\n", m1.to_string(), tampered.to_string());
    match validate::<ActionA>("log", &corrupted) {
        Err(Error::FailedValidation { file_name, line_number, last_message, failed_message }) => {
            assert_eq!(file_name, "log");
            assert_eq!(line_number, 2);
            assert_eq!(last_message.to_string(), m1.to_string());
            assert_eq!(failed_message.to_string(), tampered.to_string());
        },
        other => panic!("expected FailedValidation, got {:?}", other),
    }
}

#[test]
fn validate_reports_malformed_line() {
    match validate::<ActionA>("log", "not a chain line\n") {
        Err(Error::SerdeError(line)) => assert_eq!(line, 1),
        other => panic!("expected SerdeError, got {:?}", other),
    }
}

#[test]
fn replay_determinism() {
    let (text, _m1, _m2) = two_link_log();
    let a = Book::<ActionA>::from_read(&text).expect("log replays");
    let b = Book::<ActionA>::from_read(&text).expect("log replays");
    assert_eq!(a.state(), b.state());
    let msgs_a: Vec<String> = a.ledger().messages().iter().map(|m| m.to_string()).collect();
    let msgs_b: Vec<String> = b.ledger().messages().iter().map(|m| m.to_string()).collect();
    assert_eq!(msgs_a, msgs_b);
    // a freshly replayed aggregate has nothing pending
    assert_eq!(a.write_pending_changes(), "");
}

#[test]
#[should_panic]
fn book_from_read() {
    let text = "Bag of beans, barely even human\nsavages, savages, wrotten to the core";
    let _book = Book::<ActionA>::from_read(text).expect("Should be readable");
}

#[test]
fn from_read_reports_first_malformed_line() {
    let (text, _m1, _m2) = two_link_log();
    let corrupted = format!("{}garbage line\n", text);
    match Book::<ActionA>::from_read(&corrupted) {
        Err(Error::SerdeError(line)) => assert_eq!(line, 3),
        Err(other) => panic!("expected SerdeError, got {:?}", other),
        Ok(_) => panic!("expected SerdeError, got a replayed book"),
    }
}

#[test]
fn from_read_rejects_inapplicable_action() {
    // a downgrade below the default version is rejected during replay
    let stale = Message {
        key: dit::hex_string::HexString::from_bytes(&[0, 0]),
        action: ActionA::UpdateVersion { version: 100 },
    };
    let text = format!("{}\n", stale.to_string());
    match Book::<ActionA>::from_read(&text) {
        Err(Error::BadAction) => {},
        Err(other) => panic!("expected BadAction, got {:?}", other),
        Ok(_) => panic!("expected BadAction, got a replayed book"),
    }
}

#[test]
fn end_to_end_version_update() {
    // canonical default state
    let mut book: Book<ActionA> = Book::default();
    assert_eq!(book.state().version(), 10100);

    // mine and apply an update to 10200 at bit cost 1
    let state0 = book.state().clone();
    let update = ActionA::UpdateVersion { version: 10200 };
    assert_eq!(update.bit_cost(&state0), 1);
    let mined = origin()
        .gen_next_message(update, &state0)
        .expect("the search should find a key");
    book.apply_message(mined).expect("the update applies");
    assert_eq!(book.state().version(), 10200);

    // a downgrade back to 10100 is inapplicable and rejected without mining
    let downgrade = ActionA::UpdateVersion { version: 10100 };
    let ledger = book.ledger();
    assert!(!downgrade.applicable(&ledger, book.state()));
    let failed = Cell::new(false);
    let engine = ActionInterface::new(|| failed.set(true), |_h| {}, |_h| {});
    let outcome = engine.run(downgrade, book.ledger(), book.state().clone());
    assert!(outcome.is_ok());
    assert!(failed.get());
    assert_eq!(book.state().version(), 10200);
}

#[test]
fn mining_engine_reports_success() {
    let book: Book<ActionA> = Book::default();
    let succeeded = Cell::new(false);
    let progressed = Cell::new(0u32);
    let engine = ActionInterface::new(|| {}, |_h| {}, |_h| succeeded.set(true))
        .on_iter(|_h| progressed.set(progressed.get() + 1))
        .with_period(1);
    let outcome = engine.run(
        ActionA::UpdateVersion { version: 10200 },
        book.ledger(),
        book.state().clone(),
    );
    assert!(outcome.is_ok());
    assert!(succeeded.get());
    assert!(progressed.get() >= 1);
}

#[test]
fn watermark_flush() {
    let (text, _m1, m2) = two_link_log();
    let mut book = Book::<ActionA>::from_read(&text).expect("log replays");

    // a replayed aggregate is already flushed
    let first_flush = book.write_changes();
    assert_eq!(first_flush, "");
    assert_eq!(book.write_pending_changes(), "");

    // one appended link makes exactly one line available to flush
    let state = book.state().clone();
    let m3 = m2
        .gen_next_message(ActionA::Marker { content: String::from("three") }, &state)
        .expect("the search should find a key");
    book.apply_message(m3.clone()).expect("third link applies");
    let pending = book.write_pending_changes();
    assert_eq!(pending, format!("{}\n", m3.to_string()));
    let flushed = book.write_changes();
    assert_eq!(flushed, pending);
    assert_eq!(book.write_pending_changes(), "");
}

#[test]
fn write_then_read_round_trip() {
    let mut book: Book<ActionA> = Book::default();
    let state0 = book.state().clone();
    let m1 = origin()
        .gen_next_message(ActionA::UpdateVersion { version: 10300 }, &state0)
        .expect("the search should find a key");
    book.apply_message(m1).expect("applies");
    let text = book.write_changes();
    let replayed = Book::<ActionA>::from_read(&text).expect("own output replays");
    assert_eq!(replayed.state(), book.state());
}

#[test]
fn read_state_matches_from_read() {
    let (text, _m1, _m2) = two_link_log();
    let (state, msgs) = read_state::<ActionA>(&text).expect("log replays");
    let book = Book::<ActionA>::from_read(&text).expect("log replays");
    assert_eq!(&state, book.state());
    assert_eq!(msgs.len(), 2);
    let _ledger: Ledger<'_, ActionA> = Ledger::from_slice(&msgs[..]);
}

#[test]
fn digest_depends_on_inputs() {
    // if the digest ignored its inputs and echoed the previous key, a
    // zero key would chain from the zero origin at any cost
    let state = default_state();
    let prev = origin();
    let echo = Message {
        key: dit::hex_string::HexString::from_bytes(&[0, 0, 0, 0]),
        action: ActionA::CastSpell { spell: dit::mode_a::Spell::FireBall },
    };
    assert!(!prev.accepts_next_message(&echo, &state));
}

#[test]
fn empty_log_replays_to_default() {
    let book = Book::<ActionA>::from_read("").expect("an empty log replays");
    assert_eq!(book.state().version(), 10100);
    assert_eq!(book.state().hp(), 100);
    assert_eq!(book.ledger().messages().len(), 0);
    assert_eq!(book.write_pending_changes(), "");
    assert!(validate::<ActionA>("log", "").is_ok());
}

#[test]
fn tamper_detection_statistics_eight_bits() {
    // CastSpell actions cost 8 bits; flipping the spell of a freshly
    // mined link should pass the check well under 1% of the time.
    let state = default_state();
    let trials = 200;
    let mut passed = 0;
    for i in 0..trials {
        let prev = Message {
            key: dit::hex_string::HexString::from_bytes(&(i as u32).to_le_bytes()),
            action: ActionA::NoOp,
        };
        let mined = prev
            .gen_next_message(ActionA::CastSpell { spell: dit::mode_a::Spell::FireBall }, &state)
            .expect("the search should find a key");
        assert!(prev.accepts_next_message(&mined, &state));
        let tampered = Message {
            key: mined.key().clone(),
            action: ActionA::CastSpell { spell: dit::mode_a::Spell::IceDagger },
        };
        if prev.accepts_next_message(&tampered, &state) {
            passed += 1;
        }
    }
    assert!(passed <= 5, "tampered payloads passed {} of {}", passed, trials);
}
