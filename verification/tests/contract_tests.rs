use dit::hex_string::HexString;
use dit::mode_a::{ActionA, StateA};
use dit::traits::{Mode, State};
use dit::update::{ToActionUpdate, Update};

#[test]
fn bare_action_gets_default_report() {
    let (action, report) = ActionA::NoOp.to_action_update();
    assert!(matches!(action, ActionA::NoOp));
    assert!(report.successful);
    assert_eq!(report.message, "");
}

#[test]
fn paired_action_keeps_its_report() {
    let pair = (
        ActionA::AttemptSeekEncounter,
        Update { message: String::from("found one"), successful: false },
    );
    let (action, report) = pair.to_action_update();
    assert!(matches!(action, ActionA::AttemptSeekEncounter));
    assert!(!report.successful);
    assert_eq!(report.message, "found one");
}

#[test]
fn state_metadata() {
    let state = StateA::default_state();
    assert_eq!(StateA::mode(), Mode::A);
    assert_eq!(state.root_hash().to_string(), HexString::default().to_string());
    assert_eq!(state.read_header_line("ignored").version(), state.version());
}

#[test]
fn update_version_refuses_downgrade() {
    let state = StateA::default_state();
    let upgraded = state.update_version(20000).expect("upgrades are allowed");
    assert_eq!(upgraded.version(), 20000);
    assert_eq!(upgraded.hp(), state.hp());
    assert!(upgraded.update_version(10100).is_err());
    // moving to the same version is allowed
    assert_eq!(upgraded.update_version(20000).expect("same version").version(), 20000);
}

#[test]
fn empty_ledger_views() {
    let ledger = dit::ledger::Ledger::<ActionA>::new();
    assert!(ledger.messages().is_empty());
    let by_default = dit::ledger::Ledger::<ActionA>::default();
    assert!(by_default.messages().is_empty());
}

#[test]
fn pending_ledger_carries_candidate_key() {
    let msgs: Vec<dit::message::Message<ActionA>> = Vec::new();
    let ledger = dit::ledger::Ledger::from_slice(&msgs[..]);
    let candidate = HexString::from_bytes(&[0x01, 0xfe]);
    let pending = ledger.with_hash(&candidate);
    assert!(pending.messages().is_empty());
    assert_eq!(pending.next_hash().to_string(), "01fe");
}

#[test]
fn dit_result_maps_parse_failures() {
    let ok: Result<u32, dit::error::Error<ActionA>> = dit::error::dit_result(Ok(5));
    assert_eq!(ok.unwrap(), 5);
    let err: Result<u32, dit::error::Error<ActionA>> = dit::error::dit_result(Err(3));
    match err {
        Err(dit::error::Error::SerdeError(line)) => assert_eq!(line, 3),
        _ => panic!("expected SerdeError"),
    }
}
