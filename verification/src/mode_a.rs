//! The first concrete action/state schema: a small game domain with
//! markers, version updates, encounters and spells.

use vstd::prelude::*;
use crate::error::Error;
use crate::hex_string::HexString;
use crate::json::{escape, escape_into, parse_string_body, parse_string_body_exec};
use crate::ledger::{Ledger, PendingLedger};
use crate::message::Message;
use crate::text::{chars_of, dec_digits, dec_val, eq_lit, format_usize, is_canonical_dec, match_at,
    match_lit, parse_usize, push_str_chars, string_of, lemma_dec_round_trip,
    lemma_dec_canonical_complete};
use crate::traits::{Action, Mode, State};
use crate::update::{ToActionUpdate, Update};

verus! {

/// A spell a character may learn and cast.
#[derive(Copy, Clone, Debug, PartialEq, Eq, Structural)]
pub enum Spell {
    FireBall,
    IceDagger,
}

/// One requested state transition of the game domain.
///
/// Extending this enum must be done with care: old actions must keep
/// serializing the same way forever, since old logs are validated
/// against the current code.
#[derive(Debug)]
pub enum ActionA {
    NoOp,
    Marker { content: String },
    UpdateVersion { version: usize },
    AttemptSeekEncounter,
    AttemptLearnSpell { spell: Spell },
    CastSpell { spell: Spell },
}

/// The game state: a schema version and hit points.
#[derive(Copy, Clone, Debug, PartialEq, Eq, Structural)]
pub struct StateA {
    pub version: usize,
    pub hp: isize,
}

impl StateA {
    /// The schema version of this state.
    pub fn version(&self) -> (r: usize)
        ensures
            r == self.version,
    {
        self.version
    }

    /// The hit points of this state.
    pub fn hp(&self) -> (r: isize)
        ensures
            r == self.hp,
    {
        self.hp
    }

    /// Move to a newer (or equal) version; downgrades are refused.
    pub fn update_version(&self, version: usize) -> (r: Result<StateA, Error<ActionA>>)
        ensures
            r is Ok <==> version >= self.version,
            r is Ok ==> r->Ok_0 == (StateA { version, hp: self.hp }),
            r is Err ==> r == Err::<StateA, Error<ActionA>>(Error::BadAction),
    {
        if self.version > version {
            Err(Error::BadAction)
        } else {
            Ok(StateA { version, hp: self.hp })
        }
    }
}

impl State for StateA {
    /// The canonical default state.
    open spec fn default_spec() -> StateA {
        StateA { version: 10100, hp: 100 }
    }

    fn default_state() -> (r: StateA)
        ensures
            r == <StateA as State>::default_spec(),
    {
        StateA { version: 10100, hp: 100 }
    }

    fn dup(&self) -> (r: StateA)
        ensures
            r == *self,
    {
        *self
    }

    fn read_header_line(self, _header_line: &str) -> StateA {
        self
    }

    fn root_hash(&self) -> HexString {
        HexString::default()
    }

    fn mode() -> Mode {
        Mode::A
    }
}

impl Action for ActionA {
    type State = StateA;

    open spec fn text_of(a: ActionA) -> Seq<char> {
        match a {
            ActionA::NoOp => "{\"type\":\"noop\"}"@,
            ActionA::Marker { content } => "{\"type\":\"marker\",\"content\":\""@ + escape(
                content@,
            ) + "\"}"@,
            ActionA::UpdateVersion { version } => "{\"type\":\"updateversion\",\"version\":"@
                + dec_digits(version as nat) + "}"@,
            ActionA::AttemptSeekEncounter => "{\"type\":\"attemptseekencounter\"}"@,
            ActionA::AttemptLearnSpell { spell } => match spell {
                Spell::FireBall => "{\"type\":\"attemptlearnspell\",\"spell\":\"FireBall\"}"@,
                Spell::IceDagger => "{\"type\":\"attemptlearnspell\",\"spell\":\"IceDagger\"}"@,
            },
            ActionA::CastSpell { spell } => match spell {
                Spell::FireBall => "{\"type\":\"castspell\",\"spell\":\"FireBall\"}"@,
                Spell::IceDagger => "{\"type\":\"castspell\",\"spell\":\"IceDagger\"}"@,
            },
        }
    }

    open spec fn text_valid(t: Seq<char>) -> bool {
        ||| t == "{\"type\":\"noop\"}"@
        ||| t == "{\"type\":\"attemptseekencounter\"}"@
        ||| t == "{\"type\":\"attemptlearnspell\",\"spell\":\"FireBall\"}"@
        ||| t == "{\"type\":\"attemptlearnspell\",\"spell\":\"IceDagger\"}"@
        ||| t == "{\"type\":\"castspell\",\"spell\":\"FireBall\"}"@
        ||| t == "{\"type\":\"castspell\",\"spell\":\"IceDagger\"}"@
        ||| (match_at(t, 0, "{\"type\":\"marker\",\"content\":\""@) && match parse_string_body(
            t.skip(28),
        ) {
            Some(p) => p.1 == "}"@,
            None => false,
        })
        ||| (match_at(t, 0, "{\"type\":\"updateversion\",\"version\":"@) && t.len() >= 36
            && t.last() == '}' && is_canonical_dec(t.subrange(34, t.len() - 1)) && dec_val(
            t.subrange(34, t.len() - 1),
        ) <= usize::MAX)
    }

    open spec fn bit_cost_spec(a: ActionA, s: StateA) -> int {
        match a {
            ActionA::UpdateVersion { .. } => 1,
            ActionA::AttemptSeekEncounter => 5,
            ActionA::CastSpell { .. } => 8,
            _ => 5,
        }
    }

    open spec fn applicable_spec(a: ActionA, history: Seq<Message<ActionA>>, s: StateA) -> bool {
        match a {
            ActionA::UpdateVersion { version } => s.version < version,
            _ => true,
        }
    }

    open spec fn apply_spec(
        a: ActionA,
        history: Seq<Message<ActionA>>,
        key: Seq<char>,
        s: StateA,
    ) -> Option<StateA> {
        match a {
            ActionA::UpdateVersion { version } => if s.version > version {
                None
            } else {
                Some(StateA { version, hp: s.hp })
            },
            _ => Some(s),
        }
    }

    open spec fn default_spec() -> ActionA {
        ActionA::NoOp
    }

    fn to_text(&self) -> (r: String)
        ensures
            r@ == <ActionA as Action>::text_of(*self),
    {
        match self {
            ActionA::NoOp => {
                let mut out: Vec<char> = Vec::new();
                push_str_chars(&mut out, "{\"type\":\"noop\"}");
                proof {
                    assert(out@ =~= <ActionA as Action>::text_of(*self));
                }
                string_of(&out)
            },
            ActionA::Marker { content } => {
                let mut out: Vec<char> = Vec::new();
                push_str_chars(&mut out, "{\"type\":\"marker\",\"content\":\"");
                let content_chars = chars_of(content.as_str());
                escape_into(&mut out, &content_chars);
                push_str_chars(&mut out, "\"}");
                proof {
                    assert(out@ =~= <ActionA as Action>::text_of(*self));
                }
                string_of(&out)
            },
            ActionA::UpdateVersion { version } => {
                let mut out: Vec<char> = Vec::new();
                push_str_chars(&mut out, "{\"type\":\"updateversion\",\"version\":");
                let mut digits = format_usize(*version);
                out.append(&mut digits);
                push_str_chars(&mut out, "}");
                proof {
                    assert(out@ =~= <ActionA as Action>::text_of(*self));
                }
                string_of(&out)
            },
            ActionA::AttemptSeekEncounter => {
                let mut out: Vec<char> = Vec::new();
                push_str_chars(&mut out, "{\"type\":\"attemptseekencounter\"}");
                proof {
                    assert(out@ =~= <ActionA as Action>::text_of(*self));
                }
                string_of(&out)
            },
            ActionA::AttemptLearnSpell { spell } => {
                let mut out: Vec<char> = Vec::new();
                match spell {
                    Spell::FireBall => push_str_chars(
                        &mut out,
                        "{\"type\":\"attemptlearnspell\",\"spell\":\"FireBall\"}",
                    ),
                    Spell::IceDagger => push_str_chars(
                        &mut out,
                        "{\"type\":\"attemptlearnspell\",\"spell\":\"IceDagger\"}",
                    ),
                }
                proof {
                    assert(out@ =~= <ActionA as Action>::text_of(*self));
                }
                string_of(&out)
            },
            ActionA::CastSpell { spell } => {
                let mut out: Vec<char> = Vec::new();
                match spell {
                    Spell::FireBall => push_str_chars(
                        &mut out,
                        "{\"type\":\"castspell\",\"spell\":\"FireBall\"}",
                    ),
                    Spell::IceDagger => push_str_chars(
                        &mut out,
                        "{\"type\":\"castspell\",\"spell\":\"IceDagger\"}",
                    ),
                }
                proof {
                    assert(out@ =~= <ActionA as Action>::text_of(*self));
                }
                string_of(&out)
            },
        }
    }

    fn of_text(t: &str) -> (r: Option<ActionA>)
        ensures
            r is Some <==> <ActionA as Action>::text_valid(t@),
            r is Some ==> <ActionA as Action>::text_of(r.unwrap()) == t@,
    {
        let v = chars_of(t);
        if eq_lit(&v, "{\"type\":\"noop\"}") {
            return Some(ActionA::NoOp);
        }
        if eq_lit(&v, "{\"type\":\"attemptseekencounter\"}") {
            return Some(ActionA::AttemptSeekEncounter);
        }
        if eq_lit(&v, "{\"type\":\"attemptlearnspell\",\"spell\":\"FireBall\"}") {
            return Some(ActionA::AttemptLearnSpell { spell: Spell::FireBall });
        }
        if eq_lit(&v, "{\"type\":\"attemptlearnspell\",\"spell\":\"IceDagger\"}") {
            return Some(ActionA::AttemptLearnSpell { spell: Spell::IceDagger });
        }
        if eq_lit(&v, "{\"type\":\"castspell\",\"spell\":\"FireBall\"}") {
            return Some(ActionA::CastSpell { spell: Spell::FireBall });
        }
        if eq_lit(&v, "{\"type\":\"castspell\",\"spell\":\"IceDagger\"}") {
            return Some(ActionA::CastSpell { spell: Spell::IceDagger });
        }
        if match_lit(&v, 0, "{\"type\":\"marker\",\"content\":\"") {
            proof {
                reveal_strlit("{\"type\":\"marker\",\"content\":\"");
                reveal_strlit("{\"type\":\"updateversion\",\"version\":");
                assert(v@.subrange(0, 28) == "{\"type\":\"marker\",\"content\":\""@);
                assert(v@[9] == 'm') by {
                    assert(v@.subrange(0, 28)[9] == v@[9]);
                }
                assert(!match_at(v@, 0, "{\"type\":\"updateversion\",\"version\":"@)) by {
                    if match_at(v@, 0, "{\"type\":\"updateversion\",\"version\":"@) {
                        assert(v@.subrange(0, 34)[9] == v@[9]);
                    }
                }
            }
            match parse_string_body_exec(&v, 28) {
                None => {
                    return None;
                },
                Some((content_chars, j)) => {
                    if j == v.len() - 1 && v.len() >= 29 && v[j] == '}' {
                        proof {
                            assert(v@.skip(j as int) =~= "}"@) by {
                                reveal_strlit("}");
                            }
                        }
                        let content = string_of(&content_chars);
                        let a = ActionA::Marker { content };
                        proof {
                            crate::json::lemma_parse_canonical(v@.skip(28));
                            assert(v@ =~= v@.subrange(0, 28) + v@.skip(28));
                            assert(v@.subrange(0, 28) =~= "{\"type\":\"marker\",\"content\":\""@);
                            assert("\"}"@ =~= seq!['"'] + "}"@) by {
                                reveal_strlit("\"}");
                                reveal_strlit("}");
                            }
                            assert(<ActionA as Action>::text_of(a) =~= v@);
                        }
                        return Some(a);
                    } else {
                        proof {
                            assert(parse_string_body(v@.skip(28)).unwrap().1 == v@.skip(
                                j as int,
                            ));
                            assert(v@.skip(j as int) != "}"@) by {
                                reveal_strlit("}");
                                if v@.skip(j as int) == "}"@ {
                                    assert(v@.skip(j as int).len() == 1);
                                    assert(v@.skip(j as int)[0] == v@[j as int]);
                                }
                            }
                        }
                        return None;
                    }
                },
            }
        }
        if match_lit(&v, 0, "{\"type\":\"updateversion\",\"version\":") {
            proof {
                reveal_strlit("{\"type\":\"marker\",\"content\":\"");
                reveal_strlit("{\"type\":\"updateversion\",\"version\":");
                assert(v@.subrange(0, 34) == "{\"type\":\"updateversion\",\"version\":"@);
                assert(v@[9] == 'u') by {
                    assert(v@.subrange(0, 34)[9] == v@[9]);
                }
                assert(!match_at(v@, 0, "{\"type\":\"marker\",\"content\":\""@)) by {
                    if match_at(v@, 0, "{\"type\":\"marker\",\"content\":\""@) {
                        assert(v@.subrange(0, 28)[9] == v@[9]);
                    }
                }
            }
            let n = v.len();
            if n < 36 {
                return None;
            }
            if v[n - 1] != '}' {
                proof {
                    assert(v@.last() == v@[n - 1]);
                }
                return None;
            }
            proof {
                assert(v@.last() == v@[n - 1]);
            }
            match parse_usize(&v, 34, n - 1) {
                None => {
                    return None;
                },
                Some(version) => {
                    let a = ActionA::UpdateVersion { version };
                    proof {
                        lemma_dec_canonical_complete(v@.subrange(34, n - 1));
                        assert(v@ =~= v@.subrange(0, 34) + v@.subrange(34, n - 1) + seq![
                            v@[n - 1],
                        ]);
                        assert(v@.subrange(0, 34) =~= "{\"type\":\"updateversion\",\"version\":"@);
                        assert("}"@ =~= seq![v@[n - 1]]) by {
                            reveal_strlit("}");
                        }
                        assert(<ActionA as Action>::text_of(a) =~= v@);
                    }
                    return Some(a);
                },
            }
        }
        None
    }

    fn bit_cost(&self, _state: &StateA) -> (r: usize)
        ensures
            r as int == <ActionA as Action>::bit_cost_spec(*self, *_state),
    {
        match self {
            ActionA::UpdateVersion { .. } => 1,
            ActionA::AttemptSeekEncounter => 5,
            ActionA::CastSpell { .. } => 8,
            _ => 5,
        }
    }

    fn applicable(&self, _ledger: &Ledger<'_, ActionA>, state: &StateA) -> (r: bool)
        ensures
            r == <ActionA as Action>::applicable_spec(*self, _ledger@, *state),
    {
        match self {
            ActionA::UpdateVersion { version } => state.version() < *version,
            _ => true,
        }
    }

    fn apply(&self, _ledger: &PendingLedger<'_, ActionA>, state: StateA) -> (r: Result<
        StateA,
        Error<ActionA>,
    >)
        ensures
            r is Ok <==> <ActionA as Action>::apply_spec(
                *self,
                _ledger.messages_view(),
                _ledger.key_view(),
                state,
            ) is Some,
            r is Ok ==> r->Ok_0 == <ActionA as Action>::apply_spec(
                *self,
                _ledger.messages_view(),
                _ledger.key_view(),
                state,
            ).unwrap(),
    {
        match self {
            ActionA::UpdateVersion { version } => state.update_version(*version),
            _ => Ok(state),
        }
    }

    fn default_action() -> (r: ActionA)
        ensures
            r == <ActionA as Action>::default_spec(),
    {
        ActionA::NoOp
    }

    fn dup(&self) -> (r: ActionA)
        ensures
            r == *self,
    {
        match self {
            ActionA::NoOp => ActionA::NoOp,
            ActionA::Marker { content } => ActionA::Marker { content: content.clone() },
            ActionA::UpdateVersion { version } => ActionA::UpdateVersion { version: *version },
            ActionA::AttemptSeekEncounter => ActionA::AttemptSeekEncounter,
            ActionA::AttemptLearnSpell { spell } => ActionA::AttemptLearnSpell { spell: *spell },
            ActionA::CastSpell { spell } => ActionA::CastSpell { spell: *spell },
        }
    }

    proof fn lemma_text_no_newline(a: ActionA)
        ensures
            forall|i: int|
                0 <= i < <ActionA as Action>::text_of(a).len() ==> #[trigger] <ActionA as Action>::text_of(
                    a,
                )[i] != '\n',
    {
        let t = <ActionA as Action>::text_of(a);
        match a {
            ActionA::Marker { content } => {
                let pre = "{\"type\":\"marker\",\"content\":\""@;
                let esc = escape(content@);
                reveal_strlit("{\"type\":\"marker\",\"content\":\"");
                reveal_strlit("\"}");
                crate::json::lemma_escape_no_newline(content@);
                assert forall|i: int| 0 <= i < t.len() implies #[trigger] t[i] != '\n' by {
                    assert(t == pre + esc + "\"}"@);
                    if i < pre.len() {
                        assert(t[i] == pre[i]);
                    } else if i < pre.len() + esc.len() {
                        assert(t[i] == esc[i - pre.len()]);
                    } else {
                        assert(t[i] == "\"}"@[i - pre.len() - esc.len()]);
                    }
                }
            },
            ActionA::UpdateVersion { version } => {
                let pre = "{\"type\":\"updateversion\",\"version\":"@;
                let digits = dec_digits(version as nat);
                reveal_strlit("{\"type\":\"updateversion\",\"version\":");
                reveal_strlit("}");
                lemma_dec_round_trip(version as nat);
                assert forall|i: int| 0 <= i < t.len() implies #[trigger] t[i] != '\n' by {
                    assert(t == pre + digits + "}"@);
                    if i < pre.len() {
                        assert(t[i] == pre[i]);
                    } else if i < pre.len() + digits.len() {
                        assert(t[i] == digits[i - pre.len()]);
                        assert(crate::text::is_dec_digit(digits[i - pre.len()]));
                    } else {
                        assert(t[i] == "}"@[i - pre.len() - digits.len()]);
                    }
                }
            },
            ActionA::NoOp => {
                reveal_strlit("{\"type\":\"noop\"}");
            },
            ActionA::AttemptSeekEncounter => {
                reveal_strlit("{\"type\":\"attemptseekencounter\"}");
            },
            ActionA::AttemptLearnSpell { spell } => {
                reveal_strlit("{\"type\":\"attemptlearnspell\",\"spell\":\"FireBall\"}");
                reveal_strlit("{\"type\":\"attemptlearnspell\",\"spell\":\"IceDagger\"}");
            },
            ActionA::CastSpell { spell } => {
                reveal_strlit("{\"type\":\"castspell\",\"spell\":\"FireBall\"}");
                reveal_strlit("{\"type\":\"castspell\",\"spell\":\"IceDagger\"}");
            },
        }
    }

    proof fn lemma_text_round_trip(a: ActionA)
        ensures
            <ActionA as Action>::text_valid(<ActionA as Action>::text_of(a)),
    {
        match a {
            ActionA::Marker { content } => {
                let t = <ActionA as Action>::text_of(a);
                let pre = "{\"type\":\"marker\",\"content\":\""@;
                reveal_strlit("{\"type\":\"marker\",\"content\":\"");
                reveal_strlit("\"}");
                reveal_strlit("}");
                assert("\"}"@ =~= seq!['"'] + "}"@);
                assert(t =~= pre + escape(content@) + seq!['"'] + "}"@);
                assert(t.subrange(0, 28) =~= pre);
                assert(match_at(t, 0, pre));
                assert(t.skip(28) =~= escape(content@) + seq!['"'] + "}"@);
                crate::json::lemma_parse_escape_round_trip(content@, "}"@);
            },
            ActionA::UpdateVersion { version } => {
                let t = <ActionA as Action>::text_of(a);
                let pre = "{\"type\":\"updateversion\",\"version\":"@;
                reveal_strlit("{\"type\":\"updateversion\",\"version\":");
                reveal_strlit("}");
                lemma_dec_round_trip(version as nat);
                assert(t =~= pre + dec_digits(version as nat) + "}"@);
                assert(t.subrange(0, 34) =~= pre);
                assert(match_at(t, 0, pre));
                assert(t.len() >= 36);
                assert(t.last() == '}');
                assert(t.subrange(34, t.len() - 1) =~= dec_digits(version as nat));
            },
            _ => {},
        }
    }
}

impl ToActionUpdate<ActionA> for ActionA {
    /// A bare action gets the default report.
    fn to_action_update(self) -> (r: (ActionA, Update))
        ensures
            r.0 == self,
            r.1.successful == true,
            r.1.message@ == Seq::<char>::empty(),
    {
        (self, Update::default())
    }
}

} // verus!
