//! The pluggable Action/State contract: the interface a domain implements
//! to participate in the chain.

use vstd::prelude::*;
use crate::error::Error;
use crate::hex_string::HexString;
use crate::ledger::{Ledger, PendingLedger};
use crate::message::Message;

verus! {

/// A tag identifying which action/state schema a persisted file was
/// written against.
#[derive(Copy, Clone, Debug, PartialEq, Eq, Structural)]
pub enum Mode {
    A,
    B,
}

/// Represents a change in state.
///
/// An action must serialize to stable text (the text is both persisted
/// and hashed), parse back from that text, decide its proof-of-work bit
/// cost from the current state, and decide and perform its own
/// transition. All of that behaviour is pinned by the associated spec
/// functions, so the chain engine's contracts can speak about any
/// domain's actions.
pub trait Action: Sized {
    type State: State;

    /// The canonical serialized text of an action.
    spec fn text_of(a: Self) -> Seq<char>;

    /// The language of canonical action texts: exactly the texts the
    /// action parser accepts.
    spec fn text_valid(t: Seq<char>) -> bool;

    /// The number of trailing bits a candidate digest must match.
    spec fn bit_cost_spec(a: Self, s: Self::State) -> int;

    /// Whether the action is legal given the history and current state.
    spec fn applicable_spec(a: Self, history: Seq<Message<Self>>, s: Self::State) -> bool;

    /// The transition itself: the next state, or nothing if the action
    /// must be refused.
    spec fn apply_spec(
        a: Self,
        history: Seq<Message<Self>>,
        key: Seq<char>,
        s: Self::State,
    ) -> Option<Self::State>;

    /// The canonical default (no-op) action.
    spec fn default_spec() -> Self;

    /// Serialize the action to its canonical text.
    fn to_text(&self) -> (r: String)
        ensures
            r@ == Self::text_of(*self),
    ;

    /// Parse an action from text. Succeeds exactly on canonical texts,
    /// and the parsed action's own canonical text is the input: the
    /// text pins the action's observable identity.
    fn of_text(t: &str) -> (r: Option<Self>)
        ensures
            r is Some <==> Self::text_valid(t@),
            r is Some ==> Self::text_of(r.unwrap()) == t@,
    ;

    /// The required number of matching trailing bits for this action.
    fn bit_cost(&self, state: &Self::State) -> (r: usize)
        ensures
            r as int == Self::bit_cost_spec(*self, *state),
    ;

    /// Cheap pre-check that the action is legal for this history and state.
    fn applicable(&self, ledger: &Ledger<'_, Self>, state: &Self::State) -> (r: bool)
        ensures
            r == Self::applicable_spec(*self, ledger@, *state),
    ;

    /// Perform the transition. Succeeds exactly when the spec-level
    /// transition is defined, and then returns exactly that state.
    fn apply(&self, ledger: &PendingLedger<'_, Self>, state: Self::State) -> (r: Result<
        Self::State,
        Error<Self>,
    >)
        ensures
            r is Ok <==> Self::apply_spec(
                *self,
                ledger.messages_view(),
                ledger.key_view(),
                state,
            ) is Some,
            r is Ok ==> r->Ok_0 == Self::apply_spec(
                *self,
                ledger.messages_view(),
                ledger.key_view(),
                state,
            ).unwrap(),
    ;

    /// The canonical default action value.
    fn default_action() -> (r: Self)
        ensures
            r == Self::default_spec(),
    ;

    /// Duplicate an action value.
    fn dup(&self) -> (r: Self)
        ensures
            r == *self,
    ;

    /// Round trip: the canonical text of an action is accepted by the
    /// parser (and, by the parser's contract, parses back to an action
    /// with that very text).
    proof fn lemma_text_round_trip(a: Self)
        ensures
            Self::text_valid(Self::text_of(a)),
    ;

    /// An action's text never holds a raw newline, so every action
    /// stays on one line of the newline-delimited log.
    proof fn lemma_text_no_newline(a: Self)
        ensures
            forall|i: int|
                0 <= i < Self::text_of(a).len() ==> #[trigger] Self::text_of(a)[i] != '\n',
    ;
}

/// A serializable snapshot, reconstructed only by folding actions in
/// chain order starting from a canonical default.
pub trait State: Sized {
    /// The canonical default state.
    spec fn default_spec() -> Self;

    /// The canonical default state value.
    fn default_state() -> (r: Self)
        ensures
            r == Self::default_spec(),
    ;

    /// Duplicate a state value.
    fn dup(&self) -> (r: Self)
        ensures
            r == *self,
    ;

    /// Fold one header metadata line preceding the chain into the state.
    fn read_header_line(self, header_line: &str) -> Self;

    /// A hash identity for this history.
    fn root_hash(&self) -> HexString;

    /// The schema this state belongs to.
    fn mode() -> Mode;
}

} // verus!
