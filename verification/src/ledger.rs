//! Read-only ordered views over the committed chain history.

use vstd::prelude::*;
use crate::hex_string::HexString;
use crate::message::Message;

verus! {

/// An ordered, append-only view of committed chain links. Insertion
/// order is the canonical chain order: it is the replay order.
pub struct Ledger<'a, A> {
    messages: &'a [Message<A>],
}

impl<'a, A> View for Ledger<'a, A> {
    type V = Seq<Message<A>>;

    closed spec fn view(&self) -> Seq<Message<A>> {
        self.messages@
    }
}

impl<'a, A> Ledger<'a, A> {
    /// The empty history.
    pub fn new() -> (r: Self)
        ensures
            r@ == Seq::<Message<A>>::empty(),
    {
        let messages: &[Message<A>] = &[];
        proof {
            assert(messages@ =~= Seq::<Message<A>>::empty());
        }
        Ledger { messages }
    }

    /// A ledger over an existing slice of committed links.
    pub fn from_slice(messages: &'a [Message<A>]) -> (r: Self)
        ensures
            r@ == messages@,
    {
        Ledger { messages }
    }

    /// The committed links, in chain order.
    pub fn messages(&self) -> (r: &[Message<A>])
        ensures
            r@ == self@,
    {
        self.messages
    }

    /// Pair this history with a not-yet-committed candidate key, so an
    /// action's transition may reference the identity of the link it is
    /// about to become part of.
    pub fn with_hash(&self, next_hash: &'a HexString) -> (r: PendingLedger<'a, A>)
        ensures
            r.messages_view() == self@,
            r.key_view() == next_hash@,
    {
        PendingLedger { messages: self.messages, next_hash }
    }
}

impl<'a, A> Clone for Ledger<'a, A> {
    /// A clone views the same history.
    fn clone(&self) -> (r: Self)
        ensures
            r@ == self@,
    {
        Ledger { messages: self.messages }
    }
}

impl<'a, A> Default for Ledger<'a, A> {
    /// The default ledger is empty.
    fn default() -> (r: Self)
        ensures
            r@ == Seq::<Message<A>>::empty(),
    {
        Ledger::new()
    }
}

/// A ledger plus one additional, not-yet-committed candidate key, used
/// during action application.
pub struct PendingLedger<'a, A> {
    messages: &'a [Message<A>],
    next_hash: &'a HexString,
}

impl<'a, A> PendingLedger<'a, A> {
    /// The committed history this pending ledger extends.
    pub closed spec fn messages_view(&self) -> Seq<Message<A>> {
        self.messages@
    }

    /// The candidate key's hex text.
    pub closed spec fn key_view(&self) -> Seq<char> {
        self.next_hash@
    }

    /// The committed links, in chain order.
    pub fn messages(&self) -> (r: &[Message<A>])
        ensures
            r@ == self.messages_view(),
    {
        self.messages
    }

    /// The not-yet-committed candidate key.
    pub fn next_hash(&self) -> (r: &HexString)
        ensures
            r@ == self.key_view(),
    {
        self.next_hash
    }
}

} // verus!
