//! The aggregate: the full message history plus the replayed current
//! state and a "saved" watermark for incremental persistence.

use vstd::prelude::*;
use crate::error::Error;
use crate::hex_string::is_hex_seq;
use crate::ledger::Ledger;
use crate::message::{Message, line_valid, message_text, parse_message};
use crate::text::{chars_of, split_lines, split_lines_exec, string_of};
use crate::traits::{Action, State};

verus! {

/// The state reached by folding the first `i` messages from the
/// canonical default state: each message must be applicable against the
/// history before it and its transition must succeed, else the replay
/// is undefined from that point on.
pub open spec fn replay_state<A: Action>(msgs: Seq<Message<A>>, i: int) -> Option<A::State>
    decreases i,
{
    if i <= 0 {
        Some(<A::State as State>::default_spec())
    } else {
        match replay_state(msgs, i - 1) {
            None => None,
            Some(s) => if A::applicable_spec(msgs[i - 1].action, msgs.take(i - 1), s) {
                A::apply_spec(msgs[i - 1].action, msgs.take(i - 1), msgs[i - 1].key@, s)
            } else {
                None
            },
        }
    }
}

/// Replay reads only the first `i` messages: histories that agree there
/// replay alike.
pub proof fn lemma_replay_prefix<A: Action>(m1: Seq<Message<A>>, m2: Seq<Message<A>>, i: int)
    requires
        i <= m1.len(),
        i <= m2.len(),
        forall|j: int| 0 <= j < i ==> m1[j] == m2[j],
    ensures
        replay_state(m1, i) == replay_state(m2, i),
    decreases i,
{
    if i > 0 {
        lemma_replay_prefix(m1, m2, i - 1);
        assert(m1.take(i - 1) =~= m2.take(i - 1));
    }
}

/// A replay once undefined stays undefined.
pub proof fn lemma_replay_none_sticks<A: Action>(msgs: Seq<Message<A>>, i: int, j: int)
    requires
        0 <= i <= j,
        replay_state(msgs, i) is None,
    ensures
        replay_state(msgs, j) is None,
    decreases j - i,
{
    if i < j {
        lemma_replay_none_sticks(msgs, i, j - 1);
    }
}

/// The pending lines of a history from the watermark on: one persisted
/// line and a newline per message.
pub open spec fn lines_text<A: Action>(msgs: Seq<Message<A>>, from: int) -> Seq<char>
    decreases msgs.len() - from,
{
    if from < 0 || from >= msgs.len() {
        Seq::empty()
    } else {
        message_text(msgs[from]) + seq!['\n'] + lines_text(msgs, from + 1)
    }
}

/// After a flush nothing is pending: the watermark at the end of the
/// history leaves no line to write.
pub proof fn lemma_no_pending_after_flush<A: Action>(msgs: Seq<Message<A>>)
    ensures
        lines_text(msgs, msgs.len() as int) == Seq::<char>::empty(),
{
}

/// Appending one message after a flush makes exactly one line pending.
pub proof fn lemma_one_pending_after_append<A: Action>(msgs: Seq<Message<A>>, m: Message<A>)
    ensures
        lines_text(msgs.push(m), msgs.len() as int) == message_text(m) + seq!['\n'],
{
    let p = msgs.push(m);
    assert(lines_text(p, msgs.len() as int + 1) =~= Seq::<char>::empty());
    assert(message_text(m) + seq!['\n'] + Seq::<char>::empty() =~= message_text(m) + seq![
        '\n',
    ]);
}

/// What is written is what will be read back: splitting the flushed
/// text of a history into lines yields exactly one well-formed line per
/// message, each the very line of its message. Together with the
/// contract of [`Book::from_read`], re-reading a flushed log
/// reconstructs a history with the same lines.
pub proof fn lemma_written_lines_valid<A: Action>(msgs: Seq<Message<A>>)
    requires
        forall|i: int| 0 <= i < msgs.len() ==> is_hex_seq(#[trigger] msgs[i].key@),
    ensures
        split_lines(lines_text(msgs, 0)).len() == msgs.len(),
        forall|i: int|
            0 <= i < msgs.len() ==> line_valid::<A>(#[trigger] split_lines(lines_text(msgs, 0))[i])
                && split_lines(lines_text(msgs, 0))[i] == message_text(msgs[i]),
{
    lemma_split_written(msgs, 0);
}

proof fn lemma_split_written<A: Action>(msgs: Seq<Message<A>>, from: int)
    requires
        0 <= from <= msgs.len(),
        forall|i: int| 0 <= i < msgs.len() ==> is_hex_seq(#[trigger] msgs[i].key@),
    ensures
        split_lines(lines_text(msgs, from)).len() == msgs.len() - from,
        forall|k: int|
            0 <= k < msgs.len() - from ==> line_valid::<A>(
                #[trigger] split_lines(lines_text(msgs, from))[k],
            ) && split_lines(lines_text(msgs, from))[k] == message_text(msgs[from + k]),
    decreases msgs.len() - from,
{
    if from < msgs.len() {
        let mt = message_text(msgs[from]);
        let t = lines_text(msgs, from);
        let rest = lines_text(msgs, from + 1);
        crate::message::lemma_message_text_line(msgs[from]);
        crate::message::lemma_message_round_trip(msgs[from]);
        lemma_split_written(msgs, from + 1);
        assert(t =~= mt + seq!['\n'] + rest);
        assert forall|j: int| 0 <= j < mt.len() implies t[j] != '\n' by {
            assert(t[j] == mt[j]);
        }
        assert(t[mt.len() as int] == '\n');
        crate::text::lemma_first_newline_at(t, mt.len() as int);
        assert(t.subrange(0, mt.len() as int) =~= mt);
        assert(crate::text::strip_cr(mt) == mt) by {
            assert(mt.last() == '}');
        }
        assert(t.skip(mt.len() as int + 1) =~= rest);
        assert(split_lines(t) =~= seq![mt] + split_lines(rest));
        assert forall|k: int| 0 <= k < msgs.len() - from implies line_valid::<A>(
            #[trigger] split_lines(t)[k],
        ) && split_lines(t)[k] == message_text(msgs[from + k]) by {
            if k == 0 {
                assert(split_lines(t)[0] == mt);
            } else {
                assert(split_lines(t)[k] == split_lines(rest)[k - 1]);
            }
        }
    }
}

/// The in-memory owner of the full chain, the state replayed from it,
/// and the watermark distinguishing the already-persisted prefix from
/// the in-memory-only suffix.
pub struct Book<A: Action> {
    saved_lines: usize,
    messages: Vec<Message<A>>,
    state: A::State,
}

impl<A: Action> Book<A> {
    /// The committed history, in chain order.
    pub closed spec fn messages_view(&self) -> Seq<Message<A>> {
        self.messages@
    }

    /// The replayed current state.
    pub closed spec fn state_view(&self) -> A::State {
        self.state
    }

    /// How many leading messages are already persisted.
    pub closed spec fn saved_view(&self) -> int {
        self.saved_lines as int
    }

    /// The aggregate's invariant: the state is the replay of the whole
    /// history, and the watermark never passes the end.
    #[verifier::type_invariant]
    closed spec fn consistent(self) -> bool {
        &&& self.saved_lines <= self.messages@.len()
        &&& replay_state(self.messages@, self.messages@.len() as int) == Some(self.state)
    }

    /// A read-only ledger over the committed history.
    pub fn ledger(&self) -> (r: Ledger<'_, A>)
        ensures
            r@ == self.messages_view(),
    {
        Ledger::from_slice(self.messages.as_slice())
    }

    /// The replayed current state. Every reachable aggregate is
    /// consistent: the state it hands out is exactly the replay of its
    /// history, and the watermark never passes the end.
    pub fn state(&self) -> (r: &A::State)
        ensures
            *r == self.state_view(),
            replay_state(self.messages_view(), self.messages_view().len() as int) == Some(
                self.state_view(),
            ),
            0 <= self.saved_view() <= self.messages_view().len(),
    {
        proof {
            use_type_invariant(self);
        }
        &self.state
    }

    /// Give up the aggregate, handing out its history and state.
    pub fn into_parts(self) -> (r: (Vec<Message<A>>, A::State))
        ensures
            r.0@ == self.messages_view(),
            r.1 == self.state_view(),
            replay_state(r.0@, r.0@.len() as int) == Some(r.1),
    {
        proof {
            use_type_invariant(&self);
        }
        let Book { messages, state, .. } = self;
        (messages, state)
    }

    /// Replay one serialized chain link per line into an aggregate.
    ///
    /// Parsing stops at the first malformed line, reported by its
    /// 1-based number; a link that is inapplicable against the history
    /// before it, or whose transition fails, aborts the replay.
    pub fn from_read(text: &str) -> (r: Result<Book<A>, Error<A>>)
        ensures
            match r {
                Ok(book) => {
                    let lines = split_lines(text@);
                    &&& book.messages_view().len() == lines.len()
                    &&& forall|i: int|
                        0 <= i < lines.len() ==> line_valid::<A>(#[trigger] lines[i])
                            && message_text(book.messages_view()[i]) == lines[i]
                    &&& book.saved_view() == lines.len()
                    &&& replay_state(book.messages_view(), lines.len() as int) == Some(
                        book.state_view(),
                    )
                },
                Err(Error::SerdeError(k)) => {
                    let lines = split_lines(text@);
                    &&& 1 <= k <= lines.len()
                    &&& !line_valid::<A>(lines[k - 1])
                    &&& forall|j: int| 0 <= j < k - 1 ==> line_valid::<A>(#[trigger] lines[j])
                },
                Err(Error::BadAction) => {
                    let lines = split_lines(text@);
                    &&& forall|i: int| 0 <= i < lines.len() ==> line_valid::<A>(#[trigger] lines[i])
                    &&& exists|msgs: Seq<Message<A>>|
                        msgs.len() == lines.len() && (forall|i: int|
                            0 <= i < lines.len() ==> message_text(#[trigger] msgs[i]) == lines[i])
                            && replay_state(msgs, msgs.len() as int) is None
                },
                _ => false,
            },
    {
        let chars = chars_of(text);
        let line_vecs = split_lines_exec(&chars);
        let ghost lines = split_lines(text@);
        let mut messages: Vec<Message<A>> = Vec::new();
        let n = line_vecs.len();
        let mut i: usize = 0;
        while i < n
            invariant
                i <= n,
                n == lines.len(),
                lines == split_lines(text@),
                line_vecs.deep_view() == lines,
                messages@.len() == i,
                forall|j: int|
                    0 <= j < i ==> line_valid::<A>(#[trigger] lines[j]) && message_text(
                        messages@[j],
                    ) == lines[j],
            decreases n - i,
        {
            proof {
                assert(line_vecs.deep_view()[i as int] == line_vecs@[i as int].deep_view());
                assert(line_vecs@[i as int].deep_view() =~= line_vecs@[i as int]@);
            }
            match parse_message::<A>(&line_vecs[i]) {
                Some(m) => {
                    let ghost m_snap = m;
                    messages.push(m);
                    proof {
                        assert(messages@[i as int] == m_snap);
                    }
                },
                None => {
                    return Err(Error::SerdeError(i + 1));
                },
            }
            i += 1;
        }
        let mut state = <A::State as State>::default_state();
        let mut k: usize = 0;
        while k < n
            invariant
                k <= n,
                n == messages@.len(),
                n == lines.len(),
                lines == split_lines(text@),
                forall|j: int|
                    0 <= j < n ==> line_valid::<A>(#[trigger] lines[j]) && message_text(
                        messages@[j],
                    ) == lines[j],
                replay_state(messages@, k as int) == Some(state),
            decreases n - k,
        {
            let ledger_slice = messages.as_slice().split_at(k).0;
            proof {
                assert(ledger_slice@ =~= messages@.take(k as int));
            }
            let ledger = Ledger::from_slice(ledger_slice);
            let applicable = messages[k].action.applicable(&ledger, &state);
            if !applicable {
                proof {
                    assert(replay_state(messages@, k + 1) is None);
                    lemma_replay_none_sticks(messages@, k + 1, n as int);
                    assert(exists|msgs: Seq<Message<A>>|
                        msgs.len() == lines.len() && (forall|q: int|
                            0 <= q < lines.len() ==> message_text(#[trigger] msgs[q]) == lines[q])
                            && replay_state(msgs, msgs.len() as int) is None) by {
                        assert(messages@.len() == lines.len() && (forall|q: int|
                            0 <= q < lines.len() ==> message_text(#[trigger] messages@[q])
                                == lines[q]) && replay_state(messages@, messages@.len() as int)
                            is None);
                    }
                }
                return Err(Error::BadAction);
            }
            let pending = ledger.with_hash(&messages[k].key);
            match messages[k].action.apply(&pending, state) {
                Ok(s2) => {
                    state = s2;
                },
                Err(_) => {
                    proof {
                        assert(replay_state(messages@, k + 1) is None);
                        lemma_replay_none_sticks(messages@, k + 1, n as int);
                        assert(exists|msgs: Seq<Message<A>>|
                            msgs.len() == lines.len() && (forall|q: int|
                                0 <= q < lines.len() ==> message_text(#[trigger] msgs[q])
                                    == lines[q]) && replay_state(msgs, msgs.len() as int)
                                is None) by {
                            assert(messages@.len() == lines.len() && (forall|q: int|
                                0 <= q < lines.len() ==> message_text(#[trigger] messages@[q])
                                    == lines[q]) && replay_state(
                                messages@,
                                messages@.len() as int,
                            ) is None);
                        }
                    }
                    return Err(Error::BadAction);
                },
            }
            k += 1;
        }
        let book = Book { saved_lines: n, messages, state };
        Ok(book)
    }

    /// Append one validated link: apply it against the current state
    /// and history, and commit the new state only if the transition
    /// succeeds. On failure nothing changes.
    pub fn apply_message(&mut self, msg: Message<A>) -> (r: Result<(), Error<A>>)
        ensures
            r is Ok <==> A::applicable_spec(
                msg.action,
                old(self).messages_view(),
                old(self).state_view(),
            ) && A::apply_spec(
                msg.action,
                old(self).messages_view(),
                msg.key@,
                old(self).state_view(),
            ) is Some,
            r is Ok ==> final(self).messages_view() == old(self).messages_view().push(msg)
                && Some(final(self).state_view()) == A::apply_spec(
                msg.action,
                old(self).messages_view(),
                msg.key@,
                old(self).state_view(),
            ) && final(self).saved_view() == old(self).saved_view(),
            r is Err ==> r == Err::<(), Error<A>>(Error::BadAction) && *final(self) == *old(self),
    {
        proof {
            use_type_invariant(&*self);
        }
        let saved = self.saved_lines;
        let ledger = Ledger::from_slice(self.messages.as_slice());
        if !msg.action.applicable(&ledger, &self.state) {
            return Err(Error::BadAction);
        }
        let pending = ledger.with_hash(&msg.key);
        match msg.action.apply(&pending, self.state.dup()) {
            Ok(s2) => {
                proof {
                    let old_msgs = self.messages@;
                    lemma_replay_prefix(old_msgs.push(msg), old_msgs, old_msgs.len() as int);
                    assert(old_msgs.push(msg).take(old_msgs.len() as int) =~= old_msgs);
                }
                let mut tmp: Book<A> = Book::default();
                core::mem::swap(self, &mut tmp);
                let (mut msgs, _old_state) = tmp.into_parts();
                msgs.push(msg);
                let next = Book { saved_lines: saved, messages: msgs, state: s2 };
                let mut replaced = next;
                core::mem::swap(self, &mut replaced);
                Ok(())
            },
            Err(_) => Err(Error::BadAction),
        }
    }

    /// The serialized form of every message from the watermark on, one
    /// line each, without moving the watermark.
    pub fn write_pending_changes(&self) -> (r: String)
        ensures
            r@ == lines_text(self.messages_view(), self.saved_view()),
    {
        proof {
            use_type_invariant(self);
        }
        let n = self.messages.len();
        let mut out: Vec<char> = Vec::new();
        let mut i: usize = self.saved_lines;
        proof {
            assert(out@ + lines_text(self.messages@, i as int) =~= lines_text(
                self.messages@,
                i as int,
            ));
        }
        while i < n
            invariant
                i <= n,
                n == self.messages@.len(),
                out@ + lines_text(self.messages@, i as int) == lines_text(
                    self.messages@,
                    self.saved_lines as int,
                ),
            decreases n - i,
        {
            let line = self.messages[i].to_string();
            let line_chars = chars_of(line.as_str());
            let ghost out0 = out@;
            let mut j: usize = 0;
            let m = line_chars.len();
            while j < m
                invariant
                    j <= m,
                    m == line_chars@.len(),
                    out@ == out0 + line_chars@.subrange(0, j as int),
                decreases m - j,
            {
                out.push(line_chars[j]);
                proof {
                    assert(out@ =~= out0 + line_chars@.subrange(0, j + 1));
                }
                j += 1;
            }
            out.push('\n');
            proof {
                assert(line_chars@.subrange(0, m as int) =~= message_text(
                    self.messages@[i as int],
                ));
                assert(out@ =~= out0 + message_text(self.messages@[i as int]) + seq!['\n']);
                assert(out@ + lines_text(self.messages@, i + 1) =~= out0 + lines_text(
                    self.messages@,
                    i as int,
                ));
            }
            i += 1;
        }
        proof {
            assert(lines_text(self.messages@, n as int) =~= Seq::<char>::empty());
            assert(out@ + Seq::<char>::empty() =~= out@);
        }
        string_of(&out)
    }

    /// Flush: emit every pending line and advance the watermark to the
    /// end of the history.
    pub fn write_changes(&mut self) -> (r: String)
        ensures
            r@ == lines_text(old(self).messages_view(), old(self).saved_view()),
            final(self).messages_view() == old(self).messages_view(),
            final(self).state_view() == old(self).state_view(),
            final(self).saved_view() == old(self).messages_view().len(),
    {
        proof {
            use_type_invariant(&*self);
        }
        let out = self.write_pending_changes();
        self.saved_lines = self.messages.len();
        out
    }
}

impl<A: Action> Default for Book<A> {
    /// The empty aggregate: no history, the canonical default state,
    /// nothing saved.
    fn default() -> (r: Book<A>)
        ensures
            r.messages_view() == Seq::<Message<A>>::empty(),
            r.state_view() == <A::State as State>::default_spec(),
            r.saved_view() == 0,
    {
        Book { saved_lines: 0, messages: Vec::new(), state: <A::State as State>::default_state() }
    }
}

impl<A: Action> Clone for Book<A> {
    /// A clone carries the same history, state and watermark.
    fn clone(&self) -> (r: Self)
        ensures
            r.messages_view() == self.messages_view(),
            r.state_view() == self.state_view(),
            r.saved_view() == self.saved_view(),
    {
        proof {
            use_type_invariant(self);
        }
        let mut messages: Vec<Message<A>> = Vec::new();
        let n = self.messages.len();
        let mut i: usize = 0;
        while i < n
            invariant
                i <= n,
                n == self.messages@.len(),
                messages@ == self.messages@.take(i as int),
            decreases n - i,
        {
            messages.push(self.messages[i].clone());
            proof {
                assert(messages@ =~= self.messages@.take(i + 1));
            }
            i += 1;
        }
        proof {
            assert(messages@ =~= self.messages@);
        }
        Book { saved_lines: self.saved_lines, messages, state: self.state.dup() }
    }
}

} // verus!
