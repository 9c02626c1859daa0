//! Full-chain validation and state reconstruction.

use vstd::prelude::*;
use crate::book::Book;
use crate::error::Error;
use crate::hex_string::default_key_text;
use crate::ledger::Ledger;
use crate::message::{Message, line_valid, link_accepts, message_text, parse_message};
use crate::text::{chars_of, split_lines, split_lines_exec};
use crate::traits::{Action, State};

verus! {

/// The key a link at position `i` must chain from: its predecessor's,
/// or the canonical default key at the start of the log.
pub open spec fn prev_key_text<A: Action>(msgs: Seq<Message<A>>, i: int) -> Seq<char> {
    if i <= 0 {
        default_key_text()
    } else {
        msgs[i - 1].key@
    }
}

/// The state reached by verifying and folding the first `i` links:
/// each link's digest must chain from its predecessor's key, and its
/// transition must succeed, else the fold is undefined from there on.
pub open spec fn chain_state<A: Action>(msgs: Seq<Message<A>>, i: int) -> Option<A::State>
    decreases i,
{
    if i <= 0 {
        Some(<A::State as State>::default_spec())
    } else {
        match chain_state(msgs, i - 1) {
            None => None,
            Some(s) => if !link_accepts(prev_key_text(msgs, i - 1), msgs[i - 1], s) {
                None
            } else {
                A::apply_spec(msgs[i - 1].action, msgs.take(i - 1), msgs[i - 1].key@, s)
            },
        }
    }
}

/// How verifying the first `i` links of a chain ends: all good, or the
/// first bad link, or the first link whose transition failed.
pub enum ChainVerdict {
    AllGood,
    BadLink(int),
    BadApply(int),
}

/// The verdict on the first `i` links of a chain.
pub open spec fn chain_verdict<A: Action>(msgs: Seq<Message<A>>, i: int) -> ChainVerdict
    decreases i,
{
    if i <= 0 {
        ChainVerdict::AllGood
    } else {
        match chain_verdict::<A>(msgs, i - 1) {
            ChainVerdict::AllGood => match chain_state(msgs, i - 1) {
                None => ChainVerdict::AllGood,
                Some(s) => if !link_accepts(prev_key_text(msgs, i - 1), msgs[i - 1], s) {
                    ChainVerdict::BadLink(i - 1)
                } else if A::apply_spec(
                    msgs[i - 1].action,
                    msgs.take(i - 1),
                    msgs[i - 1].key@,
                    s,
                ) is None {
                    ChainVerdict::BadApply(i - 1)
                } else {
                    ChainVerdict::AllGood
                },
            },
            bad => bad,
        }
    }
}

/// The verdict is good exactly while the fold is defined.
pub proof fn lemma_verdict_good_iff_state<A: Action>(msgs: Seq<Message<A>>, i: int)
    ensures
        chain_verdict::<A>(msgs, i) == ChainVerdict::AllGood <==> chain_state::<A>(
            msgs,
            i,
        ) is Some,
    decreases i,
{
    if i > 0 {
        lemma_verdict_good_iff_state::<A>(msgs, i - 1);
    }
}

/// Verification of the first `i` links reads only those links:
/// appending one more changes neither the fold nor the verdict there.
pub proof fn lemma_chain_push<A: Action>(msgs: Seq<Message<A>>, m: Message<A>, i: int)
    requires
        0 <= i <= msgs.len(),
    ensures
        chain_state::<A>(msgs.push(m), i) == chain_state::<A>(msgs, i),
        chain_verdict::<A>(msgs.push(m), i) == chain_verdict::<A>(msgs, i),
    decreases i,
{
    if i > 0 {
        lemma_chain_push(msgs, m, i - 1);
        assert(msgs.push(m)[i - 1] == msgs[i - 1]);
        assert(msgs.push(m).take(i - 1) =~= msgs.take(i - 1));
        if i - 1 > 0 {
            assert(msgs.push(m)[i - 2] == msgs[i - 2]);
        }
    }
}

/// The first `k` lines each hold exactly the corresponding message.
pub open spec fn lines_match_prefix<A: Action>(
    msgs: Seq<Message<A>>,
    lines: Seq<Seq<char>>,
    k: int,
) -> bool {
    msgs.len() == k && 0 <= k <= lines.len() && forall|i: int|
        0 <= i < k ==> line_valid::<A>(#[trigger] lines[i]) && message_text(msgs[i]) == lines[i]
}

/// Checks whether a stored log is valid by re-deriving each link's hash
/// and checking it against the declared key, replaying state along the
/// way. Pure verification: exactly one hash computation per link, never
/// a search. Reports the first malformed line, the first bad link (with
/// both disputed links and its 1-based line number), or the first
/// failing transition.
pub fn validate<A: Action>(file_name: &str, text: &str) -> (r: Result<(), Error<A>>)
    ensures
        ({
            let lines = split_lines(text@);
            match r {
                Ok(()) => exists|msgs: Seq<Message<A>>|
                    #[trigger] lines_match_prefix::<A>(msgs, lines, lines.len() as int)
                        && chain_verdict::<A>(msgs, lines.len() as int)
                        == ChainVerdict::AllGood,
                Err(Error::SerdeError(k)) => 1 <= k <= lines.len() && !line_valid::<A>(
                    lines[k - 1],
                ) && exists|msgs: Seq<Message<A>>|
                    #[trigger] lines_match_prefix::<A>(msgs, lines, k - 1) && chain_verdict::<A>(
                        msgs,
                        k - 1,
                    ) == ChainVerdict::AllGood,
                Err(
                    Error::FailedValidation {
                        file_name: fname,
                        line_number,
                        last_message,
                        failed_message,
                    },
                ) => {
                    &&& fname@ == file_name@
                    &&& 1 <= line_number <= lines.len()
                    &&& message_text(failed_message) == lines[line_number - 1]
                    &&& line_number >= 2 ==> message_text(last_message) == lines[line_number - 2]
                    &&& line_number == 1 ==> last_message.key@ == default_key_text()
                        && last_message.action == A::default_spec()
                    &&& exists|msgs: Seq<Message<A>>|
                        #[trigger] lines_match_prefix::<A>(msgs, lines, line_number as int)
                            && chain_verdict::<A>(msgs, line_number as int)
                            == ChainVerdict::BadLink(line_number - 1) && msgs[line_number - 1]
                            == failed_message && (line_number >= 2 ==> msgs[line_number - 2]
                            == last_message)
                },
                Err(Error::BadAction) => exists|msgs: Seq<Message<A>>, k: int|
                    0 <= k < lines.len() && #[trigger] lines_match_prefix::<A>(msgs, lines, k + 1)
                        && chain_verdict::<A>(msgs, k + 1) == ChainVerdict::BadApply(k),
                _ => false,
            }
        }),
{
    let chars = chars_of(text);
    let line_vecs = split_lines_exec(&chars);
    let ghost lines = split_lines(text@);
    let n = line_vecs.len();
    let mut msgs: Vec<Message<A>> = Vec::new();
    let mut state = <A::State as State>::default_state();
    let mut last: Message<A> = Message::default();
    let mut i: usize = 0;
    while i < n
        invariant
            i <= n,
            n == lines.len(),
            lines == split_lines(text@),
            line_vecs.deep_view() == lines,
            msgs@.len() == i,
            lines_match_prefix::<A>(msgs@, lines, i as int),
            chain_verdict::<A>(msgs@, i as int) == ChainVerdict::AllGood,
            chain_state::<A>(msgs@, i as int) == Some(state),
            last.key@ == prev_key_text::<A>(msgs@, i as int),
            i == 0 ==> last.key@ == default_key_text() && last.action == A::default_spec(),
            i > 0 ==> last == msgs@[i - 1],
        decreases n - i,
    {
        proof {
            assert(line_vecs.deep_view()[i as int] == line_vecs@[i as int].deep_view());
            assert(line_vecs@[i as int].deep_view() =~= line_vecs@[i as int]@);
        }
        let next: Message<A> = match parse_message::<A>(&line_vecs[i]) {
            Some(m) => m,
            None => {
                return Err(Error::SerdeError(i + 1));
            },
        };
        let ghost pushed = msgs@.push(next);
        proof {
            lemma_chain_push(msgs@, next, i as int);
            assert(pushed[i as int] == next);
            assert(pushed.take(i as int) =~= msgs@);
            if i > 0 {
                assert(pushed[i - 1] == msgs@[i - 1]);
            }
            assert(prev_key_text::<A>(pushed, i as int) == last.key@);
        }
        if !last.accepts_next_message(&next, &state) {
            proof {
                assert(chain_verdict::<A>(pushed, i + 1) == ChainVerdict::BadLink(i as int));
                assert(lines_match_prefix::<A>(pushed, lines, i + 1));
            }
            let owned_name = String::from_str(file_name);
            return Err(
                Error::FailedValidation {
                    file_name: owned_name,
                    line_number: i + 1,
                    last_message: last,
                    failed_message: next,
                },
            );
        }
        let ledger = Ledger::from_slice(msgs.as_slice());
        let pending = ledger.with_hash(&next.key);
        match next.action.apply(&pending, state) {
            Ok(s2) => {
                state = s2;
            },
            Err(_) => {
                proof {
                    assert(chain_verdict::<A>(pushed, i + 1) == ChainVerdict::BadApply(i as int));
                    assert(lines_match_prefix::<A>(pushed, lines, i + 1));
                }
                return Err(Error::BadAction);
            },
        }
        msgs.push(next.clone());
        last = next;
        proof {
            assert(msgs@ == pushed);
            assert(chain_verdict::<A>(msgs@, i + 1) == ChainVerdict::AllGood);
            assert(chain_state::<A>(msgs@, i + 1) == Some(state));
        }
        i += 1;
    }
    proof {
        assert(lines_match_prefix::<A>(msgs@, lines, lines.len() as int));
    }
    Ok(())
}

/// Replay a stored log into its current state and full message history.
pub fn read_state<A: Action>(text: &str) -> (r: Result<(A::State, Vec<Message<A>>), Error<A>>)
    ensures
        match r {
            Ok((state, msgs)) => {
                let lines = split_lines(text@);
                &&& msgs@.len() == lines.len()
                &&& forall|i: int|
                    0 <= i < lines.len() ==> line_valid::<A>(#[trigger] lines[i]) && message_text(
                        msgs@[i],
                    ) == lines[i]
                &&& crate::book::replay_state(msgs@, msgs@.len() as int) == Some(state)
            },
            Err(Error::SerdeError(k)) => {
                let lines = split_lines(text@);
                &&& 1 <= k <= lines.len()
                &&& !line_valid::<A>(lines[k - 1])
                &&& forall|j: int| 0 <= j < k - 1 ==> line_valid::<A>(#[trigger] lines[j])
            },
            Err(Error::BadAction) => {
                let lines = split_lines(text@);
                &&& forall|i: int| 0 <= i < lines.len() ==> line_valid::<A>(#[trigger] lines[i])
                &&& exists|msgs: Seq<Message<A>>|
                    msgs.len() == lines.len() && (forall|i: int|
                        0 <= i < lines.len() ==> message_text(#[trigger] msgs[i]) == lines[i])
                        && crate::book::replay_state(msgs, msgs.len() as int) is None
            },
            _ => false,
        },
{
    match Book::<A>::from_read(text) {
        Ok(book) => {
            let (msgs, state) = book.into_parts();
            Ok((state, msgs))
        },
        Err(e) => Err(e),
    }
}

} // verus!
