//! One committed chain unit: a proof-of-work key plus an action payload,
//! with hash derivation, the proof-of-work search, and the persisted
//! line format.

use vstd::prelude::*;
use rand::Rng;
use sha3::{Digest, Sha3_224};
use crate::hex_string::{HexString, bytes_of_hex, is_hex_seq, is_hex_digit, default_key_text,
    lemma_hex_round_trip};
use crate::json::{escape, parse_string_body, parse_string_body_exec};
use crate::text::{match_at, match_lit, push_str_chars, string_of};
use crate::traits::Action;
use crate::work::{bits_match, bit_match};

verus! {

/// What the SHA3-224 digest of a chain payload is: a pure function of
/// the previous key's bytes, the action's serialized text, and the
/// candidate key's bytes. Its value is given by the hash function alone.
pub uninterp spec fn chain_digest_of(
    prev_key: Seq<u8>,
    action_text: Seq<char>,
    key: Seq<u8>,
) -> Seq<u8>;

/// Relies on `sha3::Sha3_224` (`new`/`update`/`finalize`): the digest
/// depends only on the bytes fed to it — the previous key's bytes, then
/// the action text's UTF-8 bytes, then the candidate key's bytes — and
/// is 28 bytes long.
#[verifier::external_body]
fn chain_digest(prev_key: &[u8], action_text: &str, key: &[u8]) -> (r: Vec<u8>)
    ensures
        r@ == chain_digest_of(prev_key@, action_text@, key@),
        r@.len() == 28,
{
    let mut hasher = Sha3_224::new();
    hasher.update(prev_key);
    hasher.update(action_text.as_bytes());
    hasher.update(key);
    hasher.finalize().to_vec()
}

/// Relies on `rand::thread_rng` / `Rng::gen`: a fresh 32-bit candidate;
/// nothing is promised of which value comes back.
#[verifier::external_body]
fn random_u32() -> u32 {
    rand::thread_rng().gen()
}

/// The little-endian bytes of a 32-bit candidate.
pub open spec fn le_bytes_of_u32(n: u32) -> Seq<u8> {
    seq![
        (n & 0xff) as u8,
        ((n >> 8) & 0xff) as u8,
        ((n >> 16) & 0xff) as u8,
        ((n >> 24) & 0xff) as u8,
    ]
}

fn u32_le_bytes(n: u32) -> (r: Vec<u8>)
    ensures
        r@ == le_bytes_of_u32(n),
{
    proof {
        assert(n & 0xff < 256 && (n >> 8) & 0xff < 256 && (n >> 16) & 0xff < 256 && (n >> 24)
            & 0xff < 256) by (bit_vector);
    }
    let mut out: Vec<u8> = Vec::new();
    out.push((n & 0xff) as u8);
    out.push(((n >> 8) & 0xff) as u8);
    out.push(((n >> 16) & 0xff) as u8);
    out.push(((n >> 24) & 0xff) as u8);
    proof {
        assert(out@ =~= le_bytes_of_u32(n));
    }
    out
}

/// One committed unit of the log: the proof-of-work key that links this
/// unit to its predecessor, and the action payload it carries.
///
/// The key always holds valid hex text (see [`HexString`]), so any
/// `Message` value is safe data; whether it belongs in a chain is
/// decided by [`Message::accepts_next_message`].
#[derive(Debug)]
pub struct Message<A> {
    pub key: HexString,
    pub action: A,
}

/// Whether `next` is validly linked after a predecessor whose key text
/// is `prev_key`: the digest of (previous key bytes, action text, next
/// key bytes) must match the previous key's bytes in the trailing
/// `bit_cost` bits for the given state.
pub open spec fn link_accepts<A: Action>(
    prev_key: Seq<char>,
    next: Message<A>,
    state: A::State,
) -> bool {
    bits_match(
        A::bit_cost_spec(next.action, state),
        bytes_of_hex(prev_key),
        chain_digest_of(bytes_of_hex(prev_key), A::text_of(next.action), bytes_of_hex(next.key@)),
    )
}

/// Whether `next` is validly linked after `prev` for the given state.
pub open spec fn accepts_spec<A: Action>(
    prev: Message<A>,
    next: Message<A>,
    state: A::State,
) -> bool {
    link_accepts(prev.key@, next, state)
}

impl<A: Action> Message<A> {
    /// The action this message represents.
    pub fn action(&self) -> (r: &A)
        ensures
            *r == self.action,
    {
        &self.action
    }

    /// The proof-of-work key of this message.
    pub fn key(&self) -> (r: &HexString)
        ensures
            *r == self.key,
    {
        &self.key
    }

    /// Checks whether this message and the next message are validly
    /// linked. The state is needed because it may determine the bit
    /// cost of the next action.
    pub fn accepts_next_message(&self, next_message: &Message<A>, state: &A::State) -> (r: bool)
        ensures
            r == accepts_spec(*self, *next_message, *state),
    {
        let prev_bytes = self.key.to_bytes();
        let text = next_message.action.to_text();
        let next_bytes = next_message.key.to_bytes();
        let digest = chain_digest(prev_bytes.as_slice(), text.as_str(), next_bytes.as_slice());
        let threshold = next_message.action.bit_cost(state);
        bit_match(threshold, prev_bytes.as_slice(), digest.as_slice())
    }

    /// Generate a message that can follow this one for the given action:
    /// the proof-of-work search. Draws fresh 32-bit candidates until one
    /// hashes to a digest matching this key in the required trailing
    /// bits; the expected number of attempts is `2^bit_cost`. Every
    /// message returned is accepted by this one. The search gives up
    /// only after `u64::MAX` attempts — far beyond any feasible run —
    /// since no candidate is ever guaranteed to exist.
    pub fn gen_next_message(&self, action: A, state: &A::State) -> (r: Option<Message<A>>)
        ensures
            r is Some ==> r.unwrap().action == action && accepts_spec(*self, r.unwrap(), *state),
    {
        let text = action.to_text();
        let prev_bytes = self.key.to_bytes();
        let threshold = action.bit_cost(state);
        let mut fuel: u64 = u64::MAX;
        while fuel > 0
            invariant
                text@ == A::text_of(action),
                prev_bytes@ == bytes_of_hex(self.key@),
                threshold as int == A::bit_cost_spec(action, *state),
            decreases fuel,
        {
            let candidate = random_u32();
            let key_bytes = u32_le_bytes(candidate);
            let digest = chain_digest(prev_bytes.as_slice(), text.as_str(), key_bytes.as_slice());
            if bit_match(threshold, prev_bytes.as_slice(), digest.as_slice()) {
                proof {
                    lemma_hex_round_trip(key_bytes@);
                }
                let key = HexString::from_bytes(key_bytes.as_slice());
                return Some(Message { key, action });
            }
            fuel -= 1;
        }
        None
    }

    /// The proof-of-work search, with a progress hook: every
    /// `hook_frequency` attempts (starting with the first), the hook
    /// receives the latest attempted digest. A pure observability
    /// channel; the result is exactly as for [`Self::gen_next_message`].
    pub fn gen_next_message_with_hook<F: Fn(HexString)>(
        &self,
        action: A,
        state: &A::State,
        hook: F,
        hook_frequency: u32,
    ) -> (r: Option<Message<A>>)
        requires
            hook_frequency >= 1,
            forall|h: HexString| hook.requires((h,)),
        ensures
            r is Some ==> r.unwrap().action == action && accepts_spec(*self, r.unwrap(), *state),
    {
        let text = action.to_text();
        let prev_bytes = self.key.to_bytes();
        let threshold = action.bit_cost(state);
        let mut cycle: u32 = 0;
        let mut fuel: u64 = u64::MAX;
        while fuel > 0
            invariant
                text@ == A::text_of(action),
                prev_bytes@ == bytes_of_hex(self.key@),
                threshold as int == A::bit_cost_spec(action, *state),
                cycle < hook_frequency,
                forall|h: HexString| hook.requires((h,)),
            decreases fuel,
        {
            let candidate = random_u32();
            let key_bytes = u32_le_bytes(candidate);
            let digest = chain_digest(prev_bytes.as_slice(), text.as_str(), key_bytes.as_slice());
            if cycle == 0 {
                hook(HexString::from_bytes(digest.as_slice()));
            }
            cycle = if cycle + 1 == hook_frequency {
                0
            } else {
                cycle + 1
            };
            if bit_match(threshold, prev_bytes.as_slice(), digest.as_slice()) {
                proof {
                    lemma_hex_round_trip(key_bytes@);
                }
                let key = HexString::from_bytes(key_bytes.as_slice());
                return Some(Message { key, action });
            }
            fuel -= 1;
        }
        None
    }

    /// The persisted line for this message.
    pub fn to_string(&self) -> (r: String)
        ensures
            r@ == message_text(*self),
    {
        let mut out: Vec<char> = Vec::new();
        push_str_chars(&mut out, "{\"key\":\"");
        let key_text = self.key.to_string();
        push_str_chars(&mut out, key_text.as_str());
        push_str_chars(&mut out, "\",\"action\":");
        let action_text = self.action.to_text();
        push_str_chars(&mut out, action_text.as_str());
        push_str_chars(&mut out, "}");
        proof {
            assert(out@ =~= message_text(*self));
        }
        string_of(&out)
    }
}

impl<A: Action> Clone for Message<A> {
    /// A clone is the same message.
    fn clone(&self) -> (r: Self)
        ensures
            r == *self,
    {
        Message { key: self.key.clone(), action: self.action.dup() }
    }
}

impl<A: Action> Default for Message<A> {
    /// The canonical default link: the all-zero key and the default
    /// action.
    fn default() -> (r: Self)
        ensures
            r.key@ == default_key_text(),
            r.action == A::default_spec(),
    {
        Message { key: HexString::default(), action: A::default_action() }
    }
}

/// The persisted line format of a message: a JSON object holding the
/// key as a hex string and the action as its canonical JSON text.
pub open spec fn message_text<A: Action>(m: Message<A>) -> Seq<char> {
    "{\"key\":\""@ + m.key@ + "\",\"action\":"@ + A::text_of(m.action) + "}"@
}

/// The language of well-formed persisted lines: a key of even-length
/// lowercase hex (invalid hex is a hard failure, never a
/// silently-tolerated value) followed by a canonical action text.
pub open spec fn line_valid<A: Action>(t: Seq<char>) -> bool {
    match_at(t, 0, "{\"key\":\""@) && match parse_string_body(t.skip(8)) {
        None => false,
        Some((key_text, rest)) => is_hex_seq(key_text) && match_at(rest, 0, ",\"action\":"@)
            && rest.len() >= 11 && rest.last() == '}' && A::text_valid(
            rest.subrange(10, rest.len() - 1),
        ),
    }
}

/// Parse one persisted line into a message. Succeeds exactly on
/// well-formed lines, and the parsed message's own persisted line is
/// the input: the line pins the message's observable identity.
pub fn parse_message<A: Action>(v: &Vec<char>) -> (r: Option<Message<A>>)
    ensures
        r is Some <==> line_valid::<A>(v@),
        r is Some ==> message_text(r.unwrap()) == v@ && is_hex_seq(r.unwrap().key@),
{
    if !match_lit(v, 0, "{\"key\":\"") {
        return None;
    }
    proof {
        reveal_strlit("{\"key\":\"");
    }
    let parsed_key = parse_string_body_exec(v, 8);
    match parsed_key {
        None => None,
        Some((key_chars, j)) => {
            let ghost rest = v@.skip(j as int);
            let key_string = string_of(&key_chars);
            let key = match HexString::from_text(key_string) {
                None => {
                    return None;
                },
                Some(k) => k,
            };
            if !match_lit(v, j, ",\"action\":") {
                proof {
                    lemma_match_skip(v@, j as int, ",\"action\":"@);
                }
                return None;
            }
            proof {
                lemma_match_skip(v@, j as int, ",\"action\":"@);
                reveal_strlit(",\"action\":");
            }
            let n = v.len();
            if n - j < 11 {
                return None;
            }
            if v[n - 1] != '}' {
                proof {
                    assert(rest.last() == v@[n - 1]);
                }
                return None;
            }
            proof {
                assert(rest.last() == v@[n - 1]);
            }
            let mut action_chars: Vec<char> = Vec::new();
            let mut k: usize = j + 10;
            while k < n - 1
                invariant
                    j + 10 <= k <= n - 1,
                    n == v@.len(),
                    action_chars@ == v@.subrange(j + 10, k as int),
                decreases n - 1 - k,
            {
                action_chars.push(v[k]);
                proof {
                    assert(action_chars@ =~= v@.subrange(j + 10, k + 1));
                }
                k += 1;
            }
            proof {
                assert(rest.subrange(10, rest.len() - 1) =~= v@.subrange(j + 10, n - 1));
            }
            let action_string = string_of(&action_chars);
            match A::of_text(action_string.as_str()) {
                None => None,
                Some(action) => {
                    let m = Message { key, action };
                    proof {
                        reveal_strlit("{\"key\":\"");
                        reveal_strlit("\",\"action\":");
                        reveal_strlit(",\"action\":");
                        reveal_strlit("}");
                        crate::json::lemma_parse_canonical(v@.skip(8));
                        lemma_escape_hex_identity(key_chars@);
                        assert(v@.skip(8) == escape(key_chars@) + seq!['"'] + rest);
                        assert(rest =~= v@.subrange(j as int, j + 10) + v@.subrange(
                            j + 10,
                            n - 1,
                        ) + seq![v@[n - 1]]);
                        assert(v@.subrange(j as int, j + 10) =~= ",\"action\":"@);
                        assert("\",\"action\":"@ =~= seq!['"'] + ",\"action\":"@);
                        assert("}"@ =~= seq![v@[n - 1]]);
                        assert(v@ =~= v@.subrange(0, 8) + v@.skip(8));
                        assert(v@.subrange(0, 8) =~= "{\"key\":\""@);
                        assert(message_text(m) =~= v@);
                    }
                    Some(m)
                },
            }
        },
    }
}

/// Matching a literal inside the tail of a text is matching it at the
/// corresponding position of the whole text.
proof fn lemma_match_skip(t: Seq<char>, j: int, p: Seq<char>)
    requires
        0 <= j <= t.len(),
    ensures
        match_at(t.skip(j), 0, p) == match_at(t, j, p),
{
    if 0 <= j && j + p.len() <= t.len() {
        assert(t.skip(j).subrange(0, p.len() as int) =~= t.subrange(j, j + p.len()));
    }
}

/// Hex text survives escaping unchanged: every hex digit stands for
/// itself in a JSON string.
proof fn lemma_escape_hex_identity(s: Seq<char>)
    requires
        forall|i: int| 0 <= i < s.len() ==> is_hex_digit(#[trigger] s[i]),
    ensures
        escape(s) == s,
    decreases s.len(),
{
    if s.len() > 0 {
        crate::text::lemma_char_bounds(s[0]);
        assert(crate::json::esc_char(s[0]) =~= seq![s[0]]);
        assert(forall|i: int| 0 <= i < s.drop_first().len() ==> is_hex_digit(
            #[trigger] s.drop_first()[i],
        ));
        lemma_escape_hex_identity(s.drop_first());
        assert(escape(s) =~= seq![s[0]] + s.drop_first());
        assert(seq![s[0]] + s.drop_first() =~= s);
    }
}

/// A message's persisted line is a single line: nonempty, free of raw
/// newlines, and closed by a brace, so one message never spills over a
/// line boundary of the log.
pub proof fn lemma_message_text_line<A: Action>(m: Message<A>)
    requires
        is_hex_seq(m.key@),
    ensures
        message_text(m).len() > 0,
        message_text(m).last() == '}',
        forall|i: int| 0 <= i < message_text(m).len() ==> #[trigger] message_text(m)[i] != '\n',
{
    let t = message_text(m);
    let pre = "{\"key\":\""@;
    let mid = "\",\"action\":"@;
    let close = "}"@;
    let atext = A::text_of(m.action);
    reveal_strlit("{\"key\":\"");
    reveal_strlit("\",\"action\":");
    reveal_strlit("}");
    A::lemma_text_no_newline(m.action);
    assert(t == pre + m.key@ + mid + atext + close);
    assert(t.last() == '}') by {
        assert(t.len() == pre.len() + m.key@.len() + mid.len() + atext.len() + 1);
        assert(t[t.len() - 1] == close[0]);
    }
    assert forall|i: int| 0 <= i < t.len() implies #[trigger] t[i] != '\n' by {
        let a = pre.len() as int;
        let b = a + m.key@.len();
        let c = b + mid.len();
        let d = c + atext.len();
        if i < a {
            assert(t[i] == pre[i]);
        } else if i < b {
            assert(t[i] == m.key@[i - a]);
            assert(is_hex_digit(m.key@[i - a]));
        } else if i < c {
            assert(t[i] == mid[i - b]);
        } else if i < d {
            assert(t[i] == atext[i - c]);
        } else {
            assert(t[i] == close[0]);
        }
    }
}

/// Round trip of the line format: the persisted line of a message is a
/// well-formed line (and so, by the parser's contract, parses back to a
/// message with that very line).
pub proof fn lemma_message_round_trip<A: Action>(m: Message<A>)
    requires
        is_hex_seq(m.key@),
    ensures
        line_valid::<A>(message_text(m)),
{
    let t = message_text(m);
    let pre = "{\"key\":\""@;
    let mid = "\",\"action\":"@;
    let close = "}"@;
    let atext = A::text_of(m.action);
    reveal_strlit("{\"key\":\"");
    reveal_strlit("\",\"action\":");
    reveal_strlit(",\"action\":");
    reveal_strlit("}");
    reveal_strlit("\"");
    assert(t =~= pre + m.key@ + mid + atext + close);
    assert(t.subrange(0, 8) =~= pre);
    assert(match_at(t, 0, pre));
    let rest0 = seq!['"'] + ",\"action\":"@ + atext + close;
    assert(t.skip(8) =~= m.key@ + rest0);
    lemma_escape_hex_identity(m.key@);
    let after_quote = ",\"action\":"@ + atext + close;
    assert(m.key@ + rest0 =~= escape(m.key@) + seq!['"'] + after_quote);
    crate::json::lemma_parse_escape_round_trip(m.key@, after_quote);
    assert(parse_string_body(t.skip(8)) == Some((m.key@, after_quote)));
    assert(after_quote.subrange(0, 10) =~= ",\"action\":"@);
    assert(match_at(after_quote, 0, ",\"action\":"@));
    assert(after_quote.len() == 11 + atext.len());
    assert(after_quote.last() == '}');
    assert(after_quote.subrange(10, after_quote.len() - 1) =~= atext);
    A::lemma_text_round_trip(m.action);
}

} // verus!
