//! The JSON string syntax used by the persisted log format: canonical
//! escaping of arbitrary text, and parsing of escaped string bodies.

use vstd::prelude::*;
use crate::hex_string::{nibble_char, nibble_val, is_hex_digit, nibble_char_exec, is_hex_digit_exec,
    hex_val_exec, lemma_nibble_char_val};

verus! {

/// The canonical escape of one character: quote, backslash and the named
/// control characters take two-character escapes, other control characters
/// take a `\u00..` escape, and everything else stands for itself.
pub open spec fn esc_char(c: char) -> Seq<char> {
    if c == '"' {
        seq!['\\', '"']
    } else if c == '\\' {
        seq!['\\', '\\']
    } else if c == '\n' {
        seq!['\\', 'n']
    } else if c == '\r' {
        seq!['\\', 'r']
    } else if c == '\t' {
        seq!['\\', 't']
    } else if (c as int) < 32 {
        seq!['\\', 'u', '0', '0', nibble_char(c as int / 16), nibble_char(c as int % 16)]
    } else {
        seq![c]
    }
}

/// The canonical escape of a text, character by character.
pub open spec fn escape(s: Seq<char>) -> Seq<char>
    decreases s.len(),
{
    if s.len() == 0 {
        Seq::empty()
    } else {
        esc_char(s[0]) + escape(s.drop_first())
    }
}

/// The character denoted by a two-character escape.
pub open spec fn unesc_char(e: char) -> char {
    if e == '"' {
        '"'
    } else if e == '\\' {
        '\\'
    } else if e == 'n' {
        '\n'
    } else if e == 'r' {
        '\r'
    } else {
        '\t'
    }
}

/// Whether a `\u00..` escape is the canonical one for its character:
/// only control characters other than the ones with named escapes are
/// written this way.
pub open spec fn canonical_u_escape(h1: char, h2: char) -> bool {
    is_hex_digit(h1) && is_hex_digit(h2) && {
        let v = nibble_val(h1) * 16 + nibble_val(h2);
        v < 32 && v != 9 && v != 10 && v != 13
    }
}

/// Parse a canonical JSON string body (the text after the opening
/// quote): the decoded content together with the remainder after the
/// closing quote, or nothing if the body is malformed, unterminated, or
/// not in the canonical escaping of [`escape`].
pub open spec fn parse_string_body(t: Seq<char>) -> Option<(Seq<char>, Seq<char>)>
    decreases t.len(),
{
    if t.len() == 0 {
        None
    } else if t[0] == '"' {
        Some((Seq::empty(), t.drop_first()))
    } else if t[0] == '\\' {
        if t.len() < 2 {
            None
        } else {
            let e = t[1];
            if e == '"' || e == '\\' || e == 'n' || e == 'r' || e == 't' {
                match parse_string_body(t.skip(2)) {
                    Some(p) => Some((seq![unesc_char(e)] + p.0, p.1)),
                    None => None,
                }
            } else if e == 'u' {
                if t.len() >= 6 && t[2] == '0' && t[3] == '0' && canonical_u_escape(t[4], t[5]) {
                    match parse_string_body(t.skip(6)) {
                        Some(p) => Some(
                            (seq![(((nibble_val(t[4]) * 16 + nibble_val(t[5])) as u8) as char)]
                                + p.0, p.1),
                        ),
                        None => None,
                    }
                } else {
                    None
                }
            } else {
                None
            }
        }
    } else if (t[0] as int) < 32 {
        None
    } else {
        match parse_string_body(t.drop_first()) {
            Some(p) => Some((seq![t[0]] + p.0, p.1)),
            None => None,
        }
    }
}

/// Escaping distributes over concatenation.
pub proof fn lemma_escape_append(a: Seq<char>, b: Seq<char>)
    ensures
        escape(a + b) == escape(a) + escape(b),
    decreases a.len(),
{
    if a.len() == 0 {
        assert(a + b =~= b);
        assert(escape(a) + escape(b) =~= escape(b));
    } else {
        lemma_escape_append(a.drop_first(), b);
        assert((a + b).drop_first() =~= a.drop_first() + b);
        assert((a + b)[0] == a[0]);
        assert(esc_char(a[0]) + (escape(a.drop_first()) + escape(b)) =~= (esc_char(a[0]) + escape(
            a.drop_first(),
        )) + escape(b));
    }
}

/// Escaping one more character appends its escape.
pub proof fn lemma_escape_snoc(s: Seq<char>, c: char)
    ensures
        escape(s.push(c)) == escape(s) + esc_char(c),
{
    assert(s.push(c) =~= s + seq![c]);
    lemma_escape_append(s, seq![c]);
    assert(seq![c].drop_first() =~= Seq::<char>::empty());
    assert(escape(Seq::<char>::empty()) =~= Seq::<char>::empty());
    assert(escape(seq![c]) =~= esc_char(c) + escape(Seq::<char>::empty()));
    assert(esc_char(c) + Seq::<char>::empty() =~= esc_char(c));
}

/// Parsing an escaped text followed by a closing quote recovers the text
/// and leaves the remainder untouched: the escape/parse round trip.
pub proof fn lemma_parse_escape_round_trip(s: Seq<char>, rest: Seq<char>)
    ensures
        parse_string_body(escape(s) + seq!['"'] + rest) == Some((s, rest)),
    decreases s.len(),
{
    let t = escape(s) + seq!['"'] + rest;
    if s.len() == 0 {
        assert(t =~= seq!['"'] + rest);
        assert(t[0] == '"');
        assert(t.drop_first() =~= rest);
    } else {
        let c = s[0];
        let s2 = s.drop_first();
        lemma_parse_escape_round_trip(s2, rest);
        let t2 = escape(s2) + seq!['"'] + rest;
        assert(escape(s) == esc_char(c) + escape(s2));
        assert(t =~= (esc_char(c) + escape(s2)) + seq!['"'] + rest);
        if c == '"' || c == '\\' {
            let e: char = if c == '"' { '"' } else { '\\' };
            assert(esc_char(c) =~= seq!['\\', e]);
            assert(t[0] == '\\' && t[1] == e);
            assert(t.skip(2) =~= t2);
            assert(unesc_char(e) == c);
            assert(seq![c] + s2 =~= s);
        } else if c == '\n' || c == '\r' || c == '\t' {
            let e: char = if c == '\n' {
                'n'
            } else if c == '\r' {
                'r'
            } else {
                't'
            };
            assert(esc_char(c) =~= seq!['\\', e]);
            assert(t[0] == '\\' && t[1] == e);
            assert(e != '"' && e != '\\');
            assert(t.skip(2) =~= t2);
            assert(unesc_char(e) == c);
            assert(seq![c] + s2 =~= s);
        } else if (c as int) < 32 {
            crate::text::lemma_char_bounds(c);
            let h1 = nibble_char(c as int / 16);
            let h2 = nibble_char(c as int % 16);
            assert(esc_char(c) =~= seq!['\\', 'u', '0', '0', h1, h2]);
            assert(t[0] == '\\' && t[1] == 'u' && t[2] == '0' && t[3] == '0' && t[4] == h1 && t[5]
                == h2);
            lemma_nibble_char_val(c as int / 16);
            lemma_nibble_char_val(c as int % 16);
            assert(t.len() >= 6);
            assert(t.skip(6) =~= t2);
            assert(nibble_val(t[4]) * 16 + nibble_val(t[5]) == c as int);
            if c as int == 9 {
                crate::text::lemma_char_code_injective(c, '\t');
            }
            if c as int == 10 {
                crate::text::lemma_char_code_injective(c, '\n');
            }
            if c as int == 13 {
                crate::text::lemma_char_code_injective(c, '\r');
            }
            assert(canonical_u_escape(t[4], t[5]));
            assert((((c as int) as u8) as char) == c);
            assert(seq![c] + s2 =~= s);
        } else {
            assert(esc_char(c) =~= seq![c]);
            assert(t[0] == c);
            assert(c != '"' && c != '\\');
            assert(t.drop_first() =~= t2);
            assert(seq![c] + s2 =~= s);
        }
    }
}

/// Escaped text never holds a raw newline: every control character is
/// written as an escape sequence, so one escaped value always stays on
/// one line of the log.
pub proof fn lemma_escape_no_newline(s: Seq<char>)
    ensures
        forall|i: int| 0 <= i < escape(s).len() ==> #[trigger] escape(s)[i] != '\n',
    decreases s.len(),
{
    if s.len() > 0 {
        lemma_escape_no_newline(s.drop_first());
        let c = s[0];
        let e = esc_char(c);
        crate::text::lemma_char_bounds(c);
        assert forall|i: int| 0 <= i < e.len() implies #[trigger] e[i] != '\n' by {
            if c == '"' || c == '\\' || c == '\n' || c == '\r' || c == '\t' {
            } else if (c as int) < 32 {
                lemma_nibble_char_val(c as int / 16);
                lemma_nibble_char_val(c as int % 16);
                crate::text::lemma_char_bounds(e[i]);
            } else {
            }
        }
        assert forall|i: int| 0 <= i < escape(s).len() implies #[trigger] escape(s)[i]
            != '\n' by {
            assert(escape(s) == e + escape(s.drop_first()));
            if i < e.len() {
                assert(escape(s)[i] == e[i]);
            } else {
                assert(escape(s)[i] == escape(s.drop_first())[i - e.len()]);
            }
        }
    }
}

/// Append the canonical escape of `s` to `out`.
pub fn escape_into(out: &mut Vec<char>, s: &Vec<char>)
    ensures
        final(out)@ == old(out)@ + escape(s@),
{
    let n = s.len();
    let mut i: usize = 0;
    while i < n
        invariant
            i <= n,
            n == s@.len(),
            out@ == old(out)@ + escape(s@.subrange(0, i as int)),
        decreases n - i,
    {
        let c = s[i];
        let ghost pre = out@;
        proof {
            crate::text::lemma_char_bounds(c);
        }
        if c == '"' {
            out.push('\\');
            out.push('"');
        } else if c == '\\' {
            out.push('\\');
            out.push('\\');
        } else if c == '\n' {
            out.push('\\');
            out.push('n');
        } else if c == '\r' {
            out.push('\\');
            out.push('r');
        } else if c == '\t' {
            out.push('\\');
            out.push('t');
        } else if (c as u32) < 32 {
            out.push('\\');
            out.push('u');
            out.push('0');
            out.push('0');
            let u = c as u32;
            proof {
                assert((u / 16) as usize as int == c as int / 16);
                assert((u % 16) as usize as int == c as int % 16);
            }
            out.push(nibble_char_exec((u / 16) as usize));
            out.push(nibble_char_exec((u % 16) as usize));
        } else {
            out.push(c);
        }
        proof {
            assert(out@ =~= pre + esc_char(c));
            lemma_escape_snoc(s@.subrange(0, i as int), c);
            assert(s@.subrange(0, i as int).push(c) =~= s@.subrange(0, i + 1));
            assert(out@ =~= old(out)@ + escape(s@.subrange(0, i + 1)));
        }
        i += 1;
    }
    proof {
        assert(s@.subrange(0, n as int) =~= s@);
    }
}

fn unesc_char_exec(e: char) -> (c: char)
    ensures
        c == unesc_char(e),
{
    if e == '"' {
        '"'
    } else if e == '\\' {
        '\\'
    } else if e == 'n' {
        '\n'
    } else if e == 'r' {
        '\r'
    } else {
        '\t'
    }
}

/// Parsing is exactly inverse to escaping: whatever a string body
/// parses to, the body was that content's canonical escape followed by
/// the closing quote and the remainder.
pub proof fn lemma_parse_canonical(t: Seq<char>)
    requires
        parse_string_body(t) is Some,
    ensures
        t == escape(parse_string_body(t).unwrap().0) + seq!['"'] + parse_string_body(
            t,
        ).unwrap().1,
    decreases t.len(),
{
    let (c, rest) = parse_string_body(t).unwrap();
    if t[0] == '"' {
        assert(escape(Seq::<char>::empty()) + seq!['"'] + t.drop_first() =~= t);
    } else if t[0] == '\\' {
        let e = t[1];
        if e == '"' || e == '\\' || e == 'n' || e == 'r' || e == 't' {
            let (c2, _) = parse_string_body(t.skip(2)).unwrap();
            lemma_parse_canonical(t.skip(2));
            let u = unesc_char(e);
            assert(esc_char(u) =~= seq!['\\', e]);
            assert(escape(seq![u] + c2) == esc_char(u) + escape(c2)) by {
                assert((seq![u] + c2)[0] == u);
                assert((seq![u] + c2).drop_first() =~= c2);
            }
            assert(t =~= seq!['\\', e] + t.skip(2));
            assert(escape(c) + seq!['"'] + rest =~= t);
        } else {
            let h1 = t[4];
            let h2 = t[5];
            let v = nibble_val(h1) * 16 + nibble_val(h2);
            let u = ((v as u8) as char);
            let (c2, _) = parse_string_body(t.skip(6)).unwrap();
            lemma_parse_canonical(t.skip(6));
            assert(0 <= nibble_val(h1) < 16 && 0 <= nibble_val(h2) < 16) by {
                lemma_nibble_val_range(h1);
                lemma_nibble_val_range(h2);
            }
            assert(u as int == v) by {
                lemma_u8_char_code(v);
            }
            crate::text::lemma_char_bounds(u);
            assert(u as int >= 32 ==> false);
            assert(u as int == 9 ==> false);
            assert(u as int == 10 ==> false);
            assert(u as int == 13 ==> false);
            if u == '"' || u == '\\' || u == '\n' || u == '\r' || u == '\t' {
                assert('"' as int == 34 && '\\' as int == 92 && '\n' as int == 10 && '\r' as int
                    == 13 && '\t' as int == 9);
                assert(false);
            }
            assert(esc_char(u) =~= seq!['\\', 'u', '0', '0', nibble_char(v / 16), nibble_char(
                v % 16,
            )]);
            assert(v / 16 == nibble_val(h1) && v % 16 == nibble_val(h2)) by (nonlinear_arith)
                requires
                    0 <= nibble_val(h1) < 16 && 0 <= nibble_val(h2) < 16 && v == nibble_val(h1)
                        * 16 + nibble_val(h2),
            ;
            lemma_nibble_char_of_val(h1);
            lemma_nibble_char_of_val(h2);
            assert(esc_char(u) =~= seq!['\\', 'u', '0', '0', h1, h2]);
            assert(escape(seq![u] + c2) == esc_char(u) + escape(c2)) by {
                assert((seq![u] + c2)[0] == u);
                assert((seq![u] + c2).drop_first() =~= c2);
            }
            assert(t =~= seq!['\\', 'u', '0', '0', h1, h2] + t.skip(6));
            assert(escape(c) + seq!['"'] + rest =~= t);
        }
    } else {
        let u = t[0];
        let (c2, _) = parse_string_body(t.drop_first()).unwrap();
        lemma_parse_canonical(t.drop_first());
        crate::text::lemma_char_bounds(u);
        assert(esc_char(u) =~= seq![u]);
        assert(escape(seq![u] + c2) == esc_char(u) + escape(c2)) by {
            assert((seq![u] + c2)[0] == u);
            assert((seq![u] + c2).drop_first() =~= c2);
        }
        assert(t =~= seq![u] + t.drop_first());
        assert(escape(c) + seq!['"'] + rest =~= t);
    }
}

/// A lowercase hex digit's value is a nibble.
proof fn lemma_nibble_val_range(c: char)
    requires
        is_hex_digit(c),
    ensures
        0 <= nibble_val(c) < 16,
{
}

/// A lowercase hex digit is the character of its own value.
proof fn lemma_nibble_char_of_val(c: char)
    requires
        is_hex_digit(c),
    ensures
        nibble_char(nibble_val(c)) == c,
{
    crate::text::lemma_char_bounds(c);
    crate::text::lemma_char_bounds(nibble_char(nibble_val(c)));
    lemma_nibble_char_val(nibble_val(c));
    crate::text::lemma_char_code_injective(nibble_char(nibble_val(c)), c);
}

/// A byte's character has the byte's code point.
proof fn lemma_u8_char_code(v: int)
    requires
        0 <= v < 256,
    ensures
        ((v as u8) as char) as int == v,
{
}

/// A parse outcome with `pre` prepended to its content.
pub open spec fn with_prefix(pre: Seq<char>, r: Option<(Seq<char>, Seq<char>)>) -> Option<
    (Seq<char>, Seq<char>),
> {
    match r {
        Some(p) => Some((pre + p.0, p.1)),
        None => None,
    }
}

proof fn lemma_with_prefix_assoc(a: Seq<char>, b: Seq<char>, r: Option<(Seq<char>, Seq<char>)>)
    ensures
        with_prefix(a, with_prefix(b, r)) == with_prefix(a + b, r),
{
    match r {
        Some(p) => {
            assert(a + (b + p.0) =~= (a + b) + p.0);
        },
        None => {},
    }
}

/// Parse a JSON string body out of `v`, starting at `start` (just after
/// the opening quote). On success, returns the decoded content and the
/// index just after the closing quote.
pub fn parse_string_body_exec(v: &Vec<char>, start: usize) -> (r: Option<(Vec<char>, usize)>)
    requires
        start <= v@.len(),
    ensures
        match r {
            Some(p) => p.1 <= v@.len() && parse_string_body(v@.skip(start as int)) == Some(
                (p.0@, v@.skip(p.1 as int)),
            ),
            None => parse_string_body(v@.skip(start as int)) is None,
        },
{
    let n = v.len();
    let mut out: Vec<char> = Vec::new();
    let mut i: usize = start;
    loop
        invariant
            start <= i <= n,
            n == v@.len(),
            parse_string_body(v@.skip(start as int)) == with_prefix(
                out@,
                parse_string_body(v@.skip(i as int)),
            ),
        decreases n - i,
    {
        if i >= n {
            proof {
                assert(v@.skip(i as int).len() == 0);
            }
            return None;
        }
        let ghost i0 = i as int;
        let ghost out0 = out@;
        let ghost t = v@.skip(i0);
        proof {
            assert(t[0] == v@[i0]);
        }
        let c = v[i];
        if c == '"' {
            proof {
                assert(t.drop_first() =~= v@.skip(i0 + 1));
                assert(parse_string_body(t) == Some((Seq::<char>::empty(), v@.skip(i0 + 1))));
                assert(out@ + Seq::<char>::empty() =~= out@);
            }
            return Some((out, i + 1));
        } else if c == '\\' {
            if i + 1 >= n {
                proof {
                    assert(t.len() < 2);
                }
                return None;
            }
            proof {
                assert(t[1] == v@[i0 + 1]);
            }
            let e = v[i + 1];
            if e == '"' || e == '\\' || e == 'n' || e == 'r' || e == 't' {
                out.push(unesc_char_exec(e));
                i += 2;
                proof {
                    assert(t.skip(2) =~= v@.skip(i as int));
                    assert(parse_string_body(t) == with_prefix(
                        seq![unesc_char(e)],
                        parse_string_body(v@.skip(i as int)),
                    ));
                    lemma_with_prefix_assoc(
                        out0,
                        seq![unesc_char(e)],
                        parse_string_body(v@.skip(i as int)),
                    );
                    assert(out0 + seq![unesc_char(e)] =~= out@);
                }
            } else if e == 'u' {
                if n - i < 6 {
                    proof {
                        assert(t.len() < 6);
                    }
                    return None;
                }
                proof {
                    assert(t[2] == v@[i0 + 2] && t[3] == v@[i0 + 3] && t[4] == v@[i0 + 4] && t[5]
                        == v@[i0 + 5]);
                }
                if !(v[i + 2] == '0' && v[i + 3] == '0') {
                    return None;
                }
                let h1 = v[i + 4];
                let h2 = v[i + 5];
                if !(is_hex_digit_exec(h1) && is_hex_digit_exec(h2)) {
                    return None;
                }
                let code: usize = hex_val_exec(h1) * 16 + hex_val_exec(h2);
                if !(code < 32 && code != 9 && code != 10 && code != 13) {
                    proof {
                        assert(!canonical_u_escape(t[4], t[5]));
                    }
                    return None;
                }
                let decoded: char = (code as u8) as char;
                out.push(decoded);
                i += 6;
                proof {
                    assert(t.skip(6) =~= v@.skip(i as int));
                    assert(parse_string_body(t) == with_prefix(
                        seq![decoded],
                        parse_string_body(v@.skip(i as int)),
                    ));
                    lemma_with_prefix_assoc(
                        out0,
                        seq![decoded],
                        parse_string_body(v@.skip(i as int)),
                    );
                    assert(out0 + seq![decoded] =~= out@);
                }
            } else {
                return None;
            }
        } else {
            if (c as u32) < 32 {
                proof {
                    crate::text::lemma_char_bounds(c);
                }
                return None;
            }
            proof {
                crate::text::lemma_char_bounds(c);
            }
            out.push(c);
            i += 1;
            proof {
                assert(t.drop_first() =~= v@.skip(i as int));
                assert(parse_string_body(t) == with_prefix(
                    seq![c],
                    parse_string_body(v@.skip(i as int)),
                ));
                lemma_with_prefix_assoc(out0, seq![c], parse_string_body(v@.skip(i as int)));
                assert(out0 + seq![c] =~= out@);
            }
        }
    }
}

} // verus!
