//! Character-level text utilities: conversions between strings and
//! character vectors, literal matching, and decimal numerals.

use vstd::prelude::*;
use crate::hex_string::nibble_char;

verus! {

/// Every character's code point is a bounded nonnegative value, and
/// casting through `u32` preserves it.
pub proof fn lemma_char_bounds(c: char)
    ensures
        0 <= c as int <= 0x10FFFF,
        c as u32 == c as int,
{
}

/// Characters with the same code point are the same character.
pub proof fn lemma_char_code_injective(a: char, b: char)
    requires
        a as u32 == b as u32,
    ensures
        a == b,
{
    vstd::utf8::char_u32_cast(a, a as u32);
    vstd::utf8::char_u32_cast(b, b as u32);
}

/// The characters of `s`, in order.
pub fn chars_of(s: &str) -> (r: Vec<char>)
    ensures
        r@ == s@,
{
    let n = s.unicode_len();
    let mut out: Vec<char> = Vec::new();
    let mut i: usize = 0;
    while i < n
        invariant
            i <= n,
            n == s@.len(),
            out@ == s@.subrange(0, i as int),
        decreases n - i,
    {
        out.push(s.get_char(i));
        proof {
            assert(out@ =~= s@.subrange(0, i + 1));
        }
        i += 1;
    }
    proof {
        assert(out@ =~= s@);
    }
    out
}

/// Relies on `String: FromIterator<char>`: collecting characters yields
/// the string of exactly those characters, in order.
#[verifier::external_body]
pub fn string_of(v: &Vec<char>) -> (r: String)
    ensures
        r@ == v@,
{
    v.iter().collect()
}

/// Append the characters of `s` to `out`.
pub fn push_str_chars(out: &mut Vec<char>, s: &str)
    ensures
        final(out)@ == old(out)@ + s@,
{
    let n = s.unicode_len();
    let mut i: usize = 0;
    while i < n
        invariant
            i <= n,
            n == s@.len(),
            out@ == old(out)@ + s@.subrange(0, i as int),
        decreases n - i,
    {
        out.push(s.get_char(i));
        proof {
            assert(out@ =~= old(out)@ + s@.subrange(0, i + 1));
        }
        i += 1;
    }
    proof {
        assert(out@ =~= old(out)@ + s@);
    }
}

/// `p` occurs in `t` starting at position `i`.
pub open spec fn match_at(t: Seq<char>, i: int, p: Seq<char>) -> bool {
    0 <= i && i + p.len() <= t.len() && t.subrange(i, i + p.len()) == p
}

/// Whether the literal `p` occurs in `v` at position `i`.
pub fn match_lit(v: &Vec<char>, i: usize, p: &str) -> (r: bool)
    ensures
        r == match_at(v@, i as int, p@),
{
    let m = p.unicode_len();
    if m > v.len() || i > v.len() - m {
        proof {
            assert(!(i + p@.len() <= v@.len()));
        }
        return false;
    }
    let mut j: usize = 0;
    while j < m
        invariant
            j <= m,
            m == p@.len(),
            i + m <= v.len(),
            forall|k: int| 0 <= k < j ==> v@[i + k] == p@[k],
        decreases m - j,
    {
        if v[i + j] != p.get_char(j) {
            proof {
                assert(v@.subrange(i as int, i + p@.len())[j as int] != p@[j as int]);
            }
            return false;
        }
        j += 1;
    }
    proof {
        assert(v@.subrange(i as int, i + p@.len()) =~= p@);
    }
    true
}

/// The position of the first newline in `t`, or `t.len()` if none.
pub open spec fn first_newline(t: Seq<char>) -> int
    decreases t.len(),
{
    if t.len() == 0 {
        0
    } else if t[0] == '\n' {
        0
    } else {
        1 + first_newline(t.drop_first())
    }
}

/// A line with a trailing carriage return loses it.
pub open spec fn strip_cr(s: Seq<char>) -> Seq<char> {
    if s.len() > 0 && s.last() == '\r' {
        s.drop_last()
    } else {
        s
    }
}

/// The lines of a text, split at newlines, each stripped of a trailing
/// carriage return; a trailing newline ends the last line rather than
/// opening an empty one.
pub open spec fn split_lines(t: Seq<char>) -> Seq<Seq<char>>
    decreases t.len(),
{
    if t.len() == 0 {
        Seq::empty()
    } else {
        let k = first_newline(t);
        if k < 0 || k >= t.len() {
            seq![strip_cr(t)]
        } else {
            seq![strip_cr(t.subrange(0, k))] + split_lines(t.skip(k + 1))
        }
    }
}

proof fn lemma_first_newline_char(t: Seq<char>)
    ensures
        0 <= first_newline(t) <= t.len(),
        forall|i: int| 0 <= i < first_newline(t) ==> t[i] != '\n',
        first_newline(t) < t.len() ==> t[first_newline(t)] == '\n',
    decreases t.len(),
{
    if t.len() > 0 && t[0] != '\n' {
        lemma_first_newline_char(t.drop_first());
        assert forall|i: int| 0 <= i < first_newline(t) implies t[i] != '\n' by {
            if i > 0 {
                assert(t.drop_first()[i - 1] == t[i]);
            }
        }
    }
}

/// The first newline of a text is where a scan that found no earlier
/// newline says it is.
pub proof fn lemma_first_newline_at(t: Seq<char>, k: int)
    requires
        0 <= k <= t.len(),
        forall|i: int| 0 <= i < k ==> t[i] != '\n',
        k < t.len() ==> t[k] == '\n',
        k == t.len() || t[k] == '\n',
    ensures
        first_newline(t) == k,
    decreases t.len(),
{
    if t.len() > 0 && t[0] != '\n' {
        assert(k >= 1);
        lemma_first_newline_at(t.drop_first(), k - 1);
    }
}

/// Split a character buffer into its lines.
pub fn split_lines_exec(v: &Vec<char>) -> (r: Vec<Vec<char>>)
    ensures
        r.deep_view() == split_lines(v@),
{
    let n = v.len();
    let mut out: Vec<Vec<char>> = Vec::new();
    proof {
        assert(out.deep_view() =~= Seq::<Seq<char>>::empty());
        assert(v@.skip(0) =~= v@);
        assert(out.deep_view() + split_lines(v@) =~= split_lines(v@));
    }
    let mut i: usize = 0;
    while i < n
        invariant
            i <= n,
            n == v@.len(),
            split_lines(v@) == out.deep_view() + split_lines(v@.skip(i as int)),
        decreases n - i,
    {
        let ghost rem = v@.skip(i as int);
        let ghost out0 = out.deep_view();
        let mut k: usize = i;
        while k < n && v[k] != '\n'
            invariant
                i <= k <= n,
                n == v@.len(),
                forall|j: int| i <= j < k ==> v@[j] != '\n',
            decreases n - k,
        {
            k += 1;
        }
        proof {
            assert forall|j: int| 0 <= j < k - i implies rem[j] != '\n' by {
                assert(rem[j] == v@[i + j]);
            }
            if k < n {
                assert(rem[k - i] == v@[k as int]);
            }
            lemma_first_newline_at(rem, k - i);
        }
        let mut line: Vec<char> = Vec::new();
        let mut j: usize = i;
        let last: usize = if k > i && v[k - 1] == '\r' {
            k - 1
        } else {
            k
        };
        while j < last
            invariant
                i <= j <= last <= n,
                n == v@.len(),
                line@ == v@.subrange(i as int, j as int),
            decreases last - j,
        {
            line.push(v[j]);
            proof {
                assert(line@ =~= v@.subrange(i as int, j + 1));
            }
            j += 1;
        }
        proof {
            assert(rem.subrange(0, k - i) =~= v@.subrange(i as int, k as int));
            if k > i && v@[k - 1] == '\r' {
                assert(v@.subrange(i as int, k as int).last() == v@[k - 1]);
                assert(line@ =~= strip_cr(rem.subrange(0, k - i))) by {
                    assert(v@.subrange(i as int, k as int).drop_last() =~= v@.subrange(
                        i as int,
                        k - 1,
                    ));
                }
            } else {
                if k > i {
                    assert(v@.subrange(i as int, k as int).last() == v@[k - 1]);
                }
                assert(line@ =~= strip_cr(rem.subrange(0, k - i)));
            }
            if k - i < rem.len() {
                assert(rem.subrange(0, k - i) =~= rem.subrange(0, first_newline(rem)));
            } else {
                assert(rem.subrange(0, k - i) =~= rem);
            }
        }
        let ghost oldv = out@;
        let ghost linev = line@;
        out.push(line);
        proof {
            assert forall|q: int| 0 <= q < out.deep_view().len() implies out.deep_view()[q]
                == out0.push(linev)[q] by {
                assert(out.deep_view()[q] == out@[q].deep_view());
                if q < oldv.len() {
                    assert(out@[q] == oldv[q]);
                    assert(out0[q] == oldv[q].deep_view());
                } else {
                    assert(out@[q].deep_view() == linev);
                }
            }
            assert(out.deep_view() =~= out0.push(linev));
            if k < n {
                assert(rem.skip(k - i + 1) =~= v@.skip(k + 1));
                assert(split_lines(rem) =~= seq![strip_cr(rem.subrange(0, k - i))] + split_lines(
                    v@.skip(k + 1),
                ));
                assert(out.deep_view() + split_lines(v@.skip(k + 1)) =~= out0 + split_lines(
                    rem,
                ));
            } else {
                assert(rem.len() > 0);
                assert(split_lines(rem) =~= seq![strip_cr(rem)]);
                assert(v@.skip(n as int).len() == 0);
                assert(out.deep_view() + split_lines(v@.skip(n as int)) =~= out0 + split_lines(
                    rem,
                ));
            }
        }
        i = if k < n {
            k + 1
        } else {
            n
        };
    }
    proof {
        assert(v@.skip(n as int).len() == 0);
        assert(out.deep_view() + split_lines(v@.skip(n as int)) =~= out.deep_view());
    }
    out
}

/// Whether `c` is a decimal digit.
pub open spec fn is_dec_digit(c: char) -> bool {
    48 <= c as int <= 57
}

/// The decimal numeral of `n`, without sign or padding.
pub open spec fn dec_digits(n: nat) -> Seq<char>
    decreases n,
{
    if n < 10 {
        seq![nibble_char(n as int)]
    } else {
        dec_digits(n / 10).push(nibble_char((n % 10) as int))
    }
}

/// The value of a string of decimal digits, most significant first.
pub open spec fn dec_val(s: Seq<char>) -> int
    decreases s.len(),
{
    if s.len() == 0 {
        0
    } else {
        dec_val(s.drop_last()) * 10 + (s.last() as int - 48)
    }
}

/// Whether `s` is the canonical numeral of some value: nonempty, all
/// digits, and no leading zero except for the numeral `0` itself.
pub open spec fn is_canonical_dec(s: Seq<char>) -> bool {
    s.len() > 0 && (forall|i: int| 0 <= i < s.len() ==> is_dec_digit(#[trigger] s[i])) && (s[0]
        != '0' || s.len() == 1)
}

proof fn lemma_dec_digits_nonempty(n: nat)
    ensures
        dec_digits(n).len() >= 1,
{
}

proof fn lemma_dec_digits_shape(n: nat)
    ensures
        is_canonical_dec(dec_digits(n)),
        dec_val(dec_digits(n)) == n,
    decreases n,
{
    if n < 10 {
        let s = dec_digits(n);
        assert(s == seq![nibble_char(n as int)]);
        assert(s.drop_last() =~= Seq::<char>::empty());
        assert(dec_val(s) == dec_val(s.drop_last()) * 10 + (s.last() as int - 48));
        assert(dec_val(s.drop_last()) == 0);
    } else {
        lemma_dec_digits_shape(n / 10);
        let p = dec_digits(n / 10);
        let s = dec_digits(n);
        assert(s.drop_last() =~= p);
        assert(dec_val(s) == (n / 10) * 10 + n % 10);
        assert((n / 10) * 10 + n % 10 == n) by (nonlinear_arith);
        assert(s[0] == p[0]);
        if p.len() == 1 {
            if n / 10 >= 10 {
                lemma_dec_digits_nonempty((n / 10) / 10);
                assert(p.len() >= 2);
            }
            assert(p == seq![nibble_char((n / 10) as int)]);
            assert(n / 10 >= 1);
            assert(p[0] != '0');
        }
    }
}

/// The canonical numeral of a value reads back as that value.
pub proof fn lemma_dec_round_trip(n: nat)
    ensures
        is_canonical_dec(dec_digits(n)),
        dec_val(dec_digits(n)) == n,
{
    lemma_dec_digits_shape(n);
}

/// Digit strings denote nonnegative values that grow with each digit.
proof fn lemma_dec_val_monotone(s: Seq<char>, i: int)
    requires
        0 <= i <= s.len(),
        forall|k: int| 0 <= k < s.len() ==> is_dec_digit(#[trigger] s[k]),
    ensures
        0 <= dec_val(s.subrange(0, i)) <= dec_val(s),
    decreases s.len() - i,
{
    if i == s.len() {
        assert(s.subrange(0, i) =~= s);
        lemma_dec_val_nonneg(s);
    } else {
        lemma_dec_val_monotone(s, i + 1);
        let a = s.subrange(0, i);
        let b = s.subrange(0, i + 1);
        assert(b.drop_last() =~= a);
        lemma_dec_val_nonneg(a);
        assert(dec_val(b) == dec_val(a) * 10 + (b.last() as int - 48));
        assert(dec_val(a) * 10 >= dec_val(a)) by (nonlinear_arith)
            requires
                dec_val(a) >= 0,
        ;
    }
}

proof fn lemma_dec_val_nonneg(s: Seq<char>)
    requires
        forall|k: int| 0 <= k < s.len() ==> is_dec_digit(#[trigger] s[k]),
    ensures
        dec_val(s) >= 0,
    decreases s.len(),
{
    if s.len() > 0 {
        lemma_dec_val_nonneg(s.drop_last());
        assert(dec_val(s.drop_last()) * 10 >= 0) by (nonlinear_arith)
            requires
                dec_val(s.drop_last()) >= 0,
        ;
    }
}

/// Whether `v` holds exactly the characters of the literal `p`.
pub fn eq_lit(v: &Vec<char>, p: &str) -> (r: bool)
    ensures
        r == (v@ == p@),
{
    let m = p.unicode_len();
    if v.len() != m {
        return false;
    }
    let r = match_lit(v, 0, p);
    proof {
        if match_at(v@, 0, p@) {
            assert(v@.subrange(0, p@.len() as int) =~= v@);
        }
        if v@ == p@ {
            assert(v@.subrange(0, p@.len() as int) =~= p@);
        }
    }
    r
}

proof fn lemma_dec_digit_char(d: char)
    requires
        is_dec_digit(d),
    ensures
        nibble_char(d as int - 48) == d,
{
    lemma_char_bounds(d);
    lemma_char_bounds(nibble_char(d as int - 48));
    lemma_char_code_injective(nibble_char(d as int - 48), d);
}

/// Canonical numerals are exactly the numerals of their values: reading
/// a canonical digit string and writing the value back gives the same
/// string.
pub proof fn lemma_dec_canonical_complete(s: Seq<char>)
    requires
        is_canonical_dec(s),
    ensures
        dec_val(s) >= 0,
        dec_digits(dec_val(s) as nat) == s,
    decreases s.len(),
{
    lemma_dec_val_nonneg(s);
    if s.len() == 1 {
        let d = s[0];
        assert(s.drop_last() =~= Seq::<char>::empty());
        assert(dec_val(Seq::<char>::empty()) == 0);
        assert(s.last() == d);
        assert(dec_val(s) == d as int - 48);
        lemma_dec_digit_char(d);
        assert(dec_digits((d as int - 48) as nat) =~= seq![nibble_char(d as int - 48)]);
        assert(seq![nibble_char(d as int - 48)] =~= s);
    } else {
        let sp = s.drop_last();
        assert(forall|i: int| 0 <= i < sp.len() ==> is_dec_digit(#[trigger] sp[i]));
        assert(sp[0] == s[0] && s[0] != '0');
        lemma_dec_canonical_complete(sp);
        lemma_dec_val_monotone(sp, 1);
        assert(sp.subrange(0, 1) =~= seq![s[0]]);
        assert(dec_val(seq![s[0]]) == s[0] as int - 48) by {
            assert(seq![s[0]].drop_last() =~= Seq::<char>::empty());
            assert(dec_val(Seq::<char>::empty()) == 0);
            assert(seq![s[0]].last() == s[0]);
        }
        lemma_char_bounds(s[0]);
        assert(s[0] as int != 48);
        assert(dec_val(sp) >= 1);
        let d = s.last();
        let n = dec_val(s);
        assert(n == dec_val(sp) * 10 + (d as int - 48));
        assert(n / 10 == dec_val(sp) && n % 10 == d as int - 48 && n >= 10) by (nonlinear_arith)
            requires
                n == dec_val(sp) * 10 + (d as int - 48) && dec_val(sp) >= 1 && 0 <= d as int - 48
                    < 10,
        ;
        lemma_dec_digit_char(d);
        assert(dec_digits(n as nat) == dec_digits(dec_val(sp) as nat).push(
            nibble_char(n % 10),
        ));
        assert(sp.push(d) =~= s);
    }
}

fn digit_char(d: usize) -> (c: char)
    requires
        d < 10,
    ensures
        c == nibble_char(d as int),
{
    if d == 0 {
        '0'
    } else if d == 1 {
        '1'
    } else if d == 2 {
        '2'
    } else if d == 3 {
        '3'
    } else if d == 4 {
        '4'
    } else if d == 5 {
        '5'
    } else if d == 6 {
        '6'
    } else if d == 7 {
        '7'
    } else if d == 8 {
        '8'
    } else {
        '9'
    }
}

/// The canonical decimal numeral of `n`, as characters.
pub fn format_usize(n: usize) -> (r: Vec<char>)
    ensures
        r@ == dec_digits(n as nat),
    decreases n,
{
    if n < 10 {
        let mut out: Vec<char> = Vec::new();
        out.push(digit_char(n));
        proof {
            assert(out@ =~= seq![nibble_char(n as int)]);
        }
        out
    } else {
        let mut out = format_usize(n / 10);
        out.push(digit_char(n % 10));
        out
    }
}

/// Parse the characters of `v` between `from` and `to` as a canonical
/// decimal numeral. Succeeds exactly on canonical numerals whose value
/// fits in `usize`.
pub fn parse_usize(v: &Vec<char>, from: usize, to: usize) -> (r: Option<usize>)
    requires
        from <= to <= v@.len(),
    ensures
        r is Some <==> is_canonical_dec(v@.subrange(from as int, to as int)) && dec_val(
            v@.subrange(from as int, to as int),
        ) <= usize::MAX,
        r is Some ==> r.unwrap() as int == dec_val(v@.subrange(from as int, to as int)),
{
    let ghost s = v@.subrange(from as int, to as int);
    if from == to {
        return None;
    }
    if v[from] == '0' && to - from > 1 {
        return None;
    }
    let mut acc: usize = 0;
    let mut i: usize = from;
    while i < to
        invariant
            from <= i <= to <= v@.len(),
            s == v@.subrange(from as int, to as int),
            acc as int == dec_val(s.subrange(0, i - from)),
            forall|k: int| 0 <= k < i - from ==> is_dec_digit(#[trigger] s[k]),
        decreases to - i,
    {
        let c = v[i];
        if !('0' <= c && c <= '9') {
            proof {
                assert(!is_dec_digit(s[i - from]));
            }
            return None;
        }
        proof {
            assert(s[i - from] == v@[i as int]);
            assert(is_dec_digit(s[i - from]));
        }
        let u = c as u32;
        let d: usize = (u - 48) as usize;
        let next = match acc.checked_mul(10) {
            Some(m) => m.checked_add(d),
            None => None,
        };
        match next {
            Some(m) => {
                acc = m;
                proof {
                    assert(s.subrange(0, i + 1 - from).drop_last() =~= s.subrange(
                        0,
                        i - from,
                    ));
                    assert(s.subrange(0, i + 1 - from).last() == s[i - from]);
                }
                i += 1;
            },
            None => {
                proof {
                    if forall|k: int| 0 <= k < s.len() ==> is_dec_digit(#[trigger] s[k]) {
                        lemma_dec_val_monotone(s, i + 1 - from);
                        assert(s.subrange(0, i + 1 - from).drop_last() =~= s.subrange(
                            0,
                            i - from,
                        ));
                        assert(dec_val(s.subrange(0, i + 1 - from)) == acc * 10 + (s[i - from] as int
                            - 48));
                        assert(dec_val(s) > usize::MAX);
                    }
                }
                return None;
            },
        }
    }
    proof {
        assert(s.subrange(0, to - from) =~= s);
    }
    Some(acc)
}

} // verus!
