//! Byte-level primitives shared by the wire grammars: decimal digit runs,
//! canonical unsigned-integer text, quote-terminated string contents, and
//! literal prefixes.

use vstd::prelude::*;

verus! {

/// The double-quote byte that terminates a JSON string.
pub open spec fn qu() -> u8 {
    34
}

/// The backslash byte; the grammars keep strings free of escapes.
pub open spec fn bs() -> u8 {
    92
}

pub open spec fn is_digit(b: u8) -> bool {
    48 <= b <= 57
}

/// A string content the grammars can carry verbatim: no quote, no backslash.
pub open spec fn is_plain(s: Seq<u8>) -> bool {
    forall|i: int| 0 <= i < s.len() ==> s[i] != qu() && s[i] != bs()
}

/// The numeric value of a digit run, most significant digit first.
pub open spec fn dec_value(s: Seq<u8>) -> nat
    decreases s.len(),
{
    if s.len() == 0 {
        0
    } else {
        dec_value(s.drop_last()) * 10 + (s.last() - 48) as nat
    }
}

/// The canonical decimal text of an unsigned integer: no sign, no leading
/// zero except for the number zero itself.
pub open spec fn u64_text(n: nat) -> Seq<u8>
    decreases n,
{
    if n < 10 {
        seq![(n + 48) as u8]
    } else {
        u64_text(n / 10).push((n % 10 + 48) as u8)
    }
}

/// Splits off the longest digit prefix of `s`.
pub open spec fn split_digits(s: Seq<u8>) -> (Seq<u8>, Seq<u8>)
    decreases s.len(),
{
    if s.len() > 0 && is_digit(s[0]) {
        let (d, r) = split_digits(s.skip(1));
        (seq![s[0]] + d, r)
    } else {
        (Seq::empty(), s)
    }
}

/// `Some(rest)` when `s` starts with `pre`, with `rest` what follows it.
pub open spec fn strip_prefix(s: Seq<u8>, pre: Seq<u8>) -> Option<Seq<u8>> {
    if pre.len() <= s.len() && s.subrange(0, pre.len() as int) == pre {
        Some(s.skip(pre.len() as int))
    } else {
        None
    }
}

/// Splits a quote-terminated string content off the front of `s`:
/// `Some((content, rest))` when a quote arrives before any backslash or the
/// end of the input; the closing quote is consumed.
pub open spec fn split_str(s: Seq<u8>) -> Option<(Seq<u8>, Seq<u8>)>
    decreases s.len(),
{
    if s.len() == 0 {
        None
    } else if s[0] == qu() {
        Some((Seq::empty(), s.skip(1)))
    } else if s[0] == bs() {
        None
    } else {
        match split_str(s.skip(1)) {
            Some((c, r)) => Some((seq![s[0]] + c, r)),
            None => None,
        }
    }
}

/// A decimal number as the wire carries prices and sizes: an optional minus
/// sign, one or more digits, and an optional fraction of one or more digits.
pub open spec fn is_dec(s: Seq<u8>) -> bool {
    let t = if s.len() > 0 && s[0] == 45 {
        s.skip(1)
    } else {
        s
    };
    let (d1, r1) = split_digits(t);
    d1.len() >= 1 && (r1.len() == 0 || (r1[0] == 46 && {
        let (d2, r2) = split_digits(r1.skip(1));
        d2.len() >= 1 && r2.len() == 0
    }))
}

/// The canonical unsigned-integer text read back as a number, with its
/// canonicity checked: at least one digit, no leading zero, and a value
/// that fits in a `u64`.
pub open spec fn split_u64(s: Seq<u8>) -> Option<(u64, Seq<u8>)> {
    let (d, r) = split_digits(s);
    if d.len() >= 1 && (d[0] != 48 || d.len() == 1) && dec_value(d) <= u64::MAX as nat {
        Some((dec_value(d) as u64, r))
    } else {
        None
    }
}

/// As `split_u64`, further confined to the `u32` range.
pub open spec fn split_u32(s: Seq<u8>) -> Option<(u32, Seq<u8>)> {
    match split_u64(s) {
        Some((v, r)) => if v <= u32::MAX as u64 {
            Some((v as u32, r))
        } else {
            None
        },
        None => None,
    }
}

/// Stripping a literal from text that starts with it leaves the tail.
pub proof fn lemma_strip_concat(pre: Seq<u8>, rest: Seq<u8>)
    ensures
        strip_prefix(pre + rest, pre) == Some(rest),
{
    assert((pre + rest).subrange(0, pre.len() as int) =~= pre);
    assert((pre + rest).skip(pre.len() as int) =~= rest);
}

/// A plain content followed by a quote splits back into exactly that content.
pub proof fn lemma_split_str_concat(c: Seq<u8>, rest: Seq<u8>)
    requires
        is_plain(c),
    ensures
        split_str(c + seq![qu()] + rest) == Some((c, rest)),
    decreases c.len(),
{
    let s = c + seq![qu()] + rest;
    if c.len() == 0 {
        assert(s[0] == qu());
        assert(s.skip(1) =~= rest);
        assert(c =~= Seq::<u8>::empty());
    } else {
        assert(s[0] == c[0]);
        assert(c[0] != qu() && c[0] != bs());
        assert(is_plain(c.skip(1)));
        lemma_split_str_concat(c.skip(1), rest);
        assert(s.skip(1) =~= c.skip(1) + seq![qu()] + rest);
        assert(seq![s[0]] + c.skip(1) =~= c);
    }
}

/// The canonical text of a number is a digit run without a leading zero.
pub proof fn lemma_u64_text_shape(n: nat)
    ensures
        u64_text(n).len() >= 1,
        forall|i: int| 0 <= i < u64_text(n).len() ==> is_digit(u64_text(n)[i]),
        u64_text(n)[0] != 48 || u64_text(n).len() == 1,
    decreases n,
{
    if n < 10 {
        assert(is_digit(u64_text(n)[0]));
    } else {
        lemma_u64_text_shape(n / 10);
        assert(u64_text(n) == u64_text(n / 10).push((n % 10 + 48) as u8));
        assert(is_digit((n % 10 + 48) as u8));
        assert(forall|i: int| 0 <= i < u64_text(n).len() ==> is_digit(u64_text(n)[i])) by {
            assert(forall|i: int| 0 <= i < u64_text(n / 10).len()
                ==> u64_text(n)[i] == u64_text(n / 10)[i]);
        }
        assert(u64_text(n)[0] == u64_text(n / 10)[0]);
        if u64_text(n / 10).len() == 1 && u64_text(n / 10)[0] == 48 {
            assert(n / 10 >= 1);
            lemma_u64_text_value(n / 10);
            assert(u64_text(n / 10) =~= seq![48u8]);
            assert(seq![48u8].drop_last() =~= Seq::<u8>::empty());
            assert(dec_value(Seq::<u8>::empty()) == 0);
            assert(dec_value(seq![48u8]) == dec_value(seq![48u8].drop_last()) * 10 + (
            seq![48u8].last() - 48) as nat);
            assert(false);
        }
    }
}

/// Reading the canonical text of a number back gives the number.
pub proof fn lemma_u64_text_value(n: nat)
    ensures
        dec_value(u64_text(n)) == n,
    decreases n,
{
    if n < 10 {
        assert(u64_text(n).drop_last() =~= Seq::<u8>::empty());
        assert(u64_text(n).last() == (n + 48) as u8);
        assert(((n + 48) as u8 - 48) as nat == n);
        assert(dec_value(u64_text(n)) == dec_value(u64_text(n).drop_last()) * 10 + (u64_text(
            n,
        ).last() - 48) as nat);
    } else {
        lemma_u64_text_value(n / 10);
        assert(u64_text(n).drop_last() =~= u64_text(n / 10));
        assert(u64_text(n).last() == (n % 10 + 48) as u8);
        vstd::arithmetic::div_mod::lemma_fundamental_div_mod(n as int, 10);
        assert(dec_value(u64_text(n)) == (n / 10) * 10 + (n % 10));
    }
}

/// A digit run splits off a digit prefix exactly up to the first non-digit.
pub proof fn lemma_split_digits_concat(d: Seq<u8>, rest: Seq<u8>)
    requires
        forall|i: int| 0 <= i < d.len() ==> is_digit(d[i]),
        rest.len() == 0 || !is_digit(rest[0]),
    ensures
        split_digits(d + rest) == (d, rest),
    decreases d.len(),
{
    let s = d + rest;
    if d.len() == 0 {
        assert(s =~= rest);
        assert(split_digits(rest) == (Seq::<u8>::empty(), rest)) by {
            if rest.len() > 0 {
                assert(!is_digit(rest[0]));
            }
        }
        assert(d =~= Seq::<u8>::empty());
    } else {
        assert(is_digit(s[0]));
        lemma_split_digits_concat(d.skip(1), rest);
        assert(s.skip(1) =~= d.skip(1) + rest);
        assert(seq![s[0]] + d.skip(1) =~= d);
    }
}

/// The two halves of a digit split rebuild the input, the first half
/// holds digits alone, and the second never starts with one.
pub proof fn lemma_split_digits_parts(s: Seq<u8>)
    ensures
        split_digits(s).0 + split_digits(s).1 == s,
        forall|i: int| 0 <= i < split_digits(s).0.len() ==> is_digit(#[trigger] split_digits(
            s,
        ).0[i]),
        split_digits(s).1.len() == 0 || !is_digit(split_digits(s).1[0]),
    decreases s.len(),
{
    if s.len() > 0 && is_digit(s[0]) {
        lemma_split_digits_parts(s.skip(1));
        let a = split_digits(s.skip(1)).0;
        let b = split_digits(s.skip(1)).1;
        assert(a + b == s.skip(1));
        assert(seq![s[0]] + a + b =~= seq![s[0]] + (a + b));
        assert(seq![s[0]] + (a + b) =~= s);
    } else {
        assert(Seq::<u8>::empty() + s =~= s);
    }
}

/// A decimal number never holds a quote or a backslash.
pub proof fn lemma_is_dec_plain(s: Seq<u8>)
    requires
        is_dec(s),
    ensures
        is_plain(s),
{
    let t = if s.len() > 0 && s[0] == 45 {
        s.skip(1)
    } else {
        s
    };
    let (d1, r1) = split_digits(t);
    lemma_split_digits_parts(t);
    if r1.len() > 0 {
        let (d2, r2) = split_digits(r1.skip(1));
        lemma_split_digits_parts(r1.skip(1));
        assert(forall|i: int| 1 <= i < r1.len() ==> r1[i] == r1.skip(1)[i - 1]);
    }
    assert forall|i: int| 0 <= i < s.len() implies s[i] != qu() && s[i] != bs() by {
        if s.len() > 0 && s[0] == 45 {
            if i > 0 {
                assert(s[i] == t[i - 1]);
                lemma_dec_byte(t, i - 1);
            }
        } else {
            lemma_dec_byte(t, i);
        }
    }
}

/// Every byte of a digits-dot-digits body is a digit or a dot.
proof fn lemma_dec_byte(t: Seq<u8>, i: int)
    requires
        0 <= i < t.len(),
        ({
            let (d1, r1) = split_digits(t);
            d1.len() >= 1 && (r1.len() == 0 || (r1[0] == 46 && {
                let (d2, r2) = split_digits(r1.skip(1));
                d2.len() >= 1 && r2.len() == 0
            }))
        }),
    ensures
        t[i] != qu() && t[i] != bs(),
{
    let (d1, r1) = split_digits(t);
    lemma_split_digits_parts(t);
    if i < d1.len() {
        assert(t[i] == d1[i]);
    } else {
        let j = i - d1.len();
        assert(r1.len() > 0);
        assert(t[i] == r1[j]);
        if j > 0 {
            let (d2, r2) = split_digits(r1.skip(1));
            lemma_split_digits_parts(r1.skip(1));
            assert(r1[j] == r1.skip(1)[j - 1]);
            assert(r1.skip(1)[j - 1] == d2[j - 1]);
        }
    }
}

/// A digit run never gains value when more digits follow it.
pub proof fn lemma_dec_value_extend(a: Seq<u8>, b: Seq<u8>)
    ensures
        dec_value(a) <= dec_value(a + b),
    decreases b.len(),
{
    if b.len() == 0 {
        assert(a + b =~= a);
    } else {
        lemma_dec_value_extend(a, b.drop_last());
        assert((a + b).drop_last() =~= a + b.drop_last());
        assert(dec_value(a + b) == dec_value(a + b.drop_last()) * 10 + ((a + b).last() - 48) as nat);
    }
}

/// What a stripped prefix leaves recomposes to the input.
pub proof fn lemma_strip_sound(s: Seq<u8>, pre: Seq<u8>, r: Seq<u8>)
    requires
        strip_prefix(s, pre) == Some(r),
    ensures
        s == pre + r,
{
    assert(s =~= s.subrange(0, pre.len() as int) + s.skip(pre.len() as int));
}

/// What a string split returns recomposes to the input, and the content
/// is plain.
pub proof fn lemma_split_str_sound(s: Seq<u8>, c: Seq<u8>, r: Seq<u8>)
    requires
        split_str(s) == Some((c, r)),
    ensures
        s == c + seq![qu()] + r,
        is_plain(c),
    decreases s.len(),
{
    if s[0] == qu() {
        assert(c =~= Seq::<u8>::empty());
        assert(s =~= c + seq![qu()] + s.skip(1));
    } else {
        let (c2, r2) = split_str(s.skip(1)).unwrap();
        lemma_split_str_sound(s.skip(1), c2, r2);
        assert(c == seq![s[0]] + c2);
        assert(s =~= seq![s[0]] + s.skip(1));
        assert(s =~= c + seq![qu()] + r);
        assert(forall|i: int| 1 <= i < c.len() ==> c[i] == c2[i - 1]);
    }
}

/// A digit run that does not start with zero has a positive value.
pub proof fn lemma_dec_value_pos(d: Seq<u8>)
    requires
        d.len() >= 1,
        forall|i: int| 0 <= i < d.len() ==> is_digit(d[i]),
        d[0] != 48,
    ensures
        dec_value(d) >= 1,
    decreases d.len(),
{
    if d.len() == 1 {
        assert(d.drop_last() =~= Seq::<u8>::empty());
        assert(dec_value(d) == dec_value(d.drop_last()) * 10 + (d.last() - 48) as nat);
    } else {
        lemma_dec_value_pos(d.drop_last());
    }
}

/// A canonical digit run is the canonical text of its own value.
pub proof fn lemma_canon_text(d: Seq<u8>)
    requires
        d.len() >= 1,
        forall|i: int| 0 <= i < d.len() ==> is_digit(d[i]),
        d[0] != 48 || d.len() == 1,
    ensures
        u64_text(dec_value(d)) == d,
    decreases d.len(),
{
    let n = dec_value(d);
    if d.len() == 1 {
        assert(d.drop_last() =~= Seq::<u8>::empty());
        assert(dec_value(Seq::<u8>::empty()) == 0);
        assert(n == dec_value(d.drop_last()) * 10 + (d.last() - 48) as nat);
        assert(d.last() == d[0]);
        assert(n == (d[0] - 48) as nat);
        assert(u64_text(n) =~= d);
    } else {
        let d0 = d.drop_last();
        let last = d.last();
        assert(d0[0] == d[0]);
        lemma_dec_value_pos(d0);
        assert(n == dec_value(d0) * 10 + (last - 48) as nat);
        vstd::arithmetic::div_mod::lemma_fundamental_div_mod_converse(
            n as int,
            10,
            dec_value(d0) as int,
            (last - 48) as int,
        );
        assert(n / 10 == dec_value(d0));
        assert(n % 10 == (last - 48) as nat);
        assert(n >= 10);
        lemma_canon_text(d0);
        assert(u64_text(n) == u64_text(n / 10).push((n % 10 + 48) as u8));
        assert((n % 10 + 48) as u8 == last);
        assert(u64_text(n) =~= d);
    }
}

/// What a number split returns recomposes to the input: the number stood
/// there in its canonical text, followed by a non-digit.
pub proof fn lemma_split_u64_sound(s: Seq<u8>, v: u64, r: Seq<u8>)
    requires
        split_u64(s) == Some((v, r)),
    ensures
        s == u64_text(v as nat) + r,
        r.len() == 0 || !is_digit(r[0]),
{
    let (d, rr) = split_digits(s);
    lemma_split_digits_parts(s);
    lemma_canon_text(d);
}

/// As `lemma_split_u64_sound`, in the `u32` range.
pub proof fn lemma_split_u32_sound(s: Seq<u8>, v: u32, r: Seq<u8>)
    requires
        split_u32(s) == Some((v, r)),
    ensures
        s == u64_text(v as nat) + r,
        r.len() == 0 || !is_digit(r[0]),
{
    lemma_split_u64_sound(s, v as u64, r);
}

/// Compares two byte strings.
pub fn eq_bytes(a: &[u8], b: &[u8]) -> (r: bool)
    ensures
        r == (a@ == b@),
{
    if a.len() != b.len() {
        return false;
    }
    let mut i: usize = 0;
    while i < a.len()
        invariant
            i <= a.len(),
            a@.len() == b@.len(),
            forall|j: int| 0 <= j < i ==> a@[j] == b@[j],
        decreases a.len() - i,
    {
        if a[i] != b[i] {
            return false;
        }
        i += 1;
    }
    proof {
        assert(a@ =~= b@);
    }
    true
}

/// Matches a literal at `pos`; `Some` holds the position just past it.
pub fn match_at(s: &[u8], pos: usize, pat: &[u8]) -> (r: Option<usize>)
    requires
        pos <= s@.len(),
    ensures
        match r {
            Some(p) => pos <= p <= s@.len() && strip_prefix(s@.skip(pos as int), pat@)
                == Some(s@.skip(p as int)) && p == pos + pat@.len(),
            None => strip_prefix(s@.skip(pos as int), pat@) is None,
        },
{
    let ghost t = s@.skip(pos as int);
    if s.len() - pos < pat.len() {
        return None;
    }
    let end = pos + pat.len();
    let mut i = pos;
    while i < end
        invariant
            pos <= i <= end,
            end == pos + pat@.len(),
            end <= s@.len(),
            t == s@.skip(pos as int),
            forall|j: int| pos <= j < i ==> s@[j] == pat@[j - pos],
        decreases end - i,
    {
        if s[i] != pat[i - pos] {
            proof {
                assert(t.subrange(0, pat@.len() as int)[i - pos as int] != pat@[i - pos as int]);
            }
            return None;
        }
        i += 1;
    }
    proof {
        assert(forall|j: int| 0 <= j < pat@.len() ==> t.subrange(0, pat@.len() as int)[j]
            == s@[pos + j]);
    }
    proof {
        assert(t.subrange(0, pat@.len() as int) =~= pat@);
        assert(t.skip(pat@.len() as int) =~= s@.skip((pos + pat@.len()) as int));
    }
    Some(pos + pat.len())
}

/// Splits a quote-terminated string content off `s` at `pos`, as
/// `split_str` reads the corresponding suffix.
pub fn take_str(s: &[u8], pos: usize) -> (r: Option<(Vec<u8>, usize)>)
    requires
        pos <= s@.len(),
    ensures
        match r {
            Some((c, p)) => pos < p <= s@.len() && split_str(s@.skip(pos as int))
                == Some((c@, s@.skip(p as int))),
            None => split_str(s@.skip(pos as int)) is None,
        },
    decreases s@.len() - pos,
{
    let ghost t = s@.skip(pos as int);
    if pos == s.len() {
        return None;
    }
    proof {
        assert(t[0] == s@[pos as int]);
    }
    if s[pos] == 34 {
        let c: Vec<u8> = Vec::new();
        proof {
            assert(t.skip(1) =~= s@.skip(pos as int + 1));
            assert(c@ =~= Seq::<u8>::empty());
        }
        return Some((c, pos + 1));
    }
    if s[pos] == 92 {
        return None;
    }
    proof {
        assert(t.skip(1) =~= s@.skip(pos as int + 1));
    }
    match take_str(s, pos + 1) {
        Some((mut c, p)) => {
            let b = s[pos];
            c.insert(0, b);
            proof {
                assert(c@ =~= seq![t[0]] + c@.skip(1));
            }
            Some((c, p))
        },
        None => None,
    }
}

/// Finds the end of the digit run that starts at `pos`.
pub fn digits_end(s: &[u8], pos: usize) -> (e: usize)
    requires
        pos <= s@.len(),
    ensures
        pos <= e <= s@.len(),
        split_digits(s@.skip(pos as int)) == (
            s@.subrange(pos as int, e as int),
            s@.skip(e as int),
        ),
        forall|j: int| pos <= j < e ==> is_digit(s@[j]),
    decreases s@.len() - pos,
{
    let ghost t = s@.skip(pos as int);
    if pos < s.len() && 48 <= s[pos] && s[pos] <= 57 {
        proof {
            assert(t[0] == s@[pos as int]);
            assert(t.skip(1) =~= s@.skip(pos as int + 1));
        }
        let e = digits_end(s, pos + 1);
        proof {
            assert(seq![t[0]] + s@.subrange(pos as int + 1, e as int)
                =~= s@.subrange(pos as int, e as int));
        }
        e
    } else {
        proof {
            if pos < s@.len() {
                assert(t[0] == s@[pos as int]);
            }
            assert(s@.subrange(pos as int, pos as int) =~= Seq::<u8>::empty());
        }
        pos
    }
}

/// Reads a canonical `u64` at `pos`, as `split_u64` reads the suffix.
pub fn parse_u64_at(s: &[u8], pos: usize) -> (r: Option<(u64, usize)>)
    requires
        pos <= s@.len(),
    ensures
        match r {
            Some((v, p)) => pos <= p <= s@.len() && split_u64(s@.skip(pos as int))
                == Some((v, s@.skip(p as int))),
            None => split_u64(s@.skip(pos as int)) is None,
        },
{
    let e = digits_end(s, pos);
    let ghost d = s@.subrange(pos as int, e as int);
    if e == pos {
        proof {
            assert(d.len() == 0);
        }
        return None;
    }
    proof {
        assert(d[0] == s@[pos as int]);
    }
    if s[pos] == 48 && e > pos + 1 {
        return None;
    }
    let mut acc: u64 = 0;
    let mut i = pos;
    while i < e
        invariant
            pos <= i <= e <= s@.len(),
            d == s@.subrange(pos as int, e as int),
            split_digits(s@.skip(pos as int)) == (d, s@.skip(e as int)),
            forall|j: int| pos <= j < e ==> is_digit(s@[j]),
            acc as nat == dec_value(s@.subrange(pos as int, i as int)),
        decreases e - i,
    {
        let dig = s[i] - 48;
        proof {
            assert(is_digit(s@[i as int]));
            assert(s@.subrange(pos as int, i + 1).drop_last() =~= s@.subrange(
                pos as int,
                i as int,
            ));
            assert(s@.subrange(pos as int, i + 1).last() == s@[i as int]);
            vstd::arithmetic::div_mod::lemma_fundamental_div_mod(
                (u64::MAX - dig) as int,
                10,
            );
        }
        if acc > (u64::MAX - dig as u64) / 10 {
            proof {
                assert(dec_value(s@.subrange(pos as int, i + 1)) > u64::MAX as nat);
                assert(d =~= s@.subrange(pos as int, i + 1) + s@.subrange(i + 1, e as int));
                lemma_dec_value_extend(
                    s@.subrange(pos as int, i + 1),
                    s@.subrange(i + 1, e as int),
                );
            }
            return None;
        }
        acc = acc * 10 + dig as u64;
        i += 1;
    }
    proof {
        assert(s@.subrange(pos as int, e as int) == d);
    }
    Some((acc, e))
}

/// Reads a canonical `u32` at `pos`, as `split_u32` reads the suffix.
pub fn parse_u32_at(s: &[u8], pos: usize) -> (r: Option<(u32, usize)>)
    requires
        pos <= s@.len(),
    ensures
        match r {
            Some((v, p)) => pos <= p <= s@.len() && split_u32(s@.skip(pos as int))
                == Some((v, s@.skip(p as int))),
            None => split_u32(s@.skip(pos as int)) is None,
        },
{
    match parse_u64_at(s, pos) {
        Some((v, p)) => {
            if v <= u32::MAX as u64 {
                Some((v as u32, p))
            } else {
                None
            }
        },
        None => None,
    }
}

/// Prints a `u64` as its canonical decimal text.
pub fn u64_digits(n: u64) -> (r: Vec<u8>)
    ensures
        r@ == u64_text(n as nat),
{
    let mut out: Vec<u8> = Vec::new();
    let mut m: u64 = n;
    while m >= 10
        invariant
            u64_text(n as nat) == u64_text(m as nat) + out@,
        decreases m,
    {
        let ghost out0 = out@;
        let dig = (m % 10) as u8 + 48;
        out.insert(0, dig);
        proof {
            assert(out@ =~= seq![dig] + out0);
            assert(u64_text(m as nat) == u64_text(m as nat / 10).push(
                (m as nat % 10 + 48) as u8,
            ));
            assert((m / 10) as nat == m as nat / 10);
            assert(dig == (m as nat % 10 + 48) as u8);
            assert(u64_text((m / 10) as nat) + out@ =~= u64_text(m as nat) + out0);
        }
        m = m / 10;
    }
    let ghost out0 = out@;
    let dig = m as u8 + 48;
    out.insert(0, dig);
    proof {
        assert(out@ =~= seq![dig] + out0);
        assert(u64_text(m as nat) =~= seq![(m as nat + 48) as u8]);
        assert(u64_text(n as nat) =~= out@);
    }
    out
}

/// Tests a byte string against the decimal-number grammar.
pub fn check_dec(c: &[u8]) -> (r: bool)
    ensures
        r == is_dec(c@),
{
    let mut pos: usize = 0;
    if c.len() > 0 && c[0] == 45 {
        pos = 1;
    }
    proof {
        if c@.len() > 0 && c@[0] == 45 {
            assert(pos == 1);
        } else {
            assert(pos == 0);
            assert(c@.skip(0) =~= c@);
        }
    }
    let e1 = digits_end(c, pos);
    if e1 == pos {
        return false;
    }
    if e1 == c.len() {
        return true;
    }
    proof {
        assert(c@.skip(e1 as int)[0] == c@[e1 as int]);
    }
    if c[e1] != 46 {
        return false;
    }
    proof {
        assert(c@.skip(e1 as int).skip(1) =~= c@.skip(e1 + 1));
    }
    let e2 = digits_end(c, e1 + 1);
    if e2 == e1 + 1 {
        return false;
    }
    e2 == c.len()
}

} // verus!
