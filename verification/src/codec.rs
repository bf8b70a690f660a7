//! Canonical byte encoding of the library's records, with strict parsers
//! and round-trip proofs.
//!
//! The format is length-prefixed: a number is its minimal decimal digits
//! followed by `:`; a byte string is its length followed by its bytes; a
//! boolean is one byte (`T` or `F`); an optional value is `N`, or `S`
//! followed by the value; a list is its element count followed by the
//! encoded elements. A stored record parses back to exactly the value it
//! was encoded from; any other byte string is rejected as corrupt.

use vstd::prelude::*;

verus! {

use crate::bytes::{is_dec_digit, spec_dec, spec_dec_val, lemma_dec_digits, lemma_dec_val};

pub const COLON: u8 = 58;

pub const TRUE_TAG: u8 = 84;

pub const FALSE_TAG: u8 = 70;

pub const NONE_TAG: u8 = 78;

pub const SOME_TAG: u8 = 83;

pub const MINUS_TAG: u8 = 45;

pub const PLUS_TAG: u8 = 43;

// ---------------------------------------------------------------------
// encoders, spec level
// ---------------------------------------------------------------------
pub open spec fn enc_u64(n: u64) -> Seq<u8> {
    spec_dec(n as nat).push(COLON)
}

pub open spec fn enc_bytes(b: Seq<u8>) -> Seq<u8> {
    enc_u64(b.len() as u64) + b
}

pub open spec fn enc_bool(v: bool) -> Seq<u8> {
    if v {
        seq![TRUE_TAG]
    } else {
        seq![FALSE_TAG]
    }
}

pub open spec fn enc_opt_bytes(o: Option<Seq<u8>>) -> Seq<u8> {
    match o {
        Option::None => seq![NONE_TAG],
        Option::Some(b) => seq![SOME_TAG] + enc_bytes(b),
    }
}

pub open spec fn enc_i64(v: i64) -> Seq<u8> {
    if v < 0 {
        seq![MINUS_TAG] + enc_u64((-(v as int)) as u64)
    } else {
        seq![PLUS_TAG] + enc_u64(v as u64)
    }
}

/// The encoded elements of a list, one after the other.
pub open spec fn enc_each<T>(items: Seq<T>, e: spec_fn(T) -> Seq<u8>) -> Seq<u8>
    decreases items.len(),
{
    if items.len() == 0 {
        Seq::empty()
    } else {
        e(items[0]) + enc_each(items.drop_first(), e)
    }
}

/// A list: its element count, then its encoded elements.
pub open spec fn enc_list<T>(items: Seq<T>, e: spec_fn(T) -> Seq<u8>) -> Seq<u8> {
    enc_u64(items.len() as u64) + enc_each(items, e)
}

// ---------------------------------------------------------------------
// parsers, spec level: a parser takes the input and yields the parsed
// value and the unconsumed remainder, or nothing
// ---------------------------------------------------------------------
/// Digits up to and including the terminating `:`.
pub open spec fn sparse_digits(s: Seq<u8>) -> Option<(Seq<u8>, Seq<u8>)>
    decreases s.len(),
{
    if s.len() == 0 {
        Option::None
    } else if s[0] == COLON {
        Option::Some((Seq::empty(), s.drop_first()))
    } else if is_dec_digit(s[0]) {
        match sparse_digits(s.drop_first()) {
            Option::Some(p) => Option::Some((seq![s[0]] + p.0, p.1)),
            Option::None => Option::None,
        }
    } else {
        Option::None
    }
}

/// Whether a digit string is the canonical encoding of some number:
/// non-empty, and no leading zero.
pub open spec fn canonical_digits(d: Seq<u8>) -> bool {
    &&& d.len() >= 1
    &&& (d[0] == 48 ==> d.len() == 1)
}

pub open spec fn sparse_u64(s: Seq<u8>) -> Option<(u64, Seq<u8>)> {
    match sparse_digits(s) {
        Option::Some((d, rest)) => {
            if canonical_digits(d) && spec_dec_val(d) <= u64::MAX {
                Option::Some((spec_dec_val(d) as u64, rest))
            } else {
                Option::None
            }
        },
        Option::None => Option::None,
    }
}

pub open spec fn sparse_bytes(s: Seq<u8>) -> Option<(Seq<u8>, Seq<u8>)> {
    match sparse_u64(s) {
        Option::Some((n, rest)) => {
            if rest.len() >= n {
                Option::Some((rest.take(n as int), rest.skip(n as int)))
            } else {
                Option::None
            }
        },
        Option::None => Option::None,
    }
}

pub open spec fn sparse_bool(s: Seq<u8>) -> Option<(bool, Seq<u8>)> {
    if s.len() >= 1 && s[0] == TRUE_TAG {
        Option::Some((true, s.drop_first()))
    } else if s.len() >= 1 && s[0] == FALSE_TAG {
        Option::Some((false, s.drop_first()))
    } else {
        Option::None
    }
}

pub open spec fn sparse_opt_bytes(s: Seq<u8>) -> Option<(Option<Seq<u8>>, Seq<u8>)> {
    if s.len() >= 1 && s[0] == NONE_TAG {
        Option::Some((Option::None, s.drop_first()))
    } else if s.len() >= 1 && s[0] == SOME_TAG {
        match sparse_bytes(s.drop_first()) {
            Option::Some((b, rest)) => Option::Some((Option::Some(b), rest)),
            Option::None => Option::None,
        }
    } else {
        Option::None
    }
}

pub open spec fn sparse_i64(s: Seq<u8>) -> Option<(i64, Seq<u8>)> {
    if s.len() >= 1 && s[0] == MINUS_TAG {
        match sparse_u64(s.drop_first()) {
            Option::Some((n, rest)) => {
                if 0 < n <= (i64::MAX as u64) + 1 {
                    Option::Some(((-(n as int)) as i64, rest))
                } else {
                    Option::None
                }
            },
            Option::None => Option::None,
        }
    } else if s.len() >= 1 && s[0] == PLUS_TAG {
        match sparse_u64(s.drop_first()) {
            Option::Some((n, rest)) => {
                if n <= i64::MAX as u64 {
                    Option::Some((n as i64, rest))
                } else {
                    Option::None
                }
            },
            Option::None => Option::None,
        }
    } else {
        Option::None
    }
}

// ---------------------------------------------------------------------
// round-trip lemmas, spec level
// ---------------------------------------------------------------------
pub proof fn lemma_digits_rt(d: Seq<u8>, rest: Seq<u8>)
    requires
        forall|i: int| 0 <= i < d.len() ==> is_dec_digit(#[trigger] d[i]),
    ensures
        sparse_digits(d.push(COLON) + rest) == Option::Some((d, rest)),
    decreases d.len(),
{
    let s = d.push(COLON) + rest;
    if d.len() == 0 {
        assert(s[0] == COLON);
        assert(s.drop_first() =~= rest);
    } else {
        assert(s[0] == d[0]);
        assert(!is_dec_digit(COLON));
        lemma_digits_rt(d.drop_first(), rest);
        assert(s.drop_first() =~= d.drop_first().push(COLON) + rest);
        assert(seq![d[0]] + d.drop_first() =~= d);
    }
}

pub proof fn lemma_u64_rt(n: u64, rest: Seq<u8>)
    ensures
        sparse_u64(enc_u64(n) + rest) == Option::Some((n, rest)),
{
    lemma_dec_digits(n as nat);
    lemma_dec_val(n as nat);
    assert(enc_u64(n) + rest =~= spec_dec(n as nat).push(COLON) + rest);
    lemma_digits_rt(spec_dec(n as nat), rest);
    assert(canonical_digits(spec_dec(n as nat)));
}

pub proof fn lemma_bytes_rt(b: Seq<u8>, rest: Seq<u8>)
    requires
        b.len() <= u64::MAX,
    ensures
        sparse_bytes(enc_bytes(b) + rest) == Option::Some((b, rest)),
{
    let s = enc_bytes(b) + rest;
    assert(s =~= enc_u64(b.len() as u64) + (b + rest));
    lemma_u64_rt(b.len() as u64, b + rest);
    assert((b + rest).take(b.len() as int) =~= b);
    assert((b + rest).skip(b.len() as int) =~= rest);
}

pub proof fn lemma_bool_rt(v: bool, rest: Seq<u8>)
    ensures
        sparse_bool(enc_bool(v) + rest) == Option::Some((v, rest)),
{
    let s = enc_bool(v) + rest;
    assert(s.drop_first() =~= rest);
}

pub proof fn lemma_opt_bytes_rt(o: Option<Seq<u8>>, rest: Seq<u8>)
    requires
        o matches Option::Some(b) ==> b.len() <= u64::MAX,
    ensures
        sparse_opt_bytes(enc_opt_bytes(o) + rest) == Option::Some((o, rest)),
{
    let s = enc_opt_bytes(o) + rest;
    match o {
        Option::None => {
            assert(s.drop_first() =~= rest);
        },
        Option::Some(b) => {
            assert(s[0] == SOME_TAG);
            assert(SOME_TAG != NONE_TAG);
            assert(s.drop_first() =~= enc_bytes(b) + rest);
            lemma_bytes_rt(b, rest);
        },
    }
}

pub proof fn lemma_i64_rt(v: i64, rest: Seq<u8>)
    ensures
        sparse_i64(enc_i64(v) + rest) == Option::Some((v, rest)),
{
    let s = enc_i64(v) + rest;
    if v < 0 {
        let n = (-(v as int)) as u64;
        assert(s[0] == MINUS_TAG);
        assert(s.drop_first() =~= enc_u64(n) + rest);
        lemma_u64_rt(n, rest);
        assert(0 < n <= (i64::MAX as u64) + 1);
        assert((-(n as int)) as i64 == v);
    } else {
        assert(s[0] == PLUS_TAG);
        assert(s.drop_first() =~= enc_u64(v as u64) + rest);
        lemma_u64_rt(v as u64, rest);
    }
}

// ---------------------------------------------------------------------
// list parsing, spec level
// ---------------------------------------------------------------------
/// Exactly `n` elements parsed one after the other.
pub open spec fn sparse_n<T>(s: Seq<u8>, n: nat, p: spec_fn(Seq<u8>) -> Option<(T, Seq<u8>)>) -> Option<
    (Seq<T>, Seq<u8>),
>
    decreases n,
{
    if n == 0 {
        Option::Some((Seq::empty(), s))
    } else {
        match p(s) {
            Option::Some((x, r)) => match sparse_n(r, (n - 1) as nat, p) {
                Option::Some((xs, r2)) => Option::Some((seq![x] + xs, r2)),
                Option::None => Option::None,
            },
            Option::None => Option::None,
        }
    }
}

/// A counted list: the element count, then that many elements.
pub open spec fn sparse_list<T>(
    s: Seq<u8>,
    p: spec_fn(Seq<u8>) -> Option<(T, Seq<u8>)>,
) -> Option<(Seq<T>, Seq<u8>)> {
    match sparse_u64(s) {
        Option::Some((n, rest)) => sparse_n(rest, n as nat, p),
        Option::None => Option::None,
    }
}

/// Elements whose encoder and parser agree element-wise round-trip as a row.
pub proof fn lemma_each_rt<T>(
    items: Seq<T>,
    rest: Seq<u8>,
    e: spec_fn(T) -> Seq<u8>,
    p: spec_fn(Seq<u8>) -> Option<(T, Seq<u8>)>,
    ok: spec_fn(T) -> bool,
)
    requires
        forall|x: T, r: Seq<u8>| #[trigger] p(e(x) + r) == Option::Some((x, r)) || !ok(x),
        forall|i: int| 0 <= i < items.len() ==> ok(#[trigger] items[i]),
    ensures
        sparse_n(enc_each(items, e) + rest, items.len(), p) == Option::Some((items, rest)),
    decreases items.len(),
{
    if items.len() == 0 {
        assert(enc_each(items, e) + rest =~= rest);
    } else {
        let x = items[0];
        let tail_items = items.drop_first();
        assert(enc_each(items, e) + rest =~= e(x) + (enc_each(tail_items, e) + rest));
        assert(p(e(x) + (enc_each(tail_items, e) + rest)) == Option::Some(
            (x, enc_each(tail_items, e) + rest),
        ));
        lemma_each_rt(tail_items, rest, e, p, ok);
        assert(seq![x] + tail_items =~= items);
    }
}

/// Round trip for a counted list.
pub proof fn lemma_list_rt<T>(
    items: Seq<T>,
    rest: Seq<u8>,
    e: spec_fn(T) -> Seq<u8>,
    p: spec_fn(Seq<u8>) -> Option<(T, Seq<u8>)>,
    ok: spec_fn(T) -> bool,
)
    requires
        forall|x: T, r: Seq<u8>| #[trigger] p(e(x) + r) == Option::Some((x, r)) || !ok(x),
        forall|i: int| 0 <= i < items.len() ==> ok(#[trigger] items[i]),
        items.len() <= u64::MAX,
    ensures
        sparse_list(enc_list(items, e) + rest, p) == Option::Some((items, rest)),
{
    assert(enc_list(items, e) + rest =~= enc_u64(items.len() as u64) + (enc_each(items, e) + rest));
    lemma_u64_rt(items.len() as u64, enc_each(items, e) + rest);
    lemma_each_rt(items, rest, e, p, ok);
}

// ---------------------------------------------------------------------
// encoders and parsers, exec level
// ---------------------------------------------------------------------
/// Appends the encoding of `n` to `out`.
pub fn emit_u64(out: &mut Vec<u8>, n: u64)
    ensures
        final(out)@ == old(out)@ + enc_u64(n),
{
    let digits = crate::bytes::dec_u64(n);
    crate::bytes::append_bytes(out, digits.as_slice());
    out.push(COLON);
    assert(final(out)@ =~= old(out)@ + enc_u64(n));
}

/// Appends the encoding of the byte string `b` to `out`.
pub fn emit_bytes(out: &mut Vec<u8>, b: &[u8])
    ensures
        final(out)@ == old(out)@ + enc_bytes(b@),
{
    emit_u64(out, b.len() as u64);
    crate::bytes::append_bytes(out, b);
    assert(final(out)@ =~= old(out)@ + enc_bytes(b@));
}

/// Appends the encoding of `v` to `out`.
pub fn emit_bool(out: &mut Vec<u8>, v: bool)
    ensures
        final(out)@ == old(out)@ + enc_bool(v),
{
    if v {
        out.push(TRUE_TAG);
    } else {
        out.push(FALSE_TAG);
    }
    assert(final(out)@ =~= old(out)@ + enc_bool(v));
}

/// Appends the encoding of an optional byte string to `out`.
pub fn emit_opt_bytes(out: &mut Vec<u8>, o: &Option<Vec<u8>>)
    ensures
        final(out)@ == old(out)@ + enc_opt_bytes(match o {
            Option::Some(b) => Option::Some(b@),
            Option::None => Option::None,
        }),
{
    match o {
        Option::None => {
            out.push(NONE_TAG);
            assert(final(out)@ =~= old(out)@ + seq![NONE_TAG]);
        },
        Option::Some(b) => {
            out.push(SOME_TAG);
            emit_bytes(out, b.as_slice());
            assert(final(out)@ =~= old(out)@ + (seq![SOME_TAG] + enc_bytes(b@)));
        },
    }
}

/// Appends the encoding of `v` to `out`.
pub fn emit_i64(out: &mut Vec<u8>, v: i64)
    ensures
        final(out)@ == old(out)@ + enc_i64(v),
{
    if v < 0 {
        out.push(MINUS_TAG);
        let mag: u64 = if v == i64::MIN {
            9223372036854775808u64
        } else {
            (-v) as u64
        };
        assert(mag == (-(v as int)) as u64);
        emit_u64(out, mag);
        assert(final(out)@ =~= old(out)@ + (seq![MINUS_TAG] + enc_u64((-(v as int)) as u64)));
    } else {
        out.push(PLUS_TAG);
        emit_u64(out, v as u64);
        assert(final(out)@ =~= old(out)@ + (seq![PLUS_TAG] + enc_u64(v as u64)));
    }
}

/// `sparse_digits` succeeds exactly on a digit run closed by a colon.
proof fn lemma_scan_digits_ok(s: Seq<u8>, k: int)
    requires
        0 <= k < s.len(),
        forall|i: int| 0 <= i < k ==> is_dec_digit(#[trigger] s[i]),
        s[k] == COLON,
        forall|i: int| 0 <= i < k ==> s[i] != COLON,
    ensures
        sparse_digits(s) == Option::Some((s.take(k), s.skip(k + 1))),
    decreases k,
{
    if k == 0 {
        assert(s.take(0) =~= Seq::<u8>::empty());
        assert(s.skip(1) =~= s.drop_first());
    } else {
        lemma_scan_digits_ok(s.drop_first(), k - 1);
        assert(seq![s[0]] + s.drop_first().take(k - 1) =~= s.take(k));
        assert(s.drop_first().skip(k) =~= s.skip(k + 1));
    }
}

/// `sparse_digits` fails when the digit run ends without a colon.
proof fn lemma_scan_digits_bad(s: Seq<u8>, k: int)
    requires
        0 <= k <= s.len(),
        forall|i: int| 0 <= i < k ==> is_dec_digit(#[trigger] s[i]),
        forall|i: int| 0 <= i < k ==> s[i] != COLON,
        k == s.len() || (!is_dec_digit(s[k]) && s[k] != COLON),
    ensures
        sparse_digits(s) is None,
    decreases k,
{
    if k == 0 {
    } else {
        lemma_scan_digits_bad(s.drop_first(), k - 1);
    }
}

/// Parses a number. On success the returned position sits right after
/// the consumed encoding.
pub fn parse_u64(input: &[u8], pos: usize) -> (r: Option<(u64, usize)>)
    requires
        pos <= input@.len(),
    ensures
        match r {
            Option::Some(p) => pos < p.1 <= input@.len() && sparse_u64(input@.skip(pos as int))
                == Option::Some((p.0, input@.skip(p.1 as int))),
            Option::None => sparse_u64(input@.skip(pos as int)) is None,
        },
{
    let ghost t = input@.skip(pos as int);
    let len = input.len();
    let mut k: usize = pos;
    while k < len && 48 <= input[k] && input[k] <= 57
        invariant
            pos <= k <= len,
            len == input@.len(),
            forall|i: int| pos <= i < k ==> is_dec_digit(#[trigger] input@[i]),
        decreases len - k,
    {
        k = k + 1;
    }
    proof {
        assert(forall|i: int| 0 <= i < k - pos ==> is_dec_digit(#[trigger] t[i]) && t[i] != COLON);
    }
    if k == len {
        proof {
            lemma_scan_digits_bad(t, k - pos as int);
        }
        return Option::None;
    }
    if input[k] != COLON {
        proof {
            assert(t[k - pos as int] == input@[k as int]);
            lemma_scan_digits_bad(t, k - pos as int);
        }
        return Option::None;
    }
    proof {
        lemma_scan_digits_ok(t, k - pos as int);
    }
    let ghost d = t.take(k - pos as int);
    if k == pos {
        // no digits before the colon
        proof {
            assert(d.len() == 0);
            assert(!canonical_digits(d));
        }
        return Option::None;
    }
    if input[pos] == 48 && k > pos + 1 {
        // leading zero: not canonical
        proof {
            assert(d[0] == 48 && d.len() > 1);
        }
        return Option::None;
    }
    proof {
        assert(input@.skip(pos as int).skip(k - pos as int + 1) =~= input@.skip(k + 1));
        assert(canonical_digits(d));
    }
    let mut val: u64 = 0;
    let mut i: usize = pos;
    while i < k
        invariant
            pos <= i <= k < input@.len(),
            d == input@.skip(pos as int).take(k - pos as int),
            forall|j: int| pos <= j < k ==> is_dec_digit(#[trigger] input@[j]),
            val == spec_dec_val(d.take(i - pos as int)),
            sparse_digits(input@.skip(pos as int)) == Option::Some((d, input@.skip(k + 1))),
            canonical_digits(d),
        decreases k - i,
    {
        let digit: u64 = (input[i] - 48) as u64;
        proof {
            assert(d.take(i + 1 - pos as int).drop_last() =~= d.take(i - pos as int));
            assert(d.take(i + 1 - pos as int).last() == input@[i as int]);
        }
        if val > (u64::MAX - digit) / 10 {
            proof {
                assert(spec_dec_val(d.take(i + 1 - pos as int)) == val * 10 + digit);
                assert(val * 10 + digit > u64::MAX) by (nonlinear_arith)
                    requires
                        val > (u64::MAX - digit) / 10,
                        digit <= 9,
                ;
                crate::bytes::lemma_dec_val_prefix(d, i + 1 - pos as int);
                assert(spec_dec_val(d) > u64::MAX);
            }
            return Option::None;
        }
        proof {
            assert(val * 10 + digit <= u64::MAX) by (nonlinear_arith)
                requires
                    val <= (u64::MAX - digit) / 10,
                    digit <= 9,
            ;
        }
        val = val * 10 + digit;
        i = i + 1;
    }
    proof {
        assert(d.take(k - pos as int) =~= d);
        assert(canonical_digits(d));
    }
    Option::Some((val, k + 1))
}

/// Parses a byte string.
pub fn parse_bytes(input: &[u8], pos: usize) -> (r: Option<(Vec<u8>, usize)>)
    requires
        pos <= input@.len(),
    ensures
        match r {
            Option::Some(p) => pos < p.1 <= input@.len() && sparse_bytes(input@.skip(pos as int))
                == Option::Some((p.0@, input@.skip(p.1 as int))),
            Option::None => sparse_bytes(input@.skip(pos as int)) is None,
        },
{
    match parse_u64(input, pos) {
        Option::None => Option::None,
        Option::Some((n, p1)) => {
            let remaining = (input.len() - p1) as u64;
            if n > remaining {
                return Option::None;
            }
            let end = p1 + (n as usize);
            let piece = vstd::slice::slice_subrange(input, p1, end);
            let out = vstd::slice::slice_to_vec(piece);
            proof {
                let rest = input@.skip(p1 as int);
                assert(rest.take(n as int) =~= input@.subrange(p1 as int, end as int));
                assert(rest.skip(n as int) =~= input@.skip(end as int));
            }
            Option::Some((out, end))
        },
    }
}

/// Parses a boolean.
pub fn parse_bool(input: &[u8], pos: usize) -> (r: Option<(bool, usize)>)
    requires
        pos <= input@.len(),
    ensures
        match r {
            Option::Some(p) => pos < p.1 <= input@.len() && sparse_bool(input@.skip(pos as int))
                == Option::Some((p.0, input@.skip(p.1 as int))),
            Option::None => sparse_bool(input@.skip(pos as int)) is None,
        },
{
    if pos < input.len() && input[pos] == TRUE_TAG {
        proof {
            assert(input@.skip(pos as int).drop_first() =~= input@.skip(pos + 1));
        }
        Option::Some((true, pos + 1))
    } else if pos < input.len() && input[pos] == FALSE_TAG {
        proof {
            assert(input@.skip(pos as int).drop_first() =~= input@.skip(pos + 1));
        }
        Option::Some((false, pos + 1))
    } else {
        Option::None
    }
}

/// Parses an optional byte string.
pub fn parse_opt_bytes(input: &[u8], pos: usize) -> (r: Option<(Option<Vec<u8>>, usize)>)
    requires
        pos <= input@.len(),
    ensures
        match r {
            Option::Some(p) => pos < p.1 <= input@.len() && sparse_opt_bytes(
                input@.skip(pos as int),
            ) == Option::Some(
                (
                    match p.0 {
                        Option::Some(b) => Option::Some(b@),
                        Option::None => Option::None,
                    },
                    input@.skip(p.1 as int),
                ),
            ),
            Option::None => sparse_opt_bytes(input@.skip(pos as int)) is None,
        },
{
    if pos < input.len() && input[pos] == NONE_TAG {
        proof {
            assert(input@.skip(pos as int).drop_first() =~= input@.skip(pos + 1));
        }
        Option::Some((Option::None, pos + 1))
    } else if pos < input.len() && input[pos] == SOME_TAG {
        proof {
            assert(input@.skip(pos as int).drop_first() =~= input@.skip(pos + 1));
        }
        match parse_bytes(input, pos + 1) {
            Option::Some((b, end)) => Option::Some((Option::Some(b), end)),
            Option::None => Option::None,
        }
    } else {
        Option::None
    }
}

/// Parses a signed number.
pub fn parse_i64(input: &[u8], pos: usize) -> (r: Option<(i64, usize)>)
    requires
        pos <= input@.len(),
    ensures
        match r {
            Option::Some(p) => pos < p.1 <= input@.len() && sparse_i64(input@.skip(pos as int))
                == Option::Some((p.0, input@.skip(p.1 as int))),
            Option::None => sparse_i64(input@.skip(pos as int)) is None,
        },
{
    if pos < input.len() && input[pos] == MINUS_TAG {
        proof {
            assert(input@.skip(pos as int).drop_first() =~= input@.skip(pos + 1));
        }
        match parse_u64(input, pos + 1) {
            Option::Some((n, end)) => {
                if n == 0 || n > 9223372036854775808u64 {
                    Option::None
                } else {
                    let v: i64 = if n == 9223372036854775808u64 {
                        i64::MIN
                    } else {
                        -(n as i64)
                    };
                    assert(v == (-(n as int)) as i64);
                    Option::Some((v, end))
                }
            },
            Option::None => Option::None,
        }
    } else if pos < input.len() && input[pos] == PLUS_TAG {
        proof {
            assert(input@.skip(pos as int).drop_first() =~= input@.skip(pos + 1));
        }
        match parse_u64(input, pos + 1) {
            Option::Some((n, end)) => {
                if n > i64::MAX as u64 {
                    Option::None
                } else {
                    Option::Some((n as i64, end))
                }
            },
            Option::None => Option::None,
        }
    } else {
        Option::None
    }
}


/// Appending an element extends the encoded row at its end.
pub proof fn lemma_enc_each_push<T>(items: Seq<T>, x: T, e: spec_fn(T) -> Seq<u8>)
    ensures
        enc_each(items.push(x), e) == enc_each(items, e) + e(x),
    decreases items.len(),
{
    if items.len() == 0 {
        let p = items.push(x);
        assert(p.len() == 1);
        assert(p[0] == x);
        assert(p.drop_first() =~= Seq::<T>::empty());
        assert(enc_each(p.drop_first(), e) == Seq::<u8>::empty());
        assert(enc_each(p, e) == e(x) + enc_each(p.drop_first(), e));
        assert(enc_each(items, e) == Seq::<u8>::empty());
        assert(enc_each(p, e) =~= enc_each(items, e) + e(x));
    } else {
        lemma_enc_each_push(items.drop_first(), x, e);
        assert(items.push(x).drop_first() =~= items.drop_first().push(x));
        assert(items.push(x)[0] == items[0]);
        assert(e(items[0]) + (enc_each(items.drop_first(), e) + e(x)) =~= (e(items[0])
            + enc_each(items.drop_first(), e)) + e(x));
    }
}


/// The encoding of a pair of byte strings, used for list items.
pub open spec fn enc_pair(a: Seq<u8>, b: Seq<u8>) -> Seq<u8> {
    enc_bytes(a) + enc_bytes(b)
}

/// The parse of a whole byte string as a pair.
pub open spec fn parse_pair_bytes(s: Seq<u8>) -> Option<(Seq<u8>, Seq<u8>)> {
    match sparse_bytes(s) {
        Option::Some((a, r1)) => match sparse_bytes(r1) {
            Option::Some((b, r2)) => {
                if r2.len() == 0 {
                    Option::Some((a, b))
                } else {
                    Option::None
                }
            },
            Option::None => Option::None,
        },
        Option::None => Option::None,
    }
}

pub proof fn lemma_pair_rt(a: Seq<u8>, b: Seq<u8>)
    requires
        a.len() <= u64::MAX,
        b.len() <= u64::MAX,
    ensures
        parse_pair_bytes(enc_pair(a, b)) == Option::Some((a, b)),
{
    assert(enc_pair(a, b) =~= enc_bytes(a) + (enc_bytes(b) + Seq::<u8>::empty()));
    lemma_bytes_rt(a, enc_bytes(b) + Seq::<u8>::empty());
    lemma_bytes_rt(b, Seq::<u8>::empty());
    assert(enc_bytes(b) + Seq::<u8>::empty() =~= enc_bytes(b));
}

/// Encodes a pair of byte strings.
pub fn encode_pair(a: &[u8], b: &[u8]) -> (r: Vec<u8>)
    ensures
        r@ == enc_pair(a@, b@),
{
    let mut out: Vec<u8> = Vec::new();
    emit_bytes(&mut out, a);
    emit_bytes(&mut out, b);
    proof {
        assert(out@ =~= enc_pair(a@, b@));
    }
    out
}

/// Parses a whole byte string as a pair of byte strings.
pub fn parse_pair(input: &[u8]) -> (r: Option<(Vec<u8>, Vec<u8>)>)
    ensures
        match r {
            Option::Some(p) => parse_pair_bytes(input@) == Option::Some((p.0@, p.1@)),
            Option::None => parse_pair_bytes(input@) is None,
        },
{
    proof {
        assert(input@.skip(0) =~= input@);
    }
    let (a, p1) = match parse_bytes(input, 0) {
        Option::Some(x) => x,
        Option::None => {
            return Option::None;
        },
    };
    let (b, p2) = match parse_bytes(input, p1) {
        Option::Some(x) => x,
        Option::None => {
            return Option::None;
        },
    };
    if p2 != input.len() {
        return Option::None;
    }
    assert(input@.skip(p2 as int).len() == 0);
    Option::Some((a, b))
}

} // verus!
