//! Byte-string helpers shared by the whole library: literals as bytes,
//! equality, concatenation, and decimal / hexadecimal digit encodings.

use vstd::prelude::*;

verus! {

use vstd::string::StringSliceAdditionalSpecFns;

/// The bytes of a string literal, as a fresh vector.
pub fn bytes_of(s: &str) -> (r: Vec<u8>)
    ensures
        r@ == s.spec_bytes(),
{
    vstd::slice::slice_to_vec(s.as_bytes())
}

/// Byte-wise equality of two byte strings.
pub fn eq_bytes(a: &[u8], b: &[u8]) -> (r: bool)
    ensures
        r == (a@ == b@),
{
    if a.len() != b.len() {
        assert(a@ != b@);
        return false;
    }
    let n = a.len();
    let mut i: usize = 0;
    while i < n
        invariant
            n == a@.len() == b@.len(),
            i <= n,
            forall|j: int| 0 <= j < i ==> a@[j] == b@[j],
        decreases n - i,
    {
        if a[i] != b[i] {
            return false;
        }
        i = i + 1;
    }
    assert(a@ =~= b@);
    true
}

/// Appends all of `b` to `out`.
pub fn append_bytes(out: &mut Vec<u8>, b: &[u8])
    ensures
        final(out)@ == old(out)@ + b@,
{
    let n = b.len();
    let mut i: usize = 0;
    while i < n
        invariant
            n == b@.len(),
            i <= n,
            out@ == old(out)@ + b@.subrange(0, i as int),
        decreases n - i,
    {
        out.push(b[i]);
        assert(b@.subrange(0, i as int).push(b@[i as int]) =~= b@.subrange(0, i + 1));
        i = i + 1;
    }
    assert(b@.subrange(0, n as int) =~= b@);
}

/// `a` followed by `b`, as a fresh vector.
pub fn concat_bytes(a: &[u8], b: &[u8]) -> (r: Vec<u8>)
    ensures
        r@ == a@ + b@,
{
    let mut out = vstd::slice::slice_to_vec(a);
    append_bytes(&mut out, b);
    out
}

pub open spec fn is_dec_digit(b: u8) -> bool {
    48 <= b <= 57
}

/// The minimal decimal digit string of `n` (most significant digit first).
pub open spec fn spec_dec(n: nat) -> Seq<u8>
    decreases n,
{
    if n < 10 {
        seq![(48 + n) as u8]
    } else {
        spec_dec(n / 10).push((48 + n % 10) as u8)
    }
}

/// The value of a decimal digit string (digits are assumed in range).
pub open spec fn spec_dec_val(digits: Seq<u8>) -> nat
    decreases digits.len(),
{
    if digits.len() == 0 {
        0
    } else {
        spec_dec_val(digits.drop_last()) * 10 + ((digits.last() - 48) as nat)
    }
}

pub proof fn lemma_dec_digits(n: nat)
    ensures
        spec_dec(n).len() >= 1,
        forall|i: int| 0 <= i < spec_dec(n).len() ==> is_dec_digit(#[trigger] spec_dec(n)[i]),
        spec_dec(n)[0] == 48 <==> n == 0,
    decreases n,
{
    if n >= 10 {
        lemma_dec_digits(n / 10);
    }
}

pub proof fn lemma_dec_val(n: nat)
    ensures
        spec_dec_val(spec_dec(n)) == n,
    decreases n,
{
    if n < 10 {
        assert(spec_dec(n) == seq![(48 + n) as u8]);
        assert(spec_dec(n).drop_last() =~= Seq::<u8>::empty());
        assert(spec_dec(n).last() == (48 + n) as u8);
        assert(spec_dec_val(Seq::<u8>::empty()) == 0);
        assert(spec_dec_val(spec_dec(n)) == 0 * 10 + ((((48 + n) as u8) - 48) as nat));
        assert((((48 + n) as u8) - 48) as nat == n);
    } else {
        lemma_dec_val(n / 10);
        assert(spec_dec(n).drop_last() =~= spec_dec(n / 10));
        assert(spec_dec(n).last() == (48 + n % 10) as u8);
        assert(spec_dec_val(spec_dec(n)) == (n / 10) * 10 + n % 10);
        assert(n == (n / 10) * 10 + n % 10) by (nonlinear_arith);
    }
}

/// Extending a digit string never lowers its value.
pub proof fn lemma_dec_val_prefix(digits: Seq<u8>, k: int)
    requires
        0 <= k <= digits.len(),
    ensures
        spec_dec_val(digits) >= spec_dec_val(digits.take(k)),
    decreases digits.len() - k,
{
    if k < digits.len() {
        lemma_dec_val_prefix(digits, k + 1);
        assert(digits.take(k + 1).drop_last() =~= digits.take(k));
        assert(spec_dec_val(digits.take(k + 1)) == spec_dec_val(digits.take(k)) * 10 + ((
        digits.take(k + 1).last() - 48) as nat));
        assert(spec_dec_val(digits.take(k)) * 10 >= spec_dec_val(digits.take(k))) by (nonlinear_arith);
    } else {
        assert(digits.take(k) =~= digits);
    }
}

/// Minimal decimal digits of `n`, most significant first.
pub fn dec_u64(n: u64) -> (r: Vec<u8>)
    ensures
        r@ == spec_dec(n as nat),
{
    let mut rev: Vec<u8> = Vec::new();
    let mut m: u64 = n;
    proof {
        assert(spec_dec(n as nat) =~= spec_dec(n as nat) + rev@.reverse());
    }
    loop
        invariant_except_break
            spec_dec(n as nat) == spec_dec(m as nat) + rev@.reverse(),
        ensures
            spec_dec(n as nat) == rev@.reverse(),
        decreases m,
    {
        let d: u8 = (m % 10) as u8;
        let next = m / 10;
        proof {
            if m >= 10 {
                assert(spec_dec(m as nat) =~= spec_dec((m / 10) as nat).push((48 + m % 10) as u8));
                assert(spec_dec((m / 10) as nat).push((48 + d) as u8) + rev@.reverse() =~= spec_dec(
                (m / 10) as nat) + (rev@.push((48 + d) as u8)).reverse());
            } else {
                assert(spec_dec(m as nat) =~= seq![(48 + d) as u8]);
                assert(seq![(48 + d) as u8] + rev@.reverse() =~= (rev@.push(
                (48 + d) as u8)).reverse());
            }
        }
        rev.push(48 + d);
        if next == 0 {
            break;
        }
        m = next;
    }
    let mut out: Vec<u8> = Vec::new();
    let mut i: usize = rev.len();
    while i > 0
        invariant
            i <= rev@.len(),
            out@ == rev@.subrange(i as int, rev@.len() as int).reverse(),
        decreases i,
    {
        i = i - 1;
        out.push(rev[i]);
        proof {
            let tail = rev@.subrange(i as int, rev@.len() as int);
            assert(tail =~= seq![rev@[i as int]] + rev@.subrange(i + 1, rev@.len() as int));
            assert(tail.reverse() =~= rev@.subrange(i + 1, rev@.len() as int).reverse().push(
            rev@[i as int]));
        }
    }
    assert(out@ == spec_dec(n as nat)) by {
        assert(rev@.subrange(0, rev@.len() as int) =~= rev@);
    }
    out
}

pub open spec fn spec_hex_digit(n: u8) -> u8 {
    if n < 10 {
        (48 + n) as u8
    } else {
        (87 + n) as u8
    }
}

/// Lower-case hexadecimal digits of a byte string, two per byte.
pub open spec fn spec_hex(bytes: Seq<u8>) -> Seq<u8>
    decreases bytes.len(),
{
    if bytes.len() == 0 {
        Seq::empty()
    } else {
        spec_hex(bytes.drop_last()) + seq![
            spec_hex_digit(bytes.last() / 16),
            spec_hex_digit((bytes.last() % 16) as u8),
        ]
    }
}

/// Lower-case hexadecimal encoding of a byte string.
pub fn hex_bytes(bytes: &[u8]) -> (r: Vec<u8>)
    ensures
        r@ == spec_hex(bytes@),
{
    let n = bytes.len();
    let mut out: Vec<u8> = Vec::new();
    let mut i: usize = 0;
    while i < n
        invariant
            n == bytes@.len(),
            i <= n,
            out@ == spec_hex(bytes@.subrange(0, i as int)),
        decreases n - i,
    {
        let b = bytes[i];
        let hi: u8 = b / 16;
        let lo: u8 = b % 16;
        out.push(if hi < 10 {
            48 + hi
        } else {
            87 + hi
        });
        out.push(if lo < 10 {
            48 + lo
        } else {
            87 + lo
        });
        proof {
            let pre = bytes@.subrange(0, i + 1);
            assert(pre.drop_last() =~= bytes@.subrange(0, i as int));
            assert(pre.last() == bytes@[i as int]);
        }
        i = i + 1;
    }
    assert(bytes@.subrange(0, n as int) =~= bytes@);
    out
}


/// The decimal digit string of a signed number: a minus sign for a
/// negative value, then the digits of its magnitude.
pub open spec fn spec_dec_i64(v: i64) -> Seq<u8> {
    if v < 0 {
        seq![45u8] + spec_dec((-(v as int)) as nat)
    } else {
        spec_dec(v as nat)
    }
}

/// Decimal digits of a signed number.
pub fn dec_i64(v: i64) -> (r: Vec<u8>)
    ensures
        r@ == spec_dec_i64(v),
{
    if v < 0 {
        let mag: u64 = if v == i64::MIN {
            9223372036854775808u64
        } else {
            (-v) as u64
        };
        assert(mag as nat == (-(v as int)) as nat);
        let mut out: Vec<u8> = Vec::new();
        out.push(45);
        let digits = dec_u64(mag);
        append_bytes(&mut out, digits.as_slice());
        proof {
            assert(out@ =~= spec_dec_i64(v));
        }
        out
    } else {
        dec_u64(v as u64)
    }
}

} // verus!
