//! Byte-level atoms of the wire format: ASCII literals, decimal integers and
//! lowercase hexadecimal runs, each with an emitter, a parser and the lemmas
//! that tie the two together.
use vstd::prelude::*;
use vstd::string::*;

verus! {

/// The bytes of an ASCII string slice, character by character.
pub open spec fn bytes_of_str(s: &str) -> Seq<u8> {
    Seq::new(s@.len(), |i: int| s@[i] as u8)
}

/// `lit` occurs in `s` starting at position `i`.
pub open spec fn lit_at(s: Seq<u8>, i: int, lit: Seq<u8>) -> bool {
    0 <= i && i + lit.len() <= s.len() && s.subrange(i, i + lit.len()) == lit
}

pub open spec fn is_digit_b(b: u8) -> bool {
    48 <= b <= 57
}

pub open spec fn digit_of(n: nat) -> u8
    recommends
        n < 10,
{
    (48 + n) as u8
}

/// Decimal digits of `n`, most significant first.
pub open spec fn dec_bytes(n: nat) -> Seq<u8>
    decreases n,
{
    if n < 10 {
        seq![digit_of(n)]
    } else {
        dec_bytes(n / 10) + seq![digit_of(n % 10)]
    }
}

/// Value of a run of decimal digits.
pub open spec fn dec_val(s: Seq<u8>) -> nat
    decreases s.len(),
{
    if s.len() == 0 {
        0
    } else {
        dec_val(s.drop_last()) * 10 + (s.last() - 48) as nat
    }
}

pub open spec fn pow10(k: nat) -> nat
    decreases k,
{
    if k == 0 {
        1
    } else {
        10 * pow10((k - 1) as nat)
    }
}

/// First position at or after `i` that does not hold a decimal digit.
pub open spec fn scan_digits(s: Seq<u8>, i: int) -> int
    decreases s.len() - i,
{
    if i < s.len() && is_digit_b(s[i]) {
        scan_digits(s, i + 1)
    } else {
        i
    }
}

/// Decimal bytes of a signed integer: a leading minus sign for negatives.
pub open spec fn int_bytes(x: int) -> Seq<u8> {
    if x < 0 {
        seq![45u8] + dec_bytes((-x) as nat)
    } else {
        dec_bytes(x as nat)
    }
}

pub proof fn lemma_dec_bytes_all_digits(n: nat)
    ensures
        forall|i: int| 0 <= i < dec_bytes(n).len() ==> is_digit_b(#[trigger] dec_bytes(n)[i]),
    decreases n,
{
    if n < 10 {
        assert(dec_bytes(n) =~= seq![digit_of(n)]);
    } else {
        lemma_dec_bytes_all_digits(n / 10);
        let a = dec_bytes(n / 10);
        let whole = a + seq![digit_of(n % 10)];
        assert(dec_bytes(n) == whole);
        assert forall|i: int| 0 <= i < whole.len() implies is_digit_b(#[trigger] whole[i]) by {
            if i < a.len() {
                assert(whole[i] == a[i]);
            } else {
                assert(whole[i] == digit_of(n % 10));
            }
        }
    }
}

pub proof fn lemma_dec_val_round(n: nat)
    ensures
        dec_val(dec_bytes(n)) == n,
    decreases n,
{
    if n < 10 {
        assert(dec_bytes(n) =~= seq![digit_of(n)]);
        assert(seq![digit_of(n)].drop_last() =~= Seq::<u8>::empty());
        assert(dec_val(Seq::<u8>::empty()) == 0);
        assert(seq![digit_of(n)].last() == digit_of(n));
        assert(dec_val(seq![digit_of(n)]) == n);
    } else {
        lemma_dec_val_round(n / 10);
        let a = dec_bytes(n / 10);
        let whole = a + seq![digit_of(n % 10)];
        assert(whole.drop_last() =~= a);
        assert(whole.last() == digit_of(n % 10));
        assert(dec_val(whole) == dec_val(a) * 10 + (n % 10));
    }
}

pub proof fn lemma_pow10_mono(a: nat, b: nat)
    requires
        a <= b,
    ensures
        pow10(a) <= pow10(b),
    decreases b,
{
    if a < b {
        lemma_pow10_mono(a, (b - 1) as nat);
        assert(pow10(b) == 10 * pow10((b - 1) as nat));
    }
}

/// `n < 10^k` gives at most `k` decimal digits.
pub proof fn lemma_dec_bytes_len(n: nat, k: nat)
    requires
        1 <= k,
        n < pow10(k),
    ensures
        dec_bytes(n).len() <= k,
    decreases n,
{
    if n >= 10 {
        assert(pow10(k) == 10 * pow10((k - 1) as nat));
        assert(n / 10 < pow10((k - 1) as nat));
        lemma_dec_bytes_len(n / 10, (k - 1) as nat);
    }
}

/// A scan that starts before a run of digits followed by a non-digit (or the
/// end of the sequence) stops exactly at the end of the run.
pub proof fn lemma_scan_digits_region(s: Seq<u8>, i: int, j: int)
    requires
        0 <= i <= j <= s.len(),
        forall|k: int| i <= k < j ==> is_digit_b(#[trigger] s[k]),
        j == s.len() || !is_digit_b(s[j]),
    ensures
        scan_digits(s, i) == j,
    decreases j - i,
{
    if i < j {
        lemma_scan_digits_region(s, i + 1, j);
    }
}

pub proof fn lemma_scan_digits_in_bounds(s: Seq<u8>, i: int)
    requires
        0 <= i <= s.len(),
    ensures
        i <= scan_digits(s, i) <= s.len(),
        forall|k: int| i <= k < scan_digits(s, i) ==> is_digit_b(#[trigger] s[k]),
        scan_digits(s, i) == s.len() || !is_digit_b(s[scan_digits(s, i)]),
    decreases s.len() - i,
{
    if i < s.len() && is_digit_b(s[i]) {
        lemma_scan_digits_in_bounds(s, i + 1);
    }
}

/// Append the bytes of an ASCII literal.
pub fn push_lit(out: &mut Vec<u8>, lit: &str)
    requires
        is_ascii(lit),
    ensures
        final(out)@ == old(out)@ + bytes_of_str(lit),
{
    proof {
        is_ascii_spec_bytes(lit);
    }
    let ghost start = out@;
    let b: &[u8] = lit.as_bytes();
    let n: usize = b.len();
    let mut k: usize = 0;
    while k < n
        invariant
            k <= n,
            n == b@.len(),
            b@ == bytes_of_str(lit),
            out@ == start + bytes_of_str(lit).take(k as int),
        decreases n - k,
    {
        out.push(b[k]);
        proof {
            assert(bytes_of_str(lit).take(k + 1) =~= bytes_of_str(lit).take(k as int) + seq![
                bytes_of_str(lit)[k as int],
            ]);
        }
        k = k + 1;
    }
    proof {
        assert(bytes_of_str(lit).take(n as int) =~= bytes_of_str(lit));
    }
}

/// Whether the bytes of `lit` stand at position `i` of `s`; on success the
/// position just past them.
pub fn match_lit(s: &Vec<u8>, i: usize, lit: &str) -> (r: Option<usize>)
    requires
        is_ascii(lit),
    ensures
        match r {
            Some(j) => lit_at(s@, i as int, bytes_of_str(lit)) && j == i + lit@.len(),
            None => !lit_at(s@, i as int, bytes_of_str(lit)),
        },
{
    proof {
        is_ascii_spec_bytes(lit);
    }
    let b: &[u8] = lit.as_bytes();
    let n: usize = b.len();
    let sl: usize = s.len();
    if sl < n || i > sl - n {
        return None;
    }
    let mut k: usize = 0;
    while k < n
        invariant
            k <= n,
            n == b@.len(),
            b@ == bytes_of_str(lit),
            sl == s@.len(),
            i + n <= sl,
            forall|t: int| 0 <= t < k ==> s@[i + t] == bytes_of_str(lit)[t],
        decreases n - k,
    {
        if s[i + k] != b[k] {
            proof {
                assert(s@.subrange(i as int, i + n) != bytes_of_str(lit)) by {
                    assert(s@.subrange(i as int, i + n)[k as int] != bytes_of_str(lit)[k as int]);
                }
            }
            return None;
        }
        k = k + 1;
    }
    proof {
        assert(s@.subrange(i as int, i + n) =~= bytes_of_str(lit));
    }
    Some(i + n)
}

pub open spec fn is_hex_b(b: u8) -> bool {
    is_digit_b(b) || (97 <= b <= 102)
}

pub open spec fn hex_val_b(b: u8) -> nat
    recommends
        is_hex_b(b),
{
    if is_digit_b(b) {
        (b - 48) as nat
    } else {
        (b - 97 + 10) as nat
    }
}

pub open spec fn hex_digit_of(n: nat) -> u8
    recommends
        n < 16,
{
    if n < 10 {
        (48 + n) as u8
    } else {
        (97 + (n - 10)) as u8
    }
}

/// The low `k` hexadecimal digits of `n`, most significant first.
pub open spec fn hex_fixed(n: nat, k: nat) -> Seq<u8>
    decreases k,
{
    if k == 0 {
        Seq::<u8>::empty()
    } else {
        hex_fixed(n / 16, (k - 1) as nat) + seq![hex_digit_of(n % 16)]
    }
}

pub open spec fn hex_seq_val(s: Seq<u8>) -> nat
    decreases s.len(),
{
    if s.len() == 0 {
        0
    } else {
        hex_seq_val(s.drop_last()) * 16 + hex_val_b(s.last())
    }
}

pub open spec fn pow16(k: nat) -> nat
    decreases k,
{
    if k == 0 {
        1
    } else {
        16 * pow16((k - 1) as nat)
    }
}

/// Lowercase hexadecimal rendering of a byte sequence, two digits per byte.
pub open spec fn hex_of_bytes(bs: Seq<u8>) -> Seq<u8>
    decreases bs.len(),
{
    if bs.len() == 0 {
        Seq::<u8>::empty()
    } else {
        hex_of_bytes(bs.drop_last()) + hex_fixed(bs.last() as nat, 2)
    }
}

/// Bytes of an even-length hexadecimal digit run.
pub open spec fn bytes_of_hex(s: Seq<u8>) -> Seq<u8>
    decreases s.len(),
{
    if s.len() < 2 {
        Seq::<u8>::empty()
    } else {
        bytes_of_hex(s.drop_last().drop_last()) + seq![
            (hex_val_b(s[s.len() - 2]) * 16 + hex_val_b(s.last())) as u8,
        ]
    }
}

pub open spec fn scan_hex(s: Seq<u8>, i: int) -> int
    decreases s.len() - i,
{
    if i < s.len() && is_hex_b(s[i]) {
        scan_hex(s, i + 1)
    } else {
        i
    }
}

pub open spec fn scan_to_quote(s: Seq<u8>, i: int) -> int
    decreases s.len() - i,
{
    if i < s.len() && s[i] != 34u8 {
        scan_to_quote(s, i + 1)
    } else {
        i
    }
}

pub proof fn lemma_pow16_two()
    ensures
        pow16(2) == 256,
{
    assert(pow16(0) == 1);
    assert(pow16(1) == 16);
    assert(pow16(2) == 256);
}

pub proof fn lemma_pow16_mono(a: nat, b: nat)
    requires
        a <= b,
    ensures
        pow16(a) <= pow16(b),
    decreases b,
{
    if a < b {
        lemma_pow16_mono(a, (b - 1) as nat);
        assert(pow16(b) == 16 * pow16((b - 1) as nat));
    }
}

/// Fixed-width hexadecimal: `k` digits, all hex, and the value reads back.
pub proof fn lemma_hex_fixed_props(n: nat, k: nat)
    requires
        n < pow16(k),
    ensures
        hex_fixed(n, k).len() == k,
        forall|i: int| 0 <= i < k ==> is_hex_b(#[trigger] hex_fixed(n, k)[i]),
        hex_seq_val(hex_fixed(n, k)) == n,
    decreases k,
{
    if k == 0 {
        assert(hex_seq_val(Seq::<u8>::empty()) == 0);
    } else {
        assert(pow16(k) == 16 * pow16((k - 1) as nat));
        lemma_hex_fixed_props(n / 16, (k - 1) as nat);
        let a = hex_fixed(n / 16, (k - 1) as nat);
        let d = hex_digit_of(n % 16);
        let whole = a + seq![d];
        assert(hex_fixed(n, k) == whole);
        assert(whole.drop_last() =~= a);
        assert(whole.last() == d);
        assert(hex_val_b(d) == n % 16);
        assert(hex_seq_val(whole) == (n / 16) * 16 + n % 16);
        assert forall|i: int| 0 <= i < k implies is_hex_b(#[trigger] whole[i]) by {
            if i < a.len() {
                assert(whole[i] == a[i]);
            } else {
                assert(whole[i] == d);
            }
        }
    }
}

pub proof fn lemma_scan_hex_region(s: Seq<u8>, i: int, j: int)
    requires
        0 <= i <= j <= s.len(),
        forall|k: int| i <= k < j ==> is_hex_b(#[trigger] s[k]),
        j == s.len() || !is_hex_b(s[j]),
    ensures
        scan_hex(s, i) == j,
    decreases j - i,
{
    if i < j {
        lemma_scan_hex_region(s, i + 1, j);
    }
}

pub proof fn lemma_scan_quote_region(s: Seq<u8>, i: int, j: int)
    requires
        0 <= i <= j <= s.len(),
        forall|k: int| i <= k < j ==> #[trigger] s[k] != 34u8,
        j == s.len() || s[j] == 34u8,
    ensures
        scan_to_quote(s, i) == j,
    decreases j - i,
{
    if i < j {
        lemma_scan_quote_region(s, i + 1, j);
    }
}

pub proof fn lemma_scan_quote_in_bounds(s: Seq<u8>, i: int)
    requires
        0 <= i <= s.len(),
    ensures
        i <= scan_to_quote(s, i) <= s.len(),
        forall|k: int| i <= k < scan_to_quote(s, i) ==> #[trigger] s[k] != 34u8,
        scan_to_quote(s, i) == s.len() || s[scan_to_quote(s, i)] == 34u8,
    decreases s.len() - i,
{
    if i < s.len() && s[i] != 34u8 {
        lemma_scan_quote_in_bounds(s, i + 1);
    }
}

pub proof fn lemma_scan_hex_in_bounds(s: Seq<u8>, i: int)
    requires
        0 <= i <= s.len(),
    ensures
        i <= scan_hex(s, i) <= s.len(),
        forall|k: int| i <= k < scan_hex(s, i) ==> is_hex_b(#[trigger] s[k]),
        scan_hex(s, i) == s.len() || !is_hex_b(s[scan_hex(s, i)]),
    decreases s.len() - i,
{
    if i < s.len() && is_hex_b(s[i]) {
        lemma_scan_hex_in_bounds(s, i + 1);
    }
}

/// Two hex digits per byte, all of them hex digits.
pub proof fn lemma_hex_of_bytes_props(bs: Seq<u8>)
    ensures
        hex_of_bytes(bs).len() == 2 * bs.len(),
        forall|i: int| 0 <= i < 2 * bs.len() ==> is_hex_b(#[trigger] hex_of_bytes(bs)[i]),
    decreases bs.len(),
{
    if bs.len() > 0 {
        lemma_hex_of_bytes_props(bs.drop_last());
        lemma_pow16_two();
        lemma_hex_fixed_props(bs.last() as nat, 2);
        let a = hex_of_bytes(bs.drop_last());
        let t = hex_fixed(bs.last() as nat, 2);
        let whole = a + t;
        assert(hex_of_bytes(bs) == whole);
        assert forall|i: int| 0 <= i < whole.len() implies is_hex_b(#[trigger] whole[i]) by {
            if i < a.len() {
                assert(whole[i] == a[i]);
            } else {
                assert(whole[i] == t[i - a.len()]);
            }
        }
    }
}

/// Hexadecimal rendering reads back to the same bytes.
pub proof fn lemma_bytes_of_hex_round(bs: Seq<u8>)
    ensures
        bytes_of_hex(hex_of_bytes(bs)) =~= bs,
    decreases bs.len(),
{
    if bs.len() > 0 {
        lemma_bytes_of_hex_round(bs.drop_last());
        lemma_hex_of_bytes_props(bs.drop_last());
        lemma_pow16_two();
        lemma_hex_fixed_props(bs.last() as nat, 2);
        let a = hex_of_bytes(bs.drop_last());
        let t = hex_fixed(bs.last() as nat, 2);
        let whole = a + t;
        assert(hex_of_bytes(bs) == whole);
        assert(t.len() == 2);
        assert(whole.len() == a.len() + 2);
        assert(whole.drop_last().drop_last() =~= a);
        assert(whole[whole.len() - 2] == t[0]);
        assert(whole.last() == t[1]);
        assert(hex_fixed(bs.last() as nat, 2) == hex_fixed((bs.last() as nat) / 16, 1) + seq![
            hex_digit_of((bs.last() as nat) % 16),
        ]);
        assert(hex_fixed((bs.last() as nat) / 16, 1) =~= hex_fixed((bs.last() as nat) / 16 / 16, 0)
            + seq![hex_digit_of(((bs.last() as nat) / 16) % 16)]);
        assert(t[0] == hex_digit_of(((bs.last() as nat) / 16) % 16));
        assert(t[1] == hex_digit_of((bs.last() as nat) % 16));
        assert(hex_val_b(t[0]) * 16 + hex_val_b(t[1]) == bs.last());
        assert(bytes_of_hex(whole) == bytes_of_hex(a) + seq![
            (hex_val_b(whole[whole.len() - 2]) * 16 + hex_val_b(whole.last())) as u8,
        ]);
    }
}

pub proof fn lemma_pow10_nineteen()
    ensures
        pow10(19) == 10000000000000000000,
{
    reveal_with_fuel(pow10, 20);
}

pub proof fn lemma_pow16_thirtytwo()
    ensures
        pow16(32) == 0x100000000000000000000000000000000,
{
    reveal_with_fuel(pow16, 33);
}

pub proof fn lemma_dec_bytes_nonempty(n: nat)
    ensures
        1 <= dec_bytes(n).len(),
{
    if n < 10 {
        assert(dec_bytes(n) == seq![digit_of(n)]);
    } else {
        assert(dec_bytes(n) == dec_bytes(n / 10) + seq![digit_of(n % 10)]);
    }
}

/// Positional parse of a signed decimal integer of at most 19 digits.
pub open spec fn parse_int_at(s: Seq<u8>, i: int) -> Option<(int, int)> {
    if 0 <= i && i < s.len() && s[i] == 45u8 {
        let j = scan_digits(s, i + 1);
        if j == i + 1 || j - (i + 1) > 19 {
            None
        } else if dec_val(s.subrange(i + 1, j)) > 0x8000000000000000 {
            None
        } else {
            Some((-(dec_val(s.subrange(i + 1, j)) as int), j))
        }
    } else if 0 <= i <= s.len() {
        let j = scan_digits(s, i);
        if j == i || j - i > 19 {
            None
        } else if dec_val(s.subrange(i, j)) > 0x7fffffffffffffff {
            None
        } else {
            Some((dec_val(s.subrange(i, j)) as int, j))
        }
    } else {
        None
    }
}

pub open spec fn hex_run_at(s: Seq<u8>, i: int, k: int) -> bool {
    0 <= i && i + k <= s.len() && (forall|t: int| i <= t < i + k ==> is_hex_b(#[trigger] s[t]))
}

/// Positional parse of exactly 32 hexadecimal digits.
pub open spec fn parse_hex32_at(s: Seq<u8>, i: int) -> Option<(nat, int)> {
    if hex_run_at(s, i, 32) {
        Some((hex_seq_val(s.subrange(i, i + 32)), i + 32))
    } else {
        None
    }
}

/// Where a rendered integer stands and a non-digit follows, the parse
/// recovers exactly that integer.
pub proof fn lemma_parse_int_round(s: Seq<u8>, i: int, x: int)
    requires
        -0x8000000000000000 <= x <= 0x7fffffffffffffff,
        0 <= i,
        i + int_bytes(x).len() <= s.len(),
        s.subrange(i, i + int_bytes(x).len()) == int_bytes(x),
        i + int_bytes(x).len() == s.len() || !is_digit_b(s[i + int_bytes(x).len()]),
    ensures
        parse_int_at(s, i) == Some((x, i + int_bytes(x).len())),
{
    lemma_pow10_nineteen();
    let ib = int_bytes(x);
    let n = ib.len();
    assert(forall|k: int| 0 <= k < n ==> s[i + k] == #[trigger] ib[k]) by {
        assert(forall|k: int| 0 <= k < n ==> s.subrange(i, i + n)[k] == #[trigger] ib[k]);
    }
    if x < 0 {
        let m = (-x) as nat;
        let db = dec_bytes(m);
        lemma_dec_bytes_all_digits(m);
        lemma_dec_val_round(m);
        lemma_dec_bytes_nonempty(m);
        assert(m < pow10(19));
        lemma_dec_bytes_len(m, 19);
        assert(ib == seq![45u8] + db);
        assert(ib[0] == 45u8);
        assert(s[i + 0] == ib[0]);
        assert(s[i] == 45u8);
        assert(s.subrange(i + 1, i + n) =~= db) by {
            assert(forall|k: int| 0 <= k < db.len() ==> ib[1 + k] == #[trigger] db[k]);
        }
        assert(forall|k: int| i + 1 <= k < i + n ==> is_digit_b(#[trigger] s[k])) by {
            assert(forall|k: int| i + 1 <= k < i + n ==> s[k] == db[k - i - 1]);
        }
        lemma_scan_digits_region(s, i + 1, i + n);
        assert(dec_val(s.subrange(i + 1, i + n)) == m);
    } else {
        let db = dec_bytes(x as nat);
        lemma_dec_bytes_all_digits(x as nat);
        lemma_dec_val_round(x as nat);
        lemma_dec_bytes_nonempty(x as nat);
        assert(x < pow10(19));
        lemma_dec_bytes_len(x as nat, 19);
        assert(ib == db);
        assert(s[i] == db[0]);
        assert(is_digit_b(db[0]));
        assert(s[i] != 45u8);
        assert(s.subrange(i, i + n) =~= db);
        assert(forall|k: int| i <= k < i + n ==> is_digit_b(#[trigger] s[k])) by {
            assert(forall|k: int| i <= k < i + n ==> s[k] == db[k - i]);
        }
        lemma_scan_digits_region(s, i, i + n);
        assert(dec_val(s.subrange(i, i + n)) == x);
    }
}

/// Where 32 rendered hexadecimal digits stand, the parse recovers the value.
pub proof fn lemma_parse_hex32_round(s: Seq<u8>, i: int, n: nat)
    requires
        n < pow16(32),
        0 <= i,
        i + 32 <= s.len(),
        s.subrange(i, i + 32) == hex_fixed(n, 32),
    ensures
        parse_hex32_at(s, i) == Some((n, i + 32)),
{
    lemma_hex_fixed_props(n, 32);
    assert forall|t: int| i <= t < i + 32 implies is_hex_b(#[trigger] s[t]) by {
        assert(s[t] == s.subrange(i, i + 32)[t - i]);
    }
    assert(hex_run_at(s, i, 32));
}

/// A part of a region that stands at offset `a` of `whole` also stands in `s`
/// at `i + a`, where `whole` occupies `s` from `i`.
pub proof fn lemma_sub_region(s: Seq<u8>, i: int, whole: Seq<u8>, a: int, part: Seq<u8>)
    requires
        0 <= i,
        i + whole.len() <= s.len(),
        s.subrange(i, i + whole.len()) == whole,
        0 <= a,
        a + part.len() <= whole.len(),
        whole.subrange(a, a + part.len()) == part,
    ensures
        s.subrange(i + a, i + a + part.len()) == part,
{
    assert forall|k: int| 0 <= k < part.len() implies s[i + a + k] == #[trigger] part[k] by {
        assert(whole[a + k] == whole.subrange(a, a + part.len())[k]);
        assert(s[i + a + k] == s.subrange(i, i + whole.len())[a + k]);
    }
    assert(s.subrange(i + a, i + a + part.len()) =~= part);
}

/// A literal whose bytes differ from the region at some index does not stand
/// at the region's start.
pub proof fn lemma_tag_mismatch(s: Seq<u8>, i: int, whole: Seq<u8>, t: Seq<u8>, d: int)
    requires
        0 <= i,
        i + whole.len() <= s.len(),
        s.subrange(i, i + whole.len()) == whole,
        0 <= d < t.len(),
        d < whole.len(),
        whole[d] != t[d],
    ensures
        !lit_at(s, i, t),
{
    if i + t.len() <= s.len() {
        assert(s[i + d] == s.subrange(i, i + whole.len())[d]);
        assert(s.subrange(i, i + t.len())[d] == s[i + d]);
        assert(s.subrange(i, i + t.len()) != t);
    }
}

/// Append the decimal digits of `n`.
pub fn push_dec_u64(out: &mut Vec<u8>, n: u64)
    ensures
        final(out)@ == old(out)@ + dec_bytes(n as nat),
    decreases n,
{
    let ghost base = out@;
    if n < 10 {
        let d: u8 = (n as u8) + 48;
        out.push(d);
        proof {
            assert(d == digit_of(n as nat));
            assert(base + seq![digit_of(n as nat)] =~= base + dec_bytes(n as nat));
        }
    } else {
        push_dec_u64(out, n / 10);
        let d: u8 = ((n % 10) as u8) + 48;
        out.push(d);
        proof {
            assert(d == digit_of((n as nat) % 10));
            assert(base + dec_bytes((n / 10) as nat) + seq![digit_of((n as nat) % 10)] =~= base
                + dec_bytes(n as nat));
        }
    }
}

/// Append the decimal bytes of a signed integer.
pub fn push_int_i64(out: &mut Vec<u8>, x: i64)
    ensures
        final(out)@ == old(out)@ + int_bytes(x as int),
{
    let ghost base = out@;
    if x < 0 {
        out.push(45);
        let m: u64 = if x == i64::MIN {
            9223372036854775808u64
        } else {
            (-x) as u64
        };
        proof {
            assert(m as nat == (-(x as int)) as nat);
        }
        push_dec_u64(out, m);
        proof {
            assert(base + seq![45u8] + dec_bytes(m as nat) =~= base + int_bytes(x as int));
        }
    } else {
        push_dec_u64(out, x as u64);
    }
}

/// Append the low `k` hexadecimal digits of `n`.
pub fn push_hex_fixed(out: &mut Vec<u8>, n: u128, k: usize)
    ensures
        final(out)@ == old(out)@ + hex_fixed(n as nat, k as nat),
    decreases k,
{
    let ghost base = out@;
    if k == 0 {
        proof {
            assert(base + hex_fixed(n as nat, 0) =~= base);
        }
    } else {
        push_hex_fixed(out, n / 16, k - 1);
        let r: u8 = (n % 16) as u8;
        let d: u8 = if r < 10 {
            48 + r
        } else {
            97 + (r - 10)
        };
        out.push(d);
        proof {
            assert(d == hex_digit_of((n as nat) % 16));
            assert((n / 16) as nat == (n as nat) / 16);
            assert(base + hex_fixed((n as nat) / 16, (k - 1) as nat) + seq![
                hex_digit_of((n as nat) % 16),
            ] =~= base + hex_fixed(n as nat, k as nat));
        }
    }
}

/// Append the hexadecimal rendering of `data`, two digits per byte.
pub fn push_hex_pairs(out: &mut Vec<u8>, data: &Vec<u8>)
    ensures
        final(out)@ == old(out)@ + hex_of_bytes(data@),
{
    let ghost base = out@;
    proof {
        assert(data@.take(0) =~= Seq::<u8>::empty());
        assert(base + hex_of_bytes(Seq::<u8>::empty()) =~= base);
    }
    let mut i: usize = 0;
    let n: usize = data.len();
    while i < n
        invariant
            i <= n,
            n == data@.len(),
            out@ == base + hex_of_bytes(data@.take(i as int)),
        decreases n - i,
    {
        push_hex_fixed(out, data[i] as u128, 2);
        proof {
            assert(data@.take(i + 1).drop_last() =~= data@.take(i as int));
            assert(data@.take(i + 1).last() == data@[i as int]);
            assert(hex_of_bytes(data@.take(i + 1)) == hex_of_bytes(data@.take(i as int))
                + hex_fixed(data@[i as int] as nat, 2));
            assert(base + hex_of_bytes(data@.take(i as int)) + hex_fixed(
                data@[i as int] as nat,
                2,
            ) =~= base + hex_of_bytes(data@.take(i + 1)));
        }
        i = i + 1;
    }
    proof {
        assert(data@.take(n as int) =~= data@);
    }
}

/// First position at or after `i` without a decimal digit.
pub fn scan_digits_x(s: &Vec<u8>, i: usize) -> (j: usize)
    requires
        i <= s@.len(),
    ensures
        j as int == scan_digits(s@, i as int),
        i <= j <= s@.len(),
{
    let sl: usize = s.len();
    let mut j: usize = i;
    while j < sl && 48 <= s[j] && s[j] <= 57
        invariant
            i <= j <= sl,
            sl == s@.len(),
            scan_digits(s@, i as int) == scan_digits(s@, j as int),
        decreases sl - j,
    {
        proof {
            assert(scan_digits(s@, j as int) == scan_digits(s@, j + 1));
        }
        j = j + 1;
    }
    proof {
        assert(scan_digits(s@, j as int) == j);
    }
    j
}

/// First position at or after `i` without a hexadecimal digit.
pub fn scan_hex_x(s: &Vec<u8>, i: usize) -> (j: usize)
    requires
        i <= s@.len(),
    ensures
        j as int == scan_hex(s@, i as int),
        i <= j <= s@.len(),
{
    let sl: usize = s.len();
    let mut j: usize = i;
    while j < sl && (48 <= s[j] && s[j] <= 57 || 97 <= s[j] && s[j] <= 102)
        invariant
            i <= j <= sl,
            sl == s@.len(),
            scan_hex(s@, i as int) == scan_hex(s@, j as int),
        decreases sl - j,
    {
        proof {
            assert(scan_hex(s@, j as int) == scan_hex(s@, j + 1));
        }
        j = j + 1;
    }
    proof {
        assert(scan_hex(s@, j as int) == j);
    }
    j
}

/// First position at or after `i` holding a double quote.
pub fn scan_quote_x(s: &Vec<u8>, i: usize) -> (j: usize)
    requires
        i <= s@.len(),
    ensures
        j as int == scan_to_quote(s@, i as int),
        i <= j <= s@.len(),
{
    let sl: usize = s.len();
    let mut j: usize = i;
    while j < sl && s[j] != 34
        invariant
            i <= j <= sl,
            sl == s@.len(),
            scan_to_quote(s@, i as int) == scan_to_quote(s@, j as int),
        decreases sl - j,
    {
        proof {
            assert(scan_to_quote(s@, j as int) == scan_to_quote(s@, j + 1));
        }
        j = j + 1;
    }
    proof {
        assert(scan_to_quote(s@, j as int) == j);
    }
    j
}

/// Parse a signed decimal integer at position `i`.
pub fn parse_int(s: &Vec<u8>, i: usize) -> (r: Option<(i64, usize)>)
    requires
        i <= s@.len(),
    ensures
        match r {
            Some(p) => parse_int_at(s@, i as int) == Some((p.0 as int, p.1 as int)) && p.1
                <= s@.len(),
            None => parse_int_at(s@, i as int) is None,
        },
{
    let sl: usize = s.len();
    let neg: bool = i < sl && s[i] == 45;
    let start: usize = if neg {
        i + 1
    } else {
        i
    };
    let j: usize = scan_digits_x(s, start);
    if j == start || j - start > 19 {
        return None;
    }
    proof {
        lemma_scan_digits_in_bounds(s@, start as int);
        lemma_pow10_nineteen();
        assert(s@.subrange(start as int, start as int) =~= Seq::<u8>::empty());
    }
    let mut val: u64 = 0;
    let mut k: usize = start;
    while k < j
        invariant
            start <= k <= j <= sl,
            sl == s@.len(),
            j - start <= 19,
            forall|t: int| start <= t < j ==> is_digit_b(#[trigger] s@[t]),
            val == dec_val(s@.subrange(start as int, k as int)),
            val < pow10((k - start) as nat),
        decreases j - k,
    {
        let d: u8 = s[k] - 48;
        proof {
            lemma_pow10_mono((k - start + 1) as nat, 19);
            lemma_pow10_nineteen();
            assert(val * 10 + 10 <= pow10((k - start) as nat) * 10);
            assert(pow10((k - start) as nat) * 10 == pow10((k - start + 1) as nat));
            assert(s@.subrange(start as int, k + 1).drop_last() =~= s@.subrange(
                start as int,
                k as int,
            ));
            assert(s@.subrange(start as int, k + 1).last() == s@[k as int]);
        }
        val = val * 10 + (d as u64);
        k = k + 1;
    }
    if neg {
        if val > 9223372036854775808u64 {
            return None;
        }
        let x: i64 = if val == 9223372036854775808u64 {
            i64::MIN
        } else {
            -(val as i64)
        };
        Some((x, j))
    } else {
        if val > 9223372036854775807u64 {
            return None;
        }
        Some((val as i64, j))
    }
}

/// Parse exactly 32 hexadecimal digits at position `i`.
pub fn parse_hex32(s: &Vec<u8>, i: usize) -> (r: Option<(u128, usize)>)
    requires
        i <= s@.len(),
    ensures
        match r {
            Some(p) => parse_hex32_at(s@, i as int) == Some((p.0 as nat, p.1 as int)) && p.1
                <= s@.len(),
            None => parse_hex32_at(s@, i as int) is None,
        },
{
    let sl: usize = s.len();
    if sl < 32 || i > sl - 32 {
        proof {
            assert(!hex_run_at(s@, i as int, 32));
        }
        return None;
    }
    proof {
        assert(s@.subrange(i as int, i as int) =~= Seq::<u8>::empty());
    }
    let mut val: u128 = 0;
    let mut k: usize = 0;
    while k < 32
        invariant
            k <= 32,
            i + 32 <= sl,
            sl == s@.len(),
            forall|t: int| i <= t < i + k ==> is_hex_b(#[trigger] s@[t]),
            val == hex_seq_val(s@.subrange(i as int, i + k)),
            val < pow16(k as nat),
        decreases 32 - k,
    {
        let c: u8 = s[i + k];
        if !(48 <= c && c <= 57 || 97 <= c && c <= 102) {
            proof {
                assert(!is_hex_b(s@[i + k]));
                assert(!hex_run_at(s@, i as int, 32));
            }
            return None;
        }
        let dv: u8 = if c <= 57 {
            c - 48
        } else {
            c - 97 + 10
        };
        proof {
            lemma_pow16_mono((k + 1) as nat, 32);
            lemma_pow16_thirtytwo();
            assert(val * 16 + 16 <= pow16(k as nat) * 16);
            assert(pow16(k as nat) * 16 == pow16((k + 1) as nat));
            assert(s@.subrange(i as int, i + k + 1).drop_last() =~= s@.subrange(i as int, i + k));
            assert(s@.subrange(i as int, i + k + 1).last() == s@[i + k]);
            assert(dv == hex_val_b(s@[i + k]));
        }
        val = val * 16 + (dv as u128);
        k = k + 1;
    }
    proof {
        assert(hex_run_at(s@, i as int, 32));
    }
    Some((val, i + 32))
}

/// The bytes of `s` from `a` to `b`.
pub fn copy_region(s: &Vec<u8>, a: usize, b: usize) -> (r: Vec<u8>)
    requires
        a <= b <= s@.len(),
    ensures
        r@ == s@.subrange(a as int, b as int),
{
    proof {
        assert(s@.subrange(a as int, a as int) =~= Seq::<u8>::empty());
    }
    let mut r: Vec<u8> = Vec::new();
    let mut k: usize = a;
    while k < b
        invariant
            a <= k <= b <= s@.len(),
            r@ == s@.subrange(a as int, k as int),
        decreases b - k,
    {
        r.push(s[k]);
        proof {
            assert(s@.subrange(a as int, k + 1) =~= s@.subrange(a as int, k as int) + seq![
                s@[k as int],
            ]);
        }
        k = k + 1;
    }
    r
}

/// Decode an even-length hexadecimal region back into bytes.
pub fn bytes_from_hex_region(s: &Vec<u8>, a: usize, b: usize) -> (r: Vec<u8>)
    requires
        a <= b <= s@.len(),
        (b - a) % 2 == 0,
        forall|t: int| a <= t < b ==> is_hex_b(#[trigger] s@[t]),
    ensures
        r@ == bytes_of_hex(s@.subrange(a as int, b as int)),
{
    proof {
        assert(s@.subrange(a as int, a as int) =~= Seq::<u8>::empty());
    }
    let mut r: Vec<u8> = Vec::new();
    let mut k: usize = a;
    while k < b
        invariant
            a <= k <= b <= s@.len(),
            (b - k) % 2 == 0,
            forall|t: int| a <= t < b ==> is_hex_b(#[trigger] s@[t]),
            r@ == bytes_of_hex(s@.subrange(a as int, k as int)),
        decreases b - k,
    {
        proof {
            assert(k + 2 <= b);
        }
        let hi: u8 = s[k];
        let lo: u8 = s[k + 1];
        let hv: u8 = if hi <= 57 {
            hi - 48
        } else {
            hi - 97 + 10
        };
        let lv: u8 = if lo <= 57 {
            lo - 48
        } else {
            lo - 97 + 10
        };
        r.push(hv * 16 + lv);
        proof {
            let sub2 = s@.subrange(a as int, k + 2);
            assert(sub2.drop_last().drop_last() =~= s@.subrange(a as int, k as int));
            assert(sub2[sub2.len() - 2] == s@[k as int]);
            assert(sub2.last() == s@[k + 1]);
            assert(hv == hex_val_b(s@[k as int]));
            assert(lv == hex_val_b(s@[k + 1]));
            assert(bytes_of_hex(sub2) == bytes_of_hex(s@.subrange(a as int, k as int)) + seq![
                (hex_val_b(s@[k as int]) * 16 + hex_val_b(s@[k + 1])) as u8,
            ]);
        }
        k = k + 2;
    }
    r
}

} // verus!
