//! Hexadecimal text encodings used by the token payload: a fixed-width
//! little-endian encoding of `u64` values and a two-digits-per-byte encoding
//! of byte strings.  Both are proved to round-trip.
use vstd::prelude::*;

verus! {

/// Powers of sixteen.
pub open spec fn pow16(k: nat) -> nat
    decreases k,
{
    if k == 0 {
        1nat
    } else {
        16 * pow16((k - 1) as nat)
    }
}

/// The ASCII byte for a single hex digit (lowercase).
pub open spec fn hex_digit_char(v: u8) -> u8 {
    if v < 10 {
        (48 + v) as u8
    } else {
        (87 + v) as u8
    }
}

/// Whether a byte is the ASCII code of a lowercase hex digit.
pub open spec fn is_hex_digit(b: u8) -> bool {
    (48 <= b && b <= 57) || (97 <= b && b <= 102)
}

/// The value of a hex digit byte.
pub open spec fn hex_val(b: u8) -> u8 {
    if b <= 57 {
        (b - 48) as u8
    } else {
        (b - 87) as u8
    }
}

proof fn lemma_hex_digit_char_val(v: u8)
    requires
        v < 16,
    ensures
        is_hex_digit(hex_digit_char(v)),
        hex_val(hex_digit_char(v)) == v,
{
}

/// `k` hex digits encoding `n`, least significant digit first.
pub open spec fn le_digits(n: nat, k: nat) -> Seq<u8>
    decreases k,
{
    if k == 0 {
        Seq::empty()
    } else {
        seq![hex_digit_char((n % 16) as u8)] + le_digits(n / 16, (k - 1) as nat)
    }
}

/// Reads a little-endian hex digit string back into a number.
pub open spec fn parse_le_digits(s: Seq<u8>) -> Option<nat>
    decreases s.len(),
{
    if s.len() == 0 {
        Some(0nat)
    } else if !is_hex_digit(s[0]) {
        None
    } else {
        match parse_le_digits(s.drop_first()) {
            Some(r) => Some((hex_val(s[0]) + 16 * r) as nat),
            None => None,
        }
    }
}

pub proof fn lemma_le_digits_len(n: nat, k: nat)
    ensures
        le_digits(n, k).len() == k,
        forall|i: int| 0 <= i < k ==> is_hex_digit(#[trigger] le_digits(n, k)[i]),
    decreases k,
{
    if k > 0 {
        lemma_le_digits_len(n / 16, (k - 1) as nat);
    }
}

pub proof fn lemma_parse_le_digits_bound(s: Seq<u8>)
    requires
        parse_le_digits(s) is Some,
    ensures
        parse_le_digits(s)->Some_0 < pow16(s.len()),
    decreases s.len(),
{
    if s.len() > 0 {
        lemma_parse_le_digits_bound(s.drop_first());
        let r = parse_le_digits(s.drop_first())->Some_0;
        let p = pow16((s.len() - 1) as nat);
        assert(hex_val(s[0]) + 16 * r < 16 * p) by (nonlinear_arith)
            requires
                r < p,
                hex_val(s[0]) < 16,
        ;
    }
}

/// Encoding then parsing gives the number back, provided it fits in `k` digits.
pub proof fn lemma_le_digits_round_trip(n: nat, k: nat)
    requires
        n < pow16(k),
    ensures
        parse_le_digits(le_digits(n, k)) == Some(n),
    decreases k,
{
    if k == 0 {
    } else {
        let p = pow16((k - 1) as nat);
        assert(n / 16 < p) by (nonlinear_arith)
            requires
                n < 16 * p,
        ;
        lemma_le_digits_round_trip(n / 16, (k - 1) as nat);
        let s = le_digits(n, k);
        lemma_hex_digit_char_val((n % 16) as u8);
        assert(s.drop_first() =~= le_digits(n / 16, (k - 1) as nat));
        assert(hex_val(s[0]) + 16 * (n / 16) == n);
    }
}

/// A parsed digit string re-encodes to itself: the encoding is canonical.
pub proof fn lemma_le_digits_canonical(s: Seq<u8>)
    requires
        parse_le_digits(s) is Some,
    ensures
        le_digits(parse_le_digits(s)->Some_0, s.len()) == s,
    decreases s.len(),
{
    if s.len() > 0 {
        lemma_le_digits_canonical(s.drop_first());
        let r = parse_le_digits(s.drop_first())->Some_0;
        let n: nat = (hex_val(s[0]) + 16 * r) as nat;
        assert(n % 16 == hex_val(s[0]) && n / 16 == r) by (nonlinear_arith)
            requires
                n == hex_val(s[0]) + 16 * r,
                hex_val(s[0]) < 16,
        ;
        if 48 <= s[0] && s[0] <= 57 {
            assert(hex_digit_char((n % 16) as u8) == s[0]);
        } else {
            assert(hex_digit_char((n % 16) as u8) == s[0]);
        }
        assert(le_digits(n, s.len()) =~= s);
    }
}

/// Two lowercase hex digits for each byte, most significant first.
pub open spec fn hex_of(bs: Seq<u8>) -> Seq<u8>
    decreases bs.len(),
{
    if bs.len() == 0 {
        Seq::empty()
    } else {
        seq![
            hex_digit_char((bs[0] / 16) as u8),
            hex_digit_char((bs[0] % 16) as u8),
        ] + hex_of(bs.drop_first())
    }
}

/// Reads a hex digit string back into bytes; `None` when a character is not a
/// lowercase hex digit or the length is odd.
pub open spec fn unhex(s: Seq<u8>) -> Option<Seq<u8>>
    decreases s.len(),
{
    if s.len() % 2 != 0 {
        None
    } else if s.len() == 0 {
        Some(Seq::empty())
    } else if is_hex_digit(s[0]) && is_hex_digit(s[1]) {
        match unhex(s.skip(2)) {
            Some(r) => Some(seq![(hex_val(s[0]) * 16 + hex_val(s[1])) as u8] + r),
            None => None,
        }
    } else {
        None
    }
}

pub proof fn lemma_hex_of_len(bs: Seq<u8>)
    ensures
        hex_of(bs).len() == 2 * bs.len(),
        forall|i: int| 0 <= i < 2 * bs.len() ==> is_hex_digit(#[trigger] hex_of(bs)[i]),
    decreases bs.len(),
{
    if bs.len() > 0 {
        lemma_hex_of_len(bs.drop_first());
    }
}

proof fn lemma_hex_of_concat(a: Seq<u8>, b: Seq<u8>)
    ensures
        hex_of(a + b) == hex_of(a) + hex_of(b),
    decreases a.len(),
{
    if a.len() == 0 {
        assert(a + b =~= b);
        assert(hex_of(a) + hex_of(b) =~= hex_of(b));
    } else {
        lemma_hex_of_concat(a.drop_first(), b);
        assert((a + b).drop_first() =~= a.drop_first() + b);
        assert(hex_of(a + b) =~= hex_of(a) + hex_of(b));
    }
}

/// Hex-encoding then decoding gives the bytes back.
pub proof fn lemma_hex_round_trip(bs: Seq<u8>)
    ensures
        unhex(hex_of(bs)) == Some(bs),
    decreases bs.len(),
{
    if bs.len() == 0 {
    } else {
        lemma_hex_round_trip(bs.drop_first());
        let s = hex_of(bs);
        lemma_hex_of_len(bs.drop_first());
        lemma_hex_digit_char_val((bs[0] / 16) as u8);
        lemma_hex_digit_char_val((bs[0] % 16) as u8);
        assert(s.skip(2) =~= hex_of(bs.drop_first()));
        assert(hex_val(s[0]) * 16 + hex_val(s[1]) == bs[0]);
        assert(seq![bs[0]] + bs.drop_first() =~= bs);
    }
}

/// A decoded hex string re-encodes to itself: the encoding is canonical.
pub proof fn lemma_unhex_canonical(s: Seq<u8>)
    requires
        unhex(s) is Some,
    ensures
        hex_of(unhex(s)->Some_0) == s,
    decreases s.len(),
{
    if s.len() == 0 {
    } else {
        lemma_unhex_canonical(s.skip(2));
        let b: u8 = (hex_val(s[0]) * 16 + hex_val(s[1])) as u8;
        assert(b / 16 == hex_val(s[0]) && b % 16 == hex_val(s[1])) by (nonlinear_arith)
            requires
                b == hex_val(s[0]) * 16 + hex_val(s[1]),
                hex_val(s[0]) < 16,
                hex_val(s[1]) < 16,
        ;
        let r = unhex(s)->Some_0;
        assert(r.drop_first() =~= unhex(s.skip(2))->Some_0);
        assert(hex_of(r) =~= s);
    }
}

/// Appends the 16-digit encoding of `n` to `out`.
pub fn nib16_write(n: u64, out: &mut Vec<u8>)
    ensures
        final(out)@ == old(out)@ + le_digits(n as nat, 16),
{
    let ghost orig = out@;
    let mut cur: u64 = n;
    let mut i: usize = 0;
    while i < 16
        invariant
            i <= 16,
            out@ == orig + le_digits(n as nat, 16).take(i as int),
            le_digits(cur as nat, (16 - i) as nat) == le_digits(n as nat, 16).skip(i as int),
        decreases 16 - i,
    {
        let d: u8 = (cur % 16) as u8;
        let c: u8 = if d < 10 {
            48 + d
        } else {
            87 + d
        };
        proof {
            lemma_le_digits_len(n as nat, 16);
            let full = le_digits(n as nat, 16);
            assert(le_digits(cur as nat, (16 - i) as nat)[0] == hex_digit_char(d));
            assert(full[i as int] == full.skip(i as int)[0]);
            assert(full[i as int] == c);
            assert(full.take(i as int + 1) =~= full.take(i as int) + seq![c]);
            assert((orig + full.take(i as int)).push(c) =~= orig + full.take(i as int + 1));
            assert(le_digits((cur / 16) as nat, (15 - i) as nat) =~= le_digits(
                cur as nat,
                (16 - i) as nat,
            ).drop_first());
            assert(full.skip(i as int).drop_first() =~= full.skip(i as int + 1));
        }
        out.push(c);
        cur = cur / 16;
        i = i + 1;
    }
    proof {
        lemma_le_digits_len(n as nat, 16);
        assert(le_digits(n as nat, 16).take(16) =~= le_digits(n as nat, 16));
    }
}

/// Reads the 16 digits at `v[start..start + 16]` as a number.
pub fn nib16_parse(v: &Vec<u8>, start: usize) -> (r: Option<u64>)
    requires
        start + 16 <= v@.len(),
    ensures
        match r {
            Some(n) => parse_le_digits(v@.subrange(start as int, start as int + 16)) == Some(
                n as nat,
            ),
            None => parse_le_digits(v@.subrange(start as int, start as int + 16)) is None,
        },
{
    let ghost s = v@.subrange(start as int, start as int + 16);
    let vlen: usize = v.len();
    let mut acc: u64 = 0;
    let mut i: usize = 16;
    proof {
        assert(pow16(0) == 1);
        assert(s.skip(16) =~= Seq::<u8>::empty());
    }
    while i > 0
        invariant
            i <= 16,
            start + 16 <= vlen,
            vlen == v@.len(),
            s == v@.subrange(start as int, start as int + 16),
            parse_le_digits(s.skip(i as int)) == Some(acc as nat),
            acc < pow16((16 - i) as nat),
        decreases i,
    {
        let b = v[start + i - 1];
        proof {
            assert(s.skip(i as int - 1)[0] == s[i as int - 1]);
            assert(s[i as int - 1] == v@[start + i - 1]);
        }
        if !(48 <= b && b <= 57 || 97 <= b && b <= 102) {
            proof {
                lemma_parse_none_prefix(s, i as int - 1);
            }
            return None;
        }
        let d: u8 = if b <= 57 {
            b - 48
        } else {
            b - 87
        };
        proof {
            assert(s.skip(i as int - 1).drop_first() =~= s.skip(i as int));
            let p = pow16((16 - i) as nat);
            assert(acc * 16 + d < 16 * p) by (nonlinear_arith)
                requires
                    (acc as nat) < p,
                    d < 16,
            ;
            lemma_pow16_16();
            lemma_pow16_mono((17 - i) as nat, 16);
            assert(16 * p == pow16((17 - i) as nat));
        }
        acc = acc * 16 + (d as u64);
        i = i - 1;
    }
    proof {
        assert(s.skip(0) =~= s);
    }
    Some(acc)
}

pub proof fn lemma_pow16_16()
    ensures
        pow16(16) == 0x10000000000000000,
{
    assert(pow16(0) == 1);
    assert(pow16(1) == 16);
    assert(pow16(2) == 0x100);
    assert(pow16(3) == 0x1000);
    assert(pow16(4) == 0x10000);
    assert(pow16(5) == 0x100000);
    assert(pow16(6) == 0x1000000);
    assert(pow16(7) == 0x10000000);
    assert(pow16(8) == 0x100000000);
    assert(pow16(9) == 0x1000000000);
    assert(pow16(10) == 0x10000000000);
    assert(pow16(11) == 0x100000000000);
    assert(pow16(12) == 0x1000000000000);
    assert(pow16(13) == 0x10000000000000);
    assert(pow16(14) == 0x100000000000000);
    assert(pow16(15) == 0x1000000000000000);
}

proof fn lemma_pow16_mono(a: nat, b: nat)
    requires
        a <= b,
    ensures
        pow16(a) <= pow16(b),
    decreases b,
{
    if a < b {
        lemma_pow16_mono(a, (b - 1) as nat);
        assert(pow16(b) == 16 * pow16((b - 1) as nat));
    }
}

/// If the digit at position `j` is not a hex digit, the whole string fails to
/// parse.
proof fn lemma_parse_none_prefix(s: Seq<u8>, j: int)
    requires
        0 <= j < s.len(),
        !is_hex_digit(s[j]),
    ensures
        forall|i: int| 0 <= i <= j ==> parse_le_digits(#[trigger] s.skip(i)) is None,
    decreases s.len(),
{
    assert forall|i: int| 0 <= i <= j implies parse_le_digits(#[trigger] s.skip(i)) is None by {
        lemma_parse_none_at(s, i, j);
    }
}

proof fn lemma_parse_none_at(s: Seq<u8>, i: int, j: int)
    requires
        0 <= i <= j < s.len(),
        !is_hex_digit(s[j]),
    ensures
        parse_le_digits(s.skip(i)) is None,
    decreases j - i,
{
    if i == j {
        assert(s.skip(i)[0] == s[j]);
    } else {
        lemma_parse_none_at(s, i + 1, j);
        assert(s.skip(i).drop_first() =~= s.skip(i + 1));
    }
}

/// Appends the hex encoding of `bs` to `out`.
pub fn hex_write(bs: &Vec<u8>, out: &mut Vec<u8>)
    ensures
        final(out)@ == old(out)@ + hex_of(bs@),
{
    let ghost orig = out@;
    let mut i: usize = 0;
    while i < bs.len()
        invariant
            i <= bs@.len(),
            out@ == orig + hex_of(bs@.take(i as int)),
        decreases bs@.len() - i,
    {
        let b = bs[i];
        let hi: u8 = b / 16;
        let lo: u8 = b % 16;
        let c1: u8 = if hi < 10 {
            48 + hi
        } else {
            87 + hi
        };
        let c2: u8 = if lo < 10 {
            48 + lo
        } else {
            87 + lo
        };
        proof {
            assert(bs@.take(i as int + 1) =~= bs@.take(i as int) + seq![bs@[i as int]]);
            lemma_hex_of_concat(bs@.take(i as int), seq![bs@[i as int]]);
            let single = seq![bs@[i as int]];
            assert(single.drop_first() =~= Seq::<u8>::empty());
            assert(hex_of(Seq::<u8>::empty()) =~= Seq::<u8>::empty());
            assert(c1 == hex_digit_char((single[0] / 16) as u8));
            assert(c2 == hex_digit_char((single[0] % 16) as u8));
            assert(hex_of(single) =~= seq![c1, c2]);
            assert((out@ + hex_of(bs@.take(i as int))).push(c1).push(c2) =~= out@ + hex_of(
                bs@.take(i as int + 1),
            ));
        }
        out.push(c1);
        out.push(c2);
        i = i + 1;
    }
    proof {
        assert(bs@.take(bs@.len() as int) =~= bs@);
    }
}

/// Decodes `v[start..end]` as hex; `None` when it is not a valid encoding.
pub fn hex_read(v: &Vec<u8>, start: usize, end: usize) -> (r: Option<Vec<u8>>)
    requires
        start <= end <= v@.len(),
    ensures
        match r {
            Some(out) => unhex(v@.subrange(start as int, end as int)) == Some(out@),
            None => unhex(v@.subrange(start as int, end as int)) is None,
        },
{
    if (end - start) % 2 != 0 {
        proof {
            assert(v@.subrange(start as int, end as int).len() % 2 != 0);
        }
        return None;
    }
    let mut out: Vec<u8> = Vec::new();
    let mut i: usize = start;
    while i < end
        invariant
            start <= i <= end <= v@.len(),
            (i - start) % 2 == 0,
            (end - start) % 2 == 0,
            forall|r: Seq<u8>|
                unhex(v@.subrange(i as int, end as int)) == Some(r) ==> unhex(
                    v@.subrange(start as int, end as int),
                ) == Some(out@ + r),
            unhex(v@.subrange(i as int, end as int)) is None ==> unhex(
                v@.subrange(start as int, end as int),
            ) is None,
        decreases end - i,
    {
        let b1 = v[i];
        let b2 = v[i + 1];
        let ghost tail = v@.subrange(i as int, end as int);
        proof {
            assert(tail.len() % 2 == 0);
            assert(tail[0] == v@[i as int]);
            assert(tail[1] == v@[i as int + 1]);
            assert(tail.skip(2) =~= v@.subrange(i as int + 2, end as int));
        }
        let ok1 = 48 <= b1 && b1 <= 57 || 97 <= b1 && b1 <= 102;
        let ok2 = 48 <= b2 && b2 <= 57 || 97 <= b2 && b2 <= 102;
        if !(ok1 && ok2) {
            return None;
        }
        let d1: u8 = if b1 <= 57 {
            b1 - 48
        } else {
            b1 - 87
        };
        let d2: u8 = if b2 <= 57 {
            b2 - 48
        } else {
            b2 - 87
        };
        let byte: u8 = d1 * 16 + d2;
        proof {
            assert forall|r: Seq<u8>|
                unhex(v@.subrange(i as int + 2, end as int)) == Some(r) implies unhex(
                v@.subrange(start as int, end as int),
            ) == Some(out@.push(byte) + r) by {
                assert(unhex(tail) == Some(seq![byte] + r));
                assert(out@ + (seq![byte] + r) =~= out@.push(byte) + r);
            }
        }
        out.push(byte);
        i = i + 2;
    }
    proof {
        assert(v@.subrange(i as int, end as int) =~= Seq::<u8>::empty());
        assert(out@ + Seq::<u8>::empty() =~= out@);
    }
    Some(out)
}

} // verus!
