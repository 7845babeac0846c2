//! Unsigned integers as big-endian byte strings.
use vstd::prelude::*;

verus! {

/// The low `width` bytes of `value`, most significant byte first.
pub open spec fn be_bytes(width: nat, value: nat) -> Seq<u8>
    decreases width,
{
    if width == 0 {
        Seq::empty()
    } else {
        be_bytes((width - 1) as nat, value / 256).push((value % 256) as u8)
    }
}

/// The number that `bytes` stands for, most significant byte first.
pub open spec fn be_value(bytes: Seq<u8>) -> nat
    decreases bytes.len(),
{
    if bytes.len() == 0 {
        0
    } else {
        be_value(bytes.drop_last()) * 256 + bytes.last() as nat
    }
}

/// How many numbers fit into `width` bytes.
pub open spec fn be_limit(width: nat) -> nat
    decreases width,
{
    if width == 0 {
        1
    } else {
        256 * be_limit((width - 1) as nat)
    }
}

/// A number that fits into `width` bytes is read back from them unchanged.
pub proof fn law_value_of_bytes(width: nat, value: nat)
    requires
        value < be_limit(width),
    ensures
        be_bytes(width, value).len() == width,
        be_value(be_bytes(width, value)) == value,
    decreases width,
{
    if width > 0 {
        let high = be_bytes((width - 1) as nat, value / 256);
        law_value_of_bytes((width - 1) as nat, value / 256);
        assert(be_bytes(width, value).drop_last() =~= high);
    }
}

/// Bytes are recovered from the number that they stand for, and that number
/// fits into as many bytes as there were.
pub proof fn law_bytes_of_value(bytes: Seq<u8>)
    ensures
        be_value(bytes) < be_limit(bytes.len()),
        be_bytes(bytes.len(), be_value(bytes)) == bytes,
    decreases bytes.len(),
{
    if bytes.len() > 0 {
        let high = bytes.drop_last();
        law_bytes_of_value(high);
        let value = be_value(bytes);
        assert(value / 256 == be_value(high) && value % 256 == bytes.last() as nat);
        assert(high.push(bytes.last()) =~= bytes);
    } else {
        assert(be_bytes(0, be_value(bytes)) =~= bytes);
    }
}

/// Each byte is the digit of the number at its place, in base 256, the last byte
/// counting ones.
pub proof fn law_bytes_are_digits(width: nat, value: nat)
    ensures
        be_bytes(width, value).len() == width,
        forall|i: int|
            0 <= i < width ==> (#[trigger] be_bytes(width, value)[i]) as int == (value as int
                / vstd::arithmetic::power::pow(256, (width - 1 - i) as nat)) % 256,
    decreases width,
{
    if width > 0 {
        let high = be_bytes((width - 1) as nat, value / 256);
        law_bytes_are_digits((width - 1) as nat, value / 256);
        assert forall|i: int| 0 <= i < width implies (#[trigger] be_bytes(width, value)[i]) as int
            == (value as int / vstd::arithmetic::power::pow(256, (width - 1 - i) as nat)) % 256 by {
            if i == width - 1 {
                vstd::arithmetic::power::lemma_pow0(256);
            } else {
                let p = vstd::arithmetic::power::pow(256, (width - 2 - i) as nat);
                assert(be_bytes(width, value)[i] == high[i]);
                vstd::arithmetic::power::lemma_pow_positive(256, (width - 2 - i) as nat);
                assert(vstd::arithmetic::power::pow(256, (width - 1 - i) as nat) == 256 * p) by {
                    reveal(vstd::arithmetic::power::pow);
                }
                vstd::arithmetic::div_mod::lemma_div_denominator(value as int, 256, p);
            }
        }
    }
}

/// A byte stands for itself, and bytes in front of others count for as much more
/// as there are numbers of the others' width.
pub proof fn law_value_is_positional(high: Seq<u8>, low: Seq<u8>, byte: u8)
    ensures
        be_value(Seq::empty()) == 0,
        be_value(seq![byte]) == byte as nat,
        be_value(high + low) == be_value(high) * vstd::arithmetic::power::pow(256, low.len())
            + be_value(low),
    decreases low.len(),
{
    assert(seq![byte].drop_last() =~= Seq::empty());
    reveal_with_fuel(be_value, 2);
    vstd::arithmetic::power::lemma_pow0(256);
    if low.len() == 0 {
        assert(high + low =~= high);
        assert(be_value(high) * 1 == be_value(high));
    } else {
        let front = low.drop_last();
        let p = vstd::arithmetic::power::pow(256, front.len());
        law_value_is_positional(high, front, byte);
        assert((high + low).drop_last() =~= high + front);
        assert(vstd::arithmetic::power::pow(256, low.len()) == 256 * p) by {
            reveal(vstd::arithmetic::power::pow);
        }
        assert((be_value(high) * p + be_value(front)) * 256 == be_value(high) * (256 * p)
            + be_value(front) * 256) by (nonlinear_arith);
    }
}

/// As many numbers fit into some bytes as there are ways to write them: 256 to
/// the power of their count.
pub proof fn law_limit_is_a_power(width: nat)
    ensures
        be_limit(width) == vstd::arithmetic::power::pow(256, width),
    decreases width,
{
    reveal(vstd::arithmetic::power::pow);
    if width > 0 {
        law_limit_is_a_power((width - 1) as nat);
    }
}

/// The limits that the protocol's fields meet: a frame's length, a node's
/// identifier and a channel's identifier.
pub proof fn lemma_limits()
    ensures
        be_limit(4) == 0x1_0000_0000,
        be_limit(8) == 0x1_0000_0000_0000_0000,
        be_limit(16) == 0x1_0000_0000_0000_0000_0000_0000_0000_0000,
{
    reveal_with_fuel(be_limit, 9);
    assert(be_limit(9) == 256 * be_limit(8));
    assert(be_limit(10) == 256 * be_limit(9));
    assert(be_limit(11) == 256 * be_limit(10));
    assert(be_limit(12) == 256 * be_limit(11));
    assert(be_limit(13) == 256 * be_limit(12));
    assert(be_limit(14) == 256 * be_limit(13));
    assert(be_limit(15) == 256 * be_limit(14));
    assert(be_limit(16) == 256 * be_limit(15));
}

proof fn lemma_limit_grows(low: nat, high: nat)
    requires
        low <= high,
    ensures
        be_limit(low) <= be_limit(high),
    decreases high,
{
    if low < high {
        lemma_limit_grows(low, (high - 1) as nat);
    }
}

/// The eight bytes of `value`, most significant byte first.
pub fn u64_to_be_bytes(value: u64) -> (bytes: [u8; 8])
    ensures
        bytes@ == be_bytes(8, value as nat),
        forall|i: int|
            0 <= i < 8 ==> (#[trigger] bytes@[i]) as int == (value as int
                / vstd::arithmetic::power::pow(256, (7 - i) as nat)) % 256,
{
    let v6: u64 = value / 256;
    let v5: u64 = v6 / 256;
    let v4: u64 = v5 / 256;
    let v3: u64 = v4 / 256;
    let v2: u64 = v3 / 256;
    let v1: u64 = v2 / 256;
    let v0: u64 = v1 / 256;
    let bytes: [u8; 8] = [
        (v0 % 256) as u8,
        (v1 % 256) as u8,
        (v2 % 256) as u8,
        (v3 % 256) as u8,
        (v4 % 256) as u8,
        (v5 % 256) as u8,
        (v6 % 256) as u8,
        (value % 256) as u8,
    ];
    proof {
        reveal_with_fuel(be_bytes, 9);
        assert(bytes@ =~= be_bytes(8, value as nat));
        law_bytes_are_digits(8, value as nat);
    }
    bytes
}

/// The number whose eight bytes, most significant byte first, are `bytes`.
pub fn u64_from_be_bytes(bytes: [u8; 8]) -> (value: u64)
    ensures
        value as nat == be_value(bytes@),
        forall|i: int|
            0 <= i < 8 ==> (#[trigger] bytes@[i]) as int == (value as int
                / vstd::arithmetic::power::pow(256, (7 - i) as nat)) % 256,
{
    let mut value: u64 = 0;
    let mut i: usize = 0;
    while i < 8
        invariant
            i <= 8,
            value as nat == be_value(bytes@.take(i as int)),
        decreases 8 - i,
    {
        proof {
            assert(bytes@.take(i + 1).drop_last() =~= bytes@.take(i as int));
            law_bytes_of_value(bytes@.take(i + 1));
            lemma_limit_grows((i + 1) as nat, 8);
            lemma_limits();
        }
        value = value * 256 + bytes[i] as u64;
        i = i + 1;
    }
    proof {
        assert(bytes@.take(8) =~= bytes@);
        law_bytes_of_value(bytes@);
        law_bytes_are_digits(8, value as nat);
    }
    value
}

} // verus!
