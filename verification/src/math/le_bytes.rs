//! Little-endian byte strings of fixed width.

use vstd::prelude::*;

verus! {

/// 256 to the power `width`.
pub open spec fn pow256(width: nat) -> nat
    decreases width,
{
    if width == 0 {
        1
    } else {
        256 * pow256((width - 1) as nat)
    }
}

/// The number written as `width` bytes, the lowest byte first. A number
/// that needs more bytes loses its high part.
pub open spec fn le_bytes(value: nat, width: nat) -> Seq<u8>
    decreases width,
{
    if width == 0 {
        Seq::empty()
    } else {
        seq![(value % 256) as u8] + le_bytes(value / 256, (width - 1) as nat)
    }
}

/// The bytes are as many as the width.
pub proof fn lemma_le_bytes_len(value: nat, width: nat)
    ensures
        le_bytes(value, width).len() == width,
    decreases width,
{
    if width > 0 {
        lemma_le_bytes_len(value / 256, (width - 1) as nat);
    }
}

/// Two numbers that fit in the width have the same bytes only if they are
/// the same number.
pub proof fn lemma_le_bytes_injective(a: nat, b: nat, width: nat)
    requires
        a < pow256(width),
        b < pow256(width),
        le_bytes(a, width) == le_bytes(b, width),
    ensures
        a == b,
    decreases width,
{
    if width > 0 {
        let rest = (width - 1) as nat;
        let bytes_a = le_bytes(a, width);
        let bytes_b = le_bytes(b, width);
        assert(bytes_a[0] == (a % 256) as u8);
        assert(bytes_b[0] == (b % 256) as u8);
        assert(le_bytes(a / 256, rest) =~= bytes_a.subrange(1, bytes_a.len() as int));
        assert(le_bytes(b / 256, rest) =~= bytes_b.subrange(1, bytes_b.len() as int));
        assert(a / 256 < pow256(rest) && b / 256 < pow256(rest)) by (nonlinear_arith)
            requires
                a < 256 * pow256(rest),
                b < 256 * pow256(rest),
        ;
        lemma_le_bytes_injective(a / 256, b / 256, rest);
    }
}

/// The widths that the integer types take: two, four and eight bytes hold
/// every `u16`, `u32` and `u64`.
pub proof fn lemma_pow256_widths()
    ensures
        pow256(2) == 0x1_0000,
        pow256(4) == 0x1_0000_0000,
        pow256(8) == 0x1_0000_0000_0000_0000,
{
    reveal_with_fuel(pow256, 9);
}

/// Appends the `width` little-endian bytes of `value`.
pub fn append_le_bytes(out: &mut Vec<u8>, value: u64, width: usize)
    ensures
        final(out)@ == old(out)@ + le_bytes(value as nat, width as nat),
{
    let mut rest: u64 = value;
    let mut written: usize = 0;
    while written < width
        invariant
            written <= width,
            old(out)@ + le_bytes(value as nat, width as nat) == out@ + le_bytes(
                rest as nat,
                (width - written) as nat,
            ),
        decreases width - written,
    {
        let ghost before = out@;
        let ghost left = (width - written) as nat;
        out.push((rest % 256) as u8);
        assert(before + le_bytes(rest as nat, left) =~= before.push((rest % 256) as u8) + le_bytes(
            (rest / 256) as nat,
            (left - 1) as nat,
        ));
        rest = rest / 256;
        written += 1;
    }
    assert(out@ + le_bytes(rest as nat, 0) =~= out@);
}

} // verus!
