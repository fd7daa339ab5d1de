//! Split tunneling: which routes a tunnel carries.
//!
//! Both active modes work the same way: the tunnel is barred from taking the
//! default route, and the routes of each family name exactly what goes through
//! it. In Include mode the routes are the configured blocks; in Exclude mode
//! they are the complement of those blocks; when split tunneling is disabled
//! there are none, and the tunnel takes the default route.

use vstd::arithmetic::power2::{lemma_pow2_adds, lemma_pow2_pos, lemma_pow2_strictly_increases, lemma_pow2_unfold, pow2};
use vstd::prelude::*;
use vstd::string::*;

use crate::config::SplitTunnelMode;
use crate::ip::{address_of, IpAddr};
use crate::text::{ascii_lower, ascii_lowered, cut, decimal, has_text, join, joined, lemma_trimmed_ends, lemma_trimmed_plain, lowercased, number_value, opt_text, parse_number, push_decimal, split_once, to_lowercase, trim, trimmed};

verus! {

/// The number of bits of an IPv4 address.
pub const V4_BITS: u8 = 32;

/// The number of bits of an IPv6 address.
pub const V6_BITS: u8 = 128;

// ---------------------------------------------------------------------------
// Blocks
// ---------------------------------------------------------------------------

/// How many addresses a block with the given prefix holds.
pub open spec fn span(bits: int, prefix: int) -> int {
    pow2((bits - prefix) as nat) as int
}

/// The first address of the block of `addr`.
pub open spec fn block_start(addr: int, bits: int, prefix: int) -> int {
    addr - addr % span(bits, prefix)
}

/// The last address of the block of `addr`.
pub open spec fn block_last(addr: int, bits: int, prefix: int) -> int {
    block_start(addr, bits, prefix) + span(bits, prefix) - 1
}

/// Whether `addr` is the first address of a block of that prefix.
pub open spec fn is_block(addr: int, prefix: int, bits: int) -> bool {
    &&& 0 <= prefix <= bits
    &&& 0 <= addr
    &&& addr % span(bits, prefix) == 0
    &&& addr + span(bits, prefix) <= pow2(bits as nat)
}

/// `2` to the power of `n`.
fn power(n: u8) -> (r: u128)
    requires
        n < 128,
    ensures
        r == pow2(n as nat),
{
    let mut r: u128 = 1;
    let mut i: u8 = 0;
    proof {
        vstd::arithmetic::power2::lemma2_to64();
    }
    while i < n
        invariant
            i <= n < 128,
            r == pow2(i as nat),
        decreases n - i,
    {
        proof {
            lemma_pow2_unfold((i + 1) as nat);
            lemma_pow2_127();
            if i + 1 < 127 {
                lemma_pow2_strictly_increases((i + 1) as nat, 127);
            }
        }
        r = r * 2;
        i += 1;
    }
    r
}

/// The powers that fit.
proof fn lemma_pow2_127()
    ensures
        pow2(127) == 0x8000_0000_0000_0000_0000_0000_0000_0000,
        pow2(128) == 0x1_0000_0000_0000_0000_0000_0000_0000_0000,
        pow2(32) == 0x1_0000_0000,
        pow2(0) == 1,
{
    vstd::arithmetic::power2::lemma2_to64();
    vstd::arithmetic::power2::lemma2_to64_rest();
    lemma_pow2_adds(63, 64);
    lemma_pow2_adds(64, 64);
    assert(0x8000_0000_0000_0000 * 0x1_0000_0000_0000_0000
        == 0x8000_0000_0000_0000_0000_0000_0000_0000);
}

/// A block of any prefix ends inside the numbers of 128 bits.
proof fn lemma_block_fits(addr: int, h: int)
    requires
        0 <= addr < pow2(128),
        0 <= h <= 128,
    ensures
        pow2(h as nat) > 0,
        0 <= addr - addr % (pow2(h as nat) as int) <= addr,
        addr - addr % (pow2(h as nat) as int) + pow2(h as nat) <= pow2(128),
{
    lemma_pow2_pos(h as nat);
    lemma_pow2_adds(h as nat, (128 - h) as nat);
    let s = pow2(h as nat) as int;
    let m = pow2((128 - h) as nat) as int;
    let q = addr / s;
    vstd::arithmetic::div_mod::lemma_fundamental_div_mod(addr, s);
    assert(q < m) by (nonlinear_arith)
        requires
            addr < s * m,
            addr == s * q + addr % s,
            0 <= addr % s,
            s > 0,
    ;
    assert(s * q + s <= s * m) by (nonlinear_arith)
        requires
            q + 1 <= m,
            s > 0,
    ;
    vstd::arithmetic::div_mod::lemma_mod_bound(addr, s);
    assert(0 <= s * q) by (nonlinear_arith)
        requires
            q >= 0,
            s > 0,
    ;
}

/// The last address of the block `addr/prefix`.
pub fn block_end(addr: u128, prefix: u8, bits: u8) -> (r: u128)
    requires
        prefix <= bits <= 128,
    ensures
        r == block_last(addr as int, bits as int, prefix as int),
{
    let host_bits: u8 = bits - prefix;
    proof {
        lemma_pow2_127();
        lemma_block_fits(addr as int, host_bits as int);
    }
    if host_bits >= 128 {
        u128::MAX
    } else {
        let size = power(host_bits);
        addr - addr % size + (size - 1)
    }
}

// ---------------------------------------------------------------------------
// What is left of a block
// ---------------------------------------------------------------------------

/// Whether one of the excluded ranges meets the addresses from `low` to `high`.
pub open spec fn touched(excluded: Seq<(u128, u128)>, low: int, high: int) -> bool {
    exists|k: int|
        0 <= k < excluded.len() && (#[trigger] excluded[k]).0 <= high && excluded[k].1 >= low
}

/// Whether no excluded range meets the block `addr/prefix`.
pub open spec fn is_free(excluded: Seq<(u128, u128)>, addr: int, prefix: int, bits: int) -> bool {
    !touched(excluded, addr, addr + span(bits, prefix) - 1)
}

/// Whether `b` is one of the largest free blocks inside the block `addr/prefix`:
/// it is free, and the next larger block around it is not, or is not inside.
pub open spec fn is_left(
    excluded: Seq<(u128, u128)>,
    addr: int,
    prefix: int,
    bits: int,
    b: (u128, u8),
) -> bool {
    &&& is_block(b.0 as int, b.1 as int, bits)
    &&& prefix <= b.1
    &&& addr <= b.0
    &&& b.0 + span(bits, b.1 as int) <= addr + span(bits, prefix)
    &&& is_free(excluded, b.0 as int, b.1 as int, bits)
    &&& b.1 == prefix || !is_free(
        excluded,
        block_start(b.0 as int, bits, b.1 - 1),
        b.1 - 1,
        bits,
    )
}

/// Whether each block ends before the next one starts.
pub open spec fn in_order(blocks: Seq<(u128, u8)>, bits: int) -> bool {
    forall|i: int, j: int|
        0 <= i < j < blocks.len() ==> (#[trigger] blocks[i]).0 + span(bits, blocks[i].1 as int)
            <= (#[trigger] blocks[j]).0
}

/// Whether `blocks` are exactly the largest free blocks inside `addr/prefix`, in
/// ascending order.
pub open spec fn are_left(
    blocks: Seq<(u128, u8)>,
    excluded: Seq<(u128, u128)>,
    addr: int,
    prefix: int,
    bits: int,
) -> bool {
    &&& in_order(blocks, bits)
    &&& forall|b: (u128, u8)| #[trigger]
        blocks.contains(b) <==> is_left(excluded, addr, prefix, bits, b)
}

/// A multiple of one power of two is a multiple of each smaller one.
proof fn lemma_coarser(x: int, a: nat, b: nat)
    requires
        a <= b,
        x % (pow2(b) as int) == 0,
    ensures
        pow2(a) > 0,
        x % (pow2(a) as int) == 0,
{
    lemma_pow2_pos(a);
    lemma_pow2_pos(b);
    lemma_pow2_adds(a, (b - a) as nat);
    let s = pow2(a) as int;
    let t = pow2((b - a) as nat) as int;
    let m = pow2(b) as int;
    vstd::arithmetic::div_mod::lemma_fundamental_div_mod(x, m);
    let q = x / m;
    assert(x == s * (t * q)) by (nonlinear_arith)
        requires
            x == m * q,
            m == s * t,
    ;
    vstd::arithmetic::div_mod::lemma_mod_multiples_basic(t * q, s);
    assert(s * (t * q) == (t * q) * s) by (nonlinear_arith);
}

/// The sum of two multiples is a multiple.
proof fn lemma_sum_multiple(x: int, y: int, s: int)
    requires
        s > 0,
        x % s == 0,
        y % s == 0,
    ensures
        (x + y) % s == 0,
{
    vstd::arithmetic::div_mod::lemma_add_mod_noop(x, y, s);
    vstd::arithmetic::div_mod::lemma_small_mod(0, s as nat);
}

/// Of two multiples of `s` the smaller is at least `s` below.
proof fn lemma_multiple_gap(x: int, y: int, s: int)
    requires
        s > 0,
        x % s == 0,
        y % s == 0,
        x < y,
    ensures
        x + s <= y,
{
    vstd::arithmetic::div_mod::lemma_fundamental_div_mod(x, s);
    vstd::arithmetic::div_mod::lemma_fundamental_div_mod(y, s);
    let a = x / s;
    let b = y / s;
    assert(a + 1 <= b) by (nonlinear_arith)
        requires
            s * a < s * b,
            s > 0,
    ;
    assert(s * a + s <= s * b) by (nonlinear_arith)
        requires
            a + 1 <= b,
            s > 0,
    ;
}

/// The two halves of a block are blocks.
proof fn lemma_halves(addr: int, prefix: int, bits: int)
    requires
        is_block(addr, prefix, bits),
        prefix < bits,
    ensures
        span(bits, prefix) == 2 * span(bits, prefix + 1),
        span(bits, prefix + 1) > 0,
        is_block(addr, prefix + 1, bits),
        is_block(addr + span(bits, prefix + 1), prefix + 1, bits),
        block_start(addr, bits, prefix) == addr,
        block_start(addr + span(bits, prefix + 1), bits, prefix) == addr,
{
    let h = (bits - prefix) as nat;
    lemma_pow2_unfold(h);
    lemma_pow2_pos((h - 1) as nat);
    lemma_coarser(addr, (h - 1) as nat, h);
    let s = span(bits, prefix + 1);
    vstd::arithmetic::div_mod::lemma_mod_self_0(s);
    lemma_sum_multiple(addr, s, s);
    let t = span(bits, prefix);
    vstd::arithmetic::div_mod::lemma_add_mod_noop(addr, s, t);
    vstd::arithmetic::div_mod::lemma_small_mod(s as nat, t as nat);
}

/// What is left of a block that is partly excluded is what is left of its halves.
proof fn lemma_is_left_halves(
    excluded: Seq<(u128, u128)>,
    addr: int,
    prefix: int,
    bits: int,
    b: (u128, u8),
)
    requires
        is_block(addr, prefix, bits),
        prefix < bits <= 128,
        !is_free(excluded, addr, prefix, bits),
    ensures
        is_left(excluded, addr, prefix, bits, b) <==> is_left(excluded, addr, prefix + 1, bits, b)
            || is_left(excluded, addr + span(bits, prefix + 1), prefix + 1, bits, b),
{
    lemma_halves(addr, prefix, bits);
    let half = prefix + 1;
    let mid = addr + span(bits, half);
    let s = span(bits, b.1 as int);
    if is_left(excluded, addr, prefix, bits, b) {
        lemma_pow2_pos((bits - b.1) as nat);
        if b.1 == prefix {
            assert(b.0 == addr);
            assert(false);
        }
        lemma_coarser(mid, (bits - b.1) as nat, (bits - half) as nat);
        if b.0 < mid {
            lemma_multiple_gap(b.0 as int, mid, s);
        }
    }
    if is_left(excluded, addr, half, bits, b) && b.1 == half {
        lemma_pow2_pos((bits - b.1) as nat);
        assert(b.0 == addr);
        assert(block_start(b.0 as int, bits, b.1 - 1) == addr);
    }
    if is_left(excluded, mid, half, bits, b) && b.1 == half {
        lemma_pow2_pos((bits - b.1) as nat);
        assert(b.0 == mid);
        assert(block_start(b.0 as int, bits, b.1 - 1) == addr);
    }
}

/// Nothing is left of a block that one range covers.
proof fn lemma_covered(
    excluded: Seq<(u128, u128)>,
    addr: int,
    prefix: int,
    bits: int,
    k: int,
    b: (u128, u8),
)
    requires
        0 <= k < excluded.len(),
        excluded[k].0 <= addr,
        excluded[k].1 >= addr + span(bits, prefix) - 1,
    ensures
        !is_left(excluded, addr, prefix, bits, b),
{
    if is_left(excluded, addr, prefix, bits, b) {
        lemma_pow2_pos((bits - b.1) as nat);
        assert(touched(excluded, b.0 as int, b.0 + span(bits, b.1 as int) - 1));
    }
}

/// Only the block itself is left of a block that no range meets.
proof fn lemma_untouched(
    excluded: Seq<(u128, u128)>,
    addr: int,
    prefix: int,
    bits: int,
    b: (u128, u8),
)
    requires
        is_block(addr, prefix, bits),
        bits <= 128,
        is_free(excluded, addr, prefix, bits),
    ensures
        is_left(excluded, addr, prefix, bits, b) <==> b.0 == addr && b.1 == prefix,
{
    if is_left(excluded, addr, prefix, bits, b) && b.1 != prefix {
        let p = b.1 - 1;
        let start = block_start(b.0 as int, bits, p);
        let s = span(bits, p);
        let h = (bits - p) as nat;
        lemma_pow2_pos(h);
        lemma_pow2_pos((bits - b.1) as nat);
        lemma_coarser(addr, h, (bits - prefix) as nat);
        vstd::arithmetic::div_mod::lemma_mod_bound(b.0 as int, s);
        lemma_start_multiple(b.0 as int, s);
        if start < addr {
            lemma_multiple_gap(start, addr, s);
        }
        let end = addr + span(bits, prefix);
        lemma_pow2_adds(h, (p - prefix) as nat);
        vstd::arithmetic::div_mod::lemma_mod_self_0(span(bits, prefix));
        lemma_coarser(span(bits, prefix), h, (bits - prefix) as nat);
        lemma_sum_multiple(addr, span(bits, prefix), s);
        if start < end {
            lemma_multiple_gap(start, end, s);
        }
        assert(touched(excluded, start, start + s - 1));
        let k = choose|k: int|
            0 <= k < excluded.len() && (#[trigger] excluded[k]).0 <= start + s - 1 && excluded[k].1
                >= start;
        assert(touched(excluded, addr, end - 1));
        assert(false);
    }
    if is_left(excluded, addr, prefix, bits, b) {
        assert(b.0 == addr);
    }
}

/// The start of a block is a multiple of its size.
proof fn lemma_start_multiple(x: int, s: int)
    requires
        s > 0,
    ensures
        (x - x % s) % s == 0,
{
    vstd::arithmetic::div_mod::lemma_fundamental_div_mod(x, s);
    let q = x / s;
    vstd::arithmetic::div_mod::lemma_mod_multiples_basic(q, s);
    assert(s * q == q * s) by (nonlinear_arith);
}

/// Whether one of the ranges covers the addresses from `low` to `high`.
fn covers(excluded: &[(u128, u128)], low: u128, high: u128) -> (r: bool)
    ensures
        r == exists|k: int|
            0 <= k < excluded@.len() && (#[trigger] excluded@[k]).0 <= low && excluded@[k].1 >= high,
{
    let mut i: usize = 0;
    while i < excluded.len()
        invariant
            i <= excluded.len(),
            forall|k: int|
                0 <= k < i ==> !((#[trigger] excluded@[k]).0 <= low && excluded@[k].1 >= high),
        decreases excluded.len() - i,
    {
        if excluded[i].0 <= low && excluded[i].1 >= high {
            return true;
        }
        i += 1;
    }
    false
}

/// Whether one of the ranges meets the addresses from `low` to `high`.
fn meets(excluded: &[(u128, u128)], low: u128, high: u128) -> (r: bool)
    ensures
        r == touched(excluded@, low as int, high as int),
{
    let mut i: usize = 0;
    while i < excluded.len()
        invariant
            i <= excluded.len(),
            forall|k: int|
                0 <= k < i ==> !((#[trigger] excluded@[k]).0 <= high && excluded@[k].1 >= low),
        decreases excluded.len() - i,
    {
        if excluded[i].0 <= high && excluded[i].1 >= low {
            return true;
        }
        i += 1;
    }
    false
}

/// Carve `excluded` out of the block `addr/prefix` and append what remains: the
/// largest blocks that no excluded range meets, in ascending order.
pub fn subtract_into(
    addr: u128,
    prefix: u8,
    bits: u8,
    excluded: &[(u128, u128)],
    out: &mut Vec<(u128, u8)>,
)
    requires
        bits <= 128,
        is_block(addr as int, prefix as int, bits as int),
    ensures
        final(out)@.len() >= old(out)@.len(),
        final(out)@.take(old(out)@.len() as int) == old(out)@,
        are_left(
            final(out)@.skip(old(out)@.len() as int),
            excluded@,
            addr as int,
            prefix as int,
            bits as int,
        ),
    decreases bits - prefix,
{
    let ghost before = out@;
    let ghost (a, p, w) = (addr as int, prefix as int, bits as int);
    let end = block_end(addr, prefix, bits);
    proof {
        lemma_pow2_pos((bits - prefix) as nat);
        assert(block_start(a, w, p) == a);
    }
    if covers(excluded, addr, end) {
        proof {
            let k = choose|k: int|
                0 <= k < excluded@.len() && (#[trigger] excluded@[k]).0 <= addr && excluded@[k].1
                    >= end;
            assert forall|b: (u128, u8)| !is_left(excluded@, a, p, w, b) by {
                lemma_covered(excluded@, a, p, w, k, b);
            }
            assert(out@.skip(before.len() as int) =~= Seq::<(u128, u8)>::empty());
        }
        return ;
    }
    if !meets(excluded, addr, end) {
        out.push((addr, prefix));
        proof {
            let added = out@.skip(before.len() as int);
            assert(added =~= seq![(addr, prefix)]);
            assert forall|b: (u128, u8)| #[trigger]
                added.contains(b) <==> is_left(excluded@, a, p, w, b) by {
                lemma_untouched(excluded@, a, p, w, b);
                if b == (addr, prefix) {
                    assert(added[0] == b);
                }
            }
            assert(out@.take(before.len() as int) =~= before);
        }
        return ;
    }
    if prefix == bits {
        proof {
            lemma_pow2_127();
            let k = choose|k: int|
                0 <= k < excluded@.len() && (#[trigger] excluded@[k]).0 <= end && excluded@[k].1
                    >= addr;
            assert(excluded@[k].0 <= addr && excluded@[k].1 >= end);
        }
        return ;
    }
    let half: u8 = prefix + 1;
    proof {
        lemma_halves(a, p, w);
        assert(block_start(a, w, p + 1) == a);
        lemma_pow2_127();
        if bits < 128 {
            lemma_pow2_strictly_increases(bits as nat, 128);
        }
    }
    subtract_into(addr, half, bits, excluded, out);
    let ghost mid = out@;
    let second = block_end(addr, half, bits) + 1;
    subtract_into(second, half, bits, excluded, out);
    proof {
        let n = before.len() as int;
        let m = mid.len() as int;
        let left = mid.skip(n);
        let right = out@.skip(m);
        let added = out@.skip(n);
        assert(out@.take(m) == mid);
        assert(added =~= left + right);
        assert(out@.take(n) =~= mid.take(n));
        let c = second as int;
        assert(c == a + span(w, p + 1));
        assert forall|b: (u128, u8)| #[trigger]
            added.contains(b) <==> is_left(excluded@, a, p, w, b) by {
            lemma_is_left_halves(excluded@, a, p, w, b);
            assert(left.contains(b) <==> is_left(excluded@, a, p + 1, w, b));
            assert(right.contains(b) <==> is_left(excluded@, c, p + 1, w, b));
            if added.contains(b) {
                let i = choose|i: int| 0 <= i < added.len() && added[i] == b;
                if i < left.len() {
                    assert(left[i] == b);
                } else {
                    assert(right[i - left.len()] == b);
                }
            }
            if left.contains(b) {
                let i = choose|i: int| 0 <= i < left.len() && left[i] == b;
                assert(added[i] == b);
            }
            if right.contains(b) {
                let i = choose|i: int| 0 <= i < right.len() && right[i] == b;
                assert(added[i + left.len()] == b);
            }
        }
        assert forall|i: int, j: int| 0 <= i < j < added.len() implies (#[trigger] added[i]).0
            + span(w, added[i].1 as int) <= (#[trigger] added[j]).0 by {
            if j < left.len() {
                assert(added[i] == left[i] && added[j] == left[j]);
            } else if i >= left.len() {
                assert(added[i] == right[i - left.len()] && added[j] == right[j - left.len()]);
            } else {
                assert(added[i] == left[i] && added[j] == right[j - left.len()]);
                assert(left.contains(left[i]));
                assert(right.contains(right[j - left.len()]));
            }
        }
    }
}

/// Of the largest free blocks inside a block one holds an address of it exactly where
/// no excluded range does; and no address is in two of them.
pub proof fn law_complement_is_exact(
    blocks: Seq<(u128, u8)>,
    excluded: Seq<(u128, u128)>,
    addr: int,
    prefix: int,
    bits: int,
    x: int,
)
    requires
        are_left(blocks, excluded, addr, prefix, bits),
        is_block(addr, prefix, bits),
        bits <= 128,
        addr <= x < addr + span(bits, prefix),
    ensures
        is_held(blocks, bits, x) <==> !touched(excluded, x, x),
        forall|i: int, j: int|
            0 <= i < j < blocks.len() ==> !(#[trigger] holds(blocks[i], bits, x)
                && #[trigger] holds(blocks[j], bits, x)),
{
    if is_held(blocks, bits, x) {
        let i = choose|i: int| 0 <= i < blocks.len() && #[trigger] holds(blocks[i], bits, x);
        assert(blocks.contains(blocks[i]));
        if touched(excluded, x, x) {
            let k = choose|k: int|
                0 <= k < excluded.len() && (#[trigger] excluded[k]).0 <= x && excluded[k].1 >= x;
            assert(touched(
                excluded,
                blocks[i].0 as int,
                blocks[i].0 + span(bits, blocks[i].1 as int) - 1,
            ));
        }
    }
    if !touched(excluded, x, x) {
        lemma_pow2_127();
        assert(span(bits, bits) == 1);
        assert(block_start(x, bits, bits) == x) by {
            vstd::arithmetic::div_mod::lemma_fundamental_div_mod(x, 1);
        }
        let b = lemma_largest_free(excluded, addr, prefix, bits, x, bits);
        assert(blocks.contains(b));
        let i = choose|i: int| 0 <= i < blocks.len() && blocks[i] == b;
        assert(holds(blocks[i], bits, x));
    }
    assert forall|i: int, j: int| 0 <= i < j < blocks.len() implies !(#[trigger] holds(
        blocks[i],
        bits,
        x,
    ) && #[trigger] holds(blocks[j], bits, x)) by {
        assert(blocks[i].0 + span(bits, blocks[i].1 as int) <= blocks[j].0);
    }
}

/// Whether one of the blocks holds the address `x`.
pub open spec fn is_held(blocks: Seq<(u128, u8)>, bits: int, x: int) -> bool {
    exists|j: int| 0 <= j < blocks.len() && #[trigger] holds(blocks[j], bits, x)
}

/// Whether a block holds the address `x`.
pub open spec fn holds(b: (u128, u8), bits: int, x: int) -> bool {
    b.0 <= x < b.0 + span(bits, b.1 as int)
}

/// Whether `blocks` are blocks inside the block `addr/prefix` which together hold
/// exactly the addresses of it that no excluded range holds.
pub open spec fn are_cover(
    blocks: Seq<(u128, u8)>,
    excluded: Seq<(u128, u128)>,
    addr: int,
    prefix: int,
    bits: int,
) -> bool {
    &&& forall|j: int|
        0 <= j < blocks.len() ==> is_block(
            (#[trigger] blocks[j]).0 as int,
            blocks[j].1 as int,
            bits,
        ) && addr <= blocks[j].0 && blocks[j].0 + span(bits, blocks[j].1 as int) <= addr + span(
            bits,
            prefix,
        )
    &&& forall|x: int|
        addr <= x < addr + span(bits, prefix) ==> (#[trigger] is_held(blocks, bits, x)
            <==> !touched(excluded, x, x))
}

/// A block that is not larger than another has no shorter prefix.
proof fn lemma_longer_prefix(p: int, prefix: int, bits: int)
    requires
        0 <= p <= bits,
        0 <= prefix <= bits,
        span(bits, p) <= span(bits, prefix),
    ensures
        prefix <= p,
{
    if p < prefix {
        lemma_pow2_strictly_increases((bits - prefix) as nat, (bits - p) as nat);
    }
}

/// A block of a cover that holds an address of a largest free block lies inside
/// that block.
proof fn lemma_cover_inside(
    blocks: Seq<(u128, u8)>,
    cover: Seq<(u128, u8)>,
    excluded: Seq<(u128, u128)>,
    addr: int,
    prefix: int,
    bits: int,
    i: int,
    j: int,
)
    requires
        are_left(blocks, excluded, addr, prefix, bits),
        are_cover(cover, excluded, addr, prefix, bits),
        forall|k: int| 0 <= k < excluded.len() ==> (#[trigger] excluded[k]).0 <= excluded[k].1,
        is_block(addr, prefix, bits),
        bits <= 128,
        0 <= i < blocks.len(),
        0 <= j < cover.len(),
        holds(cover[j], bits, blocks[i].0 as int),
    ensures
        blocks[i].0 <= cover[j].0,
        cover[j].0 + span(bits, cover[j].1 as int) <= blocks[i].0 + span(bits, blocks[i].1 as int),
{
    let x = blocks[i].0 as int;
    let (start, p) = (cover[j].0 as int, cover[j].1 as int);
    let s = span(bits, p);
    assert(is_block(start, p, bits));
    lemma_longer_prefix(p, prefix, bits);
    assert(blocks.contains(blocks[i]));
    lemma_pow2_pos((bits - p) as nat);
    assert(block_start(x, bits, p) == start) by {
        let d = x - start;
        vstd::arithmetic::div_mod::lemma_add_mod_noop(start, d, s);
        vstd::arithmetic::div_mod::lemma_small_mod(d as nat, s as nat);
    }
    assert(is_free(excluded, start, p, bits)) by {
        if touched(excluded, start, start + s - 1) {
            let k = choose|k: int|
                0 <= k < excluded.len() && (#[trigger] excluded[k]).0 <= start + s - 1
                    && excluded[k].1 >= start;
            let y = if excluded[k].0 >= start {
                excluded[k].0 as int
            } else {
                start
            };
            assert(touched(excluded, y, y));
            assert(holds(cover[j], bits, y));
            assert(is_held(cover, bits, y));
        }
    }
    let b = lemma_largest_free(excluded, addr, prefix, bits, x, p);
    assert(blocks.contains(b));
    let m = choose|m: int| 0 <= m < blocks.len() && blocks[m] == b;
    lemma_pow2_pos((bits - blocks[i].1) as nat);
    if m < i {
        assert(blocks[m].0 + span(bits, blocks[m].1 as int) <= blocks[i].0);
    } else if i < m {
        assert(blocks[i].0 + span(bits, blocks[i].1 as int) <= blocks[m].0);
    }
    assert(m == i);
    let t = span(bits, b.1 as int);
    lemma_coarser(b.0 as int, (bits - p) as nat, (bits - b.1) as nat);
    lemma_pow2_pos((bits - b.1) as nat);
    vstd::arithmetic::div_mod::lemma_mod_self_0(t);
    lemma_coarser(t, (bits - p) as nat, (bits - b.1) as nat);
    lemma_sum_multiple(b.0 as int, t, s);
    if start < b.0 {
        lemma_multiple_gap(start, b.0 as int, s);
    }
    lemma_multiple_gap(start, b.0 + t, s);
}

/// The largest free blocks inside a block are the smallest cover of what is not
/// excluded of it: no other blocks that hold exactly these addresses are fewer.
pub proof fn law_complement_is_smallest(
    blocks: Seq<(u128, u8)>,
    cover: Seq<(u128, u8)>,
    excluded: Seq<(u128, u128)>,
    addr: int,
    prefix: int,
    bits: int,
)
    requires
        are_left(blocks, excluded, addr, prefix, bits),
        are_cover(cover, excluded, addr, prefix, bits),
        forall|k: int| 0 <= k < excluded.len() ==> (#[trigger] excluded[k]).0 <= excluded[k].1,
        is_block(addr, prefix, bits),
        bits <= 128,
    ensures
        blocks.len() <= cover.len(),
{
    let pick = |i: int|
        choose|j: int| 0 <= j < cover.len() && #[trigger] holds(cover[j], bits, blocks[i].0 as int);
    let picked = Seq::new(blocks.len(), pick);
    assert forall|i: int| 0 <= i < blocks.len() implies 0 <= #[trigger] picked[i] < cover.len()
        && holds(cover[picked[i]], bits, blocks[i].0 as int) by {
        let x = blocks[i].0 as int;
        assert(blocks.contains(blocks[i]));
        lemma_pow2_pos((bits - blocks[i].1) as nat);
        law_complement_is_exact(blocks, excluded, addr, prefix, bits, x);
        assert(holds(blocks[i], bits, x));
        assert(is_held(blocks, bits, x));
        assert(is_held(cover, bits, x));
    }
    assert(picked.no_duplicates()) by {
        assert forall|i: int, k: int| 0 <= i < k < picked.len() implies picked[i] != picked[k] by {
            lemma_cover_inside(blocks, cover, excluded, addr, prefix, bits, i, picked[i]);
            lemma_cover_inside(blocks, cover, excluded, addr, prefix, bits, k, picked[k]);
            assert(blocks[i].0 + span(bits, blocks[i].1 as int) <= blocks[k].0);
            assert(holds(cover[picked[k]], bits, blocks[k].0 as int));
        }
    }
    picked.unique_seq_to_set();
    let all = vstd::set_lib::set_int_range(0, cover.len() as int);
    vstd::set_lib::lemma_int_range(0, cover.len() as int);
    assert(picked.to_set().subset_of(all));
    vstd::set_lib::lemma_len_subset(picked.to_set(), all);
}

/// A power of at most 128 is at most the largest.
proof fn lemma_pow2_at_most(n: nat)
    requires
        n <= 128,
    ensures
        pow2(n) <= pow2(128),
{
    if n < 128 {
        lemma_pow2_strictly_increases(n, 128);
    }
}

/// Around an address in a free block there is a largest free block inside a block
/// that holds the address.
proof fn lemma_largest_free(
    excluded: Seq<(u128, u128)>,
    addr: int,
    prefix: int,
    bits: int,
    x: int,
    p: int,
) -> (b: (u128, u8))
    requires
        is_block(addr, prefix, bits),
        prefix <= p <= bits <= 128,
        addr <= x < addr + span(bits, prefix),
        is_free(excluded, block_start(x, bits, p), p, bits),
    ensures
        is_left(excluded, addr, prefix, bits, b),
        b.0 <= x < b.0 + span(bits, b.1 as int),
        b.1 <= p,
    decreases p,
{
    let start = block_start(x, bits, p);
    let s = span(bits, p);
    let end = addr + span(bits, prefix);
    lemma_pow2_pos((bits - p) as nat);
    lemma_pow2_pos((bits - prefix) as nat);
    lemma_pow2_at_most(bits as nat);
    lemma_pow2_127();
    vstd::arithmetic::div_mod::lemma_mod_bound(x, s);
    lemma_start_multiple(x, s);
    lemma_coarser(addr, (bits - p) as nat, (bits - prefix) as nat);
    vstd::arithmetic::div_mod::lemma_mod_self_0(span(bits, prefix));
    lemma_coarser(span(bits, prefix), (bits - p) as nat, (bits - prefix) as nat);
    lemma_sum_multiple(addr, span(bits, prefix), s);
    if start < addr {
        lemma_multiple_gap(start, addr, s);
    }
    lemma_multiple_gap(start, end, s);
    if p > prefix && is_free(excluded, block_start(x, bits, p - 1), p - 1, bits) {
        lemma_largest_free(excluded, addr, prefix, bits, x, p - 1)
    } else {
        let b = (start as u128, p as u8);
        if p > prefix {
            lemma_same_parent(x, bits, p);
        }
        b
    }
}

/// An address and the start of its block are in the same larger block.
proof fn lemma_same_parent(x: int, bits: int, p: int)
    requires
        0 < p <= bits,
        0 <= x,
    ensures
        block_start(block_start(x, bits, p), bits, p - 1) == block_start(x, bits, p - 1),
{
    let s = span(bits, p);
    let t = span(bits, p - 1);
    lemma_pow2_pos((bits - p) as nat);
    lemma_pow2_pos((bits - p + 1) as nat);
    lemma_pow2_unfold((bits - p + 1) as nat);
    assert(t == 2 * s);
    let start = x - x % s;
    let big = x - x % t;
    lemma_start_multiple(x, t);
    lemma_start_multiple(x, s);
    lemma_coarser(big, (bits - p) as nat, (bits - p + 1) as nat);
    vstd::arithmetic::div_mod::lemma_mod_bound(x, s);
    vstd::arithmetic::div_mod::lemma_mod_bound(x, t);
    // `start` is a multiple of `s` that is not below `big`.
    if start < big {
        lemma_multiple_gap(start, big, s);
    }
    let d = start - big;
    assert(0 <= d < t);
    vstd::arithmetic::div_mod::lemma_add_mod_noop(big, d, t);
    vstd::arithmetic::div_mod::lemma_small_mod(d as nat, t as nat);
    assert((big + d) % t == d);
}

// ---------------------------------------------------------------------------
// Routes as texts
// ---------------------------------------------------------------------------

impl IpAddr {
    /// The number of bits of an address of this family.
    pub open spec fn spec_bits(self) -> int {
        match self {
            IpAddr::V4(_) => 32,
            IpAddr::V6(_) => 128,
        }
    }

    /// The address as a number.
    pub open spec fn spec_value(self) -> int {
        match self {
            IpAddr::V4(n) => n as int,
            IpAddr::V6(n) => n as int,
        }
    }

    /// The number of bits of an address of this family.
    pub fn bits(self) -> (r: u8)
        ensures
            r == self.spec_bits(),
    {
        match self {
            IpAddr::V4(_) => V4_BITS,
            IpAddr::V6(_) => V6_BITS,
        }
    }

    /// The address as a number.
    pub fn value(self) -> (r: u128)
        ensures
            r == self.spec_value(),
    {
        match self {
            IpAddr::V4(n) => n as u128,
            IpAddr::V6(n) => n,
        }
    }
}

/// The address with its host bits cleared.
pub open spec fn network_of(ip: IpAddr, prefix: int) -> IpAddr {
    match ip {
        IpAddr::V4(n) => IpAddr::V4(block_start(n as int, 32, prefix) as u32),
        IpAddr::V6(n) => IpAddr::V6(block_start(n as int, 128, prefix) as u128),
    }
}

/// An address of a family is below its limit.
proof fn lemma_value_bound(ip: IpAddr)
    ensures
        0 <= ip.spec_value() < pow2(ip.spec_bits() as nat),
        pow2(32) == 0x1_0000_0000,
        pow2(128) == u128::MAX + 1,
{
    lemma_pow2_127();
}

/// Clearing host bits stays inside the family.
proof fn lemma_network_value(ip: IpAddr, prefix: int)
    requires
        0 <= prefix <= ip.spec_bits(),
    ensures
        network_of(ip, prefix).spec_value() == block_start(ip.spec_value(), ip.spec_bits(), prefix),
        network_of(ip, prefix).spec_bits() == ip.spec_bits(),
        0 <= block_start(ip.spec_value(), ip.spec_bits(), prefix) <= ip.spec_value(),
{
    lemma_value_bound(ip);
    lemma_pow2_at_most(32);
    lemma_block_fits(ip.spec_value(), ip.spec_bits() - prefix);
}

/// The address with its host bits cleared, so that `10.1.2.3/8` becomes
/// `10.0.0.0/8`.
pub fn network_address(ip: IpAddr, prefix: u8) -> (r: IpAddr)
    requires
        prefix <= ip.spec_bits(),
    ensures
        r == network_of(ip, prefix as int),
{
    proof {
        lemma_network_value(ip, prefix as int);
        lemma_pow2_127();
    }
    let host_bits: u8 = ip.bits() - prefix;
    if host_bits >= 128 {
        proof {
            vstd::arithmetic::div_mod::lemma_small_mod(ip.spec_value() as nat, pow2(128));
        }
        return IpAddr::V6(0);
    }
    let size = power(host_bits);
    proof {
        lemma_pow2_pos(host_bits as nat);
    }
    match ip {
        IpAddr::V4(n) => {
            let v = n as u128;
            IpAddr::V4((v - v % size) as u32)
        },
        IpAddr::V6(n) => IpAddr::V6(n - n % size),
    }
}

/// A block as a text.
pub open spec fn cidr_text(ip: IpAddr, prefix: nat) -> Seq<char> {
    ip.spec_text() + "/"@ + decimal(prefix)
}

/// A block as a text.
fn cidr_string(ip: IpAddr, prefix: u8) -> (r: String)
    ensures
        r@ == cidr_text(ip, prefix as nat),
{
    let mut r = ip.text();
    r.append("/");
    push_decimal(&mut r, prefix as u128);
    r
}

/// The block that a text denotes, with its host bits cleared, or what is wrong
/// with the text. An address without a prefix is a block of its own.
pub open spec fn cidr_of(input: Seq<char>) -> Result<(IpAddr, nat), Seq<char>> {
    let t = trimmed(input);
    if t.len() == 0 {
        Err("route cannot be empty"@)
    } else {
        match cut(t, '/') {
            Some((ip, prefix)) => match address_of(trimmed(ip)) {
                None => Err("invalid IP address '"@ + ip + "': invalid IP address syntax"@),
                Some(a) => match number_value(trimmed(prefix), 255) {
                    Err(e) => Err("invalid prefix length '"@ + prefix + "': "@ + e.spec_text()),
                    Ok(n) => match a {
                        IpAddr::V4(_) => if n > 32 {
                            Err("IPv4 prefix length must be <= 32, got "@ + decimal(n))
                        } else {
                            Ok((network_of(a, n as int), n))
                        },
                        IpAddr::V6(_) => if n > 128 {
                            Err("IPv6 prefix length must be <= 128, got "@ + decimal(n))
                        } else {
                            Ok((network_of(a, n as int), n))
                        },
                    },
                },
            },
            None => match address_of(t) {
                None => Err("invalid IP or CIDR '"@ + t + "': invalid IP address syntax"@),
                Some(a) => Ok((a, a.spec_bits() as nat)),
            },
        }
    }
}

/// Parse a block or an address, and write it in its normal form: with the host
/// bits cleared and with a prefix. The flag says whether it is IPv4.
pub fn parse_and_normalize_cidr(input: &str) -> (r: Result<(String, bool), String>)
    ensures
        match (r, cidr_of(input@)) {
            (Ok((s, is_v4)), Ok((ip, prefix))) => s@ == cidr_text(ip, prefix) && is_v4 == (
            ip is V4),
            (Err(m), Err(e)) => m@ == e,
            _ => false,
        },
{
    let t = trim(input);
    if t.is_empty() {
        return Err("route cannot be empty".to_owned());
    }
    match split_once(t, '/') {
        Some((ip_str, prefix_str)) => {
            let ip = match IpAddr::parse(trim(ip_str)) {
                Some(ip) => ip,
                None => {
                    return Err(
                        "invalid IP address '".to_owned().concat(ip_str).concat(
                            "': invalid IP address syntax",
                        ),
                    );
                },
            };
            let prefix = match parse_number(trim(prefix_str), 255) {
                Ok(n) => n as u8,
                Err(e) => {
                    return Err(
                        "invalid prefix length '".to_owned().concat(prefix_str).concat(
                            "': ",
                        ).concat(e.text()),
                    );
                },
            };
            let is_v4 = match ip {
                IpAddr::V4(_) => {
                    if prefix > 32 {
                        let mut m = "IPv4 prefix length must be <= 32, got ".to_owned();
                        push_decimal(&mut m, prefix as u128);
                        return Err(m);
                    }
                    true
                },
                IpAddr::V6(_) => {
                    if prefix > 128 {
                        let mut m = "IPv6 prefix length must be <= 128, got ".to_owned();
                        push_decimal(&mut m, prefix as u128);
                        return Err(m);
                    }
                    false
                },
            };
            Ok((cidr_string(network_address(ip, prefix), prefix), is_v4))
        },
        None => match IpAddr::parse(t) {
            Some(ip) => {
                let is_v4 = match ip {
                    IpAddr::V4(_) => true,
                    IpAddr::V6(_) => false,
                };
                Ok((cidr_string(ip, ip.bits()), is_v4))
            },
            None => Err(
                "invalid IP or CIDR '".to_owned().concat(t).concat("': invalid IP address syntax"),
            ),
        },
    }
}

/// The normal form of the route that a text denotes in one family.
pub open spec fn route_in(t: Seq<char>, want_v6: bool) -> Option<Seq<char>> {
    match cidr_of(t) {
        Ok((ip, prefix)) => if (ip is V6) == want_v6 {
            Some(cidr_text(ip, prefix))
        } else {
            None
        },
        Err(_) => None,
    }
}

/// The routes of one family that texts denote, in normal form: each once, where
/// it first occurs. Texts that denote no route are left out.
pub open spec fn routes_in(texts: Seq<Seq<char>>, want_v6: bool) -> Seq<Seq<char>>
    decreases texts.len(),
{
    if texts.len() == 0 {
        Seq::empty()
    } else {
        let before = routes_in(texts.drop_last(), want_v6);
        match route_in(texts.last(), want_v6) {
            Some(route) => if before.contains(route) {
                before
            } else {
                before.push(route)
            },
            None => before,
        }
    }
}

/// Part routes into IPv4 and IPv6, in normal form.
pub fn partition_routes(routes: &[&str]) -> (r: (Vec<String>, Vec<String>))
    ensures
        r.0.deep_view() == routes_in(routes.deep_view(), false),
        r.1.deep_view() == routes_in(routes.deep_view(), true),
{
    let mut v4: Vec<String> = Vec::new();
    let mut v6: Vec<String> = Vec::new();
    let ghost all = routes.deep_view();
    let mut i: usize = 0;
    assert(v4.deep_view() =~= Seq::<Seq<char>>::empty());
    assert(v6.deep_view() =~= Seq::<Seq<char>>::empty());
    while i < routes.len()
        invariant
            i <= routes.len(),
            all == routes.deep_view(),
            v4.deep_view() == routes_in(all.take(i as int), false),
            v6.deep_view() == routes_in(all.take(i as int), true),
        decreases routes.len() - i,
    {
        proof {
            let next = all.take(i as int + 1);
            assert(next.drop_last() =~= all.take(i as int));
            assert(next.last() == routes[i as int]@);
        }
        match parse_and_normalize_cidr(routes[i]) {
            Ok((normalized, is_v4)) => {
                let ghost text = normalized@;
                if is_v4 {
                    let known = v4.as_slice();
                    assert(known.deep_view() =~= v4.deep_view());
                    if !has_text(known, normalized.as_str()) {
                        let ghost was = v4.deep_view();
                        v4.push(normalized);
                        assert(v4.deep_view() =~= was.push(text));
                    }
                } else {
                    let known = v6.as_slice();
                    assert(known.deep_view() =~= v6.deep_view());
                    if !has_text(known, normalized.as_str()) {
                        let ghost was = v6.deep_view();
                        v6.push(normalized);
                        assert(v6.deep_view() =~= was.push(text));
                    }
                }
            },
            Err(_) => {},
        }
        i += 1;
    }
    assert(all.take(i as int) =~= all);
    (v4, v6)
}

/// An address as a route of its own.
pub open spec fn host_route(ip: IpAddr) -> Seq<char> {
    cidr_text(ip, ip.spec_bits() as nat)
}

/// What split tunneling is configured for: the configured blocks, and the
/// addresses that the configured domains resolved to.
pub open spec fn targets(cidrs: Seq<Seq<char>>, addresses: Seq<IpAddr>) -> Seq<Seq<char>> {
    cidrs + addresses.map_values(|ip: IpAddr| host_route(ip))
}

/// The routes of both families for configured blocks and for the addresses that
/// the configured domains resolved to.
pub fn collect_all_routes(cidrs: &[String], addresses: &[IpAddr]) -> (r: (Vec<String>, Vec<String>))
    ensures
        r.0.deep_view() == routes_in(targets(cidrs.deep_view(), addresses@), false),
        r.1.deep_view() == routes_in(targets(cidrs.deep_view(), addresses@), true),
{
    let mut hosts: Vec<String> = Vec::new();
    let mut i: usize = 0;
    let ghost texts = addresses@.map_values(|ip: IpAddr| host_route(ip));
    while i < addresses.len()
        invariant
            i <= addresses.len(),
            texts == addresses@.map_values(|ip: IpAddr| host_route(ip)),
            hosts.deep_view() == texts.take(i as int),
        decreases addresses.len() - i,
    {
        let ip = addresses[i];
        let ghost was = hosts.deep_view();
        hosts.push(cidr_string(ip, ip.bits()));
        assert(hosts.deep_view() =~= was.push(host_route(ip)));
        i += 1;
    }
    let mut all: Vec<&str> = Vec::new();
    let mut j: usize = 0;
    while j < cidrs.len()
        invariant
            j <= cidrs.len(),
            all.deep_view() == cidrs.deep_view().take(j as int),
        decreases cidrs.len() - j,
    {
        let ghost was = all.deep_view();
        all.push(cidrs[j].as_str());
        assert(all.deep_view() =~= was.push(cidrs.deep_view()[j as int]));
        j += 1;
    }
    assert(cidrs.deep_view().take(j as int) =~= cidrs.deep_view());
    assert(texts.take(i as int) =~= texts);
    let mut k: usize = 0;
    assert(all.deep_view() =~= cidrs.deep_view() + texts.take(0));
    while k < hosts.len()
        invariant
            k <= hosts.len(),
            hosts.deep_view() == texts,
            all.deep_view() == cidrs.deep_view() + texts.take(k as int),
        decreases hosts.len() - k,
    {
        let ghost was = all.deep_view();
        assert(hosts.deep_view()[k as int] == hosts[k as int]@);
        all.push(hosts[k].as_str());
        assert(all.deep_view() =~= was.push(texts[k as int]));
        assert(was.push(texts[k as int]) =~= cidrs.deep_view() + texts.take(k as int + 1));
        k += 1;
    }
    assert(texts.take(k as int) =~= texts);
    let list = all.as_slice();
    assert(list.deep_view() =~= all.deep_view());
    partition_routes(list)
}

// ---------------------------------------------------------------------------
// The complement
// ---------------------------------------------------------------------------

/// The number of bits of a family.
pub open spec fn family_bits(want_v6: bool) -> int {
    if want_v6 {
        128
    } else {
        32
    }
}

/// The first and the last address of the block of one family that a text denotes.
pub open spec fn range_of(cidr: Seq<char>, want_v6: bool) -> Option<(u128, u128)> {
    match cut(cidr, '/') {
        Some((ip, prefix)) => match (address_of(ip), number_value(prefix, 255)) {
            (Some(a), Ok(n)) => if n <= family_bits(want_v6) && (a is V6) == want_v6 {
                Some(
                    (
                        block_start(a.spec_value(), a.spec_bits(), n as int) as u128,
                        block_last(a.spec_value(), a.spec_bits(), n as int) as u128,
                    ),
                )
            } else {
                None
            },
            _ => None,
        },
        None => None,
    }
}

/// The ranges that texts denote in one family; other texts are left out.
pub open spec fn ranges_of(cidrs: Seq<Seq<char>>, want_v6: bool) -> Seq<(u128, u128)>
    decreases cidrs.len(),
{
    if cidrs.len() == 0 {
        Seq::empty()
    } else {
        match range_of(cidrs.last(), want_v6) {
            Some(range) => ranges_of(cidrs.drop_last(), want_v6).push(range),
            None => ranges_of(cidrs.drop_last(), want_v6),
        }
    }
}

/// The range that a text denotes in one family.
fn to_range(cidr: &str, want_v6: bool) -> (r: Option<(u128, u128)>)
    ensures
        r == range_of(cidr@, want_v6),
{
    let (ip_str, prefix_str) = match split_once(cidr, '/') {
        Some(p) => p,
        None => {
            return None;
        },
    };
    let ip = match IpAddr::parse(ip_str) {
        Some(ip) => ip,
        None => {
            return None;
        },
    };
    let is_v6 = match ip {
        IpAddr::V4(_) => false,
        IpAddr::V6(_) => true,
    };
    match parse_number(prefix_str, 255) {
        Ok(n) => {
            let bits = ip.bits();
            if is_v6 != want_v6 || n > bits as u64 {
                return None;
            }
            let prefix = n as u8;
            let value = ip.value();
            proof {
                lemma_value_bound(ip);
                lemma_pow2_at_most(bits as nat);
                lemma_network_value(ip, prefix as int);
            }
            let start = network_address(ip, prefix).value();
            Some((start, block_end(value, prefix, bits)))
        },
        Err(_) => None,
    }
}

/// The ranges that texts denote in one family; other texts are left out.
pub fn to_ranges(cidrs: &[String], want_v6: bool) -> (r: Vec<(u128, u128)>)
    ensures
        r@ == ranges_of(cidrs.deep_view(), want_v6),
{
    let mut r: Vec<(u128, u128)> = Vec::new();
    let ghost all = cidrs.deep_view();
    let mut i: usize = 0;
    while i < cidrs.len()
        invariant
            i <= cidrs.len(),
            all == cidrs.deep_view(),
            r@ == ranges_of(all.take(i as int), want_v6),
        decreases cidrs.len() - i,
    {
        proof {
            let next = all.take(i as int + 1);
            assert(next.drop_last() =~= all.take(i as int));
            assert(next.last() == cidrs[i as int]@);
        }
        match to_range(cidrs[i].as_str(), want_v6) {
            Some(range) => {
                r.push(range);
            },
            None => {},
        }
        i += 1;
    }
    assert(all.take(i as int) =~= all);
    r
}

/// The address of one family with the given number.
pub open spec fn address_in(value: u128, want_v6: bool) -> IpAddr {
    if want_v6 {
        IpAddr::V6(value)
    } else {
        IpAddr::V4(value as u32)
    }
}

/// The texts of blocks of one family.
pub open spec fn block_texts(blocks: Seq<(u128, u8)>, want_v6: bool) -> Seq<Seq<char>> {
    blocks.map_values(|b: (u128, u8)| cidr_text(address_in(b.0, want_v6), b.1 as nat))
}

/// Whether `routes` are the complement of `excluded` in one family: the largest
/// blocks that no excluded block meets, in ascending order.
pub open spec fn are_complement(
    routes: Seq<Seq<char>>,
    excluded: Seq<Seq<char>>,
    want_v6: bool,
) -> bool {
    exists|blocks: Seq<(u128, u8)>|
        #![trigger block_texts(blocks, want_v6)]
        are_left(blocks, ranges_of(excluded, want_v6), 0, 0, family_bits(want_v6)) && routes
            == block_texts(blocks, want_v6)
}

/// Every address of one family except those in `excluded`, as blocks.
pub fn complement_routes(excluded: &[String], want_v6: bool) -> (r: Vec<String>)
    ensures
        are_complement(r.deep_view(), excluded.deep_view(), want_v6),
{
    let bits = if want_v6 { V6_BITS } else { V4_BITS };
    let ranges = to_ranges(excluded, want_v6);
    let mut blocks: Vec<(u128, u8)> = Vec::new();
    proof {
        lemma_pow2_pos(bits as nat);
        vstd::arithmetic::div_mod::lemma_small_mod(0, pow2(bits as nat));
    }
    subtract_into(0, 0, bits, &ranges, &mut blocks);
    assert(blocks@.skip(0) =~= blocks@);
    let ghost texts = block_texts(blocks@, want_v6);
    let mut r: Vec<String> = Vec::new();
    let mut i: usize = 0;
    while i < blocks.len()
        invariant
            i <= blocks.len(),
            texts == block_texts(blocks@, want_v6),
            r.deep_view() == texts.take(i as int),
        decreases blocks.len() - i,
    {
        let (value, prefix) = blocks[i];
        let ip = if want_v6 { IpAddr::V6(value) } else { IpAddr::V4(value as u32) };
        let ghost was = r.deep_view();
        r.push(cidr_string(ip, prefix));
        assert(r.deep_view() =~= was.push(texts[i as int]));
        i += 1;
    }
    assert(texts.take(i as int) =~= texts);
    r
}

// ---------------------------------------------------------------------------
// Modes
// ---------------------------------------------------------------------------

/// Whether `r` are the IPv4 and the IPv6 routes that the tunnel carries in `mode`.
pub open spec fn are_routes_for(
    r: (Seq<Seq<char>>, Seq<Seq<char>>),
    mode: SplitTunnelMode,
    cidrs: Seq<Seq<char>>,
    addresses: Seq<IpAddr>,
) -> bool {
    let asked = targets(cidrs, addresses);
    match mode {
        SplitTunnelMode::Disabled => r.0.len() == 0 && r.1.len() == 0,
        SplitTunnelMode::Include => r.0 == routes_in(asked, false) && r.1 == routes_in(asked, true),
        SplitTunnelMode::Exclude => are_complement(r.0, routes_in(asked, false), false)
            && are_complement(r.1, routes_in(asked, true), true),
    }
}

/// The IPv4 and the IPv6 routes that the tunnel carries in `mode`, for configured
/// blocks and for the addresses that the configured domains resolved to.
pub fn routes_for(mode: SplitTunnelMode, cidrs: &[String], addresses: &[IpAddr]) -> (r: (
    Vec<String>,
    Vec<String>,
))
    ensures
        are_routes_for((r.0.deep_view(), r.1.deep_view()), mode, cidrs.deep_view(), addresses@),
{
    match mode {
        SplitTunnelMode::Disabled => (Vec::new(), Vec::new()),
        SplitTunnelMode::Include => collect_all_routes(cidrs, addresses),
        SplitTunnelMode::Exclude => {
            let (v4, v6) = collect_all_routes(cidrs, addresses);
            let (excluded4, excluded6) = (v4.as_slice(), v6.as_slice());
            assert(excluded4.deep_view() =~= v4.deep_view());
            assert(excluded6.deep_view() =~= v6.deep_view());
            (complement_routes(excluded4, false), complement_routes(excluded6, true))
        },
    }
}

/// Whether one family is barred from the tunnel's default route: only when
/// traffic is split and the family has routes of its own.
pub open spec fn barred(mode: SplitTunnelMode, routes: Seq<Seq<char>>) -> Seq<char> {
    if mode.spec_is_enabled() && routes.len() > 0 {
        "yes"@
    } else {
        "no"@
    }
}

/// Whether one family is barred from the tunnel's default route, in the words of
/// NetworkManager.
pub fn never_default_for(mode: SplitTunnelMode, routes: &[String]) -> (r: &'static str)
    ensures
        r@ == barred(mode, routes.deep_view()),
{
    if mode.is_enabled() && routes.len() > 0 {
        "yes"
    } else {
        "no"
    }
}

/// The list of routes that is written for one family.
pub open spec fn route_list(mode: SplitTunnelMode, routes: Seq<Seq<char>>) -> Seq<char> {
    if mode.spec_is_enabled() {
        joined(routes, ", "@)
    } else {
        Seq::empty()
    }
}

/// The arguments of `nmcli` that configure split tunneling on connection `uuid`.
pub open spec fn split_tunnel_args(
    uuid: Seq<char>,
    mode: SplitTunnelMode,
    v4_routes: Seq<Seq<char>>,
    v6_routes: Seq<Seq<char>>,
) -> Seq<Seq<char>> {
    seq![
        "connection"@,
        "modify"@,
        uuid,
        "ipv4.never-default"@,
        barred(mode, v4_routes),
        "ipv6.never-default"@,
        barred(mode, v6_routes),
        "ipv4.routes"@,
        route_list(mode, v4_routes),
        "ipv6.routes"@,
        route_list(mode, v6_routes),
    ]
}

/// The arguments of `nmcli` that configure split tunneling on connection `uuid`.
pub fn set_args(
    uuid: &str,
    mode: SplitTunnelMode,
    v4_routes: &[String],
    v6_routes: &[String],
) -> (r: Vec<String>)
    ensures
        r.deep_view() == split_tunnel_args(
            uuid@,
            mode,
            v4_routes.deep_view(),
            v6_routes.deep_view(),
        ),
{
    let (v4, v6) = if mode.is_enabled() {
        (join(v4_routes, ", "), join(v6_routes, ", "))
    } else {
        (String::new(), String::new())
    };
    let r = vec![
        "connection".to_owned(),
        "modify".to_owned(),
        uuid.to_owned(),
        "ipv4.never-default".to_owned(),
        never_default_for(mode, v4_routes).to_owned(),
        "ipv6.never-default".to_owned(),
        never_default_for(mode, v6_routes).to_owned(),
        "ipv4.routes".to_owned(),
        v4,
        "ipv6.routes".to_owned(),
        v6,
    ];
    assert(r.deep_view() =~= split_tunnel_args(
        uuid@,
        mode,
        v4_routes.deep_view(),
        v6_routes.deep_view(),
    ));
    r
}

// ---------------------------------------------------------------------------
// Domains
// ---------------------------------------------------------------------------

/// A domain name in its normal form, where its lower case is `lower`.
pub open spec fn domain_of(lower: Seq<char>) -> Option<Seq<char>> {
    if lower.len() > 0 {
        Some(lower)
    } else {
        None
    }
}

/// The normal form of a domain name: without white space around it and in lower
/// case; nothing where that is empty.
pub fn normalize_domain(input: &str) -> (r: Option<String>)
    ensures
        opt_text(r) == domain_of(lowercased(trimmed(input@))),
        r is None <==> trimmed(input@).len() == 0,
        vstd::utf8::is_ascii_chars(trimmed(input@)) ==> opt_text(r) == domain_of(
            ascii_lowered(trimmed(input@)),
        ),
{
    let lower = to_lowercase(trim(input));
    if lower.as_str().is_empty() {
        None
    } else {
        Some(lower)
    }
}

/// A domain name of ASCII characters has a normal form unless it is blank, and the
/// normal form is its own normal form.
pub proof fn law_domain_is_normalized_once(input: Seq<char>)
    requires
        vstd::utf8::is_ascii_chars(trimmed(input)),
    ensures
        domain_of(ascii_lowered(trimmed(input))) is None <==> trimmed(input).len() == 0,
        domain_of(ascii_lowered(trimmed(input))) matches Some(d) ==> {
            &&& vstd::utf8::is_ascii_chars(trimmed(d))
            &&& domain_of(ascii_lowered(trimmed(d))) == Some(d)
        },
{
    let t = trimmed(input);
    let d = ascii_lowered(t);
    assert(d.len() == t.len());
    if t.len() > 0 {
        lemma_trimmed_ends(input);
        assert(d[0] == ascii_lower(t[0]));
        assert(d.last() == ascii_lower(t.last()));
        lemma_trimmed_plain(d);
        assert forall|i: int| 0 <= i < d.len() implies '\0' <= #[trigger] d[i] <= '\u{7f}' by {
            assert(d[i] == ascii_lower(t[i]));
        }
        assert(ascii_lowered(d) =~= d);
    }
}

// ---------------------------------------------------------------------------
// What the routes mean
// ---------------------------------------------------------------------------

/// Clearing host bits twice changes nothing more.
proof fn lemma_network_twice(ip: IpAddr, prefix: int)
    requires
        0 <= prefix <= ip.spec_bits(),
    ensures
        network_of(network_of(ip, prefix), prefix) == network_of(ip, prefix),
        is_block(network_of(ip, prefix).spec_value(), prefix, ip.spec_bits()),
{
    let (v, w) = (ip.spec_value(), ip.spec_bits());
    lemma_network_value(ip, prefix);
    let s = span(w, prefix);
    lemma_pow2_pos((w - prefix) as nat);
    lemma_start_multiple(v, s);
    let start = block_start(v, w, prefix);
    assert(block_start(start, w, prefix) == start);
    lemma_value_bound(ip);
    vstd::arithmetic::div_mod::lemma_mod_self_0(pow2(w as nat) as int);
    lemma_coarser(pow2(w as nat) as int, (w - prefix) as nat, w as nat);
    lemma_multiple_gap(start, pow2(w as nat) as int, s);
}

/// An address is the block of its own longest prefix.
proof fn lemma_network_whole(ip: IpAddr)
    ensures
        network_of(ip, ip.spec_bits()) == ip,
{
    lemma_pow2_127();
    vstd::arithmetic::div_mod::lemma_fundamental_div_mod(ip.spec_value(), 1);
}

/// The two halves of the text of a block.
proof fn lemma_cidr_text_cut(ip: IpAddr, prefix: nat)
    requires
        prefix <= 255,
    ensures
        trimmed(cidr_text(ip, prefix)) == cidr_text(ip, prefix),
        cidr_text(ip, prefix).len() > 0,
        cut(cidr_text(ip, prefix), '/') == Some((ip.spec_text(), decimal(prefix))),
        trimmed(ip.spec_text()) == ip.spec_text(),
        trimmed(decimal(prefix)) == decimal(prefix),
        number_value(decimal(prefix), 255) == Ok::<nat, crate::text::NumberError>(prefix),
{
    let a = ip.spec_text();
    let d = decimal(prefix);
    let s = cidr_text(ip, prefix);
    crate::ip::lemma_text_chars(ip);
    crate::text::lemma_decimal_value(prefix, 255);
    reveal_strlit("/");
    assert(is_plain(a[0]) && is_plain(a.last()) && is_plain(d[0]) && is_plain(d.last())) by {
        assert(crate::ip::is_address_char(a[0]));
        assert(crate::ip::is_address_char(a[a.len() - 1]));
        assert('0' <= d[0] <= '9');
        assert('0' <= d[d.len() - 1] <= '9');
    }
    crate::text::lemma_trimmed_plain(a);
    crate::text::lemma_trimmed_plain(d);
    assert(s[0] == a[0]);
    assert(s.last() == d.last());
    crate::text::lemma_trimmed_plain(s);
    assert(s[a.len() as int] == '/');
    assert forall|k: int| 0 <= k < a.len() implies s[k] != '/' by {
        assert(s[k] == a[k]);
        assert(crate::ip::is_address_char(a[k]));
    }
    crate::text::lemma_first_at_is(s, '/', a.len() as int);
    assert(s.take(a.len() as int) =~= a);
    assert(s.skip(a.len() as int + 1) =~= d);
}

/// Whether `c` is no white space.
spec fn is_plain(c: char) -> bool {
    !crate::text::is_space(c)
}

/// The normal form of a block reads back as that block.
pub proof fn law_block_reads_back(ip: IpAddr, prefix: nat)
    requires
        prefix <= ip.spec_bits(),
        network_of(ip, prefix as int) == ip,
    ensures
        cidr_of(cidr_text(ip, prefix)) == Ok::<(IpAddr, nat), Seq<char>>((ip, prefix)),
        range_of(cidr_text(ip, prefix), ip is V6) == Some(
            (
                ip.spec_value() as u128,
                (ip.spec_value() + span(ip.spec_bits(), prefix as int) - 1) as u128,
            ),
        ),
        range_of(cidr_text(ip, prefix), !(ip is V6)) is None,
{
    lemma_cidr_text_cut(ip, prefix);
    crate::ip::law_text_reads_back(ip);
    lemma_network_value(ip, prefix as int);
    assert(family_bits(ip is V6) == ip.spec_bits());
}

/// Normalizing is done once and for all: what a text normalizes to normalizes to
/// itself.
pub proof fn law_normalizing_twice(input: Seq<char>)
    requires
        cidr_of(input) is Ok,
    ensures
        ({
            let (ip, prefix) = cidr_of(input)->Ok_0;
            cidr_of(cidr_text(ip, prefix)) == Ok::<(IpAddr, nat), Seq<char>>((ip, prefix))
        }),
{
    lemma_normal(input);
    let (ip, prefix) = cidr_of(input)->Ok_0;
    law_block_reads_back(ip, prefix);
}

/// What a text normalizes to has no host bits.
proof fn lemma_normal(input: Seq<char>)
    requires
        cidr_of(input) is Ok,
    ensures
        ({
            let (ip, prefix) = cidr_of(input)->Ok_0;
            &&& prefix <= ip.spec_bits()
            &&& network_of(ip, prefix as int) == ip
            &&& is_block(ip.spec_value(), prefix as int, ip.spec_bits())
        }),
{
    let t = trimmed(input);
    let (ip, prefix) = cidr_of(input)->Ok_0;
    match cut(t, '/') {
        Some((a, p)) => {
            let raw = address_of(trimmed(a))->0;
            lemma_network_twice(raw, prefix as int);
            lemma_network_value(raw, prefix as int);
        },
        None => {
            lemma_network_whole(ip);
            lemma_network_twice(ip, prefix as int);
        },
    }
}

/// Whether address `x` of one family is in the block that a text denotes.
pub open spec fn asked_holds(t: Seq<char>, want_v6: bool, x: int) -> bool {
    match cidr_of(t) {
        Ok((ip, prefix)) => (ip is V6) == want_v6 && ip.spec_value() <= x < ip.spec_value() + span(
            ip.spec_bits(),
            prefix as int,
        ),
        Err(_) => false,
    }
}

/// Whether address `x` of one family is in one of the blocks that texts denote.
pub open spec fn asked(texts: Seq<Seq<char>>, want_v6: bool, x: int) -> bool {
    exists|i: int| 0 <= i < texts.len() && asked_holds(#[trigger] texts[i], want_v6, x)
}

/// Whether a route carries address `x` of one family.
pub open spec fn route_holds(route: Seq<char>, want_v6: bool, x: int) -> bool {
    match range_of(route, want_v6) {
        Some((low, high)) => low <= x <= high,
        None => false,
    }
}

/// Whether one of the routes carries address `x` of one family.
pub open spec fn routed(routes: Seq<Seq<char>>, want_v6: bool, x: int) -> bool {
    exists|i: int| 0 <= i < routes.len() && route_holds(#[trigger] routes[i], want_v6, x)
}

/// A route in normal form carries the addresses that its text asked for.
proof fn lemma_route_in_holds(t: Seq<char>, want_v6: bool, x: int)
    ensures
        asked_holds(t, want_v6, x) <==> (route_in(t, want_v6) is Some && route_holds(
            route_in(t, want_v6)->0,
            want_v6,
            x,
        )),
{
    if cidr_of(t) is Ok {
        lemma_normal(t);
        let (ip, prefix) = cidr_of(t)->Ok_0;
        law_block_reads_back(ip, prefix);
        lemma_value_bound(ip);
        lemma_pow2_pos((ip.spec_bits() - prefix) as nat);
        lemma_pow2_127();
    }
}

/// What was asked for is carried by one of the routes in normal form.
#[verifier::spinoff_prover]
proof fn lemma_asked_is_routed(texts: Seq<Seq<char>>, want_v6: bool, x: int, i: int)
    requires
        0 <= i < texts.len(),
        asked_holds(texts[i], want_v6, x),
    ensures
        routed(routes_in(texts, want_v6), want_v6, x),
    decreases texts.len(),
{
    let less = texts.drop_last();
    let before = routes_in(less, want_v6);
    let routes = routes_in(texts, want_v6);
    if i < less.len() {
        assert(less[i] == texts[i]);
        lemma_asked_is_routed(less, want_v6, x, i);
        let j = choose|j: int|
            0 <= j < before.len() && route_holds(#[trigger] before[j], want_v6, x);
        assert(routes[j] == before[j]);
    } else {
        lemma_route_in_holds(texts.last(), want_v6, x);
        let route = route_in(texts.last(), want_v6)->0;
        let j = if before.contains(route) {
            choose|j: int| 0 <= j < before.len() && before[j] == route
        } else {
            before.len() as int
        };
        assert(routes[j] == route);
    }
}

/// What a route in normal form carries was asked for.
#[verifier::spinoff_prover]
proof fn lemma_routed_is_asked(texts: Seq<Seq<char>>, want_v6: bool, x: int, j: int)
    requires
        0 <= j < routes_in(texts, want_v6).len(),
        route_holds(routes_in(texts, want_v6)[j], want_v6, x),
    ensures
        asked(texts, want_v6, x),
    decreases texts.len(),
{
    if texts.len() > 0 {
        let less = texts.drop_last();
        let before = routes_in(less, want_v6);
        if j < before.len() {
            assert(before[j] == routes_in(texts, want_v6)[j]);
            lemma_routed_is_asked(less, want_v6, x, j);
            let i = choose|i: int|
                0 <= i < less.len() && asked_holds(#[trigger] less[i], want_v6, x);
            assert(texts[i] == less[i]);
        } else {
            lemma_route_in_holds(texts.last(), want_v6, x);
            assert(asked_holds(texts[texts.len() - 1], want_v6, x));
        }
    }
}

/// The routes in normal form carry exactly the addresses that were asked for.
proof fn lemma_routes_in_hold(texts: Seq<Seq<char>>, want_v6: bool, x: int)
    ensures
        routed(routes_in(texts, want_v6), want_v6, x) <==> asked(texts, want_v6, x),
{
    if asked(texts, want_v6, x) {
        let i = choose|i: int| 0 <= i < texts.len() && asked_holds(#[trigger] texts[i], want_v6, x);
        lemma_asked_is_routed(texts, want_v6, x, i);
    }
    if routed(routes_in(texts, want_v6), want_v6, x) {
        let routes = routes_in(texts, want_v6);
        let j = choose|j: int| 0 <= j < routes.len() && route_holds(#[trigger] routes[j], want_v6, x);
        lemma_routed_is_asked(texts, want_v6, x, j);
    }
}

/// An address is in an excluded range where a route of the list carries it.
proof fn lemma_ranges_of(cidrs: Seq<Seq<char>>, want_v6: bool, x: int)
    ensures
        touched(ranges_of(cidrs, want_v6), x, x) <==> routed(cidrs, want_v6, x),
    decreases cidrs.len(),
{
    if cidrs.len() > 0 {
        let less = cidrs.drop_last();
        let rs = ranges_of(cidrs, want_v6);
        let before = ranges_of(less, want_v6);
        lemma_ranges_of(less, want_v6, x);
        if touched(rs, x, x) {
            let k = choose|k: int| 0 <= k < rs.len() && (#[trigger] rs[k]).0 <= x && rs[k].1 >= x;
            if k < before.len() {
                assert(before[k] == rs[k]);
                assert(touched(before, x, x));
                let i = choose|i: int|
                    0 <= i < less.len() && route_holds(#[trigger] less[i], want_v6, x);
                assert(cidrs[i] == less[i]);
            } else {
                assert(route_holds(cidrs[cidrs.len() - 1], want_v6, x));
            }
        }
        if routed(cidrs, want_v6, x) {
            let i = choose|i: int|
                0 <= i < cidrs.len() && route_holds(#[trigger] cidrs[i], want_v6, x);
            if i < less.len() {
                assert(less[i] == cidrs[i]);
                assert(routed(less, want_v6, x));
                let k = choose|k: int|
                    0 <= k < before.len() && (#[trigger] before[k]).0 <= x && before[k].1 >= x;
                assert(rs[k] == before[k]);
            } else {
                assert(rs[before.len() as int].0 <= x && rs[before.len() as int].1 >= x);
            }
        }
    }
}

/// The text of a block that is left reads back as that block.
proof fn lemma_block_text(
    blocks: Seq<(u128, u8)>,
    excluded: Seq<(u128, u128)>,
    want_v6: bool,
    i: int,
)
    requires
        are_left(blocks, excluded, 0, 0, family_bits(want_v6)),
        0 <= i < blocks.len(),
    ensures
        cidr_of(block_texts(blocks, want_v6)[i]) == Ok::<(IpAddr, nat), Seq<char>>(
            (address_in(blocks[i].0, want_v6), blocks[i].1 as nat),
        ),
        range_of(block_texts(blocks, want_v6)[i], want_v6) == Some(
            (
                blocks[i].0,
                (blocks[i].0 + span(family_bits(want_v6), blocks[i].1 as int) - 1) as u128,
            ),
        ),
        blocks[i].0 + span(family_bits(want_v6), blocks[i].1 as int) <= u128::MAX + 1,
{
    let b = blocks[i];
    let w = family_bits(want_v6);
    assert(blocks.contains(b));
    assert(is_left(excluded, 0, 0, w, b));
    lemma_pow2_127();
    lemma_pow2_pos((w - b.1) as nat);
    let ip = address_in(b.0, want_v6);
    assert(ip.spec_value() == b.0);
    assert(ip.spec_bits() == w);
    law_block_reads_back(ip, b.1 as nat);
}

/// The text of a block that is left carries the addresses of that block.
proof fn lemma_block_text_holds(
    blocks: Seq<(u128, u8)>,
    excluded: Seq<(u128, u128)>,
    want_v6: bool,
    i: int,
    x: int,
)
    requires
        are_left(blocks, excluded, 0, 0, family_bits(want_v6)),
        0 <= i < blocks.len(),
    ensures
        route_holds(block_texts(blocks, want_v6)[i], want_v6, x) <==> blocks[i].0 <= x
            < blocks[i].0 + span(family_bits(want_v6), blocks[i].1 as int),
{
    lemma_block_text(blocks, excluded, want_v6, i);
    let b = blocks[i];
    let w = family_bits(want_v6);
    assert(blocks.contains(b));
    lemma_pow2_pos((w - b.1) as nat);
}

/// A complement carries exactly the addresses that no excluded route carries.
pub proof fn law_complement_routes(
    routes: Seq<Seq<char>>,
    excluded: Seq<Seq<char>>,
    want_v6: bool,
    x: int,
)
    requires
        are_complement(routes, excluded, want_v6),
        0 <= x < pow2(family_bits(want_v6) as nat),
    ensures
        routed(routes, want_v6, x) <==> !routed(excluded, want_v6, x),
{
    let rs = ranges_of(excluded, want_v6);
    let w = family_bits(want_v6);
    let blocks = choose|blocks: Seq<(u128, u8)>|
        #![trigger block_texts(blocks, want_v6)]
        are_left(blocks, rs, 0, 0, w) && routes == block_texts(blocks, want_v6);
    lemma_ranges_of(excluded, want_v6, x);
    assert(routed(routes, want_v6, x) <==> !touched(rs, x, x)) by {
        law_complement_is_exact(blocks, rs, 0, 0, w, x);
        if routed(routes, want_v6, x) {
            let i = choose|i: int|
                0 <= i < routes.len() && route_holds(#[trigger] routes[i], want_v6, x);
            lemma_block_text_holds(blocks, rs, want_v6, i, x);
            assert(holds(blocks[i], w, x));
        }
        if !touched(rs, x, x) {
            let i = choose|i: int| 0 <= i < blocks.len() && #[trigger] holds(blocks[i], w, x);
            lemma_block_text_holds(blocks, rs, want_v6, i, x);
            assert(route_holds(routes[i], want_v6, x));
        }
    }
}

/// Exclude mode keeps exactly the configured addresses off the tunnel: an address
/// of either family is carried where nothing that was asked for holds it.
pub proof fn law_exclude(
    r: (Seq<Seq<char>>, Seq<Seq<char>>),
    cidrs: Seq<Seq<char>>,
    addresses: Seq<IpAddr>,
    want_v6: bool,
    x: int,
)
    requires
        are_routes_for(r, SplitTunnelMode::Exclude, cidrs, addresses),
        0 <= x < pow2(family_bits(want_v6) as nat),
    ensures
        routed(
            if want_v6 {
                r.1
            } else {
                r.0
            },
            want_v6,
            x,
        ) <==> !asked(targets(cidrs, addresses), want_v6, x),
{
    let all = targets(cidrs, addresses);
    let routes = if want_v6 {
        r.1
    } else {
        r.0
    };
    law_complement_routes(routes, routes_in(all, want_v6), want_v6, x);
    lemma_routes_in_hold(all, want_v6, x);
}

/// Include mode sends exactly the configured addresses through the tunnel.
pub proof fn law_include(
    r: (Seq<Seq<char>>, Seq<Seq<char>>),
    cidrs: Seq<Seq<char>>,
    addresses: Seq<IpAddr>,
    want_v6: bool,
    x: int,
)
    requires
        are_routes_for(r, SplitTunnelMode::Include, cidrs, addresses),
    ensures
        routed(
            if want_v6 {
                r.1
            } else {
                r.0
            },
            want_v6,
            x,
        ) <==> asked(targets(cidrs, addresses), want_v6, x),
{
    lemma_routes_in_hold(targets(cidrs, addresses), want_v6, x);
}

/// Whether a text is a route of one family in normal form.
pub open spec fn is_normal_route(route: Seq<char>, want_v6: bool) -> bool {
    match cidr_of(route) {
        Ok((ip, prefix)) => (ip is V6) == want_v6 && route == cidr_text(ip, prefix),
        Err(_) => false,
    }
}

/// Every route that any mode gives is a route of its own family in normal form:
/// the families do not leak into each other.
pub proof fn law_routes_are_normal(
    r: (Seq<Seq<char>>, Seq<Seq<char>>),
    mode: SplitTunnelMode,
    cidrs: Seq<Seq<char>>,
    addresses: Seq<IpAddr>,
    i: int,
)
    requires
        are_routes_for(r, mode, cidrs, addresses),
    ensures
        0 <= i < r.0.len() ==> is_normal_route(r.0[i], false),
        0 <= i < r.1.len() ==> is_normal_route(r.1[i], true),
{
    let all = targets(cidrs, addresses);
    match mode {
        SplitTunnelMode::Disabled => {},
        SplitTunnelMode::Include => {
            if 0 <= i < r.0.len() {
                lemma_routes_in_normal(all, false, i);
            }
            if 0 <= i < r.1.len() {
                lemma_routes_in_normal(all, true, i);
            }
        },
        SplitTunnelMode::Exclude => {
            if 0 <= i < r.0.len() {
                lemma_complement_normal(r.0, routes_in(all, false), false, i);
            }
            if 0 <= i < r.1.len() {
                lemma_complement_normal(r.1, routes_in(all, true), true, i);
            }
        },
    }
}

proof fn lemma_routes_in_normal(texts: Seq<Seq<char>>, want_v6: bool, i: int)
    requires
        0 <= i < routes_in(texts, want_v6).len(),
    ensures
        is_normal_route(routes_in(texts, want_v6)[i], want_v6),
    decreases texts.len(),
{
    if texts.len() > 0 {
        let before = routes_in(texts.drop_last(), want_v6);
        if i < before.len() {
            lemma_routes_in_normal(texts.drop_last(), want_v6, i);
        } else {
            law_normalizing_twice(texts.last());
        }
    }
}

proof fn lemma_complement_normal(
    routes: Seq<Seq<char>>,
    excluded: Seq<Seq<char>>,
    want_v6: bool,
    i: int,
)
    requires
        are_complement(routes, excluded, want_v6),
        0 <= i < routes.len(),
    ensures
        is_normal_route(routes[i], want_v6),
{
    let rs = ranges_of(excluded, want_v6);
    let blocks = choose|blocks: Seq<(u128, u8)>|
        #![trigger block_texts(blocks, want_v6)]
        are_left(blocks, rs, 0, 0, family_bits(want_v6)) && routes == block_texts(blocks, want_v6);
    lemma_block_text(blocks, rs, want_v6, i);
}

/// No family is barred from the default route while it has no routes: where a
/// family is barred, the list of its routes is not empty.
pub proof fn law_barred_has_routes(mode: SplitTunnelMode, routes: Seq<Seq<char>>)
    requires
        forall|i: int| 0 <= i < routes.len() ==> (#[trigger] routes[i]).len() > 0,
    ensures
        barred(mode, routes) == "yes"@ ==> route_list(mode, routes).len() > 0,
        mode == SplitTunnelMode::Disabled ==> barred(mode, routes) == "no"@ && route_list(
            mode,
            routes,
        ).len() == 0,
{
    reveal_strlit("yes");
    reveal_strlit("no");
    assert("yes"@.len() != "no"@.len());
    if routes.len() > 0 {
        assert(routes.last() == routes[routes.len() - 1]);
    }
}

// ---------------------------------------------------------------------------
// What settings ask for
// ---------------------------------------------------------------------------

/// Whether settings name an address: one of their blocks holds it, or it is one that
/// their domains resolved to.
pub open spec fn is_named(
    cidrs: Seq<Seq<char>>,
    addresses: Seq<IpAddr>,
    want_v6: bool,
    x: int,
) -> bool {
    asked(cidrs, want_v6, x) || exists|i: int|
        0 <= i < addresses.len() && ((#[trigger] addresses[i]) is V6) == want_v6
            && addresses[i].spec_value() == x
}

proof fn lemma_host_route(ip: IpAddr, want_v6: bool, x: int)
    ensures
        asked_holds(host_route(ip), want_v6, x) <==> (ip is V6) == want_v6 && ip.spec_value() == x,
{
    lemma_network_whole(ip);
    law_block_reads_back(ip, ip.spec_bits() as nat);
    vstd::arithmetic::power2::lemma2_to64();
    assert(span(ip.spec_bits(), ip.spec_bits()) == 1);
}

/// What split tunneling is configured for is what the settings name.
proof fn lemma_named(cidrs: Seq<Seq<char>>, addresses: Seq<IpAddr>, want_v6: bool, x: int)
    ensures
        asked(targets(cidrs, addresses), want_v6, x) <==> is_named(cidrs, addresses, want_v6, x),
{
    let all = targets(cidrs, addresses);
    let n = cidrs.len() as int;
    if asked(all, want_v6, x) {
        let i = choose|i: int| 0 <= i < all.len() && asked_holds(#[trigger] all[i], want_v6, x);
        if i < n {
            assert(all[i] == cidrs[i]);
            assert(asked(cidrs, want_v6, x));
        } else {
            assert(all[i] == host_route(addresses[i - n]));
            lemma_host_route(addresses[i - n], want_v6, x);
            assert((addresses[i - n] is V6) == want_v6);
        }
    }
    if asked(cidrs, want_v6, x) {
        let i = choose|i: int| 0 <= i < cidrs.len() && asked_holds(#[trigger] cidrs[i], want_v6, x);
        assert(all[i] == cidrs[i]);
        assert(asked(all, want_v6, x));
    }
    if exists|i: int|
        0 <= i < addresses.len() && ((#[trigger] addresses[i]) is V6) == want_v6
            && addresses[i].spec_value() == x {
        let i = choose|i: int|
            0 <= i < addresses.len() && ((#[trigger] addresses[i]) is V6) == want_v6
                && addresses[i].spec_value() == x;
        lemma_host_route(addresses[i], want_v6, x);
        assert(all[n + i] == host_route(addresses[i]));
        assert(asked(all, want_v6, x));
    }
}

/// Where only what the settings name goes through the tunnel, it carries an address
/// exactly where they name it; where all but that does, exactly where they do not.
/// They name an address by a block that holds it, or by a domain that resolved to it.
pub proof fn law_tunnel_carries_what_settings_name(
    r: (Seq<Seq<char>>, Seq<Seq<char>>),
    mode: SplitTunnelMode,
    cidrs: Seq<Seq<char>>,
    addresses: Seq<IpAddr>,
    want_v6: bool,
    x: int,
)
    requires
        are_routes_for(r, mode, cidrs, addresses),
        mode != SplitTunnelMode::Disabled,
        0 <= x < pow2(family_bits(want_v6) as nat),
    ensures
        routed(
            if want_v6 {
                r.1
            } else {
                r.0
            },
            want_v6,
            x,
        ) <==> is_named(cidrs, addresses, want_v6, x) == (mode == SplitTunnelMode::Include),
{
    let routes = if want_v6 {
        r.1
    } else {
        r.0
    };
    assert(asked(targets(cidrs, addresses), want_v6, x) == is_named(cidrs, addresses, want_v6, x))
        by {
        lemma_named(cidrs, addresses, want_v6, x);
    }
    if mode == SplitTunnelMode::Include {
        assert(routed(routes, want_v6, x) == asked(targets(cidrs, addresses), want_v6, x)) by {
            law_include(r, cidrs, addresses, want_v6, x);
        }
    } else {
        assert(routed(routes, want_v6, x) == !asked(targets(cidrs, addresses), want_v6, x)) by {
            law_exclude(r, cidrs, addresses, want_v6, x);
        }
    }
}

/// A block holds the addresses that agree with it in as many leading bits as its
/// prefix says; so does its text. An address alone holds itself.
pub proof fn law_block_holds_its_prefix(ip: IpAddr, prefix: nat, want_v6: bool, x: int)
    requires
        prefix <= ip.spec_bits(),
        x >= 0,
    ensures
        asked_holds(ip.spec_text() + seq!['/'] + decimal(prefix), want_v6, x) <==> (ip is V6)
            == want_v6 && x / pow2((ip.spec_bits() - prefix) as nat) as int == ip.spec_value() / pow2(
            (ip.spec_bits() - prefix) as nat,
        ) as int,
        asked_holds(ip.spec_text(), want_v6, x) <==> (ip is V6) == want_v6 && x == ip.spec_value(),
{
    let text = ip.spec_text() + seq!['/'] + decimal(prefix);
    reveal_strlit("/");
    assert(text =~= cidr_text(ip, prefix));
    lemma_cidr_text_cut(ip, prefix);
    crate::ip::law_text_reads_back(ip);
    lemma_network_value(ip, prefix as int);
    crate::text::lemma_decimal_value(prefix, 255);
    let size = span(ip.spec_bits(), prefix as int);
    lemma_pow2_pos((ip.spec_bits() - prefix) as nat);
    let v = ip.spec_value();
    assert(v - v % size <= x < v - v % size + size <==> x / size == v / size) by (nonlinear_arith)
        requires
            size > 0,
            x >= 0,
            v >= 0,
    {
        assert(v == size * (v / size) + v % size && 0 <= v % size < size);
        assert(x == size * (x / size) + x % size && 0 <= x % size < size);
        let (q, p) = (v / size, x / size);
        if q < p {
            assert(size * p >= size * q + size);
        } else if p < q {
            assert(size * q >= size * p + size);
        }
    }
    lemma_plain_address(ip);
    vstd::arithmetic::power2::lemma2_to64();
    assert(span(ip.spec_bits(), ip.spec_bits()) == 1);
}

/// The text of an address alone is read as that address.
proof fn lemma_plain_address(ip: IpAddr)
    ensures
        cidr_of(ip.spec_text()) == Ok::<(IpAddr, nat), Seq<char>>((ip, ip.spec_bits() as nat)),
{
    let t = ip.spec_text();
    crate::ip::law_text_reads_back(ip);
    crate::ip::lemma_text_chars(ip);
    assert(crate::ip::is_address_char(t[0]));
    assert(crate::ip::is_address_char(t[t.len() - 1]));
    crate::text::lemma_trimmed_plain(t);
    if t.contains('/') {
        crate::ip::lemma_slash_is_no_address(t);
    }
    crate::text::lemma_first_at(t, '/');
    if crate::text::first_at(t, '/') < t.len() {
        assert(t.contains(t[crate::text::first_at(t, '/')]));
    }
}

} // verus!
