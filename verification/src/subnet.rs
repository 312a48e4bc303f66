//! The subnet that the server hands out addresses from.

use vstd::prelude::*;

use crate::ipv4::Ipv4Addr;

verus! {

/// The mask whose first `prefix` bits are set and whose other bits are not.
pub open spec fn prefix_mask(prefix: nat) -> int {
    0x1_0000_0000 - vstd::arithmetic::power2::pow2((32 - prefix) as nat)
}

/// Whether `mask` is a subnet mask: at least one leading bit is set, at least one trailing bit is
/// not, and no unset bit stands before a set one.
pub open spec fn is_netmask(mask: Ipv4Addr) -> bool {
    exists|prefix: nat| 1 <= prefix <= 31 && mask.bits == #[trigger] prefix_mask(prefix)
}

/// The broadcast address of the gateway's subnet: the gateway with every host bit set.
pub open spec fn broadcast_of(gateway: Ipv4Addr, netmask: Ipv4Addr) -> Ipv4Addr {
    Ipv4Addr { bits: !netmask.bits | gateway.bits }
}

/// Whether `addr` lies in the gateway's subnet.
pub open spec fn in_subnet(addr: Ipv4Addr, gateway: Ipv4Addr, netmask: Ipv4Addr) -> bool {
    addr.bits & netmask.bits == gateway.bits & netmask.bits
}

/// Whether `mask` can serve as a subnet mask.
pub fn is_valid_netmask(mask: &Ipv4Addr) -> (r: bool)
    ensures
        r == is_netmask(*mask),
{
    let m: u32 = mask.bits;
    proof {
        assert forall|prefix: nat| 1 <= prefix <= 31 implies 0 < #[trigger] prefix_mask(prefix)
            < 0xffff_ffff by {
            lemma_block_size(prefix);
        }
    }
    if mask.is_broadcast() || mask.is_unspecified() {
        return false;
    }
    assert(!m < 0xffff_ffff && !m + 1 == 0x1_0000_0000 - m) by (bit_vector)
        requires
            m != 0,
    ;
    let block: u32 = !m + 1;
    proof {
        lemma_netmask_blocks(*mask, block);
    }
    block & (block - 1) == 0
}

/// A number of addresses is that of a subnet exactly if it has a single bit set.
proof fn lemma_netmask_blocks(mask: Ipv4Addr, block: u32)
    requires
        0 < mask.bits < 0xffff_ffff,
        block == 0x1_0000_0000 - mask.bits,
    ensures
        is_netmask(mask) <==> block & ((block - 1) as u32) == 0,
{
    let m = mask.bits;
    if block & ((block - 1) as u32) == 0 {
        let k = lemma_single_bit(block);
        lemma_pow2_values();
        if k > 31 {
            lemma_pow2_monotone(32, k);
        }
        if k == 0 {
            assert(block == 1);
        }
        assert(m == prefix_mask((32 - k) as nat));
    }
    assert forall|prefix: nat|
        1 <= prefix <= 31 && m == #[trigger] prefix_mask(prefix) implies block & ((block
        - 1) as u32) == 0 by {
        lemma_power_has_single_bit(block, (32 - prefix) as nat);
    }
}

/// A subnet mask is any number but `0.0.0.0` and `255.255.255.255` in which a bit is set wherever
/// the bit below it is.
pub proof fn law_netmasks_have_no_gaps(mask: Ipv4Addr)
    ensures
        is_netmask(mask) <==> (mask.bits != 0 && mask.bits != u32::MAX && (mask.bits << 1)
            & !mask.bits == 0),
{
    let m = mask.bits;
    assert forall|prefix: nat| 1 <= prefix <= 31 implies 0 < #[trigger] prefix_mask(prefix)
        < 0xffff_ffff by {
        lemma_block_size(prefix);
    }
    if m != 0 && m != u32::MAX {
        let block = (0x1_0000_0000 - m) as u32;
        lemma_netmask_blocks(mask, block);
        assert(block & ((block - 1) as u32) == 0 <==> (m << 1) & !m == 0) by (bit_vector)
            requires
                m != 0,
                block == 0x1_0000_0000 - m,
        ;
    }
}

/// Every prefix length from 1 to 31 has its subnet mask, and the subnet has as many addresses as
/// the bits that are left can number.
pub proof fn law_every_prefix_has_a_mask(prefix: nat, mask: Ipv4Addr)
    requires
        1 <= prefix <= 31,
        mask.bits + vstd::arithmetic::power2::pow2((32 - prefix) as nat) == 0x1_0000_0000,
    ensures
        is_netmask(mask),
{
    assert(mask.bits == prefix_mask(prefix));
}

/// The broadcast address has the gateway's bits where the mask is set, and set bits elsewhere.
pub proof fn law_broadcast_sets_the_host_bits(gateway: Ipv4Addr, netmask: Ipv4Addr)
    ensures
        broadcast_of(gateway, netmask).bits & netmask.bits == gateway.bits & netmask.bits,
        broadcast_of(gateway, netmask).bits & !netmask.bits == !netmask.bits,
        broadcast_of(gateway, netmask).bits == gateway.bits | !netmask.bits,
{
    let g = gateway.bits;
    let m = netmask.bits;
    assert((!m | g) & m == g & m) by (bit_vector);
    assert((!m | g) & !m == !m) by (bit_vector);
    assert((!m | g) == (g | !m)) by (bit_vector);
}

/// The broadcast address of the subnet that `gateway` and `netmask` span.
pub fn broadcast_address(gateway: &Ipv4Addr, netmask: &Ipv4Addr) -> (r: Ipv4Addr)
    ensures
        r == broadcast_of(*gateway, *netmask),
{
    Ipv4Addr { bits: !netmask.bits | gateway.bits }
}

/// The broadcast address lies in the gateway's subnet, and no address of that subnet is larger.
pub proof fn law_broadcast_is_last(gateway: Ipv4Addr, netmask: Ipv4Addr, addr: Ipv4Addr)
    requires
        in_subnet(addr, gateway, netmask),
    ensures
        in_subnet(broadcast_of(gateway, netmask), gateway, netmask),
        addr.bits <= broadcast_of(gateway, netmask).bits,
{
    let g = gateway.bits;
    let m = netmask.bits;
    let a = addr.bits;
    assert((!m | g) & m == g & m) by (bit_vector);
    assert(a <= (!m | g)) by (bit_vector)
        requires
            a & m == g & m,
    ;
}

/// The number of addresses of a subnet lies between 2 and 2^31.
proof fn lemma_block_size(prefix: nat)
    requires
        1 <= prefix <= 31,
    ensures
        2 <= vstd::arithmetic::power2::pow2((32 - prefix) as nat) <= 0x8000_0000,
{
    lemma_pow2_values();
    if prefix < 31 {
        lemma_pow2_monotone(1, (32 - prefix) as nat);
    }
    if prefix > 1 {
        lemma_pow2_monotone((32 - prefix) as nat, 31);
    }
}

proof fn lemma_pow2_values()
    ensures
        vstd::arithmetic::power2::pow2(0) == 1,
        vstd::arithmetic::power2::pow2(1) == 2,
        vstd::arithmetic::power2::pow2(31) == 0x8000_0000,
        vstd::arithmetic::power2::pow2(32) == 0x1_0000_0000,
{
    vstd::arithmetic::power2::lemma2_to64();
}

proof fn lemma_pow2_monotone(a: nat, b: nat)
    requires
        a <= b,
    ensures
        vstd::arithmetic::power2::pow2(a) <= vstd::arithmetic::power2::pow2(b),
{
    if a < b {
        vstd::arithmetic::power2::lemma_pow2_strictly_increases(a, b);
    }
}

/// A number with a single set bit is a power of two.
proof fn lemma_single_bit(x: u32) -> (k: nat)
    requires
        x != 0,
        x & ((x - 1) as u32) == 0,
    ensures
        x == vstd::arithmetic::power2::pow2(k),
    decreases x,
{
    if x == 1 {
        lemma_pow2_values();
        0
    } else {
        let half: u32 = x / 2;
        assert(half != 0 && half & ((half - 1) as u32) == 0 && x == 2 * half) by (bit_vector)
            requires
                x > 1,
                x & ((x - 1) as u32) == 0,
                half == x / 2,
        ;
        let k = lemma_single_bit(half);
        vstd::arithmetic::power2::lemma_pow2_unfold(k + 1);
        k + 1
    }
}

/// A power of two has a single set bit.
proof fn lemma_power_has_single_bit(x: u32, k: nat)
    requires
        x == vstd::arithmetic::power2::pow2(k),
    ensures
        x != 0,
        x & ((x - 1) as u32) == 0,
    decreases k,
{
    lemma_pow2_values();
    if k == 0 {
        assert(1u32 & ((1u32 - 1) as u32) == 0) by (bit_vector);
    } else {
        vstd::arithmetic::power2::lemma_pow2_unfold(k);
        let half: u32 = x / 2;
        lemma_power_has_single_bit(half, (k - 1) as nat);
        assert(x & ((x - 1) as u32) == 0) by (bit_vector)
            requires
                half != 0,
                half & ((half - 1) as u32) == 0,
                x == 2 * half,
        ;
    }
}

} // verus!
