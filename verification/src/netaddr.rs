//! Network arithmetic on IP addresses taken as numbers: the network of an
//! address under a prefix length.
use vstd::prelude::*;
use vstd::arithmetic::power2::{pow2, lemma2_to64, lemma2_to64_rest, lemma_pow2_adds, lemma_pow2_pos, lemma_pow2_strictly_increases};
use vstd::arithmetic::div_mod::{lemma_fundamental_div_mod, lemma_mod_bound, lemma_mod_decreases};
use vstd::bits::{lemma_u64_pow2_no_overflow, lemma_u64_shl_is_mul};
use crate::text::{dec, push_dec, push_str};

verus! {

/// The network of IPv4 address `addr` under a prefix of `prefix` bits:
/// the address with its `32 - prefix` host bits cleared.
pub open spec fn net_v4(addr: u32, prefix: nat) -> int {
    addr as int - (addr as int) % (pow2((32 - prefix) as nat) as int)
}

/// The network address of `addr/prefix`, or `None` where the prefix is
/// longer than 32 bits.
pub fn network_v4(addr: u32, prefix: u32) -> (r: Option<u32>)
    ensures
        prefix <= 32 <==> r is Some,
        r matches Some(n) ==> n == net_v4(addr, prefix as nat),
{
    if prefix > 32 {
        return None;
    }
    let s: u64 = (32 - prefix) as u64;
    proof {
        lemma_u64_pow2_no_overflow(s as nat);
        lemma_u64_shl_is_mul(1, s);
        lemma_pow2_pos(s as nat);
        lemma_mod_bound(addr as int, pow2(s as nat) as int);
        lemma_mod_decreases(addr as nat, pow2(s as nat));
    }
    let span: u64 = 1u64 << s;
    let low: u64 = (addr as u64) % span;
    Some((addr as u64 - low) as u32)
}

/// The block of addresses of an IPv4 network ends within the address
/// space: its network address plus its size is at most 2^32.
pub proof fn lemma_net_v4_block(addr: u32, prefix: nat)
    requires
        prefix <= 32,
    ensures
        0 <= net_v4(addr, prefix),
        net_v4(addr, prefix) + pow2((32 - prefix) as nat) <= 0x1_0000_0000,
{
    let s = (32 - prefix) as nat;
    let p = pow2(s) as int;
    let q = pow2(prefix) as int;
    lemma_pow2_adds(s, prefix);
    assert(s + prefix == 32);
    lemma2_to64();
    lemma_pow2_pos(s);
    lemma_pow2_pos(prefix);
    lemma_fundamental_div_mod(addr as int, p);
    lemma_mod_bound(addr as int, p);
    let a = addr as int;
    let d = a / p;
    let m = a % p;
    assert(p * q == 0x1_0000_0000);
    assert(d < q) by (nonlinear_arith)
        requires
            a == p * d + m,
            0 <= m,
            a < p * q,
            p > 0,
    {}
    assert(p * d + p <= p * q) by (nonlinear_arith)
        requires
            d < q,
            p > 0,
    {}
    assert(0 <= d) by (nonlinear_arith)
        requires
            a == p * d + m,
            0 <= a,
            m < p,
            p > 0,
    {}
    assert(0 <= p * d) by (nonlinear_arith)
        requires
            0 <= d,
            p > 0,
    {}
}

/// IPv4 address `a` in dotted decimal.
pub open spec fn dotted(a: u32) -> Seq<char> {
    dec((a / 0x100_0000) as nat) + "."@ + dec(((a / 0x1_0000) % 0x100) as nat) + "."@
        + dec(((a / 0x100) % 0x100) as nat) + "."@ + dec((a % 0x100) as nat)
}

/// The network of `addr/prefix` as `network/prefix` text, or `None` where
/// the prefix is longer than 32 bits.
pub fn network_cidr_v4(addr: u32, prefix: u32) -> (r: Option<String>)
    ensures
        prefix <= 32 <==> r is Some,
        r matches Some(t) ==> t@ == dotted(net_v4(addr, prefix as nat) as u32) + "/"@ + dec(prefix as nat),
{
    match network_v4(addr, prefix) {
        None => None,
        Some(n) => {
            let mut t = String::new();
            push_dec(&mut t, (n / 0x100_0000) as u64);
            push_str(&mut t, ".");
            push_dec(&mut t, ((n / 0x1_0000) % 0x100) as u64);
            push_str(&mut t, ".");
            push_dec(&mut t, ((n / 0x100) % 0x100) as u64);
            push_str(&mut t, ".");
            push_dec(&mut t, (n % 0x100) as u64);
            push_str(&mut t, "/");
            push_dec(&mut t, prefix as u64);
            Some(t)
        },
    }
}

/// The network of IPv6 address `addr` under a prefix of `prefix` bits:
/// the address with its `128 - prefix` host bits cleared.
pub open spec fn net_v6(addr: u128, prefix: nat) -> int {
    addr as int - (addr as int) % (pow2((128 - prefix) as nat) as int)
}

/// 2^s as a 128-bit number, for `s` below 128.
fn pow2_u128(s: u32) -> (r: u128)
    requires
        s < 128,
    ensures
        r == pow2(s as nat),
{
    proof {
        lemma2_to64();
    }
    if s < 64 {
        proof {
            lemma_u64_pow2_no_overflow(s as nat);
            lemma_u64_shl_is_mul(1, s as u64);
        }
        (1u64 << (s as u64)) as u128
    } else {
        let low: u64 = (s - 64) as u64;
        proof {
            lemma_u64_pow2_no_overflow(low as nat);
            lemma_u64_shl_is_mul(1, low);
            lemma_pow2_adds(low as nat, 64);
            lemma2_to64_rest();
            assert(pow2(63) == 0x8000_0000_0000_0000);
            if low < 63 {
                lemma_pow2_strictly_increases(low as nat, 63);
            } else {
                assert(low == 63);
            }
            assert(pow2(low as nat) <= 0x8000_0000_0000_0000);
            assert(pow2(low as nat) * 0x1_0000_0000_0000_0000 <= 0x8000_0000_0000_0000_0000_0000_0000_0000) by (nonlinear_arith)
                requires
                    pow2(low as nat) <= 0x8000_0000_0000_0000,
            {}
        }
        let a: u128 = (1u64 << low) as u128;
        a * 0x1_0000_0000_0000_0000u128
    }
}

/// The network address of IPv6 `addr/prefix`, or `None` where the prefix
/// is longer than 128 bits.
pub fn network_v6(addr: u128, prefix: u32) -> (r: Option<u128>)
    ensures
        prefix <= 128 <==> r is Some,
        r matches Some(n) ==> n == net_v6(addr, prefix as nat),
{
    if prefix > 128 {
        return None;
    }
    if prefix == 0 {
        proof {
            lemma2_to64();
            lemma_pow2_adds(64, 64);
            assert(pow2(128) == pow2(64) * pow2(64));
            assert(pow2(128) == 0x1_0000_0000_0000_0000_0000_0000_0000_0000) by (nonlinear_arith)
                requires
                    pow2(128) == pow2(64) * pow2(64),
                    pow2(64) == 0x1_0000_0000_0000_0000,
            {}
            vstd::arithmetic::div_mod::lemma_small_mod(addr as nat, pow2(128));
        }
        return Some(0);
    }
    let span = pow2_u128(128 - prefix);
    proof {
        lemma_pow2_pos((128 - prefix) as nat);
        lemma_mod_bound(addr as int, span as int);
        lemma_mod_decreases(addr as nat, span as nat);
    }
    let low = addr % span;
    Some(addr - low)
}

} // verus!
