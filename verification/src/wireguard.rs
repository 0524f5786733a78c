//! WireGuard key material: each WireGuard interface's private key (decoded
//! from the topology, or generated) and the public key derived from it.
use vstd::prelude::*;
use crate::error::Error;
use crate::map::StrMap;
use crate::text::{push_str, dec, dec_string, str_eq, owned};
use crate::types::{Topology, WireguardConfig};
use base64::Engine;

verus! {

/// What std-base64 decoding (`base64::engine::general_purpose::STANDARD`)
/// makes of a text: the bytes, or the error's message.
pub uninterp spec fn base64_standard_decode(s: Seq<char>) -> Result<Seq<u8>, Seq<char>>;

/// The X25519 public key of a 32-byte private key.
pub uninterp spec fn x25519_public(private_key: Seq<u8>) -> Seq<u8>;

/// `base64::Engine::decode` with the standard alphabet and padding; the
/// contract names the result, an error by its message.
#[verifier::external_body]
fn decode_base64(s: &str) -> (r: Result<Vec<u8>, String>)
    ensures
        match base64_standard_decode(s@) {
            Ok(b) => r matches Ok(v) && v@ == b,
            Err(m) => r matches Err(e) && e@ == m,
        },
{
    base64::engine::general_purpose::STANDARD.decode(s).map_err(|e| e.to_string())
}

/// `x25519_dalek::PublicKey::from(&StaticSecret::from(key)).to_bytes()`: the
/// contract names the result as a function of the key bytes.
#[verifier::external_body]
fn x25519_public_key(private_key: &[u8; 32]) -> (r: [u8; 32])
    ensures
        r@ == x25519_public(private_key@),
{
    let secret = x25519_dalek::StaticSecret::from(*private_key);
    x25519_dalek::PublicKey::from(&secret).to_bytes()
}

/// `getrandom::fill` on a fresh 32-byte buffer: the bytes the system's
/// random source gave, or the error's message. Nothing is claimed of the
/// bytes.
#[verifier::external_body]
fn random_bytes() -> (r: Result<[u8; 32], String>) {
    let mut buf = [0u8; 32];
    getrandom::fill(&mut buf).map_err(|e| e.to_string())?;
    Ok(buf)
}

/// A private key clamped per the Curve25519 convention.
pub open spec fn clamped(k: Seq<u8>) -> bool {
    k.len() == 32 && k[0] & 7 == 0 && k[31] & 128 == 0 && k[31] & 64 == 64
}

/// Clamp 32 random bytes into a Curve25519 private key: clear the low three
/// bits of the first byte, clear the top bit and set the second-highest bit
/// of the last byte; the other bytes stay.
pub fn clamp_key(raw: [u8; 32]) -> (k: [u8; 32])
    ensures
        k@.len() == 32,
        k@[0] == raw@[0] & 248,
        k@[31] == (raw@[31] & 127) | 64,
        forall|i: int| 0 < i < 31 ==> k@[i] == raw@[i],
        clamped(k@),
{
    let mut key = raw;
    let k0: u8 = key[0];
    let k31: u8 = key[31];
    let b0: u8 = k0 & 248;
    let b31: u8 = (k31 & 127) | 64;
    key.set(0, b0);
    key.set(31, b31);
    proof {
        assert(b0 & 7 == 0) by (bit_vector)
            requires b0 == k0 & 248;
        assert(b31 & 128 == 0 && b31 & 64 == 64) by (bit_vector)
            requires b31 == (k31 & 127) | 64;
    }
    key
}

/// Generate a random WireGuard private key: random bytes, clamped (see
/// [`clamp_key`]).
pub fn generate_wg_private_key() -> (r: Result<[u8; 32], Error>)
    ensures
        r matches Ok(k) ==> clamped(k@),
        r matches Err(e) ==> (e matches Error::DeployFailed(m)
            && m@.subrange(0, 34) == "failed to generate WireGuard key: "@),
{
    match random_bytes() {
        Err(e) => {
            let mut m = String::new();
            push_str(&mut m, "failed to generate WireGuard key: ");
            let ghost pre = m@;
            push_str(&mut m, e.as_str());
            proof {
                reveal_strlit("failed to generate WireGuard key: ");
                assert(m@.subrange(0, 34) =~= pre);
            }
            Err(Error::DeployFailed(m))
        },
        Ok(raw) => Ok(clamp_key(raw)),
    }
}

/// The 32 key bytes a text decodes to, if it does.
pub open spec fn decoded_key(text: Seq<char>) -> Option<Seq<u8>> {
    match base64_standard_decode(text) {
        Ok(b) => if b.len() == 32 { Some(b) } else { None },
        Err(_) => None,
    }
}

/// Why a text is not a key.
pub open spec fn key_error(text: Seq<char>) -> Seq<char> {
    match base64_standard_decode(text) {
        Ok(b) => "expected 32 bytes, got "@ + dec(b.len()),
        Err(m) => "base64 decode: "@ + m,
    }
}

/// The key that decoded bytes make: the bytes where there are exactly 32
/// of them, else the error naming their count.
pub fn key_from_bytes(bytes: &[u8]) -> (r: Result<[u8; 32], String>)
    ensures
        bytes@.len() == 32 ==> (r matches Ok(k) && k@ == bytes@),
        bytes@.len() != 32 ==> (r matches Err(m) && m@ == "expected 32 bytes, got "@ + dec(bytes@.len())),
{
    if bytes.len() != 32 {
        let mut m = String::new();
        push_str(&mut m, "expected 32 bytes, got ");
        push_str(&mut m, dec_string(bytes.len() as u64).as_str());
        return Err(m);
    }
    let mut key: [u8; 32] = [0u8; 32];
    let mut i: usize = 0;
    while i < 32
        invariant
            i <= 32,
            bytes@.len() == 32,
            key@.len() == 32,
            forall|j: int| 0 <= j < i ==> key@[j] == bytes@[j],
        decreases 32 - i,
    {
        key.set(i, bytes[i]);
        i = i + 1;
    }
    assert(key@ =~= bytes@);
    Ok(key)
}

/// Decode a base64-encoded WireGuard key.
pub fn decode_wg_key(s: &str) -> (r: Result<[u8; 32], String>)
    ensures
        match decoded_key(s@) {
            Some(b) => r matches Ok(k) && k@ == b,
            None => r matches Err(m) && m@ == key_error(s@),
        },
{
    match decode_base64(s) {
        Err(e) => {
            let mut m = String::new();
            push_str(&mut m, "base64 decode: ");
            push_str(&mut m, e.as_str());
            Err(m)
        },
        Ok(bytes) => key_from_bytes(bytes.as_slice()),
    }
}

/// The key text of an interface, or `None` where one is to be generated
/// (`auto` or unset).
pub open spec fn key_text(k: Option<String>) -> Option<Seq<char>> {
    match k {
        Some(s) => if s@ == "auto"@ { None } else { Some(s@) },
        None => None,
    }
}

/// The WireGuard interfaces of the `i`-th node.
pub open spec fn wg_of(t: Topology, i: int) -> StrMap<WireguardConfig> {
    t.nodes.vals()[i].wireguard
}

/// Interface `w` of node `i` exists.
pub open spec fn wg_pos(t: Topology, i: int, w: int) -> bool {
    0 <= i < t.nodes.keys().len() && 0 <= w < wg_of(t, i).keys().len()
}

/// Interface `w` of node `i` names a key that does not decode.
pub open spec fn bad_key(t: Topology, i: int, w: int) -> bool {
    match key_text(wg_of(t, i).vals()[w].private_key) {
        Some(text) => decoded_key(text) is None,
        None => false,
    }
}

/// `(i, w)` is the first interface, in node then interface name order,
/// whose key does not decode.
pub open spec fn first_bad_key(t: Topology, i: int, w: int) -> bool {
    &&& wg_pos(t, i, w)
    &&& bad_key(t, i, w)
    &&& forall|i2: int, w2: int| #![trigger bad_key(t, i2, w2)] wg_pos(t, i2, w2) && (i2 < i || (i2 == i && w2 < w))
        ==> !bad_key(t, i2, w2)
}

/// The message for a key that does not decode.
pub open spec fn bad_key_message(t: Topology, i: int, w: int) -> Seq<char> {
    "invalid WireGuard private key for '"@ + wg_of(t, i).keys()[w] + "' on '"@ + t.nodes.keys()[i] + "': "@
        + key_error(key_text(wg_of(t, i).vals()[w].private_key)->0)
}

/// `(i, w)` has its key generated, and no interface before it, in node
/// then interface name order, names a key that does not decode.
pub open spec fn generated_first(t: Topology, i: int, w: int) -> bool {
    &&& wg_pos(t, i, w)
    &&& key_text(wg_of(t, i).vals()[w].private_key) is None
    &&& forall|i2: int, w2: int| #![trigger bad_key(t, i2, w2)] wg_pos(t, i2, w2) && (i2 < i || (i2 == i && w2 < w))
        ==> !bad_key(t, i2, w2)
}

/// Some interface has its key generated.
pub open spec fn needs_random(t: Topology) -> bool {
    exists|i: int, w: int| wg_pos(t, i, w) && key_text(wg_of(t, i).vals()[w].private_key) is None
}

/// The keys of one node's interfaces match its configuration: each public
/// key is derived from its private key, a given private key is the one
/// decoded, a generated one is clamped.
pub open spec fn node_keys_ok(wg: StrMap<WireguardConfig>, m: StrMap<([u8; 32], [u8; 32])>) -> bool {
    &&& m.wf()
    &&& m.view().dom() == wg.view().dom()
    &&& forall|w: Seq<char>| #[trigger] m.view().contains_key(w) ==> {
        let (p, q) = m.view()[w];
        &&& q@ == x25519_public(p@)
        &&& match key_text(wg.view()[w].private_key) {
            Some(text) => decoded_key(text) == Some(p@),
            None => clamped(p@),
        }
    }
}

/// The key map matches the topology: one entry per node with WireGuard
/// interfaces, holding the keys of each.
pub open spec fn key_map_ok(t: Topology, m: StrMap<StrMap<([u8; 32], [u8; 32])>>) -> bool {
    &&& m.wf()
    &&& forall|n: Seq<char>| #[trigger] m.view().contains_key(n) <==> t.nodes.view().contains_key(n)
        && t.nodes.view()[n].wireguard.keys().len() > 0
    &&& forall|n: Seq<char>| #[trigger] m.view().contains_key(n) ==> node_keys_ok(t.nodes.view()[n].wireguard, m.view()[n])
}

/// Map of `(node, wg_iface) → (private_key, public_key)`.
///
/// Decodes given private keys, generates the others, and derives each
/// public key, before any device is configured. Fails on the first key, in
/// node then interface name order, that does not decode, or where the
/// random source fails.
pub fn build_wg_public_key_map(topology: &Topology) -> (r: Result<StrMap<StrMap<([u8; 32], [u8; 32])>>, Error>)
    requires
        topology.wf(),
    ensures
        r matches Ok(m) ==> key_map_ok(*topology, m),
        r matches Err(Error::InvalidTopology(msg)) ==> exists|i: int, w: int| first_bad_key(*topology, i, w)
            && msg@ == bad_key_message(*topology, i, w),
        r matches Err(e) ==> e is InvalidTopology || e is DeployFailed,
        r matches Err(Error::DeployFailed(_)) ==> exists|i: int, w: int| generated_first(*topology, i, w),
        !needs_random(*topology) && (forall|i: int, w: int| wg_pos(*topology, i, w) ==> !bad_key(*topology, i, w)) ==> r is Ok,
{
    proof { topology.nodes.lemma_view(); }
    let mut out: StrMap<StrMap<([u8; 32], [u8; 32])>> = StrMap::new();
    let mut i: usize = 0;
    while i < topology.nodes.len()
        invariant
            i <= topology.nodes.keys().len(),
            topology.wf(),
            out.wf(),
            forall|i2: int, w2: int| #![trigger bad_key(*topology, i2, w2)] wg_pos(*topology, i2, w2) && i2 < i
                ==> !bad_key(*topology, i2, w2),
            forall|n: Seq<char>| #[trigger] out.view().contains_key(n) <==> exists|i2: int| 0 <= i2 < i
                && topology.nodes.keys()[i2] == n && wg_of(*topology, i2).keys().len() > 0,
            forall|n: Seq<char>| #[trigger] out.view().contains_key(n) ==> node_keys_ok(topology.nodes.view()[n].wireguard, out.view()[n]),
        decreases topology.nodes.keys().len() - i,
    {
        proof { topology.nodes.lemma_view(); }
        let node_name = topology.nodes.key_at(i);
        let node = topology.nodes.value_at(i);
        proof {
            assert(topology.nodes.view().contains_key(node_name@));
            assert(node.wf());
        }
        let ghost wg = node.wireguard;
        assert(wg == wg_of(*topology, i as int));
        if node.wireguard.len() == 0 {
            i = i + 1;
            proof {
                assert forall|n: Seq<char>| #[trigger] out.view().contains_key(n) <==> exists|i2: int| 0 <= i2 < i
                    && topology.nodes.keys()[i2] == n && wg_of(*topology, i2).keys().len() > 0 by {
                    if exists|i2: int| 0 <= i2 < i && topology.nodes.keys()[i2] == n && wg_of(*topology, i2).keys().len() > 0 {
                        let i2 = choose|i2: int| 0 <= i2 < i && topology.nodes.keys()[i2] == n && wg_of(*topology, i2).keys().len() > 0;
                        if i2 == i - 1 {
                            assert(false);
                        }
                    }
                }
            }
            continue;
        }
        proof { node.wireguard.lemma_view(); }
        let mut per_node: StrMap<([u8; 32], [u8; 32])> = StrMap::new();
        let mut w: usize = 0;
        while w < node.wireguard.len()
            invariant
                w <= wg.keys().len(),
                wg == node.wireguard,
                wg == wg_of(*topology, i as int),
                wg.wf(),
                i < topology.nodes.keys().len(),
                node_name@ == topology.nodes.keys()[i as int],
                per_node.wf(),
                forall|w2: int| #![trigger bad_key(*topology, i as int, w2)] 0 <= w2 < w ==> !bad_key(*topology, i as int, w2),
                forall|k: Seq<char>| #[trigger] per_node.view().contains_key(k) <==> exists|w2: int| 0 <= w2 < w && wg.keys()[w2] == k,
                forall|k: Seq<char>| #[trigger] per_node.view().contains_key(k) ==> {
                    let (p, q) = per_node.view()[k];
                    &&& q@ == x25519_public(p@)
                    &&& match key_text(wg.view()[k].private_key) {
                        Some(text) => decoded_key(text) == Some(p@),
                        None => clamped(p@),
                    }
                },
                forall|i2: int, w2: int| #![trigger bad_key(*topology, i2, w2)] wg_pos(*topology, i2, w2) && i2 < i
                    ==> !bad_key(*topology, i2, w2),
            decreases wg.keys().len() - w,
        {
            proof { wg.lemma_view(); }
            let wg_name = node.wireguard.key_at(w);
            let cfg = node.wireguard.value_at(w);
            assert(wg.view()[wg_name@] == *cfg);
            let auto = match &cfg.private_key {
                Some(k) => str_eq(k.as_str(), "auto"),
                None => true,
            };
            let private_key = if auto {
                match generate_wg_private_key() {
                    Ok(k) => k,
                    Err(e) => {
                        proof {
                            assert(wg_pos(*topology, i as int, w as int));
                            assert(wg_of(*topology, i as int).vals()[w as int] == *cfg);
                            assert(key_text(wg_of(*topology, i as int).vals()[w as int].private_key) is None);
                            assert(generated_first(*topology, i as int, w as int));
                        }
                        return Err(e);
                    },
                }
            } else {
                let text = match &cfg.private_key {
                    Some(k) => k.as_str(),
                    None => "auto",
                };
                assert(key_text(cfg.private_key) == Some(text@));
                match decode_wg_key(text) {
                    Ok(k) => k,
                    Err(e) => {
                        let mut m = String::new();
                        push_str(&mut m, "invalid WireGuard private key for '");
                        push_str(&mut m, wg_name.as_str());
                        push_str(&mut m, "' on '");
                        push_str(&mut m, node_name.as_str());
                        push_str(&mut m, "': ");
                        push_str(&mut m, e.as_str());
                        proof {
                            assert(bad_key(*topology, i as int, w as int));
                            assert(first_bad_key(*topology, i as int, w as int));
                            assert(wg_of(*topology, i as int).vals()[w as int] == *cfg);
                            assert(key_text(wg_of(*topology, i as int).vals()[w as int].private_key)->0 == text@);
                            assert(wg_of(*topology, i as int).keys()[w as int] == wg_name@);
                            assert(topology.nodes.keys()[i as int] == node_name@);
                            assert(m@ =~= bad_key_message(*topology, i as int, w as int));
                        }
                        return Err(Error::InvalidTopology(m));
                    },
                }
            };
            let public_key = x25519_public_key(&private_key);
            let ghost before = per_node.view();
            per_node.insert(owned(wg_name.as_str()), (private_key, public_key));
            w = w + 1;
            proof {
                assert(!bad_key(*topology, i as int, (w - 1) as int));
                assert forall|k: Seq<char>| #[trigger] per_node.view().contains_key(k) <==> exists|w2: int| 0 <= w2 < w
                    && wg.keys()[w2] == k by {
                    if exists|w2: int| 0 <= w2 < w && wg.keys()[w2] == k {
                        let w2 = choose|w2: int| 0 <= w2 < w && wg.keys()[w2] == k;
                        if w2 < w - 1 {
                            assert(before.contains_key(k));
                        }
                    }
                    if per_node.view().contains_key(k) && k != wg_name@ {
                        assert(before.contains_key(k));
                        let w2 = choose|w2: int| 0 <= w2 < w - 1 && wg.keys()[w2] == k;
                    }
                }
            }
        }
        proof {
            assert(per_node.view().dom() =~= wg.view().dom()) by {
                assert forall|k: Seq<char>| per_node.view().contains_key(k) <==> wg.view().contains_key(k) by {
                    if per_node.view().contains_key(k) {
                        let w2 = choose|w2: int| 0 <= w2 < w && wg.keys()[w2] == k;
                    }
                    if wg.view().contains_key(k) {
                        let w2 = choose|w2: int| 0 <= w2 < wg.keys().len() && wg.keys()[w2] == k;
                    }
                }
            }
            assert(node_keys_ok(wg, per_node));
            assert(topology.nodes.view()[node_name@] == *node);
        }
        let ghost before = out.view();
        out.insert(owned(node_name.as_str()), per_node);
        i = i + 1;
        proof {
            assert forall|n: Seq<char>| #[trigger] out.view().contains_key(n) <==> exists|i2: int| 0 <= i2 < i
                && topology.nodes.keys()[i2] == n && wg_of(*topology, i2).keys().len() > 0 by {
                if exists|i2: int| 0 <= i2 < i && topology.nodes.keys()[i2] == n && wg_of(*topology, i2).keys().len() > 0 {
                    let i2 = choose|i2: int| 0 <= i2 < i && topology.nodes.keys()[i2] == n && wg_of(*topology, i2).keys().len() > 0;
                    if i2 < i - 1 {
                        assert(before.contains_key(n));
                    }
                }
                if out.view().contains_key(n) && n != node_name@ {
                    assert(before.contains_key(n));
                }
            }
            assert forall|i2: int, w2: int| #![trigger bad_key(*topology, i2, w2)] wg_pos(*topology, i2, w2) && i2 < i
                implies !bad_key(*topology, i2, w2) by {
            }
        }
    }
    proof {
        assert forall|n: Seq<char>| #[trigger] out.view().contains_key(n) <==> topology.nodes.view().contains_key(n)
            && topology.nodes.view()[n].wireguard.keys().len() > 0 by {
            if out.view().contains_key(n) {
                let i2 = choose|i2: int| 0 <= i2 < i && topology.nodes.keys()[i2] == n && wg_of(*topology, i2).keys().len() > 0;
                assert(topology.nodes.view()[topology.nodes.keys()[i2]] == topology.nodes.vals()[i2]);
            }
            if topology.nodes.view().contains_key(n) && topology.nodes.view()[n].wireguard.keys().len() > 0 {
                let i2 = choose|i2: int| 0 <= i2 < topology.nodes.keys().len() && topology.nodes.keys()[i2] == n;
                assert(topology.nodes.view()[topology.nodes.keys()[i2]] == topology.nodes.vals()[i2]);
            }
        }
    }
    Ok(out)
}

/// The keys of node `node`'s interfaces once saved keys are kept: an
/// interface's saved keys where some were saved for it, else its fresh
/// ones. No interface is added or dropped.
pub open spec fn kept_keys(fresh: Map<Seq<char>, ([u8; 32], [u8; 32])>, saved: StrMap<StrMap<([u8; 32], [u8; 32])>>,
    node: Seq<char>) -> Map<Seq<char>, ([u8; 32], [u8; 32])> {
    Map::new(
        |w: Seq<char>| fresh.contains_key(w),
        |w: Seq<char>| if saved.view().contains_key(node) && saved.view()[node].view().contains_key(w) {
            saved.view()[node].view()[w]
        } else {
            fresh[w]
        },
    )
}

/// Every inner map of a key map is well formed.
pub open spec fn inner_wf(m: StrMap<StrMap<([u8; 32], [u8; 32])>>) -> bool {
    forall|n: Seq<char>| #[trigger] m.view().contains_key(n) ==> m.view()[n].wf()
}

/// The keys of one node's interfaces with the saved ones kept (see
/// [`kept_keys`]).
fn keep_node_keys(node: &str, fresh: &StrMap<([u8; 32], [u8; 32])>, saved: &StrMap<StrMap<([u8; 32], [u8; 32])>>)
    -> (r: StrMap<([u8; 32], [u8; 32])>)
    requires
        fresh.wf(),
        saved.wf(),
        inner_wf(*saved),
    ensures
        r.wf(),
        r.view() == kept_keys(fresh.view(), *saved, node@),
{
    proof { fresh.lemma_view(); }
    let ghost want = kept_keys(fresh.view(), *saved, node@);
    let prior = saved.get(node);
    let mut out: StrMap<([u8; 32], [u8; 32])> = StrMap::new();
    let mut j: usize = 0;
    while j < fresh.len()
        invariant
            j <= fresh.keys().len(),
            fresh.wf(),
            saved.wf(),
            inner_wf(*saved),
            want == kept_keys(fresh.view(), *saved, node@),
            match prior {
                Some(p) => saved.view().contains_key(node@) && *p == saved.view()[node@],
                None => !saved.view().contains_key(node@),
            },
            out.wf(),
            forall|w: Seq<char>| #[trigger] out.view().contains_key(w) <==> exists|j2: int| 0 <= j2 < j
                && fresh.keys()[j2] == w,
            forall|w: Seq<char>| #[trigger] out.view().contains_key(w) ==> out.view()[w] == want[w],
        decreases fresh.keys().len() - j,
    {
        proof { fresh.lemma_view(); }
        let iface = fresh.key_at(j);
        let keys = *fresh.value_at(j);
        assert(fresh.view().contains_key(iface@) && fresh.view()[iface@] == keys);
        let chosen = match prior {
            Some(p) => {
                proof { assert(p.wf()); }
                match p.get(iface.as_str()) {
                    Some(k) => *k,
                    None => keys,
                }
            },
            None => keys,
        };
        assert(chosen == want[iface@]);
        let ghost before = out.view();
        out.insert(owned(iface.as_str()), chosen);
        j = j + 1;
        proof {
            assert forall|w: Seq<char>| #[trigger] out.view().contains_key(w) <==> exists|j2: int| 0 <= j2 < j
                && fresh.keys()[j2] == w by {
                if exists|j2: int| 0 <= j2 < j && fresh.keys()[j2] == w {
                    let j2 = choose|j2: int| 0 <= j2 < j && fresh.keys()[j2] == w;
                    if j2 < j - 1 {
                        assert(before.contains_key(w));
                    }
                }
                if out.view().contains_key(w) && w != iface@ {
                    assert(before.contains_key(w));
                }
            }
        }
    }
    proof {
        assert(out.view() =~= want) by {
            assert forall|w: Seq<char>| out.view().contains_key(w) <==> want.contains_key(w) by {
                if out.view().contains_key(w) {
                    let j2 = choose|j2: int| 0 <= j2 < j && fresh.keys()[j2] == w;
                }
                if want.contains_key(w) {
                    let j2 = choose|j2: int| 0 <= j2 < fresh.keys().len() && fresh.keys()[j2] == w;
                }
            }
        }
    }
    out
}

/// Keep the saved keys of the interfaces that already exist, so that an
/// apply does not rotate every peer's key: each interface of `fresh`
/// takes the keys saved for it, where there are some (see [`kept_keys`]).
/// Nodes and interfaces of `fresh` stay as they are; saved keys of
/// interfaces that are gone are dropped.
pub fn keep_saved_keys(fresh: &mut StrMap<StrMap<([u8; 32], [u8; 32])>>, saved: &StrMap<StrMap<([u8; 32], [u8; 32])>>)
    requires
        old(fresh).wf(),
        inner_wf(*old(fresh)),
        saved.wf(),
        inner_wf(*saved),
    ensures
        final(fresh).wf(),
        inner_wf(*final(fresh)),
        final(fresh).view().dom() == old(fresh).view().dom(),
        forall|n: Seq<char>| #[trigger] final(fresh).view().contains_key(n)
            ==> final(fresh).view()[n].view() == kept_keys(old(fresh).view()[n].view(), *saved, n),
{
    proof { fresh.lemma_view(); }
    let mut out: StrMap<StrMap<([u8; 32], [u8; 32])>> = StrMap::new();
    let mut i: usize = 0;
    while i < fresh.len()
        invariant
            i <= fresh.keys().len(),
            fresh.wf(),
            inner_wf(*fresh),
            saved.wf(),
            inner_wf(*saved),
            out.wf(),
            forall|n: Seq<char>| #[trigger] out.view().contains_key(n) <==> exists|i2: int| 0 <= i2 < i
                && fresh.keys()[i2] == n,
            forall|n: Seq<char>| #[trigger] out.view().contains_key(n) ==> out.view()[n].wf()
                && out.view()[n].view() == kept_keys(fresh.view()[n].view(), *saved, n),
        decreases fresh.keys().len() - i,
    {
        proof { fresh.lemma_view(); }
        let node = fresh.key_at(i);
        let ifaces = fresh.value_at(i);
        assert(fresh.view().contains_key(node@) && fresh.view()[node@] == *ifaces);
        let kept = keep_node_keys(node.as_str(), ifaces, saved);
        let ghost before = out.view();
        out.insert(owned(node.as_str()), kept);
        i = i + 1;
        proof {
            assert forall|n: Seq<char>| #[trigger] out.view().contains_key(n) <==> exists|i2: int| 0 <= i2 < i
                && fresh.keys()[i2] == n by {
                if exists|i2: int| 0 <= i2 < i && fresh.keys()[i2] == n {
                    let i2 = choose|i2: int| 0 <= i2 < i && fresh.keys()[i2] == n;
                    if i2 < i - 1 {
                        assert(before.contains_key(n));
                    }
                }
                if out.view().contains_key(n) && n != node@ {
                    assert(before.contains_key(n));
                }
            }
        }
    }
    proof {
        assert(out.view().dom() =~= fresh.view().dom()) by {
            assert forall|n: Seq<char>| out.view().contains_key(n) <==> fresh.view().contains_key(n) by {
                if out.view().contains_key(n) {
                    let i2 = choose|i2: int| 0 <= i2 < i && fresh.keys()[i2] == n;
                }
                if fresh.view().contains_key(n) {
                    let i2 = choose|i2: int| 0 <= i2 < fresh.keys().len() && fresh.keys()[i2] == n;
                }
            }
        }
    }
    *fresh = out;
}

} // verus!
