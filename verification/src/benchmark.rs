//! Benchmark command lines.
use vstd::prelude::*;
use crate::text::{owned, dec, dec_string};
use crate::types::strs;

verus! {

/// The iperf3 client arguments: connect to `target`, run `secs`, JSON
/// output; `-P n` for more than one stream, `-u` for UDP.
pub open spec fn iperf3_args(target: Seq<char>, secs: Seq<char>, streams: Option<u32>, udp: bool) -> Seq<Seq<char>> {
    seq!["-c"@, target, "-t"@, secs, "-J"@]
        + (match streams {
            Some(n) => if n > 1 { seq!["-P"@, dec(n as nat)] } else { Seq::empty() },
            None => Seq::empty(),
        })
        + (if udp { seq!["-u"@] } else { Seq::empty() })
}

/// Build the iperf3 client argument list. `streams` maps to `-P`, `udp`
/// to `-u`.
pub fn iperf3_client_args(target_ip: &str, secs_str: &str, streams: Option<u32>, udp: bool) -> (args: Vec<String>)
    ensures
        strs(args@) == iperf3_args(target_ip@, secs_str@, streams, udp),
{
    let mut args: Vec<String> = Vec::new();
    args.push(owned("-c"));
    args.push(owned(target_ip));
    args.push(owned("-t"));
    args.push(owned(secs_str));
    args.push(owned("-J"));
    let ghost base = strs(args@);
    assert(base =~= seq!["-c"@, target_ip@, "-t"@, secs_str@, "-J"@]);
    match streams {
        Some(n) => {
            if n > 1 {
                args.push(owned("-P"));
                args.push(dec_string(n as u64));
            }
        },
        None => {},
    }
    let ghost mid = strs(args@);
    assert(mid =~= base + (match streams {
        Some(n) => if n > 1 { seq!["-P"@, dec(n as nat)] } else { Seq::<Seq<char>>::empty() },
        None => Seq::<Seq<char>>::empty(),
    }));
    if udp {
        args.push(owned("-u"));
    }
    assert(strs(args@) =~= iperf3_args(target_ip@, secs_str@, streams, udp));
    args
}

} // verus!
