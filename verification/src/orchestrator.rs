//! Result aggregation for a multi-peer run: one record per requested peer,
//! reported in input order, independent of the order in which the peers'
//! handshakes finished. The concurrent execution itself — one task per peer,
//! a timeout wrapper per task — is transport plumbing and lives outside the
//! library; it hands each peer's outcome back here.

use vstd::prelude::*;
use crate::P2PError;

verus! {

/// The record a run produces for one peer: its address and how its
/// handshake ended. Created once when the peer's engine completes; immutable
/// thereafter.
pub struct PeerResult {
    pub address: String,
    pub outcome: Result<(), P2PError>,
}

/// Pairs each peer address with the outcome its handshake produced, in input
/// order: the record sequence mirrors the address sequence, whatever order
/// the outcomes were produced in.
pub fn pair_results(addresses: Vec<String>, outcomes: Vec<Result<(), P2PError>>) -> (r: Vec<
    PeerResult,
>)
    requires
        addresses@.len() == outcomes@.len(),
    ensures
        r@.len() == addresses@.len(),
        forall|i: int|
            0 <= i < r@.len() ==> (#[trigger] r@[i]).address == addresses@[i] && r@[i].outcome
                == outcomes@[i],
{
    let ghost addrs0: Seq<String> = addresses@;
    let ghost outs0: Seq<Result<(), P2PError>> = outcomes@;
    let mut addrs = addresses;
    let mut outs = outcomes;
    let mut backwards: Vec<PeerResult> = Vec::new();
    while addrs.len() > 0
        invariant
            addrs@.len() == outs@.len(),
            addrs@ == addrs0.take(addrs@.len() as int),
            outs@ == outs0.take(addrs@.len() as int),
            addrs0.len() == outs0.len(),
            backwards@.len() + addrs@.len() == addrs0.len(),
            forall|i: int|
                0 <= i < backwards@.len() ==> (#[trigger] backwards@[i]).address == addrs0[addrs0.len()
                    - 1 - i] && backwards@[i].outcome == outs0[addrs0.len() - 1 - i],
        decreases addrs@.len(),
    {
        let a = addrs.pop().unwrap();
        let o = outs.pop().unwrap();
        proof {
            assert(addrs@ =~= addrs0.take(addrs@.len() as int));
            assert(outs@ =~= outs0.take(addrs@.len() as int));
        }
        backwards.push(PeerResult { address: a, outcome: o });
    }
    let mut r: Vec<PeerResult> = Vec::new();
    while backwards.len() > 0
        invariant
            backwards@.len() + r@.len() == addrs0.len(),
            addrs0.len() == outs0.len(),
            forall|i: int|
                0 <= i < backwards@.len() ==> (#[trigger] backwards@[i]).address == addrs0[addrs0.len()
                    - 1 - i] && backwards@[i].outcome == outs0[addrs0.len() - 1 - i],
            forall|i: int|
                0 <= i < r@.len() ==> (#[trigger] r@[i]).address == addrs0[i] && r@[i].outcome
                    == outs0[i],
        decreases backwards@.len(),
    {
        let x = backwards.pop().unwrap();
        r.push(x);
    }
    r
}

} // verus!
