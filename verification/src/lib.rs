//! Core logic of a peer-to-peer recipe sharing node.
//!
//! A node keeps a catalog of recipe records, discovers peers on the local
//! network, and answers list requests that arrive over a shared broadcast
//! topic.  Everything that decides or computes lives here, verified: the
//! catalog rules, the overlay membership view, the wire codec for request
//! and response envelopes, the command parser, the protocol routing rules,
//! and the event-loop step function.  The surrounding process (transport,
//! discovery, storage I/O) hands plain values in and carries actions out.

use vstd::prelude::*;

pub mod catalog;
pub mod cli;
pub mod codec;
pub mod commands;
pub mod envelope;
pub mod event;
pub mod membership;
pub mod protocol;

verus! {

/// Byte-wise equality of two slices, used wherever peer identifiers or
/// other byte strings are compared by value.
pub fn bytes_eq(a: &[u8], b: &[u8]) -> (r: bool)
    ensures
        r == (a@ == b@),
{
    if a.len() != b.len() {
        assert(a@ != b@);
        return false;
    }
    let mut i: usize = 0;
    while i < a.len()
        invariant
            i <= a.len(),
            a.len() == b.len(),
            forall|j: int| 0 <= j < i ==> a@[j] == b@[j],
        decreases a.len() - i,
    {
        if a[i] != b[i] {
            return false;
        }
        i += 1;
    }
    proof {
        assert(a@ =~= b@);
    }
    true
}

} // verus!
