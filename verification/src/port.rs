//! The port allocation policy: probe a bounded range of ports in
//! ascending order and take the first free one.
//!
//! Probing a port is outside work; callers probe each port in the range
//! and hand the outcomes in as a vector of flags, index 0 standing for
//! the starting port. The probe-then-bind sequence is not atomic, so a
//! race with another process remains possible; that is an accepted
//! limitation of the policy itself.

use vstd::prelude::*;

verus! {

/// The default starting port of the probe.
pub const DEFAULT_START_PORT: u16 = 1430;

/// How many ports past the starting one the probe covers (the range is
/// inclusive on both ends, so 101 ports are probed in all).
pub const PROBE_SPAN: u16 = 100;

/// The first port of the probed range that was free, in ascending order
/// from the starting port; `None` when every probe failed.
pub fn find_available_port(start_port: u16, free: &Vec<bool>) -> (r: Option<u16>)
    requires
        start_port + free.len() <= 65536,
    ensures
        match r {
            Some(p) => {
                &&& start_port <= p
                &&& p - start_port < free.len()
                &&& free@[p - start_port]
                &&& forall|q: int| start_port <= q < p ==> !(#[trigger] free@[q - start_port])
            },
            None => forall|j: int| 0 <= j < free.len() ==> !free@[j],
        },
{
    let mut i: usize = 0;
    while i < free.len()
        invariant
            i <= free.len(),
            start_port + free.len() <= 65536,
            forall|j: int| 0 <= j < i ==> !free@[j],
        decreases free.len() - i,
    {
        if free[i] {
            return Some(start_port + (i as u16));
        }
        i += 1;
    }
    None
}

} // verus!
