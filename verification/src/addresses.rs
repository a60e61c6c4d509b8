//! Deterministic id-to-port mapping, one range per role.
//!
//! Every component listens on the loopback host; only the port varies, as a
//! fixed offset per role plus the component's id.  The caller turns a port
//! into a socket address.

use vstd::prelude::*;

verus! {

/// The port a robot listens on: 2000 plus its id.
pub fn id_to_addr_robot(id: u16) -> (port: u16)
    requires
        id <= 63535,
    ensures
        port == 2000 + id,
{
    2000 + id
}

/// The port a screen listens on: 3000 plus its id.
pub fn id_to_addr_screen(id: u16) -> (port: u16)
    requires
        id <= 62535,
    ensures
        port == 3000 + id,
{
    3000 + id
}

/// The port a resolver listens on: 4000 plus its id.
pub fn id_to_addr_resolver(id: u16) -> (port: u16)
    requires
        id <= 61535,
    ensures
        port == 4000 + id,
{
    4000 + id
}

/// The port a leader listens on: 5000 plus its id.
pub fn id_to_addr_leader(id: u16) -> (port: u16)
    requires
        id <= 60535,
    ensures
        port == 5000 + id,
{
    5000 + id
}

} // verus!
