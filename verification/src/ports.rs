//! Candidate port sequences.

use vstd::prelude::*;

verus! {

/// How many TCP ports there are: `0` up to and including `65535`.
pub const PORT_COUNT: usize = 65536;

/// The ports `from, from + 1, ..., to - 1` in ascending order. The upper bound
/// is excluded; the sequence is empty when `to <= from`.
pub open spec fn port_seq(from: int, to: int) -> Seq<u16> {
    Seq::new(
        if from < to {
            (to - from) as nat
        } else {
            0
        },
        |i: int| (from + i) as u16,
    )
}

/// Lists the ports of the half-open range `[from, to)`.
pub fn port_range(from: u16, to: u16) -> (ports: Vec<u16>)
    ensures
        ports@ == port_seq(from as int, to as int),
{
    let mut ports: Vec<u16> = Vec::new();
    let mut next: u16 = from;
    while next < to
        invariant
            from <= next,
            next <= to || next == from,
            ports@ == port_seq(from as int, next as int),
        decreases to - next,
    {
        ports.push(next);
        next = next + 1;
    }
    ports
}

/// Lists every TCP port, `0` up to and including `65535`.
pub fn all_ports() -> (ports: Vec<u16>)
    ensures
        ports@ == port_seq(0, PORT_COUNT as int),
{
    let mut ports = port_range(0, u16::MAX);
    ports.push(u16::MAX);
    ports
}

} // verus!
