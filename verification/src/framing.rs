//! Where a message ends on a connection that carries one message and no length.

use vstd::prelude::*;

verus! {

/// Whether a read was the last of its message. A read that put `n` bytes into a buffer
/// of `capacity` bytes ends the message where it brought nothing, which is the end of
/// the connection, or where it left the buffer short of full.
pub fn read_ends_message(n: usize, capacity: usize) -> (ended: bool)
    ensures
        ended == (n == 0 || n < capacity),
{
    n == 0 || n < capacity
}

} // verus!
