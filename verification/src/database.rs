//! The connection pool that the commands run against.

use vstd::prelude::*;

verus! {

/// Holds the connection pool.
///
/// The pool is whatever the driver hands out: it is cloned, cheaply, once for
/// each command that is started, and the clone is given to the command's
/// function.
#[derive(Debug)]
pub struct SqlxDatabase<P> {
    pub pool: P,
}

} // verus!
