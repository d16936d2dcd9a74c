use vstd::prelude::*;

verus! {

/// Position of a change-data-capture reader in a Postgres write-ahead log.
#[derive(Clone, Copy, Debug, PartialEq, Eq, Structural, PartialOrd)]
pub struct PostgresOffset {
    pub txid: i64,
    /// Byte position in the write-ahead log stream.
    pub lsn: u64,
}

impl Default for PostgresOffset {
    fn default() -> (r: Self)
        ensures
            r.txid == 0,
            r.lsn == 0,
    {
        PostgresOffset { txid: 0, lsn: 0 }
    }
}

} // verus!
