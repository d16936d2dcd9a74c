use vstd::prelude::*;

verus! {

/// One row version written to a durable file.
#[derive(Clone, Copy, Debug, PartialEq, Eq, Structural)]
pub struct SstRow {
    pub table_id: u32,
    pub key: u64,
    pub epoch: u64,
    pub value: u64,
}

/// Metadata of an immutable, sorted durable file.
#[derive(Clone, Copy, Debug, PartialEq, Eq, Structural)]
pub struct SstableInfo {
    pub object_id: u64,
    pub table_id: u32,
    pub min_epoch: u64,
    pub max_epoch: u64,
    pub file_size: u64,
}

/// A copy of `v`, element by element.
pub fn copy_vec<T: Copy>(v: &Vec<T>) -> (r: Vec<T>)
    ensures
        r@ == v@,
{
    let mut r: Vec<T> = Vec::new();
    let mut i: usize = 0;
    while i < v.len()
        invariant
            i <= v@.len(),
            r@ == v@.subrange(0, i as int),
        decreases v@.len() - i,
    {
        r.push(v[i]);
        i = i + 1;
        assert(r@ =~= v@.subrange(0, i as int));
    }
    assert(v@.subrange(0, v@.len() as int) =~= v@);
    r
}

} // verus!
