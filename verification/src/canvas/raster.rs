//! Clone-on-write byte storage for potentially large raster data.

use std::sync::Arc;

use vstd::prelude::*;

verus! {

/// Byte storage whose clones share one allocation; contents are replaced,
/// never mutated in place while shared.
#[derive(Debug, PartialEq, Eq)]
pub struct RasterBytes(Arc<Vec<u8>>);

impl View for RasterBytes {
    type V = Seq<u8>;

    closed spec fn view(&self) -> Seq<u8> {
        (*self.0)@
    }
}

/// Another handle to the same allocation: `Arc::clone`, which std documents
/// as producing a pointer to the same value.
#[verifier::external_body]
fn share(bytes: &Arc<Vec<u8>>) -> (r: Arc<Vec<u8>>)
    ensures
        *r == **bytes,
{
    Arc::clone(bytes)
}

/// Whether two handles point at one allocation: `Arc::ptr_eq`. Sharing one
/// allocation implies equal contents; distinct allocations may still hold
/// equal bytes.
#[verifier::external_body]
fn same_allocation(a: &Arc<Vec<u8>>, b: &Arc<Vec<u8>>) -> (r: bool)
    ensures
        r ==> **a == **b,
{
    Arc::ptr_eq(a, b)
}

impl RasterBytes {
    pub fn new(bytes: Vec<u8>) -> (r: Self)
        ensures
            r@ == bytes@,
    {
        RasterBytes(Arc::new(bytes))
    }

    pub fn zeroed(len: usize) -> (r: Self)
        ensures
            r@ == Seq::new(len as nat, |i: int| 0u8),
    {
        let v = vec![0u8; len];
        proof {
            assert(v@ =~= Seq::new(len as nat, |i: int| 0u8));
        }
        Self::new(v)
    }

    pub fn as_slice(&self) -> (r: &[u8])
        ensures
            r@ == self@,
    {
        self.0.as_slice()
    }

    pub fn len(&self) -> (r: usize)
        ensures
            r == self@.len(),
    {
        self.0.len()
    }

    pub fn to_vec(&self) -> (r: Vec<u8>)
        ensures
            r@ == self@,
    {
        let v: &Vec<u8> = &self.0;
        let mut out: Vec<u8> = Vec::with_capacity(v.len());
        let mut i: usize = 0;
        while i < v.len()
            invariant
                i <= v@.len(),
                out@ == v@.take(i as int),
            decreases v@.len() - i,
        {
            out.push(v[i]);
            proof {
                assert(out@ =~= v@.take(i + 1));
            }
            i = i + 1;
        }
        proof {
            assert(v@.take(v@.len() as int) =~= v@);
        }
        out
    }

    /// Returns whether two values share the same backing allocation, as a
    /// clone does with its original. Values that share storage hold equal
    /// bytes.
    pub fn shares_storage_with(&self, other: &Self) -> (r: bool)
        ensures
            r ==> self@ == other@,
    {
        same_allocation(&self.0, &other.0)
    }
}

impl From<Vec<u8>> for RasterBytes {
    /// Takes ownership of the bytes, unshared.
    fn from(bytes: Vec<u8>) -> (r: Self)
        ensures
            r@ == bytes@,
    {
        RasterBytes(Arc::new(bytes))
    }
}

impl vstd::std_specs::convert::FromSpecImpl<Vec<u8>> for RasterBytes {
    open spec fn obeys_from_spec() -> bool {
        true
    }

    closed spec fn from_spec(bytes: Vec<u8>) -> RasterBytes {
        RasterBytes(Arc::new(bytes))
    }
}

impl Clone for RasterBytes {
    fn clone(&self) -> (r: Self)
        ensures
            r@ == self@,
    {
        RasterBytes(share(&self.0))
    }
}

} // verus!
