use vstd::prelude::*;

verus! {

/// Compares two byte strings element by element.
pub fn bytes_equal(a: &Vec<u8>, b: &Vec<u8>) -> (r: bool)
    ensures
        r == (a@ == b@),
{
    if a.len() != b.len() {
        return false;
    }
    let n = a.len();
    let mut i: usize = 0;
    while i < n
        invariant
            n == a.len(),
            n == b.len(),
            i <= n,
            a@.subrange(0, i as int) == b@.subrange(0, i as int),
        decreases n - i,
    {
        if a[i] != b[i] {
            assert(a@[i as int] != b@[i as int]);
            return false;
        }
        assert(a@.subrange(0, i + 1) =~= a@.subrange(0, i as int).push(a@[i as int]));
        assert(b@.subrange(0, i + 1) =~= b@.subrange(0, i as int).push(b@[i as int]));
        i = i + 1;
    }
    assert(a@ =~= a@.subrange(0, n as int));
    assert(b@ =~= b@.subrange(0, n as int));
    true
}

/// A claim whose length has been checked against a bound when it was built.
/// Nothing can make one that is longer than its bound.
pub struct BoundedClaim {
    bytes: Vec<u8>,
    bound: u32,
}

impl View for BoundedClaim {
    type V = Seq<u8>;

    closed spec fn view(&self) -> Seq<u8> {
        self.bytes@
    }
}

impl BoundedClaim {
    /// The bound that the claim was checked against.
    pub closed spec fn bound(&self) -> nat {
        self.bound as nat
    }

    #[verifier::type_invariant]
    spec fn within_bound(&self) -> bool {
        self.bytes.len() <= self.bound
    }

    /// Checks `bytes` against `bound`; hands the bytes back when they are too long.
    pub fn try_new(bytes: Vec<u8>, bound: u32) -> (r: Result<BoundedClaim, Vec<u8>>)
        ensures
            r is Ok <==> bytes@.len() <= bound,
            r matches Ok(c) ==> c@ == bytes@ && c.bound() == bound,
            r matches Err(b) ==> b@ == bytes@,
    {
        if bytes.len() <= bound as usize {
            Ok(BoundedClaim { bytes, bound })
        } else {
            Err(bytes)
        }
    }

    pub fn as_bytes(&self) -> (r: &Vec<u8>)
        ensures
            r@ == self@,
    {
        &self.bytes
    }

    pub fn len(&self) -> (r: usize)
        ensures
            r == self@.len(),
            r <= self.bound(),
    {
        proof {
            use_type_invariant(self);
        }
        self.bytes.len()
    }

    pub fn into_bytes(self) -> (r: Vec<u8>)
        ensures
            r@ == self@,
    {
        self.bytes
    }
}

} // verus!
