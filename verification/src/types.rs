use vstd::prelude::*;

verus! {

/// The longest connection ID that a long header can carry, in bytes.
pub const MAX_CIDLEN: usize = 20;

/// A connection ID: between one and `MAX_CIDLEN` opaque bytes, held by value.
///
/// A connection ID of length zero is not a `CID`: where one may be absent, the
/// place holds an `Option`.
#[derive(Clone, Copy)]
pub struct CID {
    len: u8,
    data: [u8; MAX_CIDLEN],
}

impl View for CID {
    type V = Seq<u8>;

    /// The bytes of the connection ID: the first `len` bytes of the storage.
    closed spec fn view(&self) -> Seq<u8> {
        self.data@.subrange(0, self.len as int)
    }
}

impl CID {
    #[verifier::type_invariant]
    spec fn inv(&self) -> bool {
        1 <= self.len <= MAX_CIDLEN
    }

    /// Copies `bytes` into a connection ID. Fails exactly when `bytes` is
    /// empty or longer than `MAX_CIDLEN`.
    pub fn new(bytes: &[u8]) -> (r: Option<CID>)
        ensures
            r is Some <==> 1 <= bytes@.len() <= MAX_CIDLEN,
            r matches Some(cid) ==> cid@ == bytes@,
    {
        let n: usize = bytes.len();
        if n == 0 || n > MAX_CIDLEN {
            return None;
        }
        let mut data: [u8; MAX_CIDLEN] = [0u8; MAX_CIDLEN];
        let mut i: usize = 0;
        while i < n
            invariant
                i <= n <= MAX_CIDLEN,
                n == bytes@.len(),
                data@.subrange(0, i as int) == bytes@.subrange(0, i as int),
            decreases n - i,
        {
            data[i] = bytes[i];
            i += 1;
        }
        assert(bytes@.subrange(0, n as int) == bytes@);
        Some(CID { len: n as u8, data })
    }

    /// The bytes of the connection ID.
    pub fn as_slice(&self) -> (r: &[u8])
        ensures
            r@ == self@,
            1 <= r@.len() <= MAX_CIDLEN,
    {
        proof {
            use_type_invariant(self);
        }
        vstd::slice::slice_subrange(self.data.as_slice(), 0, self.len as usize)
    }
}

} // verus!
