use vstd::prelude::*;
use vstd::slice::slice_subrange;

verus! {

/// Bytes held in memory, with a place up to which they have been read.
///
/// The view is what is still to be read.
pub struct ByteReader {
    data: Vec<u8>,
    position: usize,
}

impl View for ByteReader {
    type V = Seq<u8>;

    closed spec fn view(&self) -> Seq<u8> {
        self.data@.skip(self.position as int)
    }
}

impl ByteReader {
    #[verifier::type_invariant]
    spec fn in_bounds(&self) -> bool {
        self.position <= self.data@.len()
    }

    /// A reader at the start of `data`.
    pub fn new(data: Vec<u8>) -> (r: ByteReader)
        ensures
            r@ == data@,
    {
        ByteReader { data, position: 0 }
    }

    /// The number of bytes still to be read.
    pub fn remaining(&self) -> (n: usize)
        ensures
            n == self@.len(),
    {
        proof {
            use_type_invariant(self);
        }
        self.data.len() - self.position
    }

    /// The bytes still to be read.
    pub fn as_slice(&self) -> (s: &[u8])
        ensures
            s@ == self@,
    {
        proof {
            use_type_invariant(self);
        }
        let s = slice_subrange(self.data.as_slice(), self.position, self.data.len());
        assert(s@ =~= self@);
        s
    }

    /// Steps over the next `n` bytes.
    pub fn advance(&mut self, n: usize)
        requires
            n <= old(self)@.len(),
        ensures
            final(self)@ == old(self)@.skip(n as int),
    {
        proof {
            use_type_invariant(&*self);
            assert(self.data@.len() == self.data.len());
        }
        self.position = self.position + n;
        assert(self@ =~= old(self)@.skip(n as int));
    }
}

} // verus!
