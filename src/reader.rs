//! A cursor over received bytes, consumed from the front.
use vstd::prelude::*;

verus! {

/// Bytes that are read front to back.
pub struct Reader {
    data: Vec<u8>,
    pos: usize,
}

impl Reader {
    #[verifier::type_invariant]
    spec fn inv(&self) -> bool {
        self.pos <= self.data.len()
    }

    /// The bytes not yet read.
    pub closed spec fn rest(&self) -> Seq<u8> {
        self.data@.subrange(self.pos as int, self.data.len() as int)
    }

    /// A reader over `data`.
    pub fn new(data: Vec<u8>) -> (r: Self)
        ensures
            r.rest() == data@,
    {
        let r = Reader { data, pos: 0 };
        assert(r.rest() =~= r.data@);
        r
    }

    /// A reader over a copy of `data`.
    pub fn from_slice(data: &[u8]) -> (r: Self)
        ensures
            r.rest() == data@,
    {
        Reader::new(vstd::slice::slice_to_vec(data))
    }

    /// How many bytes are left.
    pub fn len(&self) -> (n: usize)
        ensures
            n == self.rest().len(),
    {
        proof {
            use_type_invariant(self);
        }
        self.data.len() - self.pos
    }

    /// The byte `i` places ahead, if there is one; nothing is consumed.
    pub fn peek(&self, i: usize) -> (r: Option<u8>)
        ensures
            i < self.rest().len() ==> r == Some(self.rest()[i as int]),
            i >= self.rest().len() ==> r is None,
    {
        proof {
            use_type_invariant(self);
        }
        if i < self.data.len() - self.pos {
            Some(self.data[self.pos + i])
        } else {
            None
        }
    }

    /// Take the next byte.
    pub fn read_byte(&mut self) -> (r: Option<u8>)
        ensures
            old(self).rest().len() == 0 ==> r is None && final(self).rest() == old(self).rest(),
            old(self).rest().len() > 0 ==> r == Some(old(self).rest()[0]) && final(self).rest()
                == old(self).rest().drop_first(),
    {
        proof {
            use_type_invariant(&*self);
        }
        if self.pos < self.data.len() {
            let b = self.data[self.pos];
            self.pos = self.pos + 1;
            assert(self.rest() =~= old(self).rest().drop_first());
            Some(b)
        } else {
            None
        }
    }

    /// Take the next `n` bytes, if that many are left.
    pub fn take(&mut self, n: usize) -> (r: Option<Vec<u8>>)
        ensures
            n <= old(self).rest().len() ==> r is Some && r.unwrap()@ == old(self).rest().take(
                n as int,
            ) && final(self).rest() == old(self).rest().skip(n as int),
            n > old(self).rest().len() ==> r is None && final(self).rest() == old(self).rest(),
    {
        proof {
            use_type_invariant(&*self);
        }
        if n <= self.data.len() - self.pos {
            let mut out: Vec<u8> = Vec::new();
            let start = self.pos;
            let mut i: usize = 0;
            while i < n
                invariant
                    start == self.pos,
                    start + n <= self.data.len(),
                    i <= n,
                    out@ == self.data@.subrange(start as int, start + i),
                decreases n - i,
            {
                out.push(self.data[start + i]);
                i = i + 1;
                assert(out@ =~= self.data@.subrange(start as int, start + i));
            }
            self.pos = start + n;
            assert(out@ =~= old(self).rest().take(n as int));
            assert(self.rest() =~= old(self).rest().skip(n as int));
            Some(out)
        } else {
            None
        }
    }

    /// Take everything that is left.
    pub fn take_rest(&mut self) -> (r: Vec<u8>)
        ensures
            r@ == old(self).rest(),
            final(self).rest() == Seq::<u8>::empty(),
    {
        let n = self.len();
        match self.take(n) {
            Some(v) => {
                assert(old(self).rest().take(n as int) =~= old(self).rest());
                assert(self.rest() =~= Seq::<u8>::empty());
                v
            },
            None => Vec::new(),
        }
    }
}

} // verus!
