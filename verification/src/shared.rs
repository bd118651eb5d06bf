use vstd::prelude::*;
use std::sync::Arc;

verus! {

/// Relies on std::sync::Arc::clone: the clone is a second handle to the same
/// immutable buffer.
#[verifier::external_body]
fn clone_arc_bytes(a: &Arc<Vec<u8>>) -> (r: Arc<Vec<u8>>)
    ensures
        r == *a,
{
    Arc::clone(a)
}

/// An immutable, reference-counted byte buffer together with a window into
/// it. Slicing shares the underlying allocation instead of copying, so a
/// cached block and every value sliced out of it use one allocation.
#[derive(Debug)]
pub struct SharedBytes {
    buf: Arc<Vec<u8>>,
    start: usize,
    len: usize,
}

impl View for SharedBytes {
    type V = Seq<u8>;

    closed spec fn view(&self) -> Seq<u8> {
        self.buf@.subrange(self.start as int, self.start + self.len)
    }
}

impl Clone for SharedBytes {
    fn clone(&self) -> (r: Self)
        ensures
            r@ == self@,
    {
        proof {
            use_type_invariant(self);
        }
        SharedBytes { buf: clone_arc_bytes(&self.buf), start: self.start, len: self.len }
    }
}

impl SharedBytes {
    #[verifier::type_invariant]
    spec fn window_in_buffer(self) -> bool {
        self.start + self.len <= self.buf@.len()
    }

    /// Wraps a fully materialized buffer; the buffer is immutable and
    /// shareable from this point on.
    pub fn from_vec(v: Vec<u8>) -> (r: Self)
        ensures
            r@ == v@,
    {
        let len = v.len();
        let r = SharedBytes { buf: Arc::new(v), start: 0, len };
        proof {
            assert(r@ =~= r.buf@);
        }
        r
    }

    /// The number of visible bytes.
    pub fn len(&self) -> (r: usize)
        ensures
            r == self@.len(),
    {
        proof {
            use_type_invariant(self);
        }
        self.len
    }

    /// Borrows the visible bytes as a slice.
    pub fn as_slice(&self) -> (r: &[u8])
        ensures
            r@ == self@,
    {
        proof {
            use_type_invariant(self);
        }
        let v: &Vec<u8> = &self.buf;
        let total = v.len();
        vstd::slice::slice_subrange(v.as_slice(), self.start, self.start + self.len)
    }

    /// Shares the window `[from, to)` of the visible bytes without copying.
    pub fn slice(&self, from: usize, to: usize) -> (r: Self)
        requires
            from <= to <= self@.len(),
        ensures
            r@ == self@.subrange(from as int, to as int),
    {
        proof {
            use_type_invariant(self);
        }
        let v: &Vec<u8> = &self.buf;
        let total = v.len();
        let r = SharedBytes {
            buf: clone_arc_bytes(&self.buf),
            start: self.start + from,
            len: to - from,
        };
        proof {
            assert(r@ =~= self@.subrange(from as int, to as int));
        }
        r
    }
}

} // verus!
