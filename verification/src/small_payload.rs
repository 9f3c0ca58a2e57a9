//! Payload storage that keeps short payloads inline and longer ones on the
//! heap.
use vstd::prelude::*;
use vstd::slice::{slice_subrange, slice_to_vec};

verus! {

/// Inline byte storage of capacity `N`; the first bytes hold the payload.
#[derive(Debug)]
pub struct InlineBuf<const N: usize> {
    buf: Vec<u8>,
}

impl<const N: usize> View for InlineBuf<N> {
    type V = Seq<u8>;

    closed spec fn view(&self) -> Seq<u8> {
        self.buf@
    }
}

impl<const N: usize> InlineBuf<N> {
    #[verifier::type_invariant]
    spec fn inv(&self) -> bool {
        self.buf@.len() <= N
    }

    /// Store `data`, with its length as a byte.
    pub fn from_slice(data: &[u8]) -> (r: (Self, u8))
        requires
            data@.len() <= N,
            data@.len() <= u8::MAX,
        ensures
            r.0@ == data@,
            r.1 == data@.len(),
    {
        (InlineBuf { buf: slice_to_vec(data) }, data.len() as u8)
    }

    /// The first `len` stored bytes.
    pub fn as_slice(&self, len: u8) -> (r: &[u8])
        requires
            len <= self@.len(),
        ensures
            r@ == self@.take(len as int),
    {
        slice_subrange(self.buf.as_slice(), 0, len as usize)
    }
}

/// A payload stored inline when it fits in `INLINE` bytes, else on the heap.
#[derive(Debug)]
pub enum SmallPayload<const INLINE: usize> {
    /// Inline storage: the first `len` bytes of `buf`.
    Inline { len: u8, buf: InlineBuf<INLINE> },
    /// Heap storage.
    Heap(Vec<u8>),
}

impl<const INLINE: usize> View for SmallPayload<INLINE> {
    type V = Seq<u8>;

    open spec fn view(&self) -> Seq<u8> {
        match self {
            SmallPayload::Inline { len, buf } => buf@.take(*len as int),
            SmallPayload::Heap(v) => v@,
        }
    }
}

/// Whether a payload of this length goes inline.
pub open spec fn goes_inline(inline: usize, n: nat) -> bool {
    n <= inline
}

impl<const INLINE: usize> SmallPayload<INLINE> {
    /// Well-formedness: an inline length never exceeds the stored bytes.
    pub open spec fn wf(&self) -> bool {
        match self {
            SmallPayload::Inline { len, buf } => *len <= buf@.len(),
            SmallPayload::Heap(_) => true,
        }
    }

    /// Store `data` inline when it fits in `INLINE` bytes, else on the heap.
    pub fn new(data: &[u8]) -> (r: Self)
        requires
            data@.len() <= INLINE ==> data@.len() <= u8::MAX,
        ensures
            r@ == data@,
            r.wf(),
            (r is Inline) == goes_inline(INLINE, data@.len()),
    {
        if data.len() <= INLINE {
            let (buf, len) = InlineBuf::<INLINE>::from_slice(data);
            assert(buf@.take(len as int) =~= data@);
            SmallPayload::Inline { len, buf }
        } else {
            SmallPayload::Heap(slice_to_vec(data))
        }
    }

    /// The payload bytes.
    pub fn as_slice(&self) -> (r: &[u8])
        requires
            self.wf(),
        ensures
            r@ == self@,
    {
        match self {
            SmallPayload::Inline { len, buf } => buf.as_slice(*len),
            SmallPayload::Heap(v) => v.as_slice(),
        }
    }

    /// An owned copy of the payload bytes.
    pub fn to_arc(&self) -> (r: Vec<u8>)
        requires
            self.wf(),
        ensures
            r@ == self@,
    {
        slice_to_vec(self.as_slice())
    }

    /// The payload length.
    pub fn len(&self) -> (r: usize)
        requires
            self.wf(),
        ensures
            r == self@.len(),
    {
        match self {
            SmallPayload::Inline { len, buf } => {
                proof {
                    use_type_invariant(buf);
                }
                *len as usize
            },
            SmallPayload::Heap(v) => v.len(),
        }
    }

    /// Whether the payload is stored inline.
    pub fn is_inline(&self) -> (r: bool)
        ensures
            r == (self is Inline),
    {
        match self {
            SmallPayload::Inline { .. } => true,
            SmallPayload::Heap(_) => false,
        }
    }
}

} // verus!
