//! Where the encoder puts its bytes.
use vstd::prelude::*;

verus! {

/// A consumer of bytes, fed one byte at a time.
pub trait ByteSink {
    /// Whether the sink is fit to be handed bytes. Handing it one keeps it so.
    spec fn wf(&self) -> bool;

    /// Everything the sink has been given so far, in order.
    spec fn emitted(&self) -> Seq<u8>;

    /// Hands `byte` to the sink.
    fn emit(&mut self, byte: u8)
        requires
            old(self).wf(),
        ensures
            final(self).wf(),
            final(self).emitted() == old(self).emitted().push(byte),
    ;
}

/// A vector takes each byte at its end.
impl ByteSink for Vec<u8> {
    open spec fn wf(&self) -> bool {
        true
    }

    open spec fn emitted(&self) -> Seq<u8> {
        self@
    }

    #[inline]
    fn emit(&mut self, byte: u8) {
        self.push(byte);
    }
}

/// A sink that hands each byte to a closure.
pub struct FnSink<F: FnMut(u8)> {
    target: F,
    handed: Ghost<Seq<u8>>,
}

impl<F: FnMut(u8)> FnSink<F> {
    /// The closure that the sink hands its bytes to.
    pub closed spec fn closure(&self) -> F {
        self.target
    }

    /// A sink around `target`, which has been handed nothing yet.
    pub fn new(target: F) -> (sink: Self)
        requires
            forall|byte: u8| call_requires(target, (byte,)),
        ensures
            sink.wf(),
            sink.closure() == target,
            sink.emitted() == Seq::<u8>::empty(),
    {
        FnSink { target, handed: Ghost(Seq::empty()) }
    }
}

impl<F: FnMut(u8)> ByteSink for FnSink<F> {
    /// The closure may be called with any byte.
    closed spec fn wf(&self) -> bool {
        forall|byte: u8| call_requires(self.target, (byte,))
    }

    /// The bytes that the closure has been called with, in order.
    closed spec fn emitted(&self) -> Seq<u8> {
        self.handed@
    }

    #[inline]
    fn emit(&mut self, byte: u8)
        ensures
            call_ensures(old(self).closure(), (byte,), ()),
            final(self).closure() == old(self).closure(),
    {
        (self.target)(byte);
        self.handed = Ghost(self.handed@.push(byte));
    }
}

} // verus!
