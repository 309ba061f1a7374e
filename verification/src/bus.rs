//! The register bus of the chip, as far as the host settings need it.
//!
//! A [`Bus`] carries, as ghost state, the history of the writes that were
//! handed to it. Contracts of callers say which frames they put on the bus,
//! and in which order, by relating the history before a call to the history
//! after it.
//!
//! A driver has no ghost state to offer. It implements [`Transport`], the
//! bare write, and becomes a bus when it is wrapped in [`Traced`], which
//! keeps the history for it.

use vstd::prelude::*;

verus! {

/// One register write as it goes over the bus.
pub struct Frame {
    /// Selects the register block of the chip.
    pub block: u8,
    /// Offset of the first register written, within the block.
    pub address: u16,
    /// The bytes written, in the order they are sent.
    pub payload: Seq<u8>,
}

/// A frame together with what the bus answered to it.
pub struct Exchange<E> {
    pub frame: Frame,
    pub outcome: Result<(), E>,
}

/// The history that results when `frames` are written in turn, each one
/// accepted by the bus but the last, which is answered with `last`.
pub open spec fn in_turn<E>(frames: Seq<Frame>, last: Result<(), E>) -> Seq<Exchange<E>> {
    Seq::new(
        frames.len(),
        |i: int|
            Exchange { frame: frames[i], outcome: if i + 1 < frames.len() { Ok(()) } else { last } },
    )
}

/// The bytes of the latest write in `history` that went to `address` of
/// `block` and was accepted, if there is one: what the chip holds there as
/// far as the bus has told.
pub open spec fn last_accepted<E>(history: Seq<Exchange<E>>, block: u8, address: u16) -> Option<
    Seq<u8>,
>
    decreases history.len(),
{
    if history.len() == 0 {
        None
    } else {
        let latest = history.last();
        if latest.outcome is Ok && latest.frame.block == block && latest.frame.address
            == address {
            Some(latest.frame.payload)
        } else {
            last_accepted(history.drop_last(), block, address)
        }
    }
}

/// A transport that writes frames to the chip's registers.
pub trait Bus {
    type Error;

    /// Every write handed to this bus so far, oldest first, each with its
    /// outcome.
    spec fn exchanges(&self) -> Seq<Exchange<Self::Error>>;

    /// Writes `data` to the registers of `block` that start at `address`.
    /// The attempt enters the history whether or not the bus accepts it.
    fn write_frame(&mut self, block: u8, address: u16, data: &[u8]) -> (r: Result<
        (),
        Self::Error,
    >)
        ensures
            final(self).exchanges() == old(self).exchanges().push(
                (Exchange { frame: (Frame { block, address, payload: data@ }), outcome: r }),
            ),
    ;
}

/// What a driver has to offer to serve as a bus: the write itself, with no
/// ghost state attached.
pub trait Transport {
    type Error;

    /// Writes `data` to the registers of `block` that start at `address`.
    fn transmit(&mut self, block: u8, address: u16, data: &[u8]) -> Result<(), Self::Error>;
}

/// A [`Transport`] together with the history of what was handed to it.
pub struct Traced<T: Transport> {
    transport: T,
    history: Ghost<Seq<Exchange<T::Error>>>,
}

impl<T: Transport> Traced<T> {
    /// The transport underneath.
    pub closed spec fn inner(&self) -> T {
        self.transport
    }

    /// Wraps `transport`; nothing has been written through the result yet.
    pub fn new(transport: T) -> (bus: Self)
        ensures
            bus.exchanges() == Seq::<Exchange<T::Error>>::empty(),
            bus.inner() == transport,
    {
        Traced { transport, history: Ghost(Seq::empty()) }
    }

    /// Borrows the transport underneath.
    pub fn transport(&self) -> (t: &T)
        ensures
            *t == self.inner(),
    {
        &self.transport
    }

    /// Gives the transport back.
    pub fn into_inner(self) -> (t: T)
        ensures
            t == self.inner(),
    {
        self.transport
    }
}

impl<T: Transport> Bus for Traced<T> {
    type Error = T::Error;

    closed spec fn exchanges(&self) -> Seq<Exchange<T::Error>> {
        self.history@
    }

    fn write_frame(&mut self, block: u8, address: u16, data: &[u8]) -> (r: Result<(), T::Error>) {
        let r = self.transport.transmit(block, address, data);
        proof {
            self.history@ = self.history@.push(
                Exchange { frame: Frame { block, address, payload: data@ }, outcome: r },
            );
        }
        r
    }
}

} // verus!
