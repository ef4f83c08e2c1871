//! The registry of interrupt handlers.

use vstd::prelude::*;
use crate::interrupt::Interrupt;
use crate::traps::frame::TrapFrame;

verus! {

/// What is run when an interrupt is taken. The handler gets the trap frame
/// of the interrupted code and may replace it to switch to another
/// process.
pub trait IrqHandler: Sized {
    /// What one run of the handler may do: called on the frame `before`,
    /// it may leave the frame `after` and itself as `then`. A handler that
    /// says nothing of its runs allows every outcome.
    open spec fn handles(&self, before: TrapFrame, then: Self, after: TrapFrame) -> bool {
        true
    }

    /// Handles one interrupt.
    fn handle(&mut self, tf: &mut TrapFrame)
        ensures
            old(self).handles(*old(tf), *final(self), *final(tf)),
    ;
}

/// The handlers, one optional handler for each interrupt source.
pub struct Irq<H>(Option<[Option<H>; 8]>);

impl<H: IrqHandler> Irq<H> {
    /// The registry was initialized.
    pub closed spec fn is_initialized(&self) -> bool {
        self.0 is Some
    }

    /// The handler registered for `source`, if there is one.
    pub closed spec fn handler(&self, source: Interrupt) -> Option<H> {
        self.0->Some_0[source.index_of()]
    }

    /// A registry that is not yet initialized.
    pub fn uninitialized() -> (r: Irq<H>)
        ensures
            !r.is_initialized(),
    {
        Irq(None)
    }

    /// Whether the registry was initialized.
    pub fn initialized(&self) -> (r: bool)
        ensures
            r == self.is_initialized(),
    {
        self.0.is_some()
    }

    /// Makes the registry ready for use, with no handler registered.
    pub fn initialize(&mut self)
        ensures
            final(self).is_initialized(),
            forall|source: Interrupt| final(self).handler(source) is None,
    {
        self.0 = Some([None, None, None, None, None, None, None, None]);
    }

    /// Registers `handler` for the interrupt `source`, in place of any
    /// handler registered before.
    pub fn register(&mut self, source: Interrupt, handler: H)
        requires
            old(self).is_initialized(),
        ensures
            final(self).is_initialized(),
            final(self).handler(source) == Some(handler),
            forall|other: Interrupt|
                other != source ==> final(self).handler(other) == old(self).handler(other),
    {
        let index = source.to_index();
        match &mut self.0 {
            Some(handlers) => {
                handlers[index] = Some(handler);
            },
            None => {},
        }
    }

    /// Whether a handler is registered for `source`.
    pub fn is_registered(&self, source: Interrupt) -> (r: bool)
        requires
            self.is_initialized(),
        ensures
            r == self.handler(source) is Some,
    {
        let index = source.to_index();
        match &self.0 {
            Some(handlers) => handlers[index].is_some(),
            None => false,
        }
    }

    /// Runs the handler registered for `source` on `tf`, once. Without a
    /// handler nothing happens.
    pub fn invoke(&mut self, source: Interrupt, tf: &mut TrapFrame)
        requires
            old(self).is_initialized(),
        ensures
            final(self).is_initialized(),
            match old(self).handler(source) {
                Some(handler) => final(self).handler(source) matches Some(then) && handler.handles(
                    *old(tf),
                    then,
                    *final(tf),
                ),
                None => final(self).handler(source) is None && *final(tf) == *old(tf),
            },
            forall|other: Interrupt|
                other != source ==> final(self).handler(other) == old(self).handler(other),
    {
        let index = source.to_index();
        match &mut self.0 {
            Some(handlers) => {
                match &mut handlers[index] {
                    Some(handler) => {
                        handler.handle(tf);
                    },
                    None => {},
                }
            },
            None => {},
        }
    }
}

} // verus!
