//! The per-invocation output channel of an observer.
//!
//! A `Ctx` is created fresh immediately before each observer invocation and
//! collects the messages the observer emits while handling one message; the
//! dispatcher moves its contents onto the pending queue immediately after
//! the invocation returns, then discards the `Ctx`.

use crate::message::{views_of, Message, MessageView};
use vstd::prelude::*;

verus! {

/// An ordered collection of newly emitted messages, abstracted as the
/// sequence of their values in emission order.
pub struct Ctx {
    msgs: Vec<Message>,
}

impl View for Ctx {
    type V = Seq<MessageView>;

    closed spec fn view(&self) -> Seq<MessageView> {
        views_of(self.msgs@)
    }
}

impl Ctx {
    /// Emit a follow-up message: appends it to the context, preserving
    /// emission order.
    pub fn send(&mut self, msg: Message)
        ensures
            final(self)@ == old(self)@.push(msg@),
    {
        let ghost pre = self.msgs@;
        self.msgs.push(msg);
        proof {
            assert(views_of(pre.push(msg)) =~= views_of(pre).push(msg@));
        }
    }

    /// Give up the collected messages, in emission order.
    pub fn into_vec(self) -> (r: Vec<Message>)
        ensures
            views_of(r@) == self@,
    {
        self.msgs
    }
}

impl Default for Ctx {
    /// An empty context, holding no emitted messages.
    fn default() -> (c: Ctx)
        ensures
            c@ == Seq::<MessageView>::empty(),
    {
        let c = Ctx { msgs: Vec::new() };
        proof {
            assert(c@ =~= Seq::<MessageView>::empty());
        }
        c
    }
}

} // verus!
