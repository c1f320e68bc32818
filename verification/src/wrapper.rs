//! The registration, or erasure adapter.
//!
//! A registration binds one observer instance — named by its slot in the
//! dispatcher's observer table — to one message kind, and exposes a
//! uniform "try dispatch" operation over an erased message regardless of
//! the bound kind: on a kind mismatch it does nothing (a non-match, not a
//! failure); on a match it invokes the observer with a fresh context and
//! moves everything the observer emitted onto the tail of the out-queue,
//! in emission order.

use crate::context::Ctx;
use crate::message::{views_of, Message};
use crate::model::offer_one;
use crate::observer::Observer;
use vstd::prelude::*;

verus! {

/// Names one observer instance: its slot in the dispatcher's observer
/// table.
pub type ObserverId = usize;

/// An immutable binding of one observer instance to one message kind;
/// created by `add_observer`, never mutated or removed.
#[derive(Debug, Clone, Copy, PartialEq, Eq, Structural)]
pub struct ObserverWrapper {
    pub observer: ObserverId,
    pub kind: crate::message::MsgKind,
}

impl ObserverWrapper {
    /// Bind the observer in slot `observer` to messages of kind `kind`.
    pub fn new(observer: ObserverId, kind: crate::message::MsgKind) -> (w: ObserverWrapper)
        ensures
            w == (ObserverWrapper { observer, kind }),
    {
        ObserverWrapper { observer, kind }
    }

    /// Try to dispatch an erased message: exactly `offer_one` — on a kind
    /// match the bound observer handles the message and its emissions join
    /// the tail of `send_msgs`; otherwise nothing changes.  A registration
    /// naming a slot outside the table never fires.
    pub fn handle_any<T: Observer>(
        &self,
        observers: &mut Vec<T>,
        send_msgs: &mut Vec<Message>,
        msg: &Message,
    )
        ensures
            final(observers)@ == offer_one(old(observers)@, *self, msg@).0,
            views_of(final(send_msgs)@) == views_of(old(send_msgs)@) + offer_one(
                old(observers)@,
                *self,
                msg@,
            ).1,
    {
        let k = msg.kind();
        if self.observer < observers.len() && k == self.kind {
            let mut ctx = Ctx::default();
            let mut observer = observers.remove(self.observer);
            observer.handle(&mut ctx, msg);
            let ghost post = observer;
            observers.insert(self.observer, observer);
            proof {
                assert(observers@ =~= old(observers)@.update(self.observer as int, post));
            }
            let mut emitted = ctx.into_vec();
            proof {
                assert(Seq::<crate::message::MessageView>::empty() + old(
                    observers,
                )@[self.observer as int].emitted(msg@) =~= old(observers)@[self.observer as int].emitted(
                    msg@,
                ));
            }
            let ghost pre_send = send_msgs@;
            let ghost pre_emitted = emitted@;
            send_msgs.append(&mut emitted);
            proof {
                assert(views_of(pre_send + pre_emitted) =~= views_of(pre_send) + views_of(
                    pre_emitted,
                ));
            }
        } else {
            proof {
                assert(views_of(send_msgs@) =~= views_of(send_msgs@) + Seq::<
                    crate::message::MessageView,
                >::empty());
            }
        }
    }
}

} // verus!
