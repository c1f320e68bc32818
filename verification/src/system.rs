//! The dispatcher: observer registration and the cascade loop.
//!
//! A `MessageSystem` owns the observer instances and an append-only,
//! insertion-ordered list of registrations.  `send` wraps a message, seeds
//! a FIFO pending queue with it, and drains the queue iteratively — never
//! recursively — so call-stack depth stays constant regardless of how many
//! cascade levels occur.  Its whole behaviour equals the model in
//! `crate::model`, whose trace the delivery-order lemmas there speak of.
//!
//! Each invocation holds exclusive access to its observer instance for the
//! invocation's duration: the dispatcher owns the instances and lends one
//! out mutably per invocation, so a second acquisition of an already-held
//! instance — a fatal condition in designs built on run-time borrow
//! checking — cannot arise here by construction.

use crate::message::{views_of, Message, MessageView, MsgKind};
use crate::model::{
    as_pending, halt_fuel, halts, init_state, lemma_offer_upto_len, lemma_steps_stable, offer_one,
    offer_upto, step, steps, Pending,
};
use crate::observer::Observer;
use crate::wrapper::{ObserverId, ObserverWrapper};
use vstd::prelude::*;

verus! {

/// The abstract values of a sequence of pending queue entries, in order.
pub open spec fn msgs_of(q: Seq<Pending>) -> Seq<MessageView> {
    q.map_values(|p: Pending| p.msg)
}

/// A dispatcher: a table of observer instances and an ordered list of
/// registrations, insertion order preserved and treated as dispatch
/// priority.
pub struct MessageSystem<T> {
    observers: Vec<T>,
    registrations: Vec<ObserverWrapper>,
}

impl<T> MessageSystem<T> {
    /// The observer instances, by slot.
    pub closed spec fn observers_spec(self) -> Seq<T> {
        self.observers@
    }

    /// The registrations, in registration order.
    pub closed spec fn registrations_spec(self) -> Seq<ObserverWrapper> {
        self.registrations@
    }

    /// Hand an observer instance to the dispatcher; the returned slot
    /// number names the instance in registrations.  Registering one slot
    /// under several kinds shares the one instance between them.
    pub fn add_instance(&mut self, observer: T) -> (id: ObserverId)
        ensures
            final(self).observers_spec() == old(self).observers_spec().push(observer),
            final(self).registrations_spec() == old(self).registrations_spec(),
            id == old(self).observers_spec().len(),
    {
        let id = self.observers.len();
        self.observers.push(observer);
        id
    }

    /// Read an observer instance back: the state of slot `id`, or `None`
    /// for a slot that was never handed out.
    pub fn observer(&self, id: ObserverId) -> (r: Option<&T>)
        ensures
            match r {
                Some(o) => id < self.observers_spec().len() && *o == self.observers_spec()[
                    id as int
                ],
                None => id >= self.observers_spec().len(),
            },
    {
        if id < self.observers.len() {
            Some(&self.observers[id])
        } else {
            None
        }
    }

    /// Register the observer in slot `observer` for messages of kind
    /// `kind`, behind every earlier registration.  Duplicate registrations
    /// are permitted and each fires independently.
    pub fn add_observer(&mut self, observer: ObserverId, kind: MsgKind)
        ensures
            final(self).registrations_spec() == old(self).registrations_spec().push(
                ObserverWrapper { observer, kind },
            ),
            final(self).observers_spec() == old(self).observers_spec(),
    {
        let wrapper = ObserverWrapper::new(observer, kind);
        self.registrations.push(wrapper);
    }
}

impl<T> Default for MessageSystem<T> {
    /// A dispatcher with no observers and no registrations.
    fn default() -> (s: MessageSystem<T>)
        ensures
            s.observers_spec() == Seq::<T>::empty(),
            s.registrations_spec() == Seq::<ObserverWrapper>::empty(),
    {
        let s = MessageSystem { observers: Vec::new(), registrations: Vec::new() };
        proof {
            assert(s.observers_spec() =~= Seq::<T>::empty());
            assert(s.registrations_spec() =~= Seq::<ObserverWrapper>::empty());
        }
        s
    }
}

impl<T: Observer> MessageSystem<T> {
    /// Pop the queue's front message and offer it to every registration in
    /// registration order; each matching registration's emissions join the
    /// queue's tail immediately upon that registration's completion,
    /// strictly before the next registration runs.
    fn process_front(&mut self, queue: &mut Vec<Message>, Ghost(lvl): Ghost<int>)
        requires
            old(queue)@.len() > 0,
        ensures
            final(self).registrations_spec() == old(self).registrations_spec(),
            ({
                let r = offer_upto(
                    old(self).observers_spec(),
                    old(self).registrations_spec(),
                    old(self).registrations_spec().len() as int,
                    old(queue)@[0]@,
                    lvl,
                );
                &&& final(self).observers_spec() == r.0
                &&& views_of(final(queue)@) == views_of(old(queue)@.drop_first()) + msgs_of(r.1)
            }),
    {
        let m = queue.remove(0);
        let ghost q_rest = queue@;
        let ghost obs0 = self.observers@;
        let ghost regs0 = self.registrations@;
        proof {
            assert(q_rest =~= old(queue)@.drop_first());
            assert(views_of(q_rest) + msgs_of(Seq::<Pending>::empty()) =~= views_of(q_rest));
        }
        let mut j: usize = 0;
        while j < self.registrations.len()
            invariant
                j <= regs0.len(),
                self.registrations@ == regs0,
                ({
                    let r = offer_upto(obs0, regs0, j as int, m@, lvl);
                    &&& self.observers@ == r.0
                    &&& views_of(queue@) == views_of(q_rest) + msgs_of(r.1)
                }),
            decreases regs0.len() - j,
        {
            let ghost r_pre = offer_upto(obs0, regs0, j as int, m@, lvl);
            let w = self.registrations[j];
            w.handle_any(&mut self.observers, queue, &m);
            proof {
                lemma_offer_upto_len(obs0, regs0, j as int, m@, lvl);
                let one = offer_one(r_pre.0, w, m@);
                if crate::model::fires(w, m@, r_pre.0.len() as int) {
                    assert(msgs_of(r_pre.1 + as_pending(one.1, lvl)) =~= msgs_of(r_pre.1)
                        + one.1);
                    assert((views_of(q_rest) + msgs_of(r_pre.1)) + one.1 =~= views_of(q_rest) + (
                    msgs_of(r_pre.1) + one.1));
                } else {
                    assert(views_of(queue@) + Seq::<MessageView>::empty() =~= views_of(queue@));
                }
            }
            j = j + 1;
        }
    }

    /// Publish a message and run its full cascade to completion: the whole
    /// breadth-first drain of the model, for a cascade that halts.  The
    /// core enforces no cycle or depth bound, so a caller must ensure the
    /// cascade terminates; `send_bounded` serves the rest.
    pub fn send(&mut self, msg: Message)
        requires
            halts(
                old(self).registrations_spec(),
                init_state(old(self).observers_spec(), msg@),
            ),
        ensures
            final(self).registrations_spec() == old(self).registrations_spec(),
            ({
                let s0 = init_state(old(self).observers_spec(), msg@);
                let regs = old(self).registrations_spec();
                let s = steps(regs, s0, halt_fuel(regs, s0));
                &&& s.queue.len() == 0
                &&& final(self).observers_spec() == s.observers
            }),
    {
        let ghost regs0 = self.registrations@;
        let ghost s0 = init_state(self.observers@, msg@);
        let mut queue: Vec<Message> = Vec::new();
        queue.push(msg);
        let ghost mut pqueue: Seq<Pending> = s0.queue;
        let ghost mut its: nat = 0;
        proof {
            assert(views_of(queue@) =~= msgs_of(pqueue));
        }
        while queue.len() > 0
            invariant
                halts(regs0, s0),
                self.registrations@ == regs0,
                steps(regs0, s0, its).observers == self.observers@,
                steps(regs0, s0, its).queue == pqueue,
                views_of(queue@) == msgs_of(pqueue),
            decreases halt_fuel(regs0, s0) - its,
        {
            proof {
                assert(views_of(queue@).len() == queue@.len());
                assert(msgs_of(pqueue).len() == pqueue.len());
                let n0 = halt_fuel(regs0, s0);
                assert(steps(regs0, s0, n0).queue.len() == 0);
                assert(pqueue.len() > 0);
                if its >= n0 {
                    lemma_steps_stable(regs0, s0, n0, its);
                    assert(false);
                }
            }
            let ghost p = pqueue[0];
            proof {
                assert(msgs_of(pqueue)[0] == p.msg);
                assert(queue@[0]@ == p.msg);
            }
            let ghost q_pre = queue@;
            self.process_front(&mut queue, Ghost(p.level));
            proof {
                let pq_pre = pqueue;
                let r = offer_upto(
                    steps(regs0, s0, its).observers,
                    regs0,
                    regs0.len() as int,
                    p.msg,
                    p.level,
                );
                assert(steps(regs0, s0, its + 1) == step(regs0, steps(regs0, s0, its)));
                pqueue = pq_pre.drop_first() + r.1;
                its = its + 1;
                assert(views_of(q_pre.drop_first()) =~= msgs_of(pq_pre.drop_first())) by {
                    assert(views_of(q_pre).len() == q_pre.len());
                    assert(msgs_of(pq_pre).len() == pq_pre.len());
                    assert forall|i: int|
                        0 <= i < q_pre.drop_first().len() implies views_of(q_pre.drop_first())[i]
                        == msgs_of(pq_pre.drop_first())[i] by {
                        assert(views_of(q_pre)[i + 1] == msgs_of(pq_pre)[i + 1]);
                    };
                };
                assert(msgs_of(pq_pre.drop_first() + r.1) =~= msgs_of(pq_pre.drop_first())
                    + msgs_of(r.1));
                assert(views_of(queue@) =~= msgs_of(pqueue));
            }
        }
        proof {
            let n0 = halt_fuel(regs0, s0);
            assert(pqueue.len() == 0) by {
                assert(views_of(queue@).len() == 0);
            };
            if its <= n0 {
                lemma_steps_stable(regs0, s0, its, n0);
            } else {
                lemma_steps_stable(regs0, s0, n0, its);
            }
        }
    }

    /// Publish a message and run its cascade for at most `cap` turns of
    /// the drain loop: the caller-imposed cap that makes a cascade safe to
    /// run even when nothing guarantees it terminates.  Returns whether
    /// the cascade completed (the queue drained) within the cap.
    pub fn send_bounded(&mut self, msg: Message, cap: usize) -> (done: bool)
        ensures
            final(self).registrations_spec() == old(self).registrations_spec(),
            ({
                let s = steps(
                    old(self).registrations_spec(),
                    init_state(old(self).observers_spec(), msg@),
                    cap as nat,
                );
                &&& final(self).observers_spec() == s.observers
                &&& done == (s.queue.len() == 0)
            }),
    {
        let ghost regs0 = self.registrations@;
        let ghost s0 = init_state(self.observers@, msg@);
        let mut queue: Vec<Message> = Vec::new();
        queue.push(msg);
        let ghost mut pqueue: Seq<Pending> = s0.queue;
        let ghost mut its: nat = 0;
        let mut turns: usize = 0;
        proof {
            assert(views_of(queue@) =~= msgs_of(pqueue));
        }
        while turns < cap && queue.len() > 0
            invariant
                its == turns,
                turns <= cap,
                self.registrations@ == regs0,
                steps(regs0, s0, its).observers == self.observers@,
                steps(regs0, s0, its).queue == pqueue,
                views_of(queue@) == msgs_of(pqueue),
            decreases cap - turns,
        {
            proof {
                assert(views_of(queue@).len() == queue@.len());
                assert(msgs_of(pqueue).len() == pqueue.len());
            }
            let ghost p = pqueue[0];
            proof {
                assert(msgs_of(pqueue)[0] == p.msg);
                assert(queue@[0]@ == p.msg);
            }
            let ghost q_pre = queue@;
            self.process_front(&mut queue, Ghost(p.level));
            proof {
                let pq_pre = pqueue;
                let r = offer_upto(
                    steps(regs0, s0, its).observers,
                    regs0,
                    regs0.len() as int,
                    p.msg,
                    p.level,
                );
                assert(steps(regs0, s0, its + 1) == step(regs0, steps(regs0, s0, its)));
                pqueue = pq_pre.drop_first() + r.1;
                its = its + 1;
                assert(views_of(q_pre.drop_first()) =~= msgs_of(pq_pre.drop_first())) by {
                    assert(views_of(q_pre).len() == q_pre.len());
                    assert(msgs_of(pq_pre).len() == pq_pre.len());
                    assert forall|i: int|
                        0 <= i < q_pre.drop_first().len() implies views_of(q_pre.drop_first())[i]
                        == msgs_of(pq_pre.drop_first())[i] by {
                        assert(views_of(q_pre)[i + 1] == msgs_of(pq_pre)[i + 1]);
                    };
                };
                assert(msgs_of(pq_pre.drop_first() + r.1) =~= msgs_of(pq_pre.drop_first())
                    + msgs_of(r.1));
                assert(views_of(queue@) =~= msgs_of(pqueue));
            }
            turns = turns + 1;
        }
        let done = queue.is_empty();
        proof {
            if done {
                assert(pqueue.len() == 0) by {
                    assert(views_of(queue@).len() == 0);
                };
                lemma_steps_stable(regs0, s0, its, cap as nat);
            } else {
                assert(pqueue.len() > 0) by {
                    assert(views_of(queue@).len() > 0);
                };
            }
        }
        done
    }
}

} // verus!
