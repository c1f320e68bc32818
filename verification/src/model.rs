//! The mathematical model of the cascade algorithm.
//!
//! A `send` call seeds a FIFO queue with the published message and drains
//! it: each dequeued message is offered to every registration in
//! registration order; a registration whose bound kind matches invokes its
//! observer, and the observer's emitted messages join the tail of the
//! queue.  The model runs over abstract message values and records every
//! invocation in a trace, so that delivery order itself can be stated and
//! proved.

use crate::message::MessageView;
use crate::observer::Observer;
use crate::wrapper::ObserverWrapper;
use vstd::prelude::*;

verus! {

/// A queued message together with its cascade level: the published message
/// is at level 0, and a message emitted while handling a level-`l` message
/// is at level `l + 1`.
pub struct Pending {
    pub msg: MessageView,
    pub level: int,
}

/// One observer invocation: registration `reg` handled message `msg`,
/// which sat at cascade level `level`.
pub struct Event {
    pub reg: int,
    pub msg: MessageView,
    pub level: int,
}

/// The dispatcher's state while draining one cascade: the observers'
/// states, the pending queue, and the invocations made so far.
pub struct ModelState<T> {
    pub observers: Seq<T>,
    pub queue: Seq<Pending>,
    pub trace: Seq<Event>,
}

/// Whether registration `w` fires on message `m`: its bound kind equals
/// the message's kind and it names an existing observer slot.
pub open spec fn fires(w: ObserverWrapper, m: MessageView, n_obs: int) -> bool {
    &&& w.kind == m.kind()
    &&& w.observer < n_obs
}

/// Offer one message to one registration: on a kind match the bound
/// observer handles it (its slot moves to `next_state`, and it emits
/// `emitted`); on a mismatch nothing happens.
pub open spec fn offer_one<T: Observer>(obs: Seq<T>, w: ObserverWrapper, m: MessageView) -> (
    Seq<T>,
    Seq<MessageView>,
) {
    if fires(w, m, obs.len() as int) {
        (
            obs.update(w.observer as int, obs[w.observer as int].next_state(m)),
            obs[w.observer as int].emitted(m),
        )
    } else {
        (obs, Seq::empty())
    }
}

/// The emitted messages `ms`, queued one level below the message whose
/// handling produced them.
pub open spec fn as_pending(ms: Seq<MessageView>, lvl: int) -> Seq<Pending> {
    ms.map_values(|m: MessageView| Pending { msg: m, level: lvl + 1 })
}

/// Offer one level-`lvl` message to the first `j` registrations in
/// registration order: the observers' states afterwards, everything
/// emitted (already queued at level `lvl + 1`, in adapter-order-then-
/// emission-order), and the invocations made.
pub open spec fn offer_upto<T: Observer>(
    obs: Seq<T>,
    regs: Seq<ObserverWrapper>,
    j: int,
    m: MessageView,
    lvl: int,
) -> (Seq<T>, Seq<Pending>, Seq<Event>)
    decreases j,
{
    if j <= 0 {
        (obs, Seq::empty(), Seq::empty())
    } else {
        let prev = offer_upto(obs, regs, j - 1, m, lvl);
        let one = offer_one(prev.0, regs[j - 1], m);
        if fires(regs[j - 1], m, prev.0.len() as int) {
            (
                one.0,
                prev.1 + as_pending(one.1, lvl),
                prev.2.push(Event { reg: j - 1, msg: m, level: lvl }),
            )
        } else {
            (prev.0, prev.1, prev.2)
        }
    }
}

/// One turn of the drain loop: pop the front message, offer it to every
/// registration, and append what was emitted to the queue's tail.  An
/// empty queue stays put.
pub open spec fn step<T: Observer>(regs: Seq<ObserverWrapper>, s: ModelState<T>) -> ModelState<
    T,
> {
    if s.queue.len() == 0 {
        s
    } else {
        let p = s.queue[0];
        let r = offer_upto(s.observers, regs, regs.len() as int, p.msg, p.level);
        ModelState {
            observers: r.0,
            queue: s.queue.drop_first() + r.1,
            trace: s.trace + r.2,
        }
    }
}

/// The state after `n` turns of the drain loop.
pub open spec fn steps<T: Observer>(regs: Seq<ObserverWrapper>, s: ModelState<T>, n: nat) -> ModelState<T>
    decreases n,
{
    if n == 0 {
        s
    } else {
        step(regs, steps(regs, s, (n - 1) as nat))
    }
}

/// The state at the start of a cascade: the given observers, a queue
/// holding only the published message at level 0, and no invocations yet.
pub open spec fn init_state<T>(obs: Seq<T>, m: MessageView) -> ModelState<T> {
    ModelState {
        observers: obs,
        queue: seq![Pending { msg: m, level: 0 }],
        trace: Seq::empty(),
    }
}

/// Whether the cascade from state `s` terminates: some number of turns
/// drains the queue.  An observer that always re-emits its own trigger
/// kind falsifies this; the dispatcher does not detect that hazard, so a
/// full drain can only be asked of cascades that do halt.
pub open spec fn halts<T: Observer>(regs: Seq<ObserverWrapper>, s: ModelState<T>) -> bool {
    exists|n: nat| steps(regs, s, n).queue.len() == 0
}

/// A number of turns after which the queue is empty, for a cascade that
/// halts.
pub open spec fn halt_fuel<T: Observer>(regs: Seq<ObserverWrapper>, s: ModelState<T>) -> nat {
    choose|n: nat| steps(regs, s, n).queue.len() == 0
}

/// Offering a message leaves the number of observer slots unchanged.
pub proof fn lemma_offer_upto_len<T: Observer>(
    obs: Seq<T>,
    regs: Seq<ObserverWrapper>,
    j: int,
    m: MessageView,
    lvl: int,
)
    ensures
        offer_upto(obs, regs, j, m, lvl).0.len() == obs.len(),
    decreases j,
{
    if j > 0 {
        lemma_offer_upto_len(obs, regs, j - 1, m, lvl);
    }
}

/// Everything emitted while handling a level-`lvl` message is queued at
/// level `lvl + 1`.
pub proof fn lemma_offer_upto_levels<T: Observer>(
    obs: Seq<T>,
    regs: Seq<ObserverWrapper>,
    j: int,
    m: MessageView,
    lvl: int,
)
    ensures
        forall|k: int|
            0 <= k < offer_upto(obs, regs, j, m, lvl).1.len() ==> (#[trigger] offer_upto(
                obs,
                regs,
                j,
                m,
                lvl,
            ).1[k]).level == lvl + 1,
    decreases j,
{
    if j > 0 {
        lemma_offer_upto_levels(obs, regs, j - 1, m, lvl);
    }
}

/// Per queue position, delivery is exact: offering one message to the
/// registration list invokes every registration whose kind matches — each
/// exactly once, duplicates each on their own — and no other, in
/// registration order.
pub proof fn lemma_level_invocations<T: Observer>(
    obs: Seq<T>,
    regs: Seq<ObserverWrapper>,
    j: int,
    m: MessageView,
    lvl: int,
)
    requires
        0 <= j <= regs.len(),
    ensures
        ({
            let t = offer_upto(obs, regs, j, m, lvl).2;
            // Only matching registrations are invoked, with this very
            // message, at this very level.
            &&& forall|k: int|
                0 <= k < t.len() ==> (#[trigger] t[k]).msg == m && t[k].level == lvl && 0 <= t[
                    k
                ].reg < j && fires(regs[t[k].reg], m, obs.len() as int)
            // Invocation order equals registration order, so no
            // registration is invoked twice.
            &&& forall|k1: int, k2: int| 0 <= k1 < k2 < t.len() ==> t[k1].reg < t[k2].reg
            // Every matching registration is invoked.
            &&& forall|i: int|
                0 <= i < j && fires(regs[i], m, obs.len() as int) ==> exists|k: int|
                    0 <= k < t.len() && (#[trigger] t[k]).reg == i
        }),
    decreases j,
{
    if j > 0 {
        lemma_level_invocations(obs, regs, j - 1, m, lvl);
        lemma_offer_upto_len(obs, regs, j - 1, m, lvl);
        let prev = offer_upto(obs, regs, j - 1, m, lvl);
        let t = offer_upto(obs, regs, j, m, lvl).2;
        if fires(regs[j - 1], m, obs.len() as int) {
            assert(t == prev.2.push(Event { reg: j - 1, msg: m, level: lvl }));
            assert forall|i: int|
                0 <= i < j && fires(regs[i], m, obs.len() as int) implies exists|k: int|
                0 <= k < t.len() && (#[trigger] t[k]).reg == i by {
                if i < j - 1 {
                    let k0 = choose|k: int| 0 <= k < prev.2.len() && (#[trigger] prev.2[k]).reg
                        == i;
                    assert(t[k0].reg == i);
                } else {
                    assert(t[t.len() - 1].reg == i);
                }
            };
        }
    }
}

/// Shared-instance visibility: two registrations naming the same observer
/// slot act on one state; handling a message through the first and then
/// one through the second accumulates both effects in that single slot.
pub proof fn lemma_shared_instance<T: Observer>(
    obs: Seq<T>,
    w1: ObserverWrapper,
    w2: ObserverWrapper,
    m1: MessageView,
    m2: MessageView,
)
    requires
        w1.observer == w2.observer,
        fires(w1, m1, obs.len() as int),
        fires(w2, m2, obs.len() as int),
    ensures
        offer_one(offer_one(obs, w1, m1).0, w2, m2).0[w1.observer as int] == obs[
            w1.observer as int
        ].next_state(m1).next_state(m2),
{
}

/// Publishing a message with zero registrations completes after one turn,
/// with no invocations and the observers untouched.
pub proof fn lemma_no_registrations<T: Observer>(obs: Seq<T>, m: MessageView)
    ensures
        ({
            let post = steps(Seq::<ObserverWrapper>::empty(), init_state(obs, m), 1);
            &&& post.queue.len() == 0
            &&& post.trace.len() == 0
            &&& post.observers == obs
        }),
        halts(Seq::<ObserverWrapper>::empty(), init_state(obs, m)),
{
    let s0 = init_state::<T>(obs, m);
    let regs = Seq::<ObserverWrapper>::empty();
    let post = steps(regs, s0, 1);
    assert(steps(regs, s0, 0) == s0);
    assert(post == step(regs, steps(regs, s0, 0)));
    assert(post.queue =~= Seq::<Pending>::empty());
    assert(post.trace =~= Seq::<Event>::empty());
    assert(steps(regs, s0, 1).queue.len() == 0);
}

/// A well-formed pending queue: levels never decrease along the FIFO, and
/// nothing sits more than one level past the front.  The seed queue of a
/// cascade is well formed, and every turn of the drain loop preserves it.
pub open spec fn level_wf(q: Seq<Pending>) -> bool {
    &&& (forall|i: int, k: int| 0 <= i <= k < q.len() ==> q[i].level <= q[k].level)
    &&& (forall|k: int| 0 <= k < q.len() ==> (#[trigger] q[k]).level <= q[0].level + 1)
}

/// One turn on a well-formed queue: the queue stays well formed, its front
/// level never goes down, the trace is only appended to, and every new
/// invocation handles the popped message at the popped level.
pub proof fn lemma_step_trace<T: Observer>(regs: Seq<ObserverWrapper>, s: ModelState<T>)
    requires
        level_wf(s.queue),
    ensures
        ({
            let post = step(regs, s);
            &&& level_wf(post.queue)
            &&& post.trace.len() >= s.trace.len()
            &&& forall|k: int| 0 <= k < s.trace.len() ==> post.trace[k] == s.trace[k]
            &&& forall|k: int|
                s.trace.len() <= k < post.trace.len() ==> s.queue.len() > 0 && (#[trigger] post.trace[
                    k
                ]).level == s.queue[0].level
            &&& forall|k: int|
                0 <= k < post.queue.len() ==> s.queue.len() > 0 && s.queue[0].level <= (
                #[trigger] post.queue[k]).level
        }),
{
    if s.queue.len() > 0 {
        let p = s.queue[0];
        let r = offer_upto(s.observers, regs, regs.len() as int, p.msg, p.level);
        lemma_level_invocations(s.observers, regs, regs.len() as int, p.msg, p.level);
        lemma_offer_upto_levels(s.observers, regs, regs.len() as int, p.msg, p.level);
        let post = step(regs, s);
        assert forall|k: int| 0 <= k < post.queue.len() implies s.queue[0].level <= (
        #[trigger] post.queue[k]).level by {
            if k < s.queue.len() - 1 {
                assert(post.queue[k] == s.queue[k + 1]);
            } else {
                assert(post.queue[k] == r.1[k - (s.queue.len() - 1)]);
            }
        };
        assert forall|i: int, k: int| 0 <= i <= k < post.queue.len() implies post.queue[i].level
            <= post.queue[k].level by {
            if i < s.queue.len() - 1 {
                assert(post.queue[i] == s.queue[i + 1]);
            } else {
                assert(post.queue[i] == r.1[i - (s.queue.len() - 1)]);
            }
            if k < s.queue.len() - 1 {
                assert(post.queue[k] == s.queue[k + 1]);
            } else {
                assert(post.queue[k] == r.1[k - (s.queue.len() - 1)]);
            }
        };
        assert forall|k: int| 0 <= k < post.queue.len() implies (#[trigger] post.queue[k]).level
            <= post.queue[0].level + 1 by {
            if k < s.queue.len() - 1 {
                assert(post.queue[k] == s.queue[k + 1]);
            } else {
                assert(post.queue[k] == r.1[k - (s.queue.len() - 1)]);
            }
            assert(s.queue[0].level <= post.queue[0].level);
        };
    }
}

/// Any number of turns on a well-formed queue: the trace is only appended
/// to, the new invocations' levels never decrease, and while messages are
/// still pending, every invocation so far sits at or below the front of
/// the queue.
pub proof fn lemma_steps_trace<T: Observer>(
    regs: Seq<ObserverWrapper>,
    s: ModelState<T>,
    n: nat,
)
    requires
        level_wf(s.queue),
    ensures
        ({
            let post = steps(regs, s, n);
            &&& level_wf(post.queue)
            &&& post.trace.len() >= s.trace.len()
            &&& forall|k: int| 0 <= k < s.trace.len() ==> post.trace[k] == s.trace[k]
            &&& forall|k1: int, k2: int|
                s.trace.len() <= k1 <= k2 < post.trace.len() ==> (#[trigger] post.trace[
                    k1
                ]).level <= (#[trigger] post.trace[k2]).level
            &&& forall|k: int|
                s.trace.len() <= k < post.trace.len() ==> s.queue.len() > 0 && s.queue[0].level
                    <= (#[trigger] post.trace[k]).level
            &&& forall|k: int|
                s.trace.len() <= k < post.trace.len() ==> post.queue.len() > 0 ==> (
                #[trigger] post.trace[k]).level <= post.queue[0].level
            &&& (s.queue.len() > 0 && post.queue.len() > 0 ==> s.queue[0].level
                <= post.queue[0].level)
        }),
    decreases n,
{
    if n > 0 {
        lemma_steps_trace(regs, s, (n - 1) as nat);
        let mid = steps(regs, s, (n - 1) as nat);
        lemma_step_trace(regs, mid);
        let post = steps(regs, s, n);
        assert(post == step(regs, mid));
        if mid.queue.len() == 0 {
            assert(post == mid);
        } else {
            if s.queue.len() == 0 {
                lemma_steps_stable(regs, s, 0, (n - 1) as nat);
                assert(false);
            }
            assert(s.queue[0].level <= mid.queue[0].level);
            assert forall|k1: int, k2: int|
                s.trace.len() <= k1 <= k2 < post.trace.len() implies (#[trigger] post.trace[
                k1]).level <= (#[trigger] post.trace[k2]).level by {
                if k2 < mid.trace.len() {
                    assert(post.trace[k1] == mid.trace[k1]);
                    assert(post.trace[k2] == mid.trace[k2]);
                } else {
                    assert(post.trace[k2].level == mid.queue[0].level);
                    if k1 < mid.trace.len() {
                        assert(post.trace[k1] == mid.trace[k1]);
                        assert(mid.trace[k1].level <= mid.queue[0].level);
                    } else {
                        assert(post.trace[k1].level == mid.queue[0].level);
                    }
                }
            };
            assert forall|k: int|
                s.trace.len() <= k < post.trace.len() implies s.queue.len() > 0 && s.queue[
                0].level <= (#[trigger] post.trace[k]).level by {
                if k < mid.trace.len() {
                    assert(post.trace[k] == mid.trace[k]);
                } else {
                    assert(post.trace[k].level == mid.queue[0].level);
                }
            };
            assert forall|k: int|
                s.trace.len() <= k < post.trace.len() && post.queue.len() > 0 implies (
            #[trigger] post.trace[k]).level <= post.queue[0].level by {
                assert(mid.queue[0].level <= post.queue[0].level);
                if k < mid.trace.len() {
                    assert(post.trace[k] == mid.trace[k]);
                    assert(mid.trace[k].level <= mid.queue[0].level);
                } else {
                    assert(post.trace[k].level == mid.queue[0].level);
                }
            };
        }
    }
}

/// Breadth-first level-order delivery: in the trace of a whole cascade,
/// invocation levels never decrease.  All handling of the published
/// message (level 0) completes before any message it caused (level 1) is
/// handled, and so on level by level; a message emitted while handling a
/// level-`l` message always sits at level `l + 1`.
pub proof fn lemma_breadth_first<T: Observer>(
    obs: Seq<T>,
    regs: Seq<ObserverWrapper>,
    m: MessageView,
    n: nat,
)
    ensures
        ({
            let t = steps(regs, init_state(obs, m), n).trace;
            forall|k1: int, k2: int|
                0 <= k1 <= k2 < t.len() ==> (#[trigger] t[k1]).level <= (#[trigger] t[k2]).level
        }),
{
    let s0 = init_state::<T>(obs, m);
    assert(level_wf(s0.queue));
    lemma_steps_trace(regs, s0, n);
}

/// Running `n` turns is one turn and then `n - 1` more.
pub proof fn lemma_steps_shift<T: Observer>(regs: Seq<ObserverWrapper>, s: ModelState<T>, n: nat)
    requires
        n >= 1,
    ensures
        steps(regs, s, n) == steps(regs, step(regs, s), (n - 1) as nat),
    decreases n,
{
    if n == 1 {
        assert(steps(regs, s, 0) == s);
        assert(steps(regs, s, 1) == step(regs, steps(regs, s, 0)));
        assert(steps(regs, step(regs, s), 0) == step(regs, s));
    } else {
        lemma_steps_shift(regs, s, (n - 1) as nat);
        assert(steps(regs, s, n) == step(regs, steps(regs, s, (n - 1) as nat)));
        assert(steps(regs, step(regs, s), (n - 1) as nat) == step(
            regs,
            steps(regs, step(regs, s), (n - 2) as nat),
        ));
    }
}

/// The published message is handled first: however long its cascade runs,
/// the trace begins with exactly the invocations for the published message
/// itself — one per matching registration, in registration order, as
/// `lemma_level_invocations` pins them down.
pub proof fn lemma_published_first<T: Observer>(
    obs: Seq<T>,
    regs: Seq<ObserverWrapper>,
    m: MessageView,
    n: nat,
)
    requires
        n >= 1,
    ensures
        ({
            let t0 = offer_upto(obs, regs, regs.len() as int, m, 0).2;
            let t = steps(regs, init_state(obs, m), n).trace;
            &&& t.len() >= t0.len()
            &&& forall|k: int| 0 <= k < t0.len() ==> t[k] == t0[k]
        }),
{
    let s0 = init_state::<T>(obs, m);
    let s1 = step(regs, s0);
    assert(level_wf(s0.queue));
    lemma_steps_shift(regs, s0, n);
    lemma_step_trace(regs, s0);
    lemma_steps_trace(regs, s1, (n - 1) as nat);
    assert(s1.trace =~= offer_upto(obs, regs, regs.len() as int, m, 0).2);
}

/// Once the queue has drained, further turns change nothing.
pub proof fn lemma_steps_stable<T: Observer>(
    regs: Seq<ObserverWrapper>,
    s: ModelState<T>,
    n: nat,
    m: nat,
)
    requires
        steps(regs, s, n).queue.len() == 0,
        n <= m,
    ensures
        steps(regs, s, m) == steps(regs, s, n),
    decreases m,
{
    if m > n {
        lemma_steps_stable(regs, s, n, (m - 1) as nat);
    }
}

} // verus!
