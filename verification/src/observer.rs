//! The observer capability and the observers shipped with the library.
//!
//! An observer is a stateful handler: `handle(ctx, msg)` may mutate the
//! observer's own state and may emit any number of follow-up messages
//! through the context.  Its behaviour is pinned by two spec functions,
//! `next_state` and `emitted`, so that the dispatcher's cascade can be
//! reasoned about end to end.

use crate::context::Ctx;
use crate::message::{Message, MessageView, SayGoodbye};
use crate::model::{fires, halts, init_state, lemma_offer_upto_len, offer_upto, step, steps};
use crate::wrapper::ObserverWrapper;
use vstd::prelude::*;

verus! {

/// A handler for messages.  `handle` is called at most once per envelope
/// per registration bound to the instance; it may freely mutate the
/// observer's own state and may emit any number of messages, but must not
/// assume anything about when the emitted messages are processed relative
/// to other observers — that ordering is governed solely by the dispatcher.
pub trait Observer: Sized {
    /// The observer's state after handling one message.
    spec fn next_state(self, m: MessageView) -> Self;

    /// The messages the observer emits while handling one message, in
    /// emission order.
    spec fn emitted(self, m: MessageView) -> Seq<MessageView>;

    /// Handle one message: mutate the state as `next_state` says and
    /// append exactly the messages `emitted` says to the context.
    fn handle(&mut self, ctx: &mut Ctx, msg: &Message)
        ensures
            *final(self) == old(self).next_state(msg@),
            final(ctx)@ == old(ctx)@ + old(self).emitted(msg@),
    ;
}

/// An observer that records login times with an external collaborator.
/// The recording itself is business logic outside this core, so handling
/// a message neither changes the observer nor emits anything.
#[derive(Debug)]
pub struct UpdateLastLoginTime;

impl Observer for UpdateLastLoginTime {
    open spec fn next_state(self, m: MessageView) -> Self {
        self
    }

    open spec fn emitted(self, m: MessageView) -> Seq<MessageView> {
        Seq::empty()
    }

    fn handle(&mut self, ctx: &mut Ctx, msg: &Message) {
        // (update a database with the login time)
        proof {
            assert(ctx@ + Seq::<MessageView>::empty() =~= ctx@);
        }
    }
}

/// Saturating increment: the greeting counters never overflow and never
/// panic; past `u32::MAX` they stay put.
pub open spec fn bumped(c: u32) -> u32 {
    if c < u32::MAX {
        (c + 1) as u32
    } else {
        c
    }
}

/// An observer that greets: on `SayHello` it counts the greeting and asks
/// for a follow-up `SayGoodbye("blog")`; on `SayGoodbye` it counts the
/// farewell.  Writing the greeting out is left to unverified callers.
#[derive(Debug)]
pub struct GreetingObserver {
    pub greet_count: u32,
}

impl Default for GreetingObserver {
    /// A greeting observer that has not greeted anyone yet.
    fn default() -> (o: GreetingObserver)
        ensures
            o.greet_count == 0,
    {
        GreetingObserver { greet_count: 0 }
    }
}

impl Observer for GreetingObserver {
    open spec fn next_state(self, m: MessageView) -> Self {
        match m {
            MessageView::SayHello(_) => GreetingObserver { greet_count: bumped(self.greet_count) },
            MessageView::SayGoodbye(_) => GreetingObserver {
                greet_count: bumped(self.greet_count),
            },
            MessageView::UserLoggedIn(_) => self,
        }
    }

    open spec fn emitted(self, m: MessageView) -> Seq<MessageView> {
        match m {
            MessageView::SayHello(_) => seq![MessageView::SayGoodbye("blog"@)],
            MessageView::SayGoodbye(_) => Seq::empty(),
            MessageView::UserLoggedIn(_) => Seq::empty(),
        }
    }

    fn handle(&mut self, ctx: &mut Ctx, msg: &Message) {
        match msg {
            Message::SayHello(_) => {
                if self.greet_count < u32::MAX {
                    self.greet_count = self.greet_count + 1;
                }
                let follow_up = Message::SayGoodbye(SayGoodbye("blog".to_owned()));
                proof {
                    assert(old(ctx)@.push(follow_up@) =~= old(ctx)@ + seq![
                        MessageView::SayGoodbye("blog"@),
                    ]);
                }
                ctx.send(follow_up);
            },
            Message::SayGoodbye(_) => {
                if self.greet_count < u32::MAX {
                    self.greet_count = self.greet_count + 1;
                }
                proof {
                    assert(ctx@ + Seq::<MessageView>::empty() =~= ctx@);
                }
            },
            Message::UserLoggedIn(_) => {
                proof {
                    assert(ctx@ + Seq::<MessageView>::empty() =~= ctx@);
                }
            },
        }
    }
}

/// The documented non-termination hazard, in observer form: whatever
/// message it receives, it re-emits an equal one.  Registered for a kind
/// and fed one message of that kind, it sustains the cascade forever; the
/// core does not detect or limit this, so such an observer must only run
/// under a caller-imposed cap (see `MessageSystem::send_bounded`).
#[derive(Debug)]
pub struct EchoObserver {
    pub echo_count: u32,
}

impl Default for EchoObserver {
    /// An echo observer that has not echoed anything yet.
    fn default() -> (o: EchoObserver)
        ensures
            o.echo_count == 0,
    {
        EchoObserver { echo_count: 0 }
    }
}

impl Observer for EchoObserver {
    open spec fn next_state(self, m: MessageView) -> Self {
        EchoObserver { echo_count: bumped(self.echo_count) }
    }

    open spec fn emitted(self, m: MessageView) -> Seq<MessageView> {
        seq![m]
    }

    fn handle(&mut self, ctx: &mut Ctx, msg: &Message) {
        if self.echo_count < u32::MAX {
            self.echo_count = self.echo_count + 1;
        }
        let copy = msg.duplicate();
        proof {
            assert(old(ctx)@.push(copy@) =~= old(ctx)@ + seq![msg@]);
        }
        ctx.send(copy);
    }
}

/// Whatever part of the registration list a table of echo observers has
/// been offered a message through, everything emitted is that very
/// message, and as soon as one offered registration fires, at least one
/// copy was emitted.
proof fn lemma_echo_offer(
    obs: Seq<EchoObserver>,
    regs: Seq<ObserverWrapper>,
    j: int,
    m: MessageView,
    lvl: int,
)
    ensures
        forall|k: int|
            0 <= k < offer_upto(obs, regs, j, m, lvl).1.len() ==> (#[trigger] offer_upto(
                obs,
                regs,
                j,
                m,
                lvl,
            ).1[k]).msg == m,
        (exists|i: int| 0 <= i < j && fires(regs[i], m, obs.len() as int)) ==> offer_upto(
            obs,
            regs,
            j,
            m,
            lvl,
        ).1.len() > 0,
    decreases j,
{
    if j > 0 {
        lemma_echo_offer(obs, regs, j - 1, m, lvl);
        lemma_offer_upto_len(obs, regs, j - 1, m, lvl);
        if exists|i: int| 0 <= i < j && fires(regs[i], m, obs.len() as int) {
            let i = choose|i: int| 0 <= i < j && fires(regs[i], m, obs.len() as int);
            if i < j - 1 {
                assert(exists|i2: int| 0 <= i2 < j - 1 && fires(regs[i2], m, obs.len() as int));
            }
        }
    }
}

/// The hazard made precise: with an echo observer registered for the
/// published message's kind, the pending queue never drains — after any
/// number of turns it still holds a copy of that message — so the cascade
/// runs until some outside resource is exhausted.
pub proof fn lemma_echo_cascade_pending(
    obs: Seq<EchoObserver>,
    regs: Seq<ObserverWrapper>,
    i: int,
    m: MessageView,
    n: nat,
)
    requires
        0 <= i < regs.len(),
        regs[i].kind == m.kind(),
        regs[i].observer < obs.len(),
    ensures
        ({
            let post = steps(regs, init_state(obs, m), n);
            &&& post.queue.len() > 0
            &&& forall|k: int| 0 <= k < post.queue.len() ==> (#[trigger] post.queue[k]).msg == m
            &&& post.observers.len() == obs.len()
        }),
    decreases n,
{
    if n > 0 {
        lemma_echo_cascade_pending(obs, regs, i, m, (n - 1) as nat);
        let mid = steps(regs, init_state(obs, m), (n - 1) as nat);
        let post = steps(regs, init_state(obs, m), n);
        assert(post == step(regs, mid));
        let p = mid.queue[0];
        lemma_echo_offer(mid.observers, regs, regs.len() as int, p.msg, p.level);
        lemma_offer_upto_len(mid.observers, regs, regs.len() as int, p.msg, p.level);
        assert(fires(regs[i], m, mid.observers.len() as int));
    }
}

/// An echo observer registered for the published message's kind makes the
/// cascade non-terminating: no number of turns drains the queue.
pub proof fn lemma_echo_never_halts(
    obs: Seq<EchoObserver>,
    regs: Seq<ObserverWrapper>,
    i: int,
    m: MessageView,
)
    requires
        0 <= i < regs.len(),
        regs[i].kind == m.kind(),
        regs[i].observer < obs.len(),
    ensures
        !halts(regs, init_state(obs, m)),
{
    if halts(regs, init_state(obs, m)) {
        let n = choose|n: nat| steps(regs, init_state(obs, m), n).queue.len() == 0;
        lemma_echo_cascade_pending(obs, regs, i, m, n);
    }
}

/// One choice out of the observers above, so that a single dispatcher can
/// hold heterogeneous observers behind one type.
#[derive(Debug)]
pub enum AnyObserver {
    LastLogin(UpdateLastLoginTime),
    Greeting(GreetingObserver),
    Echo(EchoObserver),
}

impl Observer for AnyObserver {
    open spec fn next_state(self, m: MessageView) -> Self {
        match self {
            AnyObserver::LastLogin(o) => AnyObserver::LastLogin(o.next_state(m)),
            AnyObserver::Greeting(o) => AnyObserver::Greeting(o.next_state(m)),
            AnyObserver::Echo(o) => AnyObserver::Echo(o.next_state(m)),
        }
    }

    open spec fn emitted(self, m: MessageView) -> Seq<MessageView> {
        match self {
            AnyObserver::LastLogin(o) => o.emitted(m),
            AnyObserver::Greeting(o) => o.emitted(m),
            AnyObserver::Echo(o) => o.emitted(m),
        }
    }

    fn handle(&mut self, ctx: &mut Ctx, msg: &Message) {
        match self {
            AnyObserver::LastLogin(o) => o.handle(ctx, msg),
            AnyObserver::Greeting(o) => o.handle(ctx, msg),
            AnyObserver::Echo(o) => o.handle(ctx, msg),
        }
    }
}

} // verus!
