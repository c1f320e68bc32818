use type_erasure::message::{Message, MsgKind, SayGoodbye, SayHello, UserLoggedIn};
use type_erasure::observer::{AnyObserver, EchoObserver, GreetingObserver, UpdateLastLoginTime};
use type_erasure::system::MessageSystem;

#[test]
fn handles_multiple_message_types() {
    let mut system: MessageSystem<GreetingObserver> = MessageSystem::default();
    let observer = system.add_instance(GreetingObserver::default());
    system.add_observer(observer, MsgKind::SayHello);
    system.add_observer(observer, MsgKind::SayGoodbye);

    let msg = Message::SayHello(SayHello("world".to_string()));
    system.send(msg);

    let msg_count = system.observer(observer).unwrap().greet_count;
    assert_eq!(msg_count, 2);
}

#[test]
fn invokes_once_per_matching_registration() {
    // Registered twice for the same kind, the one instance fires twice.
    let mut system: MessageSystem<GreetingObserver> = MessageSystem::default();
    let observer = system.add_instance(GreetingObserver::default());
    system.add_observer(observer, MsgKind::SayHello);
    system.add_observer(observer, MsgKind::SayHello);

    system.send(Message::SayHello(SayHello("twice".to_string())));

    assert_eq!(system.observer(observer).unwrap().greet_count, 2);
}

#[test]
fn never_invokes_other_kinds() {
    // A registration bound to SayHello alone sees neither of the others.
    let mut system: MessageSystem<EchoObserver> = MessageSystem::default();
    let echo = system.add_instance(EchoObserver::default());
    system.add_observer(echo, MsgKind::SayHello);

    system.send(Message::UserLoggedIn(UserLoggedIn(7)));
    system.send(Message::SayGoodbye(SayGoodbye("nobody".to_string())));

    assert_eq!(system.observer(echo).unwrap().echo_count, 0);
}

#[test]
fn breadth_first_beats_depth_first() {
    // Handling the hello emits a goodbye (greeting) and a second hello
    // (echo).  Breadth-first, the second processed message is the goodbye,
    // not the echoed hello, so after two turns the echo count is still 1.
    let mut system: MessageSystem<AnyObserver> = MessageSystem::default();
    let greeter = system.add_instance(AnyObserver::Greeting(GreetingObserver::default()));
    let echo = system.add_instance(AnyObserver::Echo(EchoObserver::default()));
    system.add_observer(greeter, MsgKind::SayHello);
    system.add_observer(greeter, MsgKind::SayGoodbye);
    system.add_observer(echo, MsgKind::SayHello);

    let done = system.send_bounded(Message::SayHello(SayHello("bfs".to_string())), 2);

    assert!(!done);
    match system.observer(greeter).unwrap() {
        AnyObserver::Greeting(g) => assert_eq!(g.greet_count, 2),
        _ => panic!("slot changed kind"),
    }
    match system.observer(echo).unwrap() {
        AnyObserver::Echo(e) => assert_eq!(e.echo_count, 1),
        _ => panic!("slot changed kind"),
    }
}

fn order_demo(echo_first: bool) -> (u32, u32) {
    let mut system: MessageSystem<AnyObserver> = MessageSystem::default();
    let greeter = system.add_instance(AnyObserver::Greeting(GreetingObserver::default()));
    let echo = system.add_instance(AnyObserver::Echo(EchoObserver::default()));
    if echo_first {
        system.add_observer(echo, MsgKind::SayHello);
        system.add_observer(greeter, MsgKind::SayHello);
    } else {
        system.add_observer(greeter, MsgKind::SayHello);
        system.add_observer(echo, MsgKind::SayHello);
    }
    system.send_bounded(Message::SayHello(SayHello("order".to_string())), 2);
    let greet = match system.observer(greeter).unwrap() {
        AnyObserver::Greeting(g) => g.greet_count,
        _ => panic!("slot changed kind"),
    };
    let echoes = match system.observer(echo).unwrap() {
        AnyObserver::Echo(e) => e.echo_count,
        _ => panic!("slot changed kind"),
    };
    (greet, echoes)
}

#[test]
fn registration_order_is_dispatch_order() {
    // With the echo registered first, the echoed hello is queued before the
    // greeting's goodbye and is the second message processed; registered
    // second, the goodbye comes first and nothing is bound to it here.
    assert_eq!(order_demo(true), (2, 2));
    assert_eq!(order_demo(false), (1, 1));
    // Reproducible across repeated runs with identical inputs.
    assert_eq!(order_demo(true), order_demo(true));
    assert_eq!(order_demo(false), order_demo(false));
}

#[test]
fn shared_instance_accumulates_across_kinds() {
    // One instance under two kinds shares one counter.
    let mut system: MessageSystem<GreetingObserver> = MessageSystem::default();
    let observer = system.add_instance(GreetingObserver::default());
    system.add_observer(observer, MsgKind::SayHello);
    system.add_observer(observer, MsgKind::SayGoodbye);

    system.send(Message::SayGoodbye(SayGoodbye("first".to_string())));
    assert_eq!(system.observer(observer).unwrap().greet_count, 1);

    // The hello is counted, and so is the goodbye it emits.
    system.send(Message::SayHello(SayHello("second".to_string())));
    assert_eq!(system.observer(observer).unwrap().greet_count, 3);
}

#[test]
fn zero_registrations_complete_silently() {
    let mut empty: MessageSystem<UpdateLastLoginTime> = MessageSystem::default();
    empty.send(Message::SayHello(SayHello("void".to_string())));

    let mut system: MessageSystem<GreetingObserver> = MessageSystem::default();
    let observer = system.add_instance(GreetingObserver::default());
    system.send(Message::SayHello(SayHello("unheard".to_string())));
    assert_eq!(system.observer(observer).unwrap().greet_count, 0);
}

#[test]
fn self_sustaining_cascade_needs_a_cap() {
    // The documented hazard: an observer that re-emits its own trigger
    // kind never lets the queue drain.  Under a five-turn cap it is cut
    // off after exactly five invocations, still unfinished.
    let mut system: MessageSystem<EchoObserver> = MessageSystem::default();
    let echo = system.add_instance(EchoObserver::default());
    system.add_observer(echo, MsgKind::SayHello);

    let done = system.send_bounded(Message::SayHello(SayHello("loop".to_string())), 5);

    assert!(!done);
    assert_eq!(system.observer(echo).unwrap().echo_count, 5);
}

#[test]
fn terminating_cascade_finishes_under_a_cap() {
    let mut system: MessageSystem<GreetingObserver> = MessageSystem::default();
    let observer = system.add_instance(GreetingObserver::default());
    system.add_observer(observer, MsgKind::SayHello);
    system.add_observer(observer, MsgKind::SayGoodbye);

    let done = system.send_bounded(Message::SayHello(SayHello("short".to_string())), 10);

    assert!(done);
    assert_eq!(system.observer(observer).unwrap().greet_count, 2);
}

#[test]
fn login_observer_handles_logins() {
    let mut system: MessageSystem<UpdateLastLoginTime> = MessageSystem::default();
    let recorder = system.add_instance(UpdateLastLoginTime);
    system.add_observer(recorder, MsgKind::UserLoggedIn);
    system.send(Message::UserLoggedIn(UserLoggedIn(42)));
    assert!(system.observer(recorder).is_some());
    assert!(system.observer(recorder + 1).is_none());
}
