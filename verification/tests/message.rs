use type_erasure::message::{Message, MsgKind, SayGoodbye, SayHello, UserLoggedIn};

#[test]
fn kind_follows_the_variant() {
    assert_eq!(Message::UserLoggedIn(UserLoggedIn(1)).kind(), MsgKind::UserLoggedIn);
    assert_eq!(Message::SayHello(SayHello("a".to_string())).kind(), MsgKind::SayHello);
    assert_eq!(Message::SayGoodbye(SayGoodbye("".to_string())).kind(), MsgKind::SayGoodbye);
}

#[test]
fn view_as_kind_is_a_checked_cast() {
    let hello = Message::SayHello(SayHello("world".to_string()));
    assert_eq!(hello.as_say_hello().unwrap().0, "world");
    assert!(hello.as_say_goodbye().is_none());
    assert!(hello.as_user_logged_in().is_none());

    let login = Message::UserLoggedIn(UserLoggedIn(9));
    assert_eq!(*login.as_user_logged_in().unwrap(), UserLoggedIn(9));
    assert!(login.as_say_hello().is_none());
}

#[test]
fn duplicate_preserves_tag_and_payload() {
    let goodbye = Message::SayGoodbye(SayGoodbye("blog".to_string()));
    let copy = goodbye.duplicate();
    assert_eq!(copy.kind(), MsgKind::SayGoodbye);
    assert_eq!(copy.as_say_goodbye().unwrap().0, "blog");
}
