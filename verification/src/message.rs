//! Message values and their type-erased representation.
//!
//! Dispatch selects observers by a message's kind (its type tag), never by
//! its content.  A `Message` carries an explicit `MsgKind` alongside its
//! payload, and "view as type T" is a checked cast gated on that tag: it
//! returns the payload iff the stored kind equals the requested one, and a
//! definite miss otherwise.

use vstd::prelude::*;

verus! {

/// Identifies the user whose login triggered a `UserLoggedIn` message.
pub type UserId = u32;

/// Announces that a user has just logged in.
#[derive(Debug, Clone, PartialEq, Eq)]
pub struct UserLoggedIn(pub UserId);

/// Asks greeting observers to say hello to the named party.
pub struct SayHello(pub String);

/// Asks greeting observers to say goodbye to the named party.
pub struct SayGoodbye(pub String);

/// The type tag of a message: dispatch matches a registration against a
/// message by comparing kinds alone.
#[derive(Debug, Clone, Copy, PartialEq, Eq, Structural)]
pub enum MsgKind {
    UserLoggedIn,
    SayHello,
    SayGoodbye,
}

/// A message value together with its type tag: the type-erased envelope
/// that the dispatcher's queue and registrations handle uniformly.
pub enum Message {
    UserLoggedIn(UserLoggedIn),
    SayHello(SayHello),
    SayGoodbye(SayGoodbye),
}

/// The mathematical value of a `Message`: the same tagged choice, with
/// each payload replaced by its abstract value.
pub enum MessageView {
    UserLoggedIn(u32),
    SayHello(Seq<char>),
    SayGoodbye(Seq<char>),
}

impl MessageView {
    /// The type tag of an abstract message.
    pub open spec fn kind(self) -> MsgKind {
        match self {
            MessageView::UserLoggedIn(_) => MsgKind::UserLoggedIn,
            MessageView::SayHello(_) => MsgKind::SayHello,
            MessageView::SayGoodbye(_) => MsgKind::SayGoodbye,
        }
    }
}

impl View for Message {
    type V = MessageView;

    open spec fn view(&self) -> MessageView {
        match self {
            Message::UserLoggedIn(u) => MessageView::UserLoggedIn(u.0),
            Message::SayHello(h) => MessageView::SayHello(h.0@),
            Message::SayGoodbye(g) => MessageView::SayGoodbye(g.0@),
        }
    }
}

/// The abstract values of a sequence of messages, in order.
pub open spec fn views_of(msgs: Seq<Message>) -> Seq<MessageView> {
    msgs.map_values(|m: Message| m@)
}

impl Message {
    /// The message's type tag.
    pub fn kind(&self) -> (k: MsgKind)
        ensures
            k == self@.kind(),
    {
        match self {
            Message::UserLoggedIn(_) => MsgKind::UserLoggedIn,
            Message::SayHello(_) => MsgKind::SayHello,
            Message::SayGoodbye(_) => MsgKind::SayGoodbye,
        }
    }

    /// A fresh message with the same tag and an equal payload.
    pub fn duplicate(&self) -> (r: Message)
        ensures
            r@ == self@,
    {
        match self {
            Message::UserLoggedIn(u) => Message::UserLoggedIn(UserLoggedIn(u.0)),
            Message::SayHello(h) => Message::SayHello(SayHello(h.0.clone())),
            Message::SayGoodbye(g) => Message::SayGoodbye(SayGoodbye(g.0.clone())),
        }
    }

    /// View as `UserLoggedIn`: the payload iff the stored kind matches.
    pub fn as_user_logged_in(&self) -> (r: Option<&UserLoggedIn>)
        ensures
            match r {
                Some(u) => self@ == MessageView::UserLoggedIn(u.0),
                None => !(self@ is UserLoggedIn),
            },
    {
        match self {
            Message::UserLoggedIn(u) => Some(u),
            _ => None,
        }
    }

    /// View as `SayHello`: the payload iff the stored kind matches.
    pub fn as_say_hello(&self) -> (r: Option<&SayHello>)
        ensures
            match r {
                Some(h) => self@ == MessageView::SayHello(h.0@),
                None => !(self@ is SayHello),
            },
    {
        match self {
            Message::SayHello(h) => Some(h),
            _ => None,
        }
    }

    /// View as `SayGoodbye`: the payload iff the stored kind matches.
    pub fn as_say_goodbye(&self) -> (r: Option<&SayGoodbye>)
        ensures
            match r {
                Some(g) => self@ == MessageView::SayGoodbye(g.0@),
                None => !(self@ is SayGoodbye),
            },
    {
        match self {
            Message::SayGoodbye(g) => Some(g),
            _ => None,
        }
    }
}

} // verus!
