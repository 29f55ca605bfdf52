//! The decoded chat events that flow through the pipeline.
//!
//! Every variant keeps the raw protocol line it was decoded from, so the
//! logger can re-emit it byte for byte.

use vstd::prelude::*;

verus! {

/// An RGB color a sender picked for their display name.
#[derive(Clone, Copy, Debug, PartialEq, Eq, Structural)]
pub struct Rgb {
    pub red: u8,
    pub green: u8,
    pub blue: u8,
}

/// One badge of a chat message: a badge name and a version string.
#[derive(Debug, PartialEq, Eq)]
pub struct Badge {
    pub name: String,
    pub version: String,
}

/// The mathematical model of a [`Badge`]: both strings as character sequences.
#[verifier::ext_equal]
pub struct BadgeView {
    pub name: Seq<char>,
    pub version: Seq<char>,
}

impl View for Badge {
    type V = BadgeView;

    open spec fn view(&self) -> BadgeView {
        BadgeView { name: self.name@, version: self.version@ }
    }
}

impl DeepView for Badge {
    type V = BadgeView;

    open spec fn deep_view(&self) -> BadgeView {
        self@
    }
}

impl Clone for Badge {
    fn clone(&self) -> (r: Self)
        ensures
            r == *self,
    {
        Badge { name: self.name.clone(), version: self.version.clone() }
    }
}

/// The fields of a chat message that rendering reads.
#[derive(Debug, PartialEq, Eq)]
pub struct ChatMessageEvent {
    /// The sender's display name.
    pub sender_name: String,
    /// The display-name color the sender picked, if any.
    pub name_color: Option<Rgb>,
    /// The badges carried by the message, in protocol order.
    pub badges: Vec<Badge>,
    /// The message text.
    pub text: String,
    /// The server timestamp, in milliseconds.
    pub timestamp_ms: i64,
    /// The raw protocol line this message was decoded from.
    pub raw: String,
}

/// The mathematical model of a [`ChatMessageEvent`].
#[verifier::ext_equal]
pub struct ChatMessageView {
    pub sender_name: Seq<char>,
    pub name_color: Option<Rgb>,
    pub badges: Seq<BadgeView>,
    pub text: Seq<char>,
    pub timestamp_ms: i64,
    pub raw: Seq<char>,
}

impl View for ChatMessageEvent {
    type V = ChatMessageView;

    open spec fn view(&self) -> ChatMessageView {
        ChatMessageView {
            sender_name: self.sender_name@,
            name_color: self.name_color,
            badges: self.badges.deep_view(),
            text: self.text@,
            timestamp_ms: self.timestamp_ms,
            raw: self.raw@,
        }
    }
}

/// A decoded protocol-level chat occurrence.
///
/// Only `ChatMessage` is rendered; `ChatMessage`, `UserNotice`, `ClearChat`
/// and `ClearMsg` are logged; `Other` covers everything else (pings, joins,
/// parts), which is neither rendered nor logged.
#[derive(Debug, PartialEq, Eq)]
pub enum ChatEvent {
    ChatMessage(ChatMessageEvent),
    UserNotice { raw: String },
    ClearChat { raw: String },
    ClearMsg { raw: String },
    Other { raw: String },
}

/// The mathematical model of a [`ChatEvent`].
#[verifier::ext_equal]
pub enum ChatEventView {
    ChatMessage(ChatMessageView),
    UserNotice { raw: Seq<char> },
    ClearChat { raw: Seq<char> },
    ClearMsg { raw: Seq<char> },
    Other { raw: Seq<char> },
}

impl View for ChatEvent {
    type V = ChatEventView;

    open spec fn view(&self) -> ChatEventView {
        match self {
            ChatEvent::ChatMessage(m) => ChatEventView::ChatMessage(m@),
            ChatEvent::UserNotice { raw } => ChatEventView::UserNotice { raw: raw@ },
            ChatEvent::ClearChat { raw } => ChatEventView::ClearChat { raw: raw@ },
            ChatEvent::ClearMsg { raw } => ChatEventView::ClearMsg { raw: raw@ },
            ChatEvent::Other { raw } => ChatEventView::Other { raw: raw@ },
        }
    }
}

impl DeepView for ChatEvent {
    type V = ChatEventView;

    open spec fn deep_view(&self) -> ChatEventView {
        self@
    }
}

impl ChatEventView {
    /// The raw protocol line this event was decoded from.
    pub open spec fn raw(&self) -> Seq<char> {
        match self {
            ChatEventView::ChatMessage(m) => m.raw,
            ChatEventView::UserNotice { raw } => *raw,
            ChatEventView::ClearChat { raw } => *raw,
            ChatEventView::ClearMsg { raw } => *raw,
            ChatEventView::Other { raw } => *raw,
        }
    }

    /// Whether the raw logger re-emits this event.
    pub open spec fn loggable(&self) -> bool {
        !(self is Other)
    }
}

impl Clone for ChatMessageEvent {
    fn clone(&self) -> (r: Self)
        ensures
            r@ == self@,
    {
        let mut badges: Vec<Badge> = Vec::new();
        let mut i: usize = 0;
        while i < self.badges.len()
            invariant
                i <= self.badges.len(),
                badges@.len() == i as int,
                forall|j: int| 0 <= j < i ==> badges@[j] == self.badges@[j],
            decreases self.badges.len() - i,
        {
            badges.push(self.badges[i].clone());
            i = i + 1;
        }
        let r = ChatMessageEvent {
            sender_name: self.sender_name.clone(),
            name_color: self.name_color,
            badges,
            text: self.text.clone(),
            timestamp_ms: self.timestamp_ms,
            raw: self.raw.clone(),
        };
        proof {
            assert(r.badges.deep_view() =~= self.badges.deep_view());
            assert(r@ =~= self@);
        }
        r
    }
}

impl Clone for ChatEvent {
    fn clone(&self) -> (r: Self)
        ensures
            r@ == self@,
    {
        match self {
            ChatEvent::ChatMessage(m) => ChatEvent::ChatMessage(m.clone()),
            ChatEvent::UserNotice { raw } => ChatEvent::UserNotice { raw: raw.clone() },
            ChatEvent::ClearChat { raw } => ChatEvent::ClearChat { raw: raw.clone() },
            ChatEvent::ClearMsg { raw } => ChatEvent::ClearMsg { raw: raw.clone() },
            ChatEvent::Other { raw } => ChatEvent::Other { raw: raw.clone() },
        }
    }
}

} // verus!
