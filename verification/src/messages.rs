//! The wire protocol's typed message union and its mathematical views.

use vstd::prelude::*;

verus! {

/// Display dimensions reported by a canvas; cached by the registry and
/// replayed to a controller when it attaches.
#[derive(Debug, Clone, Copy, PartialEq, Eq, Structural)]
pub struct Config {
    pub width: u32,
    pub height: u32,
}

/// Trait profile carried by a `Create` command; opaque to the relay.
#[derive(Debug, Clone, Copy, PartialEq, Eq, Structural)]
pub struct Personality {
    pub openness: u32,
    pub conscientiousness: u32,
    pub extraversion: u32,
    pub agreeableness: u32,
    pub neuroticism: u32,
}

/// Role announced by the first message of every connection.
#[derive(Debug, Clone, PartialEq)]
pub enum ConnectionType {
    Canvas,
    Controller { id: String },
}

/// One message of the relay protocol.
#[derive(Debug, Clone, PartialEq)]
pub enum Message {
    /// Diagnostic sent directly to the originating peer; never routed.
    Error { message: String },
    /// Mandatory first message establishing the connection's role.
    Init(ConnectionType),
    /// Server-assigned canvas identifier, sent once after registration.
    Id { id: String },
    /// Canvas display dimensions.
    Config(Config),
    /// Command a controller issues and a canvas renders; opaque payload.
    Create { position: Vec<u32>, color: Vec<u32>, personality: Personality },
}

/// Mathematical value of a [`ConnectionType`].
pub ghost enum ConnectionTypeView {
    Canvas,
    Controller { id: Seq<char> },
}

/// Mathematical value of a [`Message`].
pub ghost enum MessageView {
    Error { message: Seq<char> },
    Init { connection_type: ConnectionTypeView },
    Id { id: Seq<char> },
    Config { config: Config },
    Create { position: Seq<u32>, color: Seq<u32>, personality: Personality },
}

impl View for ConnectionType {
    type V = ConnectionTypeView;

    open spec fn view(&self) -> ConnectionTypeView {
        match self {
            ConnectionType::Canvas => ConnectionTypeView::Canvas,
            ConnectionType::Controller { id } => ConnectionTypeView::Controller { id: id@ },
        }
    }
}

impl DeepView for ConnectionType {
    type V = ConnectionTypeView;

    open spec fn deep_view(&self) -> ConnectionTypeView {
        self.view()
    }
}

impl View for Message {
    type V = MessageView;

    open spec fn view(&self) -> MessageView {
        match self {
            Message::Error { message } => MessageView::Error { message: message@ },
            Message::Init(connection_type) => MessageView::Init {
                connection_type: connection_type@,
            },
            Message::Id { id } => MessageView::Id { id: id@ },
            Message::Config(config) => MessageView::Config { config: *config },
            Message::Create { position, color, personality } => MessageView::Create {
                position: position@,
                color: color@,
                personality: *personality,
            },
        }
    }
}

impl DeepView for Message {
    type V = MessageView;

    open spec fn deep_view(&self) -> MessageView {
        self.view()
    }
}

impl Message {
    /// Builds the diagnostic variant around a given text.
    pub fn error(message: &str) -> (r: Self)
        ensures
            r@ == (MessageView::Error { message: message@ }),
    {
        Message::Error { message: message.to_owned() }
    }
}

} // verus!
