//! Per-connection protocol decisions.
//!
//! A session runs `AwaitingInit -> (canvas registration | controller attach)
//! -> steady state -> terminated`. The functions here make every decision of
//! that state machine — which messages are accepted, what is answered, and
//! how the registry changes — while the surrounding process owns the
//! transport: it reads frames, hands the decoded messages in, sends the
//! replies out, and removes a canvas's slot when its session ends.

use vstd::prelude::*;
use vstd::string::StringExecFns;

use crate::ids::dec_of;
use crate::messages::{Config, ConnectionType, Message, MessageView};
use crate::registry::{
    entry_for, is_registered, config_of, queue_of, unique_names, with_config, with_queue_push,
    with_queue_popped, without, lemma_push_entry, lemma_with_config, lemma_with_queue_push,
    lemma_without, EntryView, Registry, EnqueueOutcome, DequeueOutcome, QUEUE_CAPACITY,
};

verus! {

/// Diagnostic text answered to a controller naming an unknown canvas.
pub open spec fn not_found_text(name: Seq<char>) -> Seq<char> {
    "canvas '"@ + name + "' not found"@
}

/// The one message a controller is answered with on attach: the canvas's
/// current configuration when the identifier is registered, the "not found"
/// diagnostic otherwise.
pub open spec fn attach_reply(s: Seq<EntryView>, name: Seq<char>) -> MessageView {
    if is_registered(s, name) {
        MessageView::Config { config: config_of(s, name) }
    } else {
        MessageView::Error { message: not_found_text(name) }
    }
}

/// Registry slots after a steady-state canvas read: an arriving `Config` is
/// cached; anything else — or nothing — leaves the slots alone.
pub open spec fn canvas_inbound_applied(
    s: Seq<EntryView>,
    name: Seq<char>,
    inbound: Option<MessageView>,
) -> Seq<EntryView> {
    match inbound {
        Some(MessageView::Config { config }) => with_config(s, name, config),
        _ => s,
    }
}

/// Whether a steady-state controller read carried a `Create` command.
pub open spec fn carries_create(inbound: Option<MessageView>) -> bool {
    inbound matches Some(m) && m is Create
}

/// What the mandatory first message of a connection established.
#[derive(Debug)]
pub enum InitOutcome {
    /// The message was `Init`: the connection's role is known.
    Proceed(ConnectionType),
    /// Any other message: a protocol violation, the session terminates.
    Rejected,
}

/// How a canvas's registration attempt ended.
#[derive(Debug)]
pub enum RegisterOutcome {
    /// A slot was created; `reply` is the `Id` message announcing `id`.
    Registered { id: String, reply: Message },
    /// Nothing was registered; `reply` is the diagnostic to send back.
    Rejected { reply: Message },
}

/// How a controller's attach attempt ended.
#[derive(Debug)]
pub enum AttachOutcome {
    /// The canvas exists; `reply` is its current `Config`.
    Attached { reply: Message },
    /// No such canvas; `reply` is the "not found" diagnostic. The session
    /// terminates after sending it.
    NotFound { reply: Message },
}

/// One steady-state step of a canvas session.
#[derive(Debug)]
pub enum CanvasTick {
    /// The session goes on; `forward` is a drained command to send to the
    /// canvas, if one was pending.
    Continue { forward: Option<Message> },
    /// The canvas's slot is gone: an invariant violation, fatal.
    Vanished,
}

/// One steady-state step of a controller session.
#[derive(Debug, PartialEq, Eq, Structural)]
pub enum ControllerTick {
    /// The `Create` command sits in the canvas's queue.
    Forwarded,
    /// The canvas's queue is at capacity; retry later (back-pressure).
    Busy,
    /// The target canvas is gone; the session terminates.
    Vanished,
    /// The read carried nothing, or a message of another kind, which a
    /// controller silently ignores.
    Ignored,
}

/// How the transport classified one incoming frame.
#[derive(Debug)]
pub enum FrameEvent {
    /// A text frame that decoded to a message.
    Payload(Message),
    /// A text frame that did not decode.
    Malformed,
    /// A binary or otherwise unexpected frame.
    Binary,
    /// A close frame: peer-initiated termination.
    Closed,
}

/// What a session does with one classified frame.
#[derive(Debug)]
pub enum FrameOutcome {
    /// Hand the message to the session's current state.
    Proceed(Message),
    /// Send `reply` to the peer, then terminate: protocol error.
    Reject { reply: Message },
    /// Terminate quietly: the peer closed.
    Disconnected,
}

/// Decides the session's reaction to one classified frame: payloads go
/// through, a decode failure or a non-text frame is answered with a
/// diagnostic before the session ends, and a close ends it quietly.
pub fn frame_outcome(event: FrameEvent) -> (r: FrameOutcome)
    ensures
        event matches FrameEvent::Payload(m) ==> (r matches FrameOutcome::Proceed(p) && p@
            == m@),
        event is Malformed ==> (r matches FrameOutcome::Reject { reply } && reply@
            == (MessageView::Error { message: "failed to parse message"@ })),
        event is Binary ==> (r matches FrameOutcome::Reject { reply } && reply@
            == (MessageView::Error { message: "invalid message data type"@ })),
        event is Closed ==> r is Disconnected,
{
    match event {
        FrameEvent::Payload(m) => FrameOutcome::Proceed(m),
        FrameEvent::Malformed => FrameOutcome::Reject {
            reply: Message::error("failed to parse message"),
        },
        FrameEvent::Binary => FrameOutcome::Reject {
            reply: Message::error("invalid message data type"),
        },
        FrameEvent::Closed => FrameOutcome::Disconnected,
    }
}

/// Decides the role of a connection from its first message: exactly an
/// `Init` establishes one; anything else is a handshake violation.
pub fn handle_init(message: Message) -> (r: InitOutcome)
    ensures
        message@ matches MessageView::Init { connection_type } ==> (r matches
            InitOutcome::Proceed(ct) && ct@ == connection_type),
        !(message@ is Init) ==> r is Rejected,
{
    match message {
        Message::Init(connection_type) => InitOutcome::Proceed(connection_type),
        _ => InitOutcome::Rejected,
    }
}

/// Registers a canvas from the message that followed its `Init`, which must
/// be exactly a `Config`. On success the canvas gets a fresh identifier —
/// one never carried by any slot before — its slot starts with an empty
/// queue, and the reply is the `Id` message to send it. On a wrong message,
/// or with the identifier counter exhausted, nothing is registered and the
/// reply is the diagnostic to send before terminating.
pub fn canvas_register(registry: &mut Registry, message: Message) -> (r: RegisterOutcome)
    requires
        old(registry).wf(),
    ensures
        final(registry).wf(),
        final(registry).next_id() >= old(registry).next_id(),
        message@ matches MessageView::Config { config } ==> (old(registry).next_id() < u64::MAX
            as nat ==> (r matches RegisterOutcome::Registered { id, reply } && id@ == dec_of(
            old(registry).next_id(),
        ) && !is_registered(old(registry)@, id@) && reply@ == (MessageView::Id { id: id@ })
            && final(registry)@ == old(registry)@.push(entry_for(old(registry).next_id(), config))
            && final(registry).next_id() == old(registry).next_id() + 1)),
        !(message@ is Config) ==> (r matches RegisterOutcome::Rejected { reply } && reply@
            == (MessageView::Error { message: "expected config"@ }) && *final(registry) == *old(
            registry,
        )),
        message@ is Config && old(registry).next_id() == u64::MAX as nat ==> (r matches
            RegisterOutcome::Rejected { reply } && reply@ == (MessageView::Error {
            message: "registration failed"@,
        }) && *final(registry) == *old(registry)),
{
    match message {
        Message::Config(config) => match registry.register(config) {
            Some(id) => {
                let reply = Message::Id { id: id.clone() };
                RegisterOutcome::Registered { id, reply }
            },
            None => RegisterOutcome::Rejected { reply: Message::error("registration failed") },
        },
        _ => RegisterOutcome::Rejected { reply: Message::error("expected config") },
    }
}

/// Attaches a controller to the canvas it named: a registered identifier is
/// answered with that canvas's current configuration, an unknown one with
/// exactly one "not found" diagnostic, after which the session terminates.
/// The registry is never changed.
pub fn attach_controller(registry: &Registry, id: &String) -> (r: AttachOutcome)
    requires
        registry.wf(),
    ensures
        is_registered(registry@, id@) ==> (r matches AttachOutcome::Attached { reply } && reply@
            == attach_reply(registry@, id@)),
        !is_registered(registry@, id@) ==> (r matches AttachOutcome::NotFound { reply } && reply@
            == attach_reply(registry@, id@)),
{
    match registry.lookup_config(id) {
        Some(config) => AttachOutcome::Attached { reply: Message::Config(config) },
        None => {
            let mut text = "canvas '".to_owned();
            text.append(id.as_str());
            text.append("' not found");
            AttachOutcome::NotFound { reply: Message::Error { message: text } }
        },
    }
}

/// One steady-state step of a canvas session, given what the non-blocking
/// read returned. An arriving `Config` replaces the cached one (any other
/// message kind is ignored); independently, the oldest pending command, if
/// any, is drained and handed back for forwarding to the canvas. A missing
/// slot is an invariant violation and fatal.
pub fn canvas_tick(registry: &mut Registry, id: &String, inbound: Option<&Message>) -> (r:
    CanvasTick)
    requires
        old(registry).wf(),
    ensures
        final(registry).wf(),
        final(registry).next_id() == old(registry).next_id(),
        !is_registered(old(registry)@, id@) ==> r is Vanished && *final(registry) == *old(
            registry,
        ),
        is_registered(old(registry)@, id@) ==> ({
            let s1 = canvas_inbound_applied(old(registry)@, id@, inbound.deep_view());
            &&& r is Continue
            &&& queue_of(s1, id@).len() == 0 ==> (r matches CanvasTick::Continue { forward }
                && forward is None && final(registry)@ == s1)
            &&& queue_of(s1, id@).len() > 0 ==> (r matches CanvasTick::Continue { forward }
                && forward matches Some(f) && f@ == queue_of(s1, id@)[0] && final(registry)@
                == with_queue_popped(s1, id@))
        }),
{
    proof {
        registry.lemma_wf_facts();
    }
    let ghost s0 = registry@;
    match inbound {
        Some(Message::Config(config)) => {
            if !registry.set_config(id, *config) {
                return CanvasTick::Vanished;
            }
            proof {
                lemma_with_config(s0, id@, *config);
            }
        },
        _ => {},
    }
    match registry.dequeue(id) {
        DequeueOutcome::Vanished => CanvasTick::Vanished,
        DequeueOutcome::Idle => CanvasTick::Continue { forward: None },
        DequeueOutcome::Forward(message) => CanvasTick::Continue { forward: Some(message) },
    }
}

/// One steady-state step of a controller session, given what the
/// non-blocking read returned. A `Create` command is queued for the
/// controller's canvas — refused without effect when the queue is at
/// capacity, so a controller outrunning its canvas is held back rather than
/// growing memory — and every other read is silently ignored. A gone canvas
/// ends the session.
pub fn controller_tick(registry: &mut Registry, id: &String, inbound: Option<Message>) -> (r:
    ControllerTick)
    requires
        old(registry).wf(),
    ensures
        final(registry).wf(),
        final(registry).next_id() == old(registry).next_id(),
        !carries_create(inbound.deep_view()) ==> r == ControllerTick::Ignored && *final(registry)
            == *old(registry),
        carries_create(inbound.deep_view()) ==> ({
            let m = inbound->Some_0;
            &&& !is_registered(old(registry)@, id@) ==> r == ControllerTick::Vanished
                && *final(registry) == *old(registry)
            &&& is_registered(old(registry)@, id@) && queue_of(old(registry)@, id@).len()
                >= QUEUE_CAPACITY as nat ==> r == ControllerTick::Busy && *final(registry)
                == *old(registry)
            &&& is_registered(old(registry)@, id@) && queue_of(old(registry)@, id@).len()
                < QUEUE_CAPACITY as nat ==> r == ControllerTick::Forwarded && final(registry)@
                == with_queue_push(old(registry)@, id@, m@)
        }),
{
    match inbound {
        Some(message) => {
            if matches!(message, Message::Create { .. }) {
                match registry.enqueue(id, message) {
                    EnqueueOutcome::Delivered => ControllerTick::Forwarded,
                    EnqueueOutcome::Busy => ControllerTick::Busy,
                    EnqueueOutcome::Vanished => ControllerTick::Vanished,
                }
            } else {
                ControllerTick::Ignored
            }
        },
        None => ControllerTick::Ignored,
    }
}

/// Ends a canvas session: its slot leaves the registry, so a later attach
/// to its identifier is answered "not found" rather than routed into a dead
/// queue. The identifier counter is untouched — the identifier is never
/// handed to a different canvas.
pub fn disconnect_canvas(registry: &mut Registry, id: &String)
    requires
        old(registry).wf(),
    ensures
        final(registry).wf(),
        final(registry).next_id() == old(registry).next_id(),
        !is_registered(final(registry)@, id@),
        is_registered(old(registry)@, id@) ==> final(registry)@ == without(old(registry)@, id@),
        !is_registered(old(registry)@, id@) ==> *final(registry) == *old(registry),
{
    registry.remove(id);
}

/// A controller attaching right after a canvas registered is answered with
/// exactly the configuration that canvas offered, and no `Create` command
/// precedes it: the fresh queue is empty.
pub proof fn lemma_register_then_attach(s: Seq<EntryView>, key: nat, config: Config)
    requires
        unique_names(s),
        !is_registered(s, dec_of(key)),
    ensures
        attach_reply(s.push(entry_for(key, config)), dec_of(key)) == (MessageView::Config {
            config,
        }),
        queue_of(s.push(entry_for(key, config)), dec_of(key)) == Seq::<MessageView>::empty(),
{
    lemma_push_entry(s, entry_for(key, config));
}

/// A controller attaching after a canvas cached a new configuration is
/// answered with the updated values, not the original ones.
pub proof fn lemma_attach_after_config_update(s: Seq<EntryView>, name: Seq<char>, config: Config)
    requires
        unique_names(s),
        is_registered(s, name),
    ensures
        attach_reply(with_config(s, name, config), name) == (MessageView::Config { config }),
{
    lemma_with_config(s, name, config);
}

/// Once a canvas's session ended and its slot was removed, attaching to its
/// identifier is answered with the "not found" diagnostic.
pub proof fn lemma_attach_after_disconnect(s: Seq<EntryView>, name: Seq<char>)
    requires
        unique_names(s),
        is_registered(s, name),
    ensures
        !is_registered(without(s, name), name),
        attach_reply(without(s, name), name) == (MessageView::Error {
            message: not_found_text(name),
        }),
{
    lemma_without(s, name);
}

/// A command forwarded to canvas `target` lands at the tail of exactly that
/// canvas's queue; the queue of any other registered canvas is untouched.
pub proof fn lemma_forward_isolated(
    s: Seq<EntryView>,
    target: Seq<char>,
    other: Seq<char>,
    m: MessageView,
)
    requires
        unique_names(s),
        is_registered(s, target),
        other != target,
    ensures
        queue_of(with_queue_push(s, target, m), target) == queue_of(s, target).push(m),
        is_registered(s, other) ==> queue_of(with_queue_push(s, target, m), other) == queue_of(
            s,
            other,
        ),
{
    lemma_with_queue_push(s, target, m);
}

} // verus!
