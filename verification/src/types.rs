//! Core data types shared across the agent: scheduler states, grid positions,
//! event records, and the command surface callers use to drive an agent.

use vstd::prelude::*;

verus! {

/// The scheduler phase an agent is in. Exactly one is active at any instant,
/// and only the think-cycle controller mutates it.
#[derive(Clone, Copy, Debug, PartialEq, Eq, Structural)]
pub enum BrainState {
    Idle,
    Thinking,
    Reflecting,
    Planning,
}

impl BrainState {
    /// Lower-case label used on the wire and in logs.
    pub fn label(&self) -> (r: &'static str)
        ensures
            r@ == state_label(*self),
    {
        proof {
            reveal_strlit("idle");
            reveal_strlit("thinking");
            reveal_strlit("reflecting");
            reveal_strlit("planning");
        }
        match self {
            BrainState::Idle => "idle",
            BrainState::Thinking => "thinking",
            BrainState::Reflecting => "reflecting",
            BrainState::Planning => "planning",
        }
    }
}

/// The label each state prints as.
pub open spec fn state_label(s: BrainState) -> Seq<char> {
    match s {
        BrainState::Idle => "idle"@,
        BrainState::Thinking => "thinking"@,
        BrainState::Reflecting => "reflecting"@,
        BrainState::Planning => "planning"@,
    }
}

/// A grid coordinate inside the agent's room.
#[derive(Clone, Copy, Debug, PartialEq, Eq, Structural)]
pub struct Position {
    pub x: i32,
    pub y: i32,
}

/// Scheduler state plus thought counter, broadcast to observers.
#[derive(Clone, Debug)]
pub struct StatusData {
    pub state: BrainState,
    pub thought_count: u32,
}

/// The human-readable current action of an agent.
#[derive(Clone, Debug)]
pub struct ActivityData {
    pub activity_type: String,
    pub detail: String,
}

/// Conversation rendezvous state broadcast to observers.
#[derive(Clone, Debug)]
pub struct ConversationData {
    pub state: String,
    pub message: Option<String>,
    pub timeout: Option<u32>,
}

/// Focus-mode toggle broadcast to observers.
#[derive(Clone, Copy, Debug)]
pub struct FocusModeData {
    pub enabled: bool,
}

/// One key/value field of an event payload.
#[derive(Clone, Debug)]
pub struct PayloadField {
    pub key: String,
    pub value: String,
}

/// An append-only transcript record. Never mutated after creation and
/// broadcast exactly once.
#[derive(Clone, Debug)]
pub struct EventEntry {
    pub event_type: String,
    pub timestamp: String,
    pub thought_number: u32,
    pub payload: Vec<PayloadField>,
}

/// A newly appeared file in the confined root, handed to the agent as an
/// inbox override for the next reasoning prompt.
#[derive(Clone, Debug)]
pub struct NewFileInfo {
    pub name: String,
    pub content: String,
    /// A `data:` URL when the file is an image.
    pub image: Option<String>,
}

/// Summary of one agent, for listings.
#[derive(Clone, Debug)]
pub struct AnemoneInfo {
    pub id: String,
    pub name: String,
    pub state: BrainState,
    pub thought_count: u32,
}

/// The inbound command surface: everything an external driver can ask of an
/// agent. Commands are drained fully, in arrival order, once per cycle.
#[derive(Debug)]
pub enum BrainCommand {
    UserMessage(String),
    ConversationReply(String),
    SetFocusMode(bool),
    Snapshot(String),
    Stop,
}


/// Which side of the chat feed a message shows on.
#[derive(Clone, Copy, Debug, PartialEq, Eq, Structural)]
pub enum ChatSide {
    /// System or user text, and tool results.
    Left,
    /// The agent's thoughts and tool calls.
    Right,
    /// Status lines.
    System,
}

/// Which phase produced a chat-feed message.
#[derive(Clone, Copy, Debug, PartialEq, Eq, Structural)]
pub enum Phase {
    Normal,
    Reflection,
    Planning,
}

/// One message of a chat feed.
#[derive(Clone, Debug)]
pub struct ChatMessage {
    pub side: ChatSide,
    pub text: String,
    pub phase: Phase,
}

} // verus!
