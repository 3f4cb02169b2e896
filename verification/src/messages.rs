//! The messages that cross the connection between the harness and its peers.
//!
//! Peers send `HarnessInputMessage`s, the harness sends `HarnessOutputMessage`s.
//! An event never travels on its own: a peer wraps it in an `Emit`, the harness
//! in an `EventDelivery`.
use vstd::prelude::*;
use vstd::string::*;
use crate::cbor::CborValue;
use crate::context::{AgentPromptCreated, ToolDefinition};
use crate::event::{ClientKind, Event, EventSelector};
use crate::text::decimal;
use crate::text::decimal_text;

verus! {

/// The version of the protocol that this library speaks.
pub const PROTOCOL_VERSION: u32 = 1;

/// A peer introduces itself after connecting.
#[derive(Debug, PartialEq, Eq)]
pub struct Hello {
    pub protocol_version: u32,
    pub client_name: String,
    pub client_kind: ClientKind,
}

/// A peer asks for the events that its selectors choose.
#[derive(Debug, PartialEq, Eq)]
pub struct Subscribe {
    pub selectors: Vec<EventSelector>,
}

/// A peer asks to handle events before they are logged.
#[derive(Debug, PartialEq, Eq)]
pub struct Intercept {
    pub selectors: Vec<EventSelector>,
    pub priority: i32,
}

/// A peer is ready.
#[derive(Debug, PartialEq, Eq)]
pub struct Ready {
    pub message: Option<String>,
}

impl Default for Ready {
    fn default() -> (r: Ready)
        ensures
            r.message is None,
    {
        Ready { message: None }
    }
}

/// One side takes its leave.
#[derive(Debug, PartialEq, Eq)]
pub struct Disconnect {
    pub reason: Option<String>,
}

impl Default for Disconnect {
    fn default() -> (r: Disconnect)
        ensures
            r.reason is None,
    {
        Disconnect { reason: None }
    }
}

/// The configuration handed to an extension at startup.
#[derive(PartialEq, Eq)]
pub struct Configure {
    /// Free-form configuration from the settings.
    pub config: CborValue,
    /// The directory reserved for the extension's state.
    pub state_dir: Option<String>,
    /// The secrets that the extension may see, by name.
    pub secrets: Vec<(String, SecretValue)>,
}

/// A secret on its way to one extension.
#[derive(PartialEq, Eq)]
pub struct SecretValue(String);

impl SecretValue {
    /// The text of the secret.
    pub closed spec fn view(&self) -> Seq<char> {
        self.0@
    }

    /// Wraps a secret.
    #[must_use]
    pub fn new(value: String) -> (r: SecretValue)
        ensures
            r@ == value@,
    {
        SecretValue(value)
    }

    /// The text of the secret. Keep it out of logs.
    #[must_use]
    pub fn expose_secret(&self) -> (r: &str)
        ensures
            r@ == self@,
    {
        self.0.as_str()
    }

    /// What stands for the secret wherever it is shown.
    pub fn redacted(&self) -> (r: String)
        ensures
            r@ == "<redacted>"@,
    {
        "<redacted>".to_owned()
    }
}

/// An extension cannot use its configuration.
#[derive(Debug, PartialEq, Eq)]
pub struct ConfigError {
    pub message: String,
}

// ---------------------------------------------------------------------------
// Sequence numbers and times
// ---------------------------------------------------------------------------

/// The position of an event in the running harness's stream.
#[derive(Clone, Copy, Debug, PartialEq, Eq, PartialOrd, Ord, Hash, Structural)]
pub struct EventLogSeq(u64);

impl EventLogSeq {
    /// The position as a number.
    pub closed spec fn view(&self) -> u64 {
        self.0
    }

    /// The position `v`.
    #[must_use]
    pub fn new(v: u64) -> (r: EventLogSeq)
        ensures
            r@ == v,
    {
        EventLogSeq(v)
    }

    /// The position as a number.
    #[must_use]
    pub fn get(self) -> (r: u64)
        ensures
            r == self@,
    {
        self.0
    }

    /// The position after this one.
    #[must_use]
    pub fn next(self) -> (r: EventLogSeq)
        requires
            self@ < u64::MAX,
        ensures
            r@ == self@ + 1,
    {
        EventLogSeq(self.0 + 1)
    }

    /// The position in decimal.
    pub fn text(self) -> (r: String)
        ensures
            r@ == decimal(self@ as nat),
    {
        decimal_text(self.0 as u128)
    }
}

impl Default for EventLogSeq {
    fn default() -> (r: EventLogSeq)
        ensures
            r@ == 0,
    {
        EventLogSeq(0)
    }
}

/// A point in time, in microseconds since the start of 1970.
#[derive(Clone, Copy, Debug, PartialEq, Eq, PartialOrd, Ord, Hash, Structural)]
pub struct UnixMicros(u64);

/// The stamp for what a clock showed: nothing for a clock before 1970, and the
/// last point that fits for one beyond it.
pub open spec fn stamp_of(micros: Option<u128>) -> u64 {
    match micros {
        Some(n) => if n <= u64::MAX {
            n as u64
        } else {
            u64::MAX
        },
        None => 0,
    }
}

impl UnixMicros {
    /// The number of microseconds.
    pub closed spec fn view(&self) -> u64 {
        self.0
    }

    /// The point `v` microseconds after the start of 1970.
    #[must_use]
    pub fn new(v: u64) -> (r: UnixMicros)
        ensures
            r@ == v,
    {
        UnixMicros(v)
    }

    /// The number of microseconds.
    #[must_use]
    pub fn get(self) -> (r: u64)
        ensures
            r == self@,
    {
        self.0
    }

    /// The stamp for what a clock showed.
    pub fn from_clock(micros: Option<u128>) -> (r: UnixMicros)
        ensures
            r@ == stamp_of(micros),
    {
        match micros {
            Some(n) => if n <= u64::MAX as u128 {
                UnixMicros(n as u64)
            } else {
                UnixMicros(u64::MAX)
            },
            None => UnixMicros(0),
        }
    }

    /// What the wall clock shows now.
    #[must_use]
    pub fn now() -> (r: UnixMicros)
        ensures
            exists|shown: Option<u128>| r@ == #[trigger] stamp_of(shown),
    {
        let shown = clock_micros();
        UnixMicros::from_clock(shown)
    }

    /// The number of microseconds in decimal.
    pub fn text(self) -> (r: String)
        ensures
            r@ == decimal(self@ as nat),
    {
        decimal_text(self.0 as u128)
    }
}

impl Default for UnixMicros {
    fn default() -> (r: UnixMicros)
        ensures
            r@ == 0,
    {
        UnixMicros(0)
    }
}

/// Reads `std::time::SystemTime::now`, in microseconds since the start of 1970;
/// nothing where the clock stands before it. Nothing is claimed of the value.
#[verifier::external_body]
fn clock_micros() -> (r: Option<u128>) {
    std::time::SystemTime::now().duration_since(std::time::UNIX_EPOCH).ok().map(|d| d.as_micros())
}

// ---------------------------------------------------------------------------
// Deliveries
// ---------------------------------------------------------------------------

/// An event on its way to one peer.
///
/// A delivery with a sequence number is to be acknowledged, one without is not.
pub struct EventDelivery {
    pub event: Box<Event>,
    /// The position in the stream, where the delivery is to be acknowledged.
    pub seq: Option<EventLogSeq>,
    /// When the event was recorded, where that is known.
    pub recorded_at: Option<UnixMicros>,
}

impl EventDelivery {
    /// A delivery that is not to be acknowledged.
    #[must_use]
    pub fn unsequenced(event: Event) -> (r: EventDelivery)
        ensures
            *r.event == event,
            r.seq is None,
            r.recorded_at is None,
    {
        EventDelivery { event: Box::new(event), seq: None, recorded_at: None }
    }

    /// A delivery of the committed stream.
    #[must_use]
    pub fn sequenced(seq: EventLogSeq, recorded_at: UnixMicros, event: Event) -> (r: EventDelivery)
        ensures
            *r.event == event,
            r.seq == Some(seq),
            r.recorded_at == Some(recorded_at),
    {
        EventDelivery { event: Box::new(event), seq: Some(seq), recorded_at: Some(recorded_at) }
    }

    /// A delivery of recorded history.
    #[must_use]
    pub fn replay(recorded_at: UnixMicros, event: Event) -> (r: EventDelivery)
        ensures
            *r.event == event,
            r.seq is None,
            r.recorded_at == Some(recorded_at),
    {
        EventDelivery { event: Box::new(event), seq: None, recorded_at: Some(recorded_at) }
    }

    /// The event.
    #[must_use]
    pub fn event(&self) -> (r: &Event)
        ensures
            *r == *self.event,
    {
        &self.event
    }

    /// The position to acknowledge.
    #[must_use]
    pub fn ack_sequence(&self) -> (r: Option<EventLogSeq>)
        ensures
            r == self.seq,
    {
        self.seq
    }

    /// Gives the event out.
    #[must_use]
    pub fn into_event(self) -> (r: Event)
        ensures
            r == *self.event,
    {
        *self.event
    }

    /// Gives the event, its position and its time out.
    #[must_use]
    pub fn into_parts(self) -> (r: (Event, Option<EventLogSeq>, Option<UnixMicros>))
        ensures
            r == (*self.event, self.seq, self.recorded_at),
    {
        (*self.event, self.seq, self.recorded_at)
    }
}

/// A peer asks the harness to publish an event.
pub struct Emit {
    pub event: Box<Event>,
    /// Whether the event stays out of the durable logs.
    pub transient: bool,
}

impl Emit {
    /// A request for an event that is kept.
    #[must_use]
    pub fn new(event: Event) -> (r: Emit)
        ensures
            *r.event == event,
            !r.transient,
    {
        Emit { event: Box::new(event), transient: false }
    }

    /// A request that says whether the event is kept.
    #[must_use]
    pub fn with_transient(event: Event, transient: bool) -> (r: Emit)
        ensures
            *r.event == event,
            r.transient == transient,
    {
        Emit { event: Box::new(event), transient }
    }

    /// Gives the event and the mark out.
    #[must_use]
    pub fn into_parts(self) -> (r: (Event, bool))
        ensures
            r == (*self.event, self.transient),
    {
        (*self.event, self.transient)
    }
}

/// The harness offers an event to an interceptor.
pub struct InterceptRequest {
    pub event: Box<Event>,
    pub transient: bool,
}

/// What an interceptor wants done with an event.
pub enum InterceptAction {
    /// Publish it, changed or as it is.
    Pass(Option<Box<Event>>),
    /// Discard it.
    Drop,
}

/// An interceptor's answer.
pub struct InterceptReply {
    pub action: InterceptAction,
}

// ---------------------------------------------------------------------------
// Requests and results
// ---------------------------------------------------------------------------

/// A request for a prompt by its id.
#[derive(Debug, PartialEq, Eq)]
pub struct GetAgentPromptCreated {
    pub request_id: String,
    pub session_id: String,
    pub agent_prompt_id: String,
}

/// The answer to `GetAgentPromptCreated`.
pub struct AgentPromptCreatedResult {
    pub request_id: String,
    pub prompt: Option<AgentPromptCreated>,
}

/// A request for the system prompt of a role.
#[derive(Debug, PartialEq, Eq)]
pub struct GetRenderedSystemPrompt {
    pub request_id: String,
    pub role: String,
}

/// The answer to `GetRenderedSystemPrompt`: a prompt or an error.
#[derive(Debug, PartialEq, Eq)]
pub struct RenderedSystemPromptResult {
    pub request_id: String,
    pub prompt: Option<String>,
    pub error: Option<String>,
}

/// A request for the tools of a role.
#[derive(Debug, PartialEq, Eq)]
pub struct GetRenderedToolDefinitions {
    pub request_id: String,
    pub role: String,
}

/// The answer to `GetRenderedToolDefinitions`: tools or an error.
pub struct RenderedToolDefinitionsResult {
    pub request_id: String,
    pub tools: Option<Vec<ToolDefinition>>,
    pub error: Option<String>,
}

/// Where an extension's data lies.
#[derive(Clone, Copy, Debug, PartialEq, Eq, Structural)]
pub enum ExtensionDataScope {
    Session,
    User,
    Cache,
}

/// An extension asks for a file operation inside its data.
#[derive(Debug, PartialEq, Eq)]
pub struct ExtensionDataRequest {
    pub request_id: String,
    pub scope: ExtensionDataScope,
    pub op: ExtensionDataRequestOp,
}

/// A file operation of an extension.
#[derive(Debug, PartialEq, Eq)]
pub enum ExtensionDataRequestOp {
    /// Read a whole file.
    ReadFile { path: String },
    /// Write a whole file in place of what was there.
    WriteFile { path: String, contents: Vec<u8> },
    /// Write a file that must not exist yet.
    CreateFile { path: String, contents: Vec<u8> },
    /// Add to the end of a file.
    AppendFile { path: String, contents: Vec<u8> },
    /// List the direct children of a directory.
    ListFiles { path: String },
}

/// The answer to an `ExtensionDataRequest`.
#[derive(Debug, PartialEq, Eq)]
pub struct ExtensionDataResult {
    pub request_id: String,
    pub result: ExtensionDataResultPayload,
}

/// How a file operation ended.
#[derive(Debug, PartialEq, Eq)]
pub enum ExtensionDataResultPayload {
    Success { value: ExtensionDataValue },
    Error { message: String },
}

/// What a file operation returned.
#[derive(Debug, PartialEq, Eq)]
pub enum ExtensionDataValue {
    ReadFile { contents: Vec<u8> },
    WriteFile,
    CreateFile,
    AppendFile,
    ListFiles { entries: Vec<ExtensionDataEntry> },
}

/// One direct child of a listed directory.
#[derive(Debug, PartialEq, Eq)]
pub struct ExtensionDataEntry {
    /// The path relative to the root of the scope.
    pub path: String,
    pub is_dir: bool,
    /// The size of a file; nothing for a directory.
    pub len: Option<u64>,
}

/// Everything up to this position has been processed.
#[derive(Clone, Copy, Debug, PartialEq, Eq, Structural)]
pub struct Ack {
    pub up_to: EventLogSeq,
}

// ---------------------------------------------------------------------------
// Envelopes
// ---------------------------------------------------------------------------

/// What the harness accepts from its peers.
pub enum HarnessInputMessage {
    Hello(Hello),
    Subscribe(Subscribe),
    Intercept(Intercept),
    Ready(Ready),
    Disconnect(Disconnect),
    ConfigError(ConfigError),
    Emit(Emit),
    InterceptReply(InterceptReply),
    GetAgentPromptCreated(GetAgentPromptCreated),
    GetRenderedSystemPrompt(GetRenderedSystemPrompt),
    GetRenderedToolDefinitions(GetRenderedToolDefinitions),
    ExtensionDataRequest(ExtensionDataRequest),
    Ack(Ack),
}

impl HarnessInputMessage {
    /// Asks to publish an event that is kept.
    #[must_use]
    pub fn emit(event: Event) -> (r: HarnessInputMessage)
        ensures
            r matches HarnessInputMessage::Emit(e) && *e.event == event && !e.transient,
    {
        HarnessInputMessage::Emit(Emit::new(event))
    }

    /// Asks to publish an event, and says whether it is kept.
    #[must_use]
    pub fn emit_with_transient(event: Event, transient: bool) -> (r: HarnessInputMessage)
        ensures
            r matches HarnessInputMessage::Emit(e) && *e.event == event && e.transient == transient,
    {
        HarnessInputMessage::Emit(Emit::with_transient(event, transient))
    }
}

/// What the harness sends to its peers.
pub enum HarnessOutputMessage {
    Configure(Configure),
    Disconnect(Disconnect),
    Deliver(EventDelivery),
    InterceptRequest(InterceptRequest),
    AgentPromptCreatedResult(Box<AgentPromptCreatedResult>),
    RenderedSystemPromptResult(Box<RenderedSystemPromptResult>),
    RenderedToolDefinitionsResult(Box<RenderedToolDefinitionsResult>),
    ExtensionDataResult(Box<ExtensionDataResult>),
}

impl HarnessOutputMessage {
    /// Delivers an event that is not to be acknowledged.
    #[must_use]
    pub fn deliver(event: Event) -> (r: HarnessOutputMessage)
        ensures
            r matches HarnessOutputMessage::Deliver(d) && *d.event == event && d.seq is None
                && d.recorded_at is None,
    {
        HarnessOutputMessage::Deliver(EventDelivery::unsequenced(event))
    }

    /// Delivers an event of the committed stream.
    #[must_use]
    pub fn deliver_sequenced(seq: EventLogSeq, recorded_at: UnixMicros, event: Event) -> (r:
        HarnessOutputMessage)
        ensures
            r matches HarnessOutputMessage::Deliver(d) && *d.event == event && d.seq == Some(seq)
                && d.recorded_at == Some(recorded_at),
    {
        HarnessOutputMessage::Deliver(EventDelivery::sequenced(seq, recorded_at, event))
    }

    /// Delivers an event of recorded history.
    #[must_use]
    pub fn deliver_replay(recorded_at: UnixMicros, event: Event) -> (r: HarnessOutputMessage)
        ensures
            r matches HarnessOutputMessage::Deliver(d) && *d.event == event && d.seq is None
                && d.recorded_at == Some(recorded_at),
    {
        HarnessOutputMessage::Deliver(EventDelivery::replay(recorded_at, event))
    }

    /// The delivery that the message carries.
    #[must_use]
    pub fn as_delivery(&self) -> (r: Option<&EventDelivery>)
        ensures
            match *self {
                HarnessOutputMessage::Deliver(d) => r == Some(&d),
                _ => r is None,
            },
    {
        match self {
            HarnessOutputMessage::Deliver(delivery) => Some(delivery),
            _ => None,
        }
    }

    /// The event that the message delivers.
    #[must_use]
    pub fn delivered_event(&self) -> (r: Option<&Event>)
        ensures
            match *self {
                HarnessOutputMessage::Deliver(d) => r == Some(&*d.event),
                _ => r is None,
            },
    {
        match self.as_delivery() {
            Some(delivery) => Some(delivery.event()),
            None => None,
        }
    }

    /// The position to acknowledge.
    #[must_use]
    pub fn ack_sequence(&self) -> (r: Option<EventLogSeq>)
        ensures
            match *self {
                HarnessOutputMessage::Deliver(d) => r == d.seq,
                _ => r is None,
            },
    {
        match self.as_delivery() {
            Some(delivery) => delivery.ack_sequence(),
            None => None,
        }
    }

    /// Gives the delivery out.
    #[must_use]
    pub fn into_delivery(self) -> (r: Option<EventDelivery>)
        ensures
            match self {
                HarnessOutputMessage::Deliver(d) => r == Some(d),
                _ => r is None,
            },
    {
        match self {
            HarnessOutputMessage::Deliver(delivery) => Some(delivery),
            _ => None,
        }
    }

    /// Gives the delivered event out.
    #[must_use]
    pub fn into_delivered_event(self) -> (r: Option<Event>)
        ensures
            match self {
                HarnessOutputMessage::Deliver(d) => r == Some(*d.event),
                _ => r is None,
            },
    {
        match self.into_delivery() {
            Some(delivery) => Some(delivery.into_event()),
            None => None,
        }
    }
}

} // verus!
