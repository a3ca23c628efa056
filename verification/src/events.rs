//! The events of the agent CLI's stream-json output, and their decoding from JSON.
use vstd::prelude::*;

use crate::json::{
    chars_of_all, field, field_spec, opt_any, opt_any_spec, opt_chars, opt_string, opt_string_spec,
    opt_strings, opt_strings_spec, opt_u64, opt_u64_spec, opt_usize, opt_usize_spec, opt_val,
    opt_bool, opt_bool_spec, req_string, req_string_spec, JsonValue, get, get_spec, as_str,
    as_str_spec, as_bool, as_bool_spec, parse_json, spec_parse_json,
};
use crate::text::{owned, str_eq};

verus! {

/// Token usage reported with message events.
#[derive(Debug, Clone, Copy, PartialEq, Eq)]
pub struct Usage {
    pub input_tokens: u64,
    pub output_tokens: u64,
}

impl Default for Usage {
    fn default() -> (u: Usage)
        ensures
            u.input_tokens == 0 && u.output_tokens == 0,
    {
        Usage { input_tokens: 0, output_tokens: 0 }
    }
}

/// The kind of a content block, as announced when the block starts.
#[derive(Debug, Clone)]
pub enum ContentBlockType {
    Text,
    ToolUse { id: String, name: String },
    Thinking,
    Image { media_type: String },
    Document { doc_type: String },
}

/// An increment to the content block at some index.
#[derive(Debug, Clone)]
pub enum Delta {
    TextDelta(String),
    InputJsonDelta(String),
    ThinkingDelta(String),
}

/// One event of the stream.
#[derive(Debug, Clone)]
pub enum StreamEvent {
    MessageStart { message_id: String, model: String, usage: Option<Usage> },
    ContentBlockStart { index: usize, block_type: ContentBlockType },
    ContentBlockDelta { index: usize, delta: Delta },
    ContentBlockStop { index: usize },
    MessageDelta { stop_reason: Option<String>, usage: Option<Usage> },
    MessageStop,
    /// System init event carrying slash commands and session metadata.
    SystemInit { slash_commands: Vec<String>, session_id: Option<String> },
    /// System hook lifecycle event (hook_started, hook_completed).
    SystemHook { subtype: String, hook_id: Option<String> },
    /// Result event emitted when a command completes (e.g. slash commands).
    Result { text: String, is_error: bool },
    /// Tool result from a `{"type":"user"}` envelope after tool execution.
    ToolResult { tool_use_id: String, content: String, is_error: bool },
    Unknown(String),
}

/// The mathematical value of a block kind.
pub enum BlockTypeView {
    Text,
    ToolUse { id: Seq<char>, name: Seq<char> },
    Thinking,
    Image { media_type: Seq<char> },
    Document { doc_type: Seq<char> },
}

impl View for ContentBlockType {
    type V = BlockTypeView;

    open spec fn view(&self) -> BlockTypeView {
        match self {
            ContentBlockType::Text => BlockTypeView::Text,
            ContentBlockType::ToolUse { id, name } => BlockTypeView::ToolUse { id: id@, name: name@ },
            ContentBlockType::Thinking => BlockTypeView::Thinking,
            ContentBlockType::Image { media_type } => BlockTypeView::Image { media_type: media_type@ },
            ContentBlockType::Document { doc_type } => BlockTypeView::Document { doc_type: doc_type@ },
        }
    }
}

/// The mathematical value of a delta.
pub enum DeltaView {
    TextDelta(Seq<char>),
    InputJsonDelta(Seq<char>),
    ThinkingDelta(Seq<char>),
}

impl View for Delta {
    type V = DeltaView;

    open spec fn view(&self) -> DeltaView {
        match self {
            Delta::TextDelta(s) => DeltaView::TextDelta(s@),
            Delta::InputJsonDelta(s) => DeltaView::InputJsonDelta(s@),
            Delta::ThinkingDelta(s) => DeltaView::ThinkingDelta(s@),
        }
    }
}

/// The mathematical value of an event: its strings as character sequences.
pub enum EventView {
    MessageStart { message_id: Seq<char>, model: Seq<char>, usage: Option<Usage> },
    ContentBlockStart { index: usize, block_type: BlockTypeView },
    ContentBlockDelta { index: usize, delta: DeltaView },
    ContentBlockStop { index: usize },
    MessageDelta { stop_reason: Option<Seq<char>>, usage: Option<Usage> },
    MessageStop,
    SystemInit { slash_commands: Seq<Seq<char>>, session_id: Option<Seq<char>> },
    SystemHook { subtype: Seq<char>, hook_id: Option<Seq<char>> },
    Result { text: Seq<char>, is_error: bool },
    ToolResult { tool_use_id: Seq<char>, content: Seq<char>, is_error: bool },
    Unknown(Seq<char>),
}

impl View for StreamEvent {
    type V = EventView;

    open spec fn view(&self) -> EventView {
        match self {
            StreamEvent::MessageStart { message_id, model, usage } => EventView::MessageStart {
                message_id: message_id@,
                model: model@,
                usage: *usage,
            },
            StreamEvent::ContentBlockStart { index, block_type } => EventView::ContentBlockStart {
                index: *index,
                block_type: block_type@,
            },
            StreamEvent::ContentBlockDelta { index, delta } => EventView::ContentBlockDelta {
                index: *index,
                delta: delta@,
            },
            StreamEvent::ContentBlockStop { index } => EventView::ContentBlockStop { index: *index },
            StreamEvent::MessageDelta { stop_reason, usage } => EventView::MessageDelta {
                stop_reason: opt_chars(*stop_reason),
                usage: *usage,
            },
            StreamEvent::MessageStop => EventView::MessageStop,
            StreamEvent::SystemInit { slash_commands, session_id } => EventView::SystemInit {
                slash_commands: chars_of_all(slash_commands@),
                session_id: opt_chars(*session_id),
            },
            StreamEvent::SystemHook { subtype, hook_id } => EventView::SystemHook {
                subtype: subtype@,
                hook_id: opt_chars(*hook_id),
            },
            StreamEvent::Result { text, is_error } => EventView::Result {
                text: text@,
                is_error: *is_error,
            },
            StreamEvent::ToolResult { tool_use_id, content, is_error } => EventView::ToolResult {
                tool_use_id: tool_use_id@,
                content: content@,
                is_error: *is_error,
            },
            StreamEvent::Unknown(s) => EventView::Unknown(s@),
        }
    }
}

// ---------------------------------------------------------------------------
// The raw Anthropic streaming event, as a derived `Deserialize` reads it
// ---------------------------------------------------------------------------

/// Token counts as they appear in the stream; both may be missing.
#[derive(Debug, Clone, Copy, PartialEq, Eq)]
pub struct RawUsage {
    pub input_tokens: Option<u64>,
    pub output_tokens: Option<u64>,
}

/// The `message` of a `message_start` event.
pub struct RawMessage {
    pub id: String,
    pub model: String,
    pub usage: Option<RawUsage>,
}

/// The `content_block` of a `content_block_start` event.
pub struct RawContentBlock {
    pub block_type: String,
    pub id: Option<String>,
    pub name: Option<String>,
}

/// The `delta` of a `content_block_delta` or `message_delta` event.
pub struct RawDelta {
    pub delta_type: Option<String>,
    pub text: Option<String>,
    pub partial_json: Option<String>,
    pub stop_reason: Option<String>,
    /// Thinking delta text
    pub thinking: Option<String>,
}

/// An Anthropic streaming event before interpretation.
pub struct RawEvent {
    pub event_type: String,
    pub message: Option<RawMessage>,
    pub index: Option<usize>,
    pub content_block: Option<RawContentBlock>,
    pub delta: Option<RawDelta>,
    pub usage: Option<RawUsage>,
}

pub struct RawMessageView {
    pub id: Seq<char>,
    pub model: Seq<char>,
    pub usage: Option<RawUsage>,
}

pub struct RawContentBlockView {
    pub block_type: Seq<char>,
    pub id: Option<Seq<char>>,
    pub name: Option<Seq<char>>,
}

pub struct RawDeltaView {
    pub delta_type: Option<Seq<char>>,
    pub text: Option<Seq<char>>,
    pub partial_json: Option<Seq<char>>,
    pub stop_reason: Option<Seq<char>>,
    pub thinking: Option<Seq<char>>,
}

pub struct RawEventView {
    pub event_type: Seq<char>,
    pub message: Option<RawMessageView>,
    pub index: Option<usize>,
    pub content_block: Option<RawContentBlockView>,
    pub delta: Option<RawDeltaView>,
    pub usage: Option<RawUsage>,
}

impl View for RawMessage {
    type V = RawMessageView;

    open spec fn view(&self) -> RawMessageView {
        RawMessageView { id: self.id@, model: self.model@, usage: self.usage }
    }
}

impl View for RawContentBlock {
    type V = RawContentBlockView;

    open spec fn view(&self) -> RawContentBlockView {
        RawContentBlockView {
            block_type: self.block_type@,
            id: opt_chars(self.id),
            name: opt_chars(self.name),
        }
    }
}

impl View for RawDelta {
    type V = RawDeltaView;

    open spec fn view(&self) -> RawDeltaView {
        RawDeltaView {
            delta_type: opt_chars(self.delta_type),
            text: opt_chars(self.text),
            partial_json: opt_chars(self.partial_json),
            stop_reason: opt_chars(self.stop_reason),
            thinking: opt_chars(self.thinking),
        }
    }
}

impl View for RawEvent {
    type V = RawEventView;

    open spec fn view(&self) -> RawEventView {
        RawEventView {
            event_type: self.event_type@,
            message: match self.message {
                Some(m) => Some(m@),
                None => None,
            },
            index: self.index,
            content_block: match self.content_block {
                Some(b) => Some(b@),
                None => None,
            },
            delta: match self.delta {
                Some(d) => Some(d@),
                None => None,
            },
            usage: self.usage,
        }
    }
}

/// `RawUsage` read from a value: a struct of two optional `u64`s.
pub open spec fn usage_from(v: JsonValue) -> Option<RawUsage> {
    match (
        field_spec(v, 0, 2, "input_tokens"@),
        field_spec(v, 1, 2, "output_tokens"@),
    ) {
        (Some(a), Some(b)) => match (opt_u64_spec(a), opt_u64_spec(b)) {
            (Some(i), Some(o)) => Some(RawUsage { input_tokens: i, output_tokens: o }),
            _ => None,
        },
        _ => None,
    }
}

/// An `Option<RawUsage>` field.
pub open spec fn opt_usage_spec(f: Option<JsonValue>) -> Option<Option<RawUsage>> {
    match opt_any_spec(f) {
        None => Some(None),
        Some(v) => match usage_from(v) {
            Some(u) => Some(Some(u)),
            None => None,
        },
    }
}

/// `RawMessage` read from a value.
pub open spec fn message_from(v: JsonValue) -> Option<RawMessageView> {
    match (
        field_spec(v, 0, 3, "id"@),
        field_spec(v, 1, 3, "model"@),
        field_spec(v, 2, 3, "usage"@),
    ) {
        (Some(a), Some(b), Some(c)) => match (req_string_spec(a), req_string_spec(b), opt_usage_spec(c)) {
            (Some(id), Some(model), Some(usage)) => Some(RawMessageView { id, model, usage }),
            _ => None,
        },
        _ => None,
    }
}

/// `RawContentBlock` read from a value.
pub open spec fn block_from(v: JsonValue) -> Option<RawContentBlockView> {
    match (
        field_spec(v, 0, 3, "type"@),
        field_spec(v, 1, 3, "id"@),
        field_spec(v, 2, 3, "name"@),
    ) {
        (Some(a), Some(b), Some(c)) => match (req_string_spec(a), opt_string_spec(b), opt_string_spec(c)) {
            (Some(block_type), Some(id), Some(name)) => Some(RawContentBlockView { block_type, id, name }),
            _ => None,
        },
        _ => None,
    }
}

/// `RawDelta` read from a value.
pub open spec fn delta_from(v: JsonValue) -> Option<RawDeltaView> {
    match (
        field_spec(v, 0, 5, "type"@),
        field_spec(v, 1, 5, "text"@),
        field_spec(v, 2, 5, "partial_json"@),
        field_spec(v, 3, 5, "stop_reason"@),
        field_spec(v, 4, 5, "thinking"@),
    ) {
        (Some(a), Some(b), Some(c), Some(d), Some(e)) => match (
            opt_string_spec(a),
            opt_string_spec(b),
            opt_string_spec(c),
            opt_string_spec(d),
            opt_string_spec(e),
        ) {
            (Some(delta_type), Some(text), Some(partial_json), Some(stop_reason), Some(thinking)) =>
                Some(RawDeltaView { delta_type, text, partial_json, stop_reason, thinking }),
            _ => None,
        },
        _ => None,
    }
}

/// An optional nested struct field: absent or `null` is `None`, otherwise
/// it must read as the struct.
pub open spec fn opt_message_spec(f: Option<JsonValue>) -> Option<Option<RawMessageView>> {
    match opt_any_spec(f) {
        None => Some(None),
        Some(v) => match message_from(v) {
            Some(m) => Some(Some(m)),
            None => None,
        },
    }
}

pub open spec fn opt_block_spec(f: Option<JsonValue>) -> Option<Option<RawContentBlockView>> {
    match opt_any_spec(f) {
        None => Some(None),
        Some(v) => match block_from(v) {
            Some(m) => Some(Some(m)),
            None => None,
        },
    }
}

pub open spec fn opt_delta_spec(f: Option<JsonValue>) -> Option<Option<RawDeltaView>> {
    match opt_any_spec(f) {
        None => Some(None),
        Some(v) => match delta_from(v) {
            Some(m) => Some(Some(m)),
            None => None,
        },
    }
}

/// `RawEvent` read from a value.
pub open spec fn raw_event_from(v: JsonValue) -> Option<RawEventView> {
    match (
        field_spec(v, 0, 6, "type"@),
        field_spec(v, 1, 6, "message"@),
        field_spec(v, 2, 6, "index"@),
        field_spec(v, 3, 6, "content_block"@),
        field_spec(v, 4, 6, "delta"@),
        field_spec(v, 5, 6, "usage"@),
    ) {
        (Some(a), Some(b), Some(c), Some(d), Some(e), Some(f)) => match (
            req_string_spec(a),
            opt_message_spec(b),
            opt_usize_spec(c),
            opt_block_spec(d),
            opt_delta_spec(e),
            opt_usage_spec(f),
        ) {
            (Some(event_type), Some(message), Some(index), Some(content_block), Some(delta), Some(usage)) =>
                Some(RawEventView { event_type, message, index, content_block, delta, usage }),
            _ => None,
        },
        _ => None,
    }
}

} // verus!

verus! {

/// Reads a `RawUsage`.
fn read_usage(v: &JsonValue) -> (r: Option<RawUsage>)
    ensures
        r == usage_from(*v),
{
    let a = field(v, 0, 2, "input_tokens")?;
    let b = field(v, 1, 2, "output_tokens")?;
    let input_tokens = opt_u64(a)?;
    let output_tokens = opt_u64(b)?;
    Some(RawUsage { input_tokens, output_tokens })
}

/// Reads an `Option<RawUsage>` field.
fn read_opt_usage(f: Option<&JsonValue>) -> (r: Option<Option<RawUsage>>)
    ensures
        r == opt_usage_spec(opt_val(f)),
{
    match opt_any(f) {
        None => Some(None),
        Some(v) => match read_usage(v) {
            Some(u) => Some(Some(u)),
            None => None,
        },
    }
}

/// The views of an optional nested struct.
pub open spec fn opt_message_view(o: Option<RawMessage>) -> Option<RawMessageView> {
    match o {
        Some(m) => Some(m@),
        None => None,
    }
}

pub open spec fn opt_block_view(o: Option<RawContentBlock>) -> Option<RawContentBlockView> {
    match o {
        Some(m) => Some(m@),
        None => None,
    }
}

pub open spec fn opt_delta_view(o: Option<RawDelta>) -> Option<RawDeltaView> {
    match o {
        Some(m) => Some(m@),
        None => None,
    }
}

/// Reads an `Option<RawMessage>` field.
fn read_opt_message(f: Option<&JsonValue>) -> (r: Option<Option<RawMessage>>)
    ensures
        match r {
            Some(o) => opt_message_spec(opt_val(f)) == Some(opt_message_view(o)),
            None => opt_message_spec(opt_val(f)) is None,
        },
{
    match opt_any(f) {
        None => Some(None),
        Some(v) => {
            let a = field(v, 0, 3, "id")?;
            let b = field(v, 1, 3, "model")?;
            let c = field(v, 2, 3, "usage")?;
            let id = req_string(a)?;
            let model = req_string(b)?;
            let usage = read_opt_usage(c)?;
            Some(Some(RawMessage { id, model, usage }))
        },
    }
}

/// Reads an `Option<RawContentBlock>` field.
fn read_opt_block(f: Option<&JsonValue>) -> (r: Option<Option<RawContentBlock>>)
    ensures
        match r {
            Some(o) => opt_block_spec(opt_val(f)) == Some(opt_block_view(o)),
            None => opt_block_spec(opt_val(f)) is None,
        },
{
    match opt_any(f) {
        None => Some(None),
        Some(v) => {
            let a = field(v, 0, 3, "type")?;
            let b = field(v, 1, 3, "id")?;
            let c = field(v, 2, 3, "name")?;
            let block_type = req_string(a)?;
            let id = opt_string(b)?;
            let name = opt_string(c)?;
            Some(Some(RawContentBlock { block_type, id, name }))
        },
    }
}

/// Reads an `Option<RawDelta>` field.
fn read_opt_delta(f: Option<&JsonValue>) -> (r: Option<Option<RawDelta>>)
    ensures
        match r {
            Some(o) => opt_delta_spec(opt_val(f)) == Some(opt_delta_view(o)),
            None => opt_delta_spec(opt_val(f)) is None,
        },
{
    match opt_any(f) {
        None => Some(None),
        Some(v) => {
            let a = field(v, 0, 5, "type")?;
            let b = field(v, 1, 5, "text")?;
            let c = field(v, 2, 5, "partial_json")?;
            let d = field(v, 3, 5, "stop_reason")?;
            let e = field(v, 4, 5, "thinking")?;
            let delta_type = opt_string(a)?;
            let text = opt_string(b)?;
            let partial_json = opt_string(c)?;
            let stop_reason = opt_string(d)?;
            let thinking = opt_string(e)?;
            Some(Some(RawDelta { delta_type, text, partial_json, stop_reason, thinking }))
        },
    }
}

/// Reads a `RawEvent` from a JSON value, as a derived `Deserialize` would.
pub fn read_raw_event(v: &JsonValue) -> (r: Option<RawEvent>)
    ensures
        match r {
            Some(e) => raw_event_from(*v) == Some(e@),
            None => raw_event_from(*v) is None,
        },
{
    let a = field(v, 0, 6, "type")?;
    let b = field(v, 1, 6, "message")?;
    let c = field(v, 2, 6, "index")?;
    let d = field(v, 3, 6, "content_block")?;
    let e = field(v, 4, 6, "delta")?;
    let f = field(v, 5, 6, "usage")?;
    let event_type = req_string(a)?;
    let message = read_opt_message(b)?;
    let index = opt_usize(c)?;
    let content_block = read_opt_block(d)?;
    let delta = read_opt_delta(e)?;
    let usage = read_opt_usage(f)?;
    Some(RawEvent { event_type, message, index, content_block, delta, usage })
}

} // verus!

verus! {

/// Token counts with a missing count read as zero.
pub open spec fn usage_of(u: RawUsage) -> Usage {
    Usage {
        input_tokens: match u.input_tokens {
            Some(n) => n,
            None => 0,
        },
        output_tokens: match u.output_tokens {
            Some(n) => n,
            None => 0,
        },
    }
}

/// A missing string read as the empty string.
pub open spec fn or_empty(o: Option<Seq<char>>) -> Seq<char> {
    match o {
        Some(s) => s,
        None => seq![],
    }
}

/// The meaning of a raw streaming event; anything not understood is
/// `Unknown(line)`.
pub open spec fn interpret_raw_event(raw: RawEventView, line: Seq<char>) -> EventView {
    let t = raw.event_type;
    let index: usize = match raw.index {
        Some(i) => i,
        None => 0,
    };
    if t == "message_start"@ {
        match raw.message {
            Some(m) => EventView::MessageStart {
                message_id: m.id,
                model: m.model,
                usage: match m.usage {
                    Some(u) => Some(usage_of(u)),
                    None => None,
                },
            },
            None => EventView::Unknown(line),
        }
    } else if t == "content_block_start"@ {
        match raw.content_block {
            Some(b) => if b.block_type == "text"@ {
                EventView::ContentBlockStart { index, block_type: BlockTypeView::Text }
            } else if b.block_type == "tool_use"@ {
                EventView::ContentBlockStart {
                    index,
                    block_type: BlockTypeView::ToolUse { id: or_empty(b.id), name: or_empty(b.name) },
                }
            } else if b.block_type == "thinking"@ {
                EventView::ContentBlockStart { index, block_type: BlockTypeView::Thinking }
            } else {
                EventView::Unknown(line)
            },
            None => EventView::Unknown(line),
        }
    } else if t == "content_block_delta"@ {
        match raw.delta {
            Some(d) => match d.delta_type {
                Some(dt) => if dt == "text_delta"@ {
                    EventView::ContentBlockDelta { index, delta: DeltaView::TextDelta(or_empty(d.text)) }
                } else if dt == "input_json_delta"@ {
                    EventView::ContentBlockDelta {
                        index,
                        delta: DeltaView::InputJsonDelta(or_empty(d.partial_json)),
                    }
                } else if dt == "thinking_delta"@ {
                    EventView::ContentBlockDelta {
                        index,
                        delta: DeltaView::ThinkingDelta(
                            or_empty(
                                if d.thinking is Some {
                                    d.thinking
                                } else {
                                    d.text
                                },
                            ),
                        ),
                    }
                } else {
                    EventView::Unknown(line)
                },
                None => EventView::Unknown(line),
            },
            None => EventView::Unknown(line),
        }
    } else if t == "content_block_stop"@ {
        EventView::ContentBlockStop { index }
    } else if t == "message_delta"@ {
        EventView::MessageDelta {
            stop_reason: match raw.delta {
                Some(d) => d.stop_reason,
                None => None,
            },
            usage: match raw.usage {
                Some(u) => Some(usage_of(u)),
                None => None,
            },
        }
    } else if t == "message_stop"@ {
        EventView::MessageStop
    } else {
        EventView::Unknown(line)
    }
}

/// A string, or the empty string when missing.
fn string_or_empty(o: Option<String>) -> (s: String)
    ensures
        s@ == or_empty(opt_chars(o)),
{
    match o {
        Some(s) => s,
        None => String::new(),
    }
}

/// Token counts with missing counts as zero.
fn to_usage(u: RawUsage) -> (r: Usage)
    ensures
        r == usage_of(u),
{
    Usage {
        input_tokens: match u.input_tokens {
            Some(n) => n,
            None => 0,
        },
        output_tokens: match u.output_tokens {
            Some(n) => n,
            None => 0,
        },
    }
}

/// Interpret an Anthropic streaming event.
pub fn parse_raw_event(raw: RawEvent, line: &str) -> (e: StreamEvent)
    ensures
        e@ == interpret_raw_event(raw@, line@),
{
    let index: usize = match raw.index {
        Some(i) => i,
        None => 0,
    };
    let t = raw.event_type.as_str();
    if str_eq(t, "message_start") {
        match raw.message {
            Some(m) => StreamEvent::MessageStart {
                message_id: m.id,
                model: m.model,
                usage: match m.usage {
                    Some(u) => Some(to_usage(u)),
                    None => None,
                },
            },
            None => StreamEvent::Unknown(owned(line)),
        }
    } else if str_eq(t, "content_block_start") {
        match raw.content_block {
            Some(b) => {
                if str_eq(b.block_type.as_str(), "text") {
                    StreamEvent::ContentBlockStart { index, block_type: ContentBlockType::Text }
                } else if str_eq(b.block_type.as_str(), "tool_use") {
                    StreamEvent::ContentBlockStart {
                        index,
                        block_type: ContentBlockType::ToolUse {
                            id: string_or_empty(b.id),
                            name: string_or_empty(b.name),
                        },
                    }
                } else if str_eq(b.block_type.as_str(), "thinking") {
                    StreamEvent::ContentBlockStart { index, block_type: ContentBlockType::Thinking }
                } else {
                    StreamEvent::Unknown(owned(line))
                }
            },
            None => StreamEvent::Unknown(owned(line)),
        }
    } else if str_eq(t, "content_block_delta") {
        match raw.delta {
            Some(d) => match d.delta_type {
                Some(dt) => {
                    if str_eq(dt.as_str(), "text_delta") {
                        StreamEvent::ContentBlockDelta {
                            index,
                            delta: Delta::TextDelta(string_or_empty(d.text)),
                        }
                    } else if str_eq(dt.as_str(), "input_json_delta") {
                        StreamEvent::ContentBlockDelta {
                            index,
                            delta: Delta::InputJsonDelta(string_or_empty(d.partial_json)),
                        }
                    } else if str_eq(dt.as_str(), "thinking_delta") {
                        let chosen = match d.thinking {
                            Some(th) => Some(th),
                            None => d.text,
                        };
                        StreamEvent::ContentBlockDelta {
                            index,
                            delta: Delta::ThinkingDelta(string_or_empty(chosen)),
                        }
                    } else {
                        StreamEvent::Unknown(owned(line))
                    }
                },
                None => StreamEvent::Unknown(owned(line)),
            },
            None => StreamEvent::Unknown(owned(line)),
        }
    } else if str_eq(t, "content_block_stop") {
        StreamEvent::ContentBlockStop { index }
    } else if str_eq(t, "message_delta") {
        let usage = match raw.usage {
            Some(u) => Some(to_usage(u)),
            None => None,
        };
        let stop_reason = match raw.delta {
            Some(d) => d.stop_reason,
            None => None,
        };
        StreamEvent::MessageDelta { stop_reason, usage }
    } else if str_eq(t, "message_stop") {
        StreamEvent::MessageStop
    } else {
        StreamEvent::Unknown(owned(line))
    }
}

} // verus!

verus! {

// ---------------------------------------------------------------------------
// The CLI envelope around each event
// ---------------------------------------------------------------------------

/// The top-level object of one line of the CLI's stream-json output.
pub struct Envelope<'a> {
    pub envelope_type: String,
    /// The inner event when the envelope type is "stream_event".
    pub event: Option<&'a JsonValue>,
    /// Subtype for system events (e.g. "init", "hook_started").
    pub subtype: Option<String>,
    /// Slash commands from system.init.
    pub slash_commands: Option<Vec<String>>,
    /// Session ID from system.init.
    pub session_id: Option<String>,
    /// Hook ID for system hook events.
    pub hook_id: Option<String>,
    /// Message field of "assistant" and "user" envelopes.
    pub message: Option<&'a JsonValue>,
    /// Result text of a "result" envelope.
    pub result: Option<String>,
    /// Whether the result is an error.
    pub is_error: Option<bool>,
    /// Structured tool result metadata.
    pub tool_use_result: Option<&'a JsonValue>,
}

pub struct EnvelopeView {
    pub envelope_type: Seq<char>,
    pub event: Option<JsonValue>,
    pub subtype: Option<Seq<char>>,
    pub slash_commands: Option<Seq<Seq<char>>>,
    pub session_id: Option<Seq<char>>,
    pub hook_id: Option<Seq<char>>,
    pub message: Option<JsonValue>,
    pub result: Option<Seq<char>>,
    pub is_error: Option<bool>,
    pub tool_use_result: Option<JsonValue>,
}

impl<'a> View for Envelope<'a> {
    type V = EnvelopeView;

    open spec fn view(&self) -> EnvelopeView {
        EnvelopeView {
            envelope_type: self.envelope_type@,
            event: opt_val(self.event),
            subtype: opt_chars(self.subtype),
            slash_commands: match self.slash_commands {
                Some(v) => Some(chars_of_all(v@)),
                None => None,
            },
            session_id: opt_chars(self.session_id),
            hook_id: opt_chars(self.hook_id),
            message: opt_val(self.message),
            result: opt_chars(self.result),
            is_error: self.is_error,
            tool_use_result: opt_val(self.tool_use_result),
        }
    }
}

/// The envelope read from a value, as a derived `Deserialize` reads it.
pub open spec fn envelope_from(v: JsonValue) -> Option<EnvelopeView> {
    let fs = seq![
        field_spec(v, 0, 10, "type"@),
        field_spec(v, 1, 10, "event"@),
        field_spec(v, 2, 10, "subtype"@),
        field_spec(v, 3, 10, "slash_commands"@),
        field_spec(v, 4, 10, "session_id"@),
        field_spec(v, 5, 10, "hook_id"@),
        field_spec(v, 6, 10, "message"@),
        field_spec(v, 7, 10, "result"@),
        field_spec(v, 8, 10, "is_error"@),
        field_spec(v, 9, 10, "tool_use_result"@),
    ];
    if forall|i: int| 0 <= i < 10 ==> #[trigger] fs[i] is Some {
        let envelope_type = req_string_spec(fs[0]->Some_0);
        let subtype = opt_string_spec(fs[2]->Some_0);
        let slash_commands = opt_strings_spec(fs[3]->Some_0);
        let session_id = opt_string_spec(fs[4]->Some_0);
        let hook_id = opt_string_spec(fs[5]->Some_0);
        let result = opt_string_spec(fs[7]->Some_0);
        let is_error = opt_bool_spec(fs[8]->Some_0);
        if envelope_type is Some && subtype is Some && slash_commands is Some && session_id is Some
            && hook_id is Some && result is Some && is_error is Some {
            Some(
                EnvelopeView {
                    envelope_type: envelope_type->Some_0,
                    event: opt_any_spec(fs[1]->Some_0),
                    subtype: subtype->Some_0,
                    slash_commands: slash_commands->Some_0,
                    session_id: session_id->Some_0,
                    hook_id: hook_id->Some_0,
                    message: opt_any_spec(fs[6]->Some_0),
                    result: result->Some_0,
                    is_error: is_error->Some_0,
                    tool_use_result: opt_any_spec(fs[9]->Some_0),
                },
            )
        } else {
            None
        }
    } else {
        None
    }
}

/// Reads the envelope of a stream-json line.
pub fn read_envelope<'a>(v: &'a JsonValue) -> (r: Option<Envelope<'a>>)
    ensures
        match r {
            Some(e) => envelope_from(*v) == Some(e@),
            None => envelope_from(*v) is None,
        },
{
    let f0 = field(v, 0, 10, "type");
    let f1 = field(v, 1, 10, "event");
    let f2 = field(v, 2, 10, "subtype");
    let f3 = field(v, 3, 10, "slash_commands");
    let f4 = field(v, 4, 10, "session_id");
    let f5 = field(v, 5, 10, "hook_id");
    let f6 = field(v, 6, 10, "message");
    let f7 = field(v, 7, 10, "result");
    let f8 = field(v, 8, 10, "is_error");
    let f9 = field(v, 9, 10, "tool_use_result");
    let ghost fs = seq![
        field_spec(*v, 0, 10, "type"@),
        field_spec(*v, 1, 10, "event"@),
        field_spec(*v, 2, 10, "subtype"@),
        field_spec(*v, 3, 10, "slash_commands"@),
        field_spec(*v, 4, 10, "session_id"@),
        field_spec(*v, 5, 10, "hook_id"@),
        field_spec(*v, 6, 10, "message"@),
        field_spec(*v, 7, 10, "result"@),
        field_spec(*v, 8, 10, "is_error"@),
        field_spec(*v, 9, 10, "tool_use_result"@),
    ];
    if f0.is_none() || f1.is_none() || f2.is_none() || f3.is_none() || f4.is_none()
        || f5.is_none() || f6.is_none() || f7.is_none() || f8.is_none() || f9.is_none() {
        proof {
            if f0.is_none() {
                assert(!(fs[0] is Some));
            } else if f1.is_none() {
                assert(!(fs[1] is Some));
            } else if f2.is_none() {
                assert(!(fs[2] is Some));
            } else if f3.is_none() {
                assert(!(fs[3] is Some));
            } else if f4.is_none() {
                assert(!(fs[4] is Some));
            } else if f5.is_none() {
                assert(!(fs[5] is Some));
            } else if f6.is_none() {
                assert(!(fs[6] is Some));
            } else if f7.is_none() {
                assert(!(fs[7] is Some));
            } else if f8.is_none() {
                assert(!(fs[8] is Some));
            } else {
                assert(!(fs[9] is Some));
            }
        }
        return None;
    }
    let (f0, f1, f2, f3, f4, f5, f6, f7, f8, f9) = (
        f0.unwrap(),
        f1.unwrap(),
        f2.unwrap(),
        f3.unwrap(),
        f4.unwrap(),
        f5.unwrap(),
        f6.unwrap(),
        f7.unwrap(),
        f8.unwrap(),
        f9.unwrap(),
    );
    assert(forall|i: int| 0 <= i < 10 ==> #[trigger] fs[i] is Some);
    let envelope_type = req_string(f0);
    let subtype = opt_string(f2);
    let slash_commands = opt_strings(f3);
    let session_id = opt_string(f4);
    let hook_id = opt_string(f5);
    let result = opt_string(f7);
    let is_error = opt_bool(f8);
    if envelope_type.is_none() || subtype.is_none() || slash_commands.is_none()
        || session_id.is_none() || hook_id.is_none() || result.is_none() || is_error.is_none() {
        return None;
    }
    let e = Envelope {
        envelope_type: envelope_type.unwrap(),
        event: opt_any(f1),
        subtype: subtype.unwrap(),
        slash_commands: slash_commands.unwrap(),
        session_id: session_id.unwrap(),
        hook_id: hook_id.unwrap(),
        message: opt_any(f6),
        result: result.unwrap(),
        is_error: is_error.unwrap(),
        tool_use_result: opt_any(f9),
    };
    Some(e)
}

} // verus!

verus! {

/// `get` applied to an optional value.
pub open spec fn get_opt(v: Option<JsonValue>, key: Seq<char>) -> Option<JsonValue> {
    match v {
        Some(x) => get_spec(x, key),
        None => None,
    }
}

/// The first element whose `"type"` is the string `"tool_result"`.
pub open spec fn first_tool_result(items: Seq<JsonValue>) -> Option<JsonValue>
    decreases items.len(),
{
    if items.len() == 0 {
        None
    } else if as_str_spec(get_spec(items[0], "type"@)) == Some("tool_result"@) {
        Some(items[0])
    } else {
        first_tool_result(items.drop_first())
    }
}

/// Clean tool output from the `tool_use_result` metadata: a file's
/// `file.content`, else a direct `text`.
pub open spec fn clean_content(meta: Option<JsonValue>) -> Option<Seq<char>> {
    match meta {
        None => None,
        Some(m) => match as_str_spec(get_opt(get_spec(m, "file"@), "content"@)) {
            Some(c) => Some(c),
            None => as_str_spec(get_spec(m, "text"@)),
        },
    }
}

/// The tool result a `"user"` envelope carries: its first `tool_result`
/// content item, preferring clean content from the metadata.
pub open spec fn tool_result_event(env: EnvelopeView, line: Seq<char>) -> EventView {
    match env.message {
        None => EventView::Unknown(line),
        Some(msg) => match get_spec(msg, "content"@) {
            Some(JsonValue::Array(items)) => match first_tool_result(items@) {
                None => EventView::Unknown(line),
                Some(item) => EventView::ToolResult {
                    tool_use_id: or_empty(as_str_spec(get_spec(item, "tool_use_id"@))),
                    content: match clean_content(env.tool_use_result) {
                        Some(c) => c,
                        None => or_empty(as_str_spec(get_spec(item, "content"@))),
                    },
                    is_error: match as_bool_spec(get_spec(item, "is_error"@)) {
                        Some(b) => b,
                        None => false,
                    },
                },
            },
            _ => EventView::Unknown(line),
        },
    }
}

/// The event one stream-json line stands for, given what the line parses to.
pub open spec fn event_of_json(j: Option<JsonValue>, line: Seq<char>) -> EventView {
    match j {
        None => EventView::Unknown(line),
        Some(v) => match envelope_from(v) {
            None => EventView::Unknown(line),
            Some(env) => {
                let t = env.envelope_type;
                if t == "stream_event"@ {
                    match env.event {
                        None => EventView::Unknown(line),
                        Some(inner) => match raw_event_from(inner) {
                            None => EventView::Unknown(line),
                            Some(raw) => interpret_raw_event(raw, line),
                        },
                    }
                } else if t == "system"@ && env.subtype == Some("init"@) {
                    EventView::SystemInit {
                        slash_commands: match env.slash_commands {
                            Some(c) => c,
                            None => seq![],
                        },
                        session_id: env.session_id,
                    }
                } else if t == "system"@ {
                    EventView::SystemHook { subtype: or_empty(env.subtype), hook_id: env.hook_id }
                } else if t == "result"@ {
                    EventView::Result {
                        text: or_empty(env.result),
                        is_error: match env.is_error {
                            Some(b) => b,
                            None => false,
                        },
                    }
                } else if t == "user"@ {
                    tool_result_event(env, line)
                } else if t == "assistant"@ {
                    EventView::Unknown(line)
                } else {
                    match raw_event_from(v) {
                        None => EventView::Unknown(line),
                        Some(raw) => interpret_raw_event(raw, line),
                    }
                }
            },
        },
    }
}

/// `get` on an optional value.
fn get_in<'a>(v: Option<&'a JsonValue>, key: &str) -> (r: Option<&'a JsonValue>)
    ensures
        opt_val(r) == get_opt(opt_val(v), key@),
{
    match v {
        Some(x) => get(x, key),
        None => None,
    }
}

/// Clean content from tool result metadata, when it has some.
pub fn extract_clean_content(meta: Option<&JsonValue>) -> (r: Option<String>)
    ensures
        opt_chars(r) == clean_content(opt_val(meta)),
{
    let m = meta?;
    match as_str(get_in(get(m, "file"), "content")) {
        Some(c) => Some(owned(c)),
        None => match as_str(get(m, "text")) {
            Some(t) => Some(owned(t)),
            None => None,
        },
    }
}

/// A string value, or the empty string.
fn str_or_empty(s: Option<&str>) -> (r: String)
    ensures
        r@ == or_empty(
            match s {
                Some(x) => Some(x@),
                None => None,
            },
        ),
{
    match s {
        Some(x) => owned(x),
        None => String::new(),
    }
}

/// The tool result of a `{"type":"user"}` envelope.
pub fn parse_tool_result(env: &Envelope, line: &str) -> (e: StreamEvent)
    ensures
        e@ == tool_result_event(env@, line@),
{
    let msg = match env.message {
        Some(m) => m,
        None => {
            return StreamEvent::Unknown(owned(line));
        },
    };
    let items = match get(msg, "content") {
        Some(JsonValue::Array(a)) => a,
        _ => {
            return StreamEvent::Unknown(owned(line));
        },
    };
    let mut i: usize = 0;
    assert(items@.skip(0) =~= items@);
    while i < items.len()
        invariant
            i <= items.len(),
            first_tool_result(items@) == first_tool_result(items@.skip(i as int)),
            get_spec(*msg, "content"@) == Some(JsonValue::Array(*items)),
            env@.message == Some(*msg),
        decreases items.len() - i,
    {
        let item = &items[i];
        assert(items@.skip(i as int)[0] == items@[i as int]);
        assert(items@.skip(i as int).drop_first() =~= items@.skip(i + 1));
        let is_tool_result = match as_str(get(item, "type")) {
            Some(t) => str_eq(t, "tool_result"),
            None => false,
        };
        if is_tool_result {
            let tool_use_id = str_or_empty(as_str(get(item, "tool_use_id")));
            let is_error = match as_bool(get(item, "is_error")) {
                Some(b) => b,
                None => false,
            };
            let content = match extract_clean_content(env.tool_use_result) {
                Some(c) => c,
                None => str_or_empty(as_str(get(item, "content"))),
            };
            return StreamEvent::ToolResult { tool_use_id, content, is_error };
        }
        i = i + 1;
    }
    StreamEvent::Unknown(owned(line))
}

/// The event a stream-json line stands for, given its parsed JSON (`None`
/// when the line is not JSON).
pub fn event_of_value(json: Option<&JsonValue>, line: &str) -> (e: StreamEvent)
    ensures
        e@ == event_of_json(opt_val(json), line@),
{
    let v = match json {
        Some(v) => v,
        None => {
            return StreamEvent::Unknown(owned(line));
        },
    };
    let env = match read_envelope(v) {
        Some(e) => e,
        None => {
            return StreamEvent::Unknown(owned(line));
        },
    };
    let t = env.envelope_type.as_str();
    if str_eq(t, "stream_event") {
        match env.event {
            None => StreamEvent::Unknown(owned(line)),
            Some(inner) => match read_raw_event(inner) {
                None => StreamEvent::Unknown(owned(line)),
                Some(raw) => parse_raw_event(raw, line),
            },
        }
    } else if str_eq(t, "system") && match &env.subtype {
        Some(s) => str_eq(s.as_str(), "init"),
        None => false,
    } {
        let slash_commands = match env.slash_commands {
            Some(c) => c,
            None => {
                let empty: Vec<String> = Vec::new();
                assert(chars_of_all(empty@) =~= Seq::<Seq<char>>::empty());
                empty
            },
        };
        StreamEvent::SystemInit { slash_commands, session_id: env.session_id }
    } else if str_eq(t, "system") {
        StreamEvent::SystemHook { subtype: string_or_empty(env.subtype), hook_id: env.hook_id }
    } else if str_eq(t, "result") {
        let is_error = match env.is_error {
            Some(b) => b,
            None => false,
        };
        StreamEvent::Result { text: string_or_empty(env.result), is_error }
    } else if str_eq(t, "user") {
        parse_tool_result(&env, line)
    } else if str_eq(t, "assistant") {
        StreamEvent::Unknown(owned(line))
    } else {
        match read_raw_event(v) {
            None => StreamEvent::Unknown(owned(line)),
            Some(raw) => parse_raw_event(raw, line),
        }
    }
}

/// Parse one line of the CLI's stream-json output into an event. Lines that
/// are not JSON, or that carry nothing this library understands, become
/// `StreamEvent::Unknown` holding the line.
pub fn parse_event(line: &str) -> (e: StreamEvent)
    ensures
        e@ == event_of_json(spec_parse_json(line@), line@),
{
    let json = parse_json(line);
    match &json {
        Some(v) => event_of_value(Some(v), line),
        None => event_of_value(None, line),
    }
}

/// A `content_block_delta` whose delta is an `input_json_delta` becomes an
/// input-JSON delta carrying exactly the delta's `partial_json` (empty only
/// where it is missing), at the event's index (0 where it has none); a
/// `text_delta` likewise carries exactly its `text`.
pub proof fn law_content_delta_carries_its_payload(raw: RawEventView, line: Seq<char>)
    requires
        raw.event_type == "content_block_delta"@,
        raw.delta is Some,
    ensures
        ({
            let d = raw.delta->0;
            let index: usize = match raw.index {
                Some(i) => i,
                None => 0,
            };
            let e = interpret_raw_event(raw, line);
            &&& d.delta_type == Some("input_json_delta"@) ==> e == EventView::ContentBlockDelta {
                index,
                delta: DeltaView::InputJsonDelta(
                    match d.partial_json {
                        Some(p) => p,
                        None => seq![],
                    },
                ),
            }
            &&& d.delta_type == Some("text_delta"@) ==> e == EventView::ContentBlockDelta {
                index,
                delta: DeltaView::TextDelta(
                    match d.text {
                        Some(t) => t,
                        None => seq![],
                    },
                ),
            }
        }),
{
    reveal_strlit("content_block_delta");
    reveal_strlit("message_start");
    reveal_strlit("content_block_start");
    reveal_strlit("input_json_delta");
    reveal_strlit("text_delta");
    assert("content_block_delta"@.len() != "message_start"@.len());
    assert("content_block_delta"@[14] != "content_block_start"@[14]);
    assert("input_json_delta"@.len() != "text_delta"@.len());
}

} // verus!
