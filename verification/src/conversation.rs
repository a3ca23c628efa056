//! The conversation as built up from the stream of events.
use vstd::prelude::*;

use crate::events::{ContentBlockType, Delta, StreamEvent};
use crate::text::{line_count, lines_of, push_str, owned};

verus! {

/// Who wrote a message.
#[derive(Debug, Clone, Copy, PartialEq, Eq, Structural)]
pub enum Role {
    User,
    Assistant,
}

/// One block of a message.
#[derive(Debug, Clone)]
pub enum ContentBlock {
    Text(String),
    Thinking(String),
    ToolUse { id: String, name: String, input: String },
    ToolResult {
        tool_use_id: String,
        content: String,
        is_error: bool,
        /// Whether this result is collapsed in the UI (auto-collapsed if >20 lines).
        collapsed: bool,
    },
    /// Image content block (rendered as placeholder in terminal).
    Image { media_type: String },
    /// Document content block (rendered as placeholder in terminal).
    Document { doc_type: String },
}

/// The mathematical value of a content block: its strings as character sequences.
pub enum BlockView {
    Text(Seq<char>),
    Thinking(Seq<char>),
    ToolUse { id: Seq<char>, name: Seq<char>, input: Seq<char> },
    ToolResult { tool_use_id: Seq<char>, content: Seq<char>, is_error: bool, collapsed: bool },
    Image { media_type: Seq<char> },
    Document { doc_type: Seq<char> },
}

impl View for ContentBlock {
    type V = BlockView;

    open spec fn view(&self) -> BlockView {
        match self {
            ContentBlock::Text(s) => BlockView::Text(s@),
            ContentBlock::Thinking(s) => BlockView::Thinking(s@),
            ContentBlock::ToolUse { id, name, input } => BlockView::ToolUse {
                id: id@,
                name: name@,
                input: input@,
            },
            ContentBlock::ToolResult { tool_use_id, content, is_error, collapsed } =>
                BlockView::ToolResult {
                tool_use_id: tool_use_id@,
                content: content@,
                is_error: *is_error,
                collapsed: *collapsed,
            },
            ContentBlock::Image { media_type } => BlockView::Image { media_type: media_type@ },
            ContentBlock::Document { doc_type } => BlockView::Document { doc_type: doc_type@ },
        }
    }
}

/// A message: a role and its blocks.
#[derive(Debug, Clone)]
pub struct Message {
    pub role: Role,
    pub content: Vec<ContentBlock>,
}

/// The mathematical value of a message.
pub struct MessageView {
    pub role: Role,
    pub content: Seq<BlockView>,
}

impl View for Message {
    type V = MessageView;

    open spec fn view(&self) -> MessageView {
        MessageView { role: self.role, content: self.content@.map_values(|b: ContentBlock| b@) }
    }
}

/// The conversation state.
pub struct Conversation {
    pub messages: Vec<Message>,
    streaming: bool,
    /// Set when a full streaming response completes (MessageStop); suppresses
    /// the duplicate message of the Result event that follows.
    had_streaming_response: bool,
    /// True while a tool runs: between a MessageStop whose last block is a
    /// ToolUse and the arrival of a ToolResult or a new MessageStart.
    awaiting_tool_result: bool,
    /// Accumulated partial JSON of the current tool_use input.
    tool_input_buf: String,
    /// The kind of each block of the current message, by index.
    block_types: Vec<ContentBlockType>,
}

/// The mathematical value of a conversation.
pub struct ConversationView {
    pub messages: Seq<MessageView>,
    pub streaming: bool,
    pub had_streaming_response: bool,
    pub awaiting_tool_result: bool,
    pub tool_input_buf: Seq<char>,
    pub block_types: Seq<ContentBlockType>,
}

impl View for Conversation {
    type V = ConversationView;

    closed spec fn view(&self) -> ConversationView {
        ConversationView {
            messages: self.messages@.map_values(|m: Message| m@),
            streaming: self.streaming,
            had_streaming_response: self.had_streaming_response,
            awaiting_tool_result: self.awaiting_tool_result,
            tool_input_buf: self.tool_input_buf@,
            block_types: self.block_types@,
        }
    }
}

/// A single-text message.
pub open spec fn text_message(role: Role, text: Seq<char>) -> MessageView {
    MessageView { role, content: seq![BlockView::Text(text)] }
}

/// The empty conversation.
pub open spec fn empty_conversation() -> ConversationView {
    ConversationView {
        messages: seq![],
        streaming: false,
        had_streaming_response: false,
        awaiting_tool_result: false,
        tool_input_buf: seq![],
        block_types: seq![],
    }
}

/// `msgs` with its last message replaced by `m`.
pub open spec fn with_last(msgs: Seq<MessageView>, m: MessageView) -> Seq<MessageView> {
    msgs.update(msgs.len() - 1, m)
}

/// The block a block start adds to the current message.
pub open spec fn started_block(t: ContentBlockType) -> BlockView {
    match t {
        ContentBlockType::Text => BlockView::Text(seq![]),
        ContentBlockType::ToolUse { id, name } => BlockView::ToolUse {
            id: id@,
            name: name@,
            input: seq![],
        },
        ContentBlockType::Thinking => BlockView::Thinking(seq![]),
        ContentBlockType::Image { media_type } => BlockView::Image { media_type: media_type@ },
        ContentBlockType::Document { doc_type } => BlockView::Document { doc_type: doc_type@ },
    }
}

/// A block after a delta: text and thinking deltas extend blocks of their own
/// kind, an input delta sets a tool use's input to the accumulated buffer `buf`;
/// a delta of the wrong kind leaves the block as it is.
pub open spec fn delta_block(b: BlockView, d: Delta, buf: Seq<char>) -> BlockView {
    match (d, b) {
        (Delta::TextDelta(t), BlockView::Text(s)) => BlockView::Text(s + t@),
        (Delta::ThinkingDelta(t), BlockView::Thinking(s)) => BlockView::Thinking(s + t@),
        (Delta::InputJsonDelta(_), BlockView::ToolUse { id, name, input }) => BlockView::ToolUse {
            id,
            name,
            input: buf,
        },
        _ => b,
    }
}

/// Whether a block is a tool use.
pub open spec fn is_tool_use(b: BlockView) -> bool {
    b is ToolUse
}

/// How one event changes the conversation.
pub open spec fn apply_spec(c: ConversationView, e: StreamEvent) -> ConversationView {
    let n = c.messages.len();
    match e {
        StreamEvent::MessageStart { .. } => ConversationView {
            messages: c.messages.push(MessageView { role: Role::Assistant, content: seq![] }),
            streaming: true,
            had_streaming_response: false,
            awaiting_tool_result: false,
            tool_input_buf: seq![],
            block_types: seq![],
        },
        StreamEvent::ContentBlockStart { block_type, .. } => if n == 0 {
            c
        } else {
            let last = c.messages[n - 1];
            ConversationView {
                messages: with_last(
                    c.messages,
                    MessageView { role: last.role, content: last.content.push(started_block(block_type)) },
                ),
                block_types: c.block_types.push(block_type),
                tool_input_buf: if block_type is ToolUse { seq![] } else { c.tool_input_buf },
                ..c
            }
        },
        StreamEvent::ContentBlockDelta { index, delta } => if n == 0 {
            c
        } else {
            let last = c.messages[n - 1];
            let buf = match delta {
                Delta::InputJsonDelta(p) => c.tool_input_buf + p@,
                _ => c.tool_input_buf,
            };
            let content = if index < last.content.len() {
                last.content.update(index as int, delta_block(last.content[index as int], delta, buf))
            } else {
                last.content
            };
            ConversationView {
                messages: with_last(c.messages, MessageView { role: last.role, content }),
                tool_input_buf: buf,
                ..c
            }
        },
        StreamEvent::MessageStop => ConversationView {
            streaming: false,
            had_streaming_response: true,
            awaiting_tool_result: c.awaiting_tool_result || (n > 0 && c.messages[n - 1].content.len() > 0
                && is_tool_use(c.messages[n - 1].content.last())),
            ..c
        },
        StreamEvent::Result { text, .. } => ConversationView {
            messages: if text@.len() > 0 && !c.had_streaming_response {
                c.messages.push(text_message(Role::Assistant, text@))
            } else {
                c.messages
            },
            streaming: false,
            had_streaming_response: false,
            ..c
        },
        StreamEvent::ToolResult { tool_use_id, content, is_error } => ConversationView {
            messages: if n == 0 {
                c.messages
            } else {
                let last = c.messages[n - 1];
                with_last(
                    c.messages,
                    MessageView {
                        role: last.role,
                        content: last.content.push(
                            BlockView::ToolResult {
                                tool_use_id: tool_use_id@,
                                content: content@,
                                is_error,
                                collapsed: lines_of(content@).len() > 20,
                            },
                        ),
                    },
                )
            },
            awaiting_tool_result: false,
            ..c
        },
        _ => c,
    }
}

/// The text of the last text block of a message, if it has one.
pub open spec fn last_text(content: Seq<BlockView>) -> Option<Seq<char>>
    decreases content.len(),
{
    if content.len() == 0 {
        None
    } else {
        match content.last() {
            BlockView::Text(s) => Some(s),
            _ => last_text(content.drop_last()),
        }
    }
}

/// The text being streamed: the last text block of the last message when
/// that message is the assistant's, else the empty string.
pub open spec fn streaming_text_spec(c: ConversationView) -> Seq<char> {
    let n = c.messages.len();
    if n > 0 && c.messages[n - 1].role == Role::Assistant {
        match last_text(c.messages[n - 1].content) {
            Some(s) => s,
            None => seq![],
        }
    } else {
        seq![]
    }
}

impl Conversation {
    /// The messages, as the view has them.
    pub fn message_list(&self) -> (r: &Vec<Message>)
        ensures
            r@.map_values(|m: Message| m@) == self@.messages,
    {
        &self.messages
    }

    /// Create an empty conversation.
    pub fn new() -> (c: Conversation)
        ensures
            c@ == empty_conversation(),
    {
        let c = Conversation {
            messages: Vec::new(),
            streaming: false,
            had_streaming_response: false,
            awaiting_tool_result: false,
            tool_input_buf: String::new(),
            block_types: Vec::new(),
        };
        assert(c@.messages =~= seq![]);
        c
    }

    /// Add a user message to the conversation.
    pub fn push_user_message(&mut self, text: String)
        ensures
            final(self)@ == (ConversationView {
                messages: old(self)@.messages.push(text_message(Role::User, text@)),
                ..old(self)@
            }),
            final(self)@ == step_spec(old(self)@, ConversationStep::User(text@)),
    {
        let msg = Message { role: Role::User, content: vec![ContentBlock::Text(text)] };
        assert(msg@.content =~= seq![BlockView::Text(text@)]);
        self.messages.push(msg);
        assert(self@.messages =~= old(self)@.messages.push(text_message(Role::User, text@)));
    }

    /// Add a system/info message displayed as an assistant message.
    pub fn push_system_message(&mut self, text: String)
        ensures
            final(self)@ == (ConversationView {
                messages: old(self)@.messages.push(text_message(Role::Assistant, text@)),
                ..old(self)@
            }),
            final(self)@ == step_spec(old(self)@, ConversationStep::System(text@)),
    {
        let msg = Message { role: Role::Assistant, content: vec![ContentBlock::Text(text)] };
        assert(msg@.content =~= seq![BlockView::Text(text@)]);
        self.messages.push(msg);
        assert(self@.messages =~= old(self)@.messages.push(text_message(Role::Assistant, text@)));
    }

    /// Process a single stream event, updating the conversation state.
    pub fn apply_event(&mut self, event: &StreamEvent)
        ensures
            final(self)@ == apply_spec(old(self)@, *event),
            final(self)@ == step_spec(old(self)@, ConversationStep::Event(*event)),
    {
        let ghost pre = self@;
        match event {
            StreamEvent::MessageStart { .. } => {
                self.messages.push(Message { role: Role::Assistant, content: Vec::new() });
                self.streaming = true;
                self.had_streaming_response = false;
                self.awaiting_tool_result = false;
                self.block_types.clear();
                self.tool_input_buf = String::new();
                proof {
                    assert(self.messages@.last()@.content =~= Seq::<BlockView>::empty());
                    assert(self@.messages =~= apply_spec(pre, *event).messages);
                    assert(self@.block_types =~= Seq::<ContentBlockType>::empty());
                }
            },
            StreamEvent::ContentBlockStart { block_type, .. } => {
                let n = self.messages.len();
                if n > 0 {
                    let (block, kind, is_tool) = match block_type {
                        ContentBlockType::Text => (
                            ContentBlock::Text(String::new()),
                            ContentBlockType::Text,
                            false,
                        ),
                        ContentBlockType::ToolUse { id, name } => (
                            ContentBlock::ToolUse {
                                id: id.clone(),
                                name: name.clone(),
                                input: String::new(),
                            },
                            ContentBlockType::ToolUse { id: id.clone(), name: name.clone() },
                            true,
                        ),
                        ContentBlockType::Thinking => (
                            ContentBlock::Thinking(String::new()),
                            ContentBlockType::Thinking,
                            false,
                        ),
                        ContentBlockType::Image { media_type } => (
                            ContentBlock::Image { media_type: media_type.clone() },
                            ContentBlockType::Image { media_type: media_type.clone() },
                            false,
                        ),
                        ContentBlockType::Document { doc_type } => (
                            ContentBlock::Document { doc_type: doc_type.clone() },
                            ContentBlockType::Document { doc_type: doc_type.clone() },
                            false,
                        ),
                    };
                    assert(block@ == started_block(*block_type));
                    let mut msg = self.messages.pop().unwrap();
                    let ghost old_msg = msg@;
                    msg.content.push(block);
                    assert(msg@.content =~= old_msg.content.push(block@));
                    self.messages.push(msg);
                    self.block_types.push(kind);
                    if is_tool {
                        self.tool_input_buf = String::new();
                    }
                    proof {
                        assert(self@.messages =~= apply_spec(pre, *event).messages);
                        assert(self@.tool_input_buf =~= apply_spec(pre, *event).tool_input_buf);
                    }
                }
            },
            StreamEvent::ContentBlockDelta { index, delta } => {
                let n = self.messages.len();
                if n > 0 {
                    let idx = *index;
                    match delta {
                        Delta::InputJsonDelta(p) => push_str(&mut self.tool_input_buf, p.as_str()),
                        _ => {},
                    }
                    let mut msg = self.messages.pop().unwrap();
                    let ghost old_msg = msg@;
                    if idx < msg.content.len() {
                        let updated: Option<ContentBlock> = match (delta, &msg.content[idx]) {
                            (Delta::TextDelta(t), ContentBlock::Text(s)) => {
                                let mut s2 = s.clone();
                                push_str(&mut s2, t.as_str());
                                Some(ContentBlock::Text(s2))
                            },
                            (Delta::ThinkingDelta(t), ContentBlock::Thinking(s)) => {
                                let mut s2 = s.clone();
                                push_str(&mut s2, t.as_str());
                                Some(ContentBlock::Thinking(s2))
                            },
                            (Delta::InputJsonDelta(_), ContentBlock::ToolUse { id, name, .. }) => {
                                Some(
                                    ContentBlock::ToolUse {
                                        id: id.clone(),
                                        name: name.clone(),
                                        input: self.tool_input_buf.clone(),
                                    },
                                )
                            },
                            _ => None,
                        };
                        match updated {
                            Some(b) => {
                                msg.content.set(idx, b);
                            },
                            None => {},
                        }
                        assert(msg@.content =~= old_msg.content.update(
                            idx as int,
                            delta_block(old_msg.content[idx as int], *delta, self@.tool_input_buf),
                        ));
                    } else {
                        assert(msg@.content =~= old_msg.content);
                    }
                    self.messages.push(msg);
                    proof {
                        assert(self@.messages =~= apply_spec(pre, *event).messages);
                    }
                }
            },
            StreamEvent::MessageStop => {
                self.streaming = false;
                self.had_streaming_response = true;
                let n = self.messages.len();
                let has_pending_tool = n > 0 && {
                    let c = &self.messages[n - 1].content;
                    c.len() > 0 && match &c[c.len() - 1] {
                        ContentBlock::ToolUse { .. } => true,
                        _ => false,
                    }
                };
                if has_pending_tool {
                    self.awaiting_tool_result = true;
                }
                proof {
                    if n > 0 {
                        let c = self.messages@[n - 1].content@;
                        if c.len() > 0 {
                            assert(self@.messages[n - 1].content.last() == c.last()@);
                        }
                    }
                    assert(self@.messages =~= pre.messages);
                }
            },
            StreamEvent::Result { text, .. } => {
                if !text.as_str().is_empty() && !self.had_streaming_response {
                    let msg = Message {
                        role: Role::Assistant,
                        content: vec![ContentBlock::Text(text.clone())],
                    };
                    assert(msg@.content =~= seq![BlockView::Text(text@)]);
                    self.messages.push(msg);
                }
                self.streaming = false;
                self.had_streaming_response = false;
                proof {
                    assert(self@.messages =~= apply_spec(pre, *event).messages);
                }
            },
            StreamEvent::ToolResult { tool_use_id, content, is_error } => {
                self.awaiting_tool_result = false;
                let n = self.messages.len();
                if n > 0 {
                    let collapsed = line_count(content.as_str()) > 20;
                    let block = ContentBlock::ToolResult {
                        tool_use_id: tool_use_id.clone(),
                        content: content.clone(),
                        is_error: *is_error,
                        collapsed,
                    };
                    let mut msg = self.messages.pop().unwrap();
                    let ghost old_msg = msg@;
                    msg.content.push(block);
                    assert(msg@.content =~= old_msg.content.push(block@));
                    self.messages.push(msg);
                }
                proof {
                    assert(self@.messages =~= apply_spec(pre, *event).messages);
                }
            },
            _ => {},
        }
    }

    /// Returns the text of the last text block in the last assistant message,
    /// or an empty string if there is no assistant message or no text block.
    pub fn streaming_text(&self) -> (r: &str)
        ensures
            r@ == streaming_text_spec(self@),
    {
        proof {
            reveal_strlit("");
        }
        let n = self.messages.len();
        if n == 0 {
            return "";
        }
        let m = &self.messages[n - 1];
        if m.role != Role::Assistant {
            return "";
        }
        let ghost content = m@.content;
        assert(content == self@.messages[n - 1].content);
        assert(m@.role == self@.messages[n - 1].role);
        let mut i = m.content.len();
        assert(content.take(i as int) =~= content);
        while i > 0
            invariant
                i <= m.content.len(),
                content == m@.content,
                last_text(content.take(i as int)) == last_text(content),
                n == self.messages.len(),
                n > 0,
                content == self@.messages[n - 1].content,
                self@.messages[n - 1].role == Role::Assistant,
            decreases i,
        {
            let ghost pre = content.take(i as int);
            assert(pre.drop_last() =~= content.take(i - 1));
            assert(pre.last() == m.content@[i - 1]@);
            assert(pre.len() > 0);
            match &m.content[i - 1] {
                ContentBlock::Text(s) => {
                    assert(pre.last() == BlockView::Text(s@));
                    assert(last_text(pre) == Some(s@));
                    assert(self@.messages[n - 1].role == Role::Assistant);
                    return s.as_str();
                },
                _ => {},
            }
            i = i - 1;
        }
        ""
    }

    /// Whether the conversation is currently receiving a streamed response.
    pub fn is_streaming(&self) -> (r: bool)
        ensures
            r == self@.streaming,
    {
        self.streaming
    }

    /// Whether a tool is currently executing (between MessageStop and ToolResult).
    pub fn is_awaiting_tool_result(&self) -> (r: bool)
        ensures
            r == self@.awaiting_tool_result,
    {
        self.awaiting_tool_result
    }
}

} // verus!

verus! {

/// One step that changes a conversation: a user or system message pushed,
/// or an event of the stream applied.
pub enum ConversationStep {
    User(Seq<char>),
    System(Seq<char>),
    Event(StreamEvent),
}

/// How one step changes the conversation (`push_user_message`,
/// `push_system_message`, `apply_event`).
pub open spec fn step_spec(c: ConversationView, s: ConversationStep) -> ConversationView {
    match s {
        ConversationStep::User(t) => ConversationView {
            messages: c.messages.push(text_message(Role::User, t)),
            ..c
        },
        ConversationStep::System(t) => ConversationView {
            messages: c.messages.push(text_message(Role::Assistant, t)),
            ..c
        },
        ConversationStep::Event(e) => apply_spec(c, e),
    }
}

/// The conversation after the steps, taken in order.
pub open spec fn run_steps(c: ConversationView, steps: Seq<ConversationStep>) -> ConversationView
    decreases steps.len(),
{
    if steps.len() == 0 {
        c
    } else {
        step_spec(run_steps(c, steps.drop_last()), steps.last())
    }
}

/// Whether a step is a message start.
pub open spec fn starts_message(s: ConversationStep) -> bool {
    s matches ConversationStep::Event(StreamEvent::MessageStart { .. })
}

/// Whether a step ends a streamed response (a message stop or a result).
pub open spec fn ends_response(s: ConversationStep) -> bool {
    ||| s matches ConversationStep::Event(StreamEvent::MessageStop)
    ||| s matches ConversationStep::Event(StreamEvent::Result { .. })
}

/// Whether a step ends a tool wait (a message start or a tool result).
pub open spec fn ends_tool_wait(s: ConversationStep) -> bool {
    ||| s matches ConversationStep::Event(StreamEvent::MessageStart { .. })
    ||| s matches ConversationStep::Event(StreamEvent::ToolResult { .. })
}

/// Whether the last message ends in a tool use.
pub open spec fn ends_in_tool_use(c: ConversationView) -> bool {
    let n = c.messages.len();
    n > 0 && c.messages[n - 1].content.len() > 0 && is_tool_use(c.messages[n - 1].content.last())
}

/// Whether step `i` is a message start followed by no message start, stop
/// or result.
pub open spec fn last_open_at(steps: Seq<ConversationStep>, i: int) -> bool {
    &&& 0 <= i < steps.len()
    &&& starts_message(steps[i])
    &&& forall|j: int| i < j < steps.len() ==> !starts_message(#[trigger] steps[j]) && !ends_response(steps[j])
}

/// Whether step `i` is a message stop taken while the last message ended in
/// a tool use, followed by no message start or tool result.
pub open spec fn tool_wait_at(steps: Seq<ConversationStep>, i: int) -> bool {
    &&& 0 <= i < steps.len()
    &&& steps[i] matches ConversationStep::Event(StreamEvent::MessageStop)
    &&& ends_in_tool_use(run_steps(empty_conversation(), steps.take(i)))
    &&& forall|j: int| i < j < steps.len() ==> !ends_tool_wait(#[trigger] steps[j])
}

/// From a new conversation, any sequence of pushes and events leaves it
/// streaming exactly when some message start was taken and no message
/// start, stop or result came after it.
pub proof fn law_streaming_after_steps(steps: Seq<ConversationStep>)
    ensures
        run_steps(empty_conversation(), steps).streaming <==> exists|i: int| #[trigger] last_open_at(steps, i),
    decreases steps.len(),
{
    if steps.len() > 0 {
        let pre = steps.drop_last();
        let n = steps.len() - 1;
        law_streaming_after_steps(pre);
        let last = steps.last();
        if starts_message(last) {
            assert(last_open_at(steps, n));
        } else if ends_response(last) {
            assert forall|i: int| !last_open_at(steps, i) by {
                if 0 <= i < n && starts_message(steps[i]) {
                    assert(!(!starts_message(steps[n]) && !ends_response(steps[n])));
                }
            }
        } else {
            assert(run_steps(empty_conversation(), steps).streaming == run_steps(empty_conversation(), pre).streaming);
            assert forall|i: int| last_open_at(steps, i) <==> last_open_at(pre, i) by {
                if 0 <= i < n {
                    assert(steps[i] == pre[i]);
                    if last_open_at(pre, i) {
                        assert forall|j: int| i < j < steps.len() implies !starts_message(#[trigger] steps[j])
                            && !ends_response(steps[j]) by {
                            if j < n {
                                assert(steps[j] == pre[j]);
                            }
                        }
                    }
                    if last_open_at(steps, i) {
                        assert forall|j: int| i < j < pre.len() implies !starts_message(#[trigger] pre[j])
                            && !ends_response(pre[j]) by {
                            assert(steps[j] == pre[j]);
                        }
                    }
                }
            }
        }
    }
}

/// From a new conversation, any sequence of pushes and events leaves it
/// waiting for a tool exactly when some message stop was taken while the
/// last message ended in a tool use, and no message start or tool result
/// came after it.
pub proof fn law_tool_wait_after_steps(steps: Seq<ConversationStep>)
    ensures
        run_steps(empty_conversation(), steps).awaiting_tool_result <==> exists|i: int| #[trigger] tool_wait_at(steps, i),
    decreases steps.len(),
{
    if steps.len() > 0 {
        let pre = steps.drop_last();
        let n = steps.len() - 1;
        law_tool_wait_after_steps(pre);
        let last = steps.last();
        assert(steps.take(n) =~= pre);
        assert forall|i: int| 0 <= i < n implies steps.take(i) =~= pre.take(i) by {}
        if ends_tool_wait(last) {
            assert forall|i: int| !tool_wait_at(steps, i) by {
                if 0 <= i < n && tool_wait_at(steps, i) {
                    assert(!ends_tool_wait(steps[n]));
                }
            }
        } else if last matches ConversationStep::Event(StreamEvent::MessageStop) {
            if ends_in_tool_use(run_steps(empty_conversation(), pre)) {
                assert(tool_wait_at(steps, n));
            } else {
                assert forall|i: int| tool_wait_at(steps, i) <==> tool_wait_at(pre, i) by {
                    if 0 <= i < n {
                        assert(steps[i] == pre[i]);
                        if tool_wait_at(pre, i) {
                            assert forall|j: int| i < j < steps.len() implies !ends_tool_wait(#[trigger] steps[j]) by {
                                if j < n {
                                    assert(steps[j] == pre[j]);
                                }
                            }
                        }
                        if tool_wait_at(steps, i) {
                            assert forall|j: int| i < j < pre.len() implies !ends_tool_wait(#[trigger] pre[j]) by {
                                assert(steps[j] == pre[j]);
                            }
                        }
                    }
                }
            }
        } else {
            assert(run_steps(empty_conversation(), steps).awaiting_tool_result == run_steps(
                empty_conversation(),
                pre,
            ).awaiting_tool_result);
            assert forall|i: int| tool_wait_at(steps, i) <==> tool_wait_at(pre, i) by {
                if 0 <= i < n {
                    assert(steps[i] == pre[i]);
                    if tool_wait_at(pre, i) {
                        assert forall|j: int| i < j < steps.len() implies !ends_tool_wait(#[trigger] steps[j]) by {
                            if j < n {
                                assert(steps[j] == pre[j]);
                            }
                        }
                    }
                    if tool_wait_at(steps, i) {
                        assert forall|j: int| i < j < pre.len() implies !ends_tool_wait(#[trigger] pre[j]) by {
                            assert(steps[j] == pre[j]);
                        }
                    }
                }
            }
        }
    }
}

/// A message start always opens a new, empty assistant message at the end,
/// marks the conversation as streaming and clears any pending tool wait.
pub proof fn law_message_start_opens_message(c: ConversationView, e: StreamEvent)
    requires
        e is MessageStart,
    ensures
        apply_spec(c, e).messages.len() == c.messages.len() + 1,
        apply_spec(c, e).messages.last() == (MessageView { role: Role::Assistant, content: seq![] }),
        apply_spec(c, e).messages.take(c.messages.len() as int) == c.messages,
        apply_spec(c, e).streaming,
        !apply_spec(c, e).awaiting_tool_result,
{
    assert(apply_spec(c, e).messages.take(c.messages.len() as int) =~= c.messages);
}

/// No event removes a message, and no event touches any message but the
/// last one that was already there: the history is append-only.
pub proof fn law_history_append_only(c: ConversationView, e: StreamEvent)
    ensures
        apply_spec(c, e).messages.len() >= c.messages.len(),
        apply_spec(c, e).messages.len() <= c.messages.len() + 1,
        forall|i: int|
            0 <= i < c.messages.len() - 1 ==> #[trigger] apply_spec(c, e).messages[i]
                == c.messages[i],
        forall|i: int|
            0 <= i < c.messages.len() ==> #[trigger] apply_spec(c, e).messages[i].role
                == c.messages[i].role,
{
}

/// Two text deltas to a text block extend it by both texts, in order.
pub proof fn law_text_deltas_concatenate(
    c: ConversationView,
    index: usize,
    e1: StreamEvent,
    e2: StreamEvent,
    t1: String,
    t2: String,
    s: Seq<char>,
)
    requires
        c.messages.len() > 0,
        index < c.messages.last().content.len(),
        c.messages.last().content[index as int] == BlockView::Text(s),
        e1 == (StreamEvent::ContentBlockDelta { index, delta: Delta::TextDelta(t1) }),
        e2 == (StreamEvent::ContentBlockDelta { index, delta: Delta::TextDelta(t2) }),
    ensures
        apply_spec(apply_spec(c, e1), e2).messages.last().content[index as int] == BlockView::Text(
            s + t1@ + t2@,
        ),
        apply_spec(apply_spec(c, e1), e2).messages.len() == c.messages.len(),
{
}

/// Partial tool input accumulates: the tool use block's input is the
/// concatenation of every input delta since the block started.
pub proof fn law_tool_input_accumulates(
    c: ConversationView,
    e: StreamEvent,
    index: usize,
    part: String,
)
    requires
        c.messages.len() > 0,
        index < c.messages.last().content.len(),
        c.messages.last().content[index as int] is ToolUse,
        e == (StreamEvent::ContentBlockDelta { index, delta: Delta::InputJsonDelta(part) }),
    ensures
        apply_spec(c, e).tool_input_buf == c.tool_input_buf + part@,
        apply_spec(c, e).messages.last().content[index as int]->ToolUse_input == c.tool_input_buf
            + part@,
{
}

/// After a streamed response has completed, the Result event that repeats it
/// adds no message; it only ends the streaming state.
pub proof fn law_result_after_stream_not_duplicated(c: ConversationView, stop: StreamEvent, result: StreamEvent)
    requires
        stop is MessageStop,
        result is Result,
    ensures
        apply_spec(apply_spec(c, stop), result).messages == c.messages,
        !apply_spec(apply_spec(c, stop), result).streaming,
{
}

/// Without a preceding stream, a Result with text adds exactly one assistant
/// message holding that text; an empty one adds nothing.
pub proof fn law_result_without_stream(c: ConversationView, result: StreamEvent)
    requires
        !c.had_streaming_response,
        result is Result,
    ensures
        result->Result_text@.len() > 0 ==> apply_spec(c, result).messages == c.messages.push(
            text_message(Role::Assistant, result->Result_text@),
        ),
        result->Result_text@.len() == 0 ==> apply_spec(c, result).messages == c.messages,
{
}

/// A message that stops on a tool use leaves the conversation waiting for the
/// tool's result, and the result ends the wait.
pub proof fn law_tool_wait_lifecycle(c: ConversationView, stop: StreamEvent, result: StreamEvent)
    requires
        stop is MessageStop,
        result is ToolResult,
        c.messages.len() > 0,
        c.messages.last().content.len() > 0,
        c.messages.last().content.last() is ToolUse,
    ensures
        apply_spec(c, stop).awaiting_tool_result,
        !apply_spec(apply_spec(c, stop), result).awaiting_tool_result,
{
}

/// A message stop that does not end on a tool use starts no wait.
pub proof fn law_stop_without_tool_not_waiting(c: ConversationView, stop: StreamEvent)
    requires
        stop is MessageStop,
        !c.awaiting_tool_result,
        c.messages.len() == 0 || c.messages.last().content.len() == 0
            || !(c.messages.last().content.last() is ToolUse),
    ensures
        !apply_spec(c, stop).awaiting_tool_result,
        !apply_spec(c, stop).streaming,
{
}

/// The text being streamed is exactly what the text deltas of the current
/// assistant message have added so far: start, open a text block, then two
/// deltas give their concatenation.
pub proof fn law_streamed_text(c: ConversationView, start: StreamEvent, open: StreamEvent, t1: String, t2: String)
    requires
        start is MessageStart,
        open == (StreamEvent::ContentBlockStart { index: 0, block_type: ContentBlockType::Text }),
    ensures
        ({
            let d1 = StreamEvent::ContentBlockDelta { index: 0, delta: Delta::TextDelta(t1) };
            let d2 = StreamEvent::ContentBlockDelta { index: 0, delta: Delta::TextDelta(t2) };
            streaming_text_spec(apply_spec(apply_spec(apply_spec(apply_spec(c, start), open), d1), d2))
                == t1@ + t2@
        }),
{
    let d1 = StreamEvent::ContentBlockDelta { index: 0, delta: Delta::TextDelta(t1) };
    let d2 = StreamEvent::ContentBlockDelta { index: 0, delta: Delta::TextDelta(t2) };
    let s1 = apply_spec(c, start);
    let s2 = apply_spec(s1, open);
    let s3 = apply_spec(s2, d1);
    let s4 = apply_spec(s3, d2);
    assert(s2.messages.last().content =~= seq![BlockView::Text(seq![])]);
    assert(s4.messages.last().content =~= seq![BlockView::Text(seq![] + t1@ + t2@)]);
    assert(seq![] + t1@ + t2@ =~= t1@ + t2@);
    assert(s4.messages.last().content.drop_last() =~= seq![]);
}

/// One more call after the calls of `steps` gives the conversation of the
/// longer sequence: with `Conversation::new()` (whose view is
/// `run_steps(empty_conversation(), seq![])`) and the `step_spec` clause of
/// `push_user_message`, `push_system_message` and `apply_event`, a
/// conversation reached by any sequence of these calls has the view
/// `run_steps(empty_conversation(), steps)` of that sequence.
pub proof fn lemma_one_more_step(steps: Seq<ConversationStep>, s: ConversationStep)
    ensures
        run_steps(empty_conversation(), steps.push(s)) == step_spec(run_steps(empty_conversation(), steps), s),
        run_steps(empty_conversation(), seq![]) == empty_conversation(),
{
    assert(steps.push(s).drop_last() =~= steps);
}

/// A conversation reached from `Conversation::new()` by the calls of
/// `steps` is streaming (`is_streaming()`) exactly when some `MessageStart`
/// was applied and no `MessageStart`, `MessageStop` or `Result` came after
/// it; with none of them it is not streaming.
pub proof fn law_is_streaming(c: &Conversation, steps: Seq<ConversationStep>)
    requires
        c@ == run_steps(empty_conversation(), steps),
    ensures
        c@.streaming <==> exists|i: int| #[trigger] last_open_at(steps, i),
{
    law_streaming_after_steps(steps);
}

/// A conversation reached from `Conversation::new()` by the calls of
/// `steps` awaits a tool result (`is_awaiting_tool_result()`) exactly when
/// some `MessageStop` was applied while the last block of the last message
/// was a tool use, and no `MessageStart` or `ToolResult` came after it.
pub proof fn law_is_awaiting_tool_result(c: &Conversation, steps: Seq<ConversationStep>)
    requires
        c@ == run_steps(empty_conversation(), steps),
    ensures
        c@.awaiting_tool_result <==> exists|i: int| #[trigger] tool_wait_at(steps, i),
{
    law_tool_wait_after_steps(steps);
}

/// A tool result joins the last message as its last block, carrying the
/// event's tool id, content and error flag (collapsed when it runs past
/// twenty lines); the earlier messages and blocks stay, and the tool wait
/// ends. With no message yet, the messages stay as they are.
pub proof fn law_tool_result_recorded(c: ConversationView, tool_use_id: String, content: String, is_error: bool)
    ensures
        ({
            let r = apply_spec(c, StreamEvent::ToolResult { tool_use_id, content, is_error });
            &&& !r.awaiting_tool_result
            &&& r.streaming == c.streaming
            &&& c.messages.len() == 0 ==> r.messages == c.messages
            &&& c.messages.len() > 0 ==> {
                &&& r.messages.len() == c.messages.len()
                &&& r.messages.drop_last() == c.messages.drop_last()
                &&& r.messages.last().role == c.messages.last().role
                &&& r.messages.last().content.drop_last() == c.messages.last().content
                &&& r.messages.last().content.last() == BlockView::ToolResult {
                    tool_use_id: tool_use_id@,
                    content: content@,
                    is_error: is_error,
                    collapsed: lines_of(content@).len() > 20,
                }
            }
        }),
{
    let r = apply_spec(c, StreamEvent::ToolResult { tool_use_id, content, is_error });
    if c.messages.len() > 0 {
        assert(r.messages.drop_last() =~= c.messages.drop_last());
        assert(r.messages.last().content.drop_last() =~= c.messages.last().content);
    }
}

} // verus!
