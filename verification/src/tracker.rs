//! What the application keeps track of as the agent's events arrive: the
//! reported commands and session, token totals, the todo list, spawned
//! sub-agents, pending questions, and the notifications events call for.
use vstd::prelude::*;

use crate::activity::{messages_view, str_or};
use crate::conversation::{BlockView, ContentBlock, Message, MessageView};
use crate::events::{EventView, StreamEvent, Usage};
use crate::json::{as_str, get, opt_val, parse_json, spec_parse_json, JsonValue};
use crate::questions::{parse_ask_user_questions, question_view, questions_of, QuestionView, UserQuestion};
use crate::text::{owned, push_str, str_eq};
use crate::todo::{todo_write_list, TodoTracker, TodoView};
use crate::toast::now;

verus! {

/// A sub-agent spawned through the Task tool.
pub struct AgentTask {
    /// The id of the tool call that spawned it.
    pub id: String,
    /// Short description from the Task tool input.
    pub description: String,
    /// Sub-agent type (e.g. "Bash", "Explore", "Plan").
    pub agent_type: String,
    /// When it was spawned.
    pub started: std::time::Instant,
    /// Whether its result has arrived.
    pub completed: bool,
}

/// A sub-agent as plain values: id, description, type and whether done.
pub struct TaskView {
    pub id: Seq<char>,
    pub description: Seq<char>,
    pub agent_type: Seq<char>,
    pub completed: bool,
}

impl View for AgentTask {
    type V = TaskView;

    open spec fn view(&self) -> TaskView {
        TaskView {
            id: self.id@,
            description: self.description@,
            agent_type: self.agent_type@,
            completed: self.completed,
        }
    }
}

/// An id and an input, as plain values.
pub open spec fn pairs_view(v: Seq<(String, String)>) -> Seq<(Seq<char>, Seq<char>)> {
    v.map_values(|p: (String, String)| (p.0@, p.1@))
}

/// The map a list of entries stands for: a later entry for an id wins.
pub open spec fn to_map(l: Seq<(Seq<char>, Seq<char>)>) -> Map<Seq<char>, Seq<char>>
    decreases l.len(),
{
    if l.len() == 0 {
        Map::empty()
    } else {
        to_map(l.drop_last()).insert(l.last().0, l.last().1)
    }
}

/// The entries whose id is not `k`, in order.
pub open spec fn without_key(l: Seq<(Seq<char>, Seq<char>)>, k: Seq<char>) -> Seq<(Seq<char>, Seq<char>)>
    decreases l.len(),
{
    if l.len() == 0 {
        l
    } else if l.last().0 == k {
        without_key(l.drop_last(), k)
    } else {
        without_key(l.drop_last(), k).push(l.last())
    }
}

proof fn lemma_without_key(l: Seq<(Seq<char>, Seq<char>)>, k: Seq<char>)
    ensures
        to_map(without_key(l, k)) == to_map(l).remove(k),
    decreases l.len(),
{
    if l.len() == 0 {
        assert(to_map(l).remove(k) =~= Map::<Seq<char>, Seq<char>>::empty());
    } else {
        lemma_without_key(l.drop_last(), k);
        let w = without_key(l.drop_last(), k);
        if l.last().0 == k {
            assert(to_map(l).remove(k) =~= to_map(l.drop_last()).remove(k));
        } else {
            assert(w.push(l.last()).drop_last() =~= w);
            assert(to_map(w.push(l.last())) =~= to_map(l).remove(k));
        }
    }
}

/// The AskUserQuestion inputs waiting for their tool result, by tool call id.
pub struct PendingQuestions {
    entries: Vec<(String, String)>,
}

impl View for PendingQuestions {
    type V = Map<Seq<char>, Seq<char>>;

    closed spec fn view(&self) -> Map<Seq<char>, Seq<char>> {
        to_map(pairs_view(self.entries@))
    }
}

/// The entries without `id`, and the input recorded last for it.
fn take_out(entries: &Vec<(String, String)>, id: &str) -> (r: (Vec<(String, String)>, Option<String>))
    ensures
        pairs_view(r.0@) == without_key(pairs_view(entries@), id@),
        match r.1 {
            Some(v) => to_map(pairs_view(entries@)).dom().contains(id@) && v@ == to_map(pairs_view(entries@))[id@],
            None => !to_map(pairs_view(entries@)).dom().contains(id@),
        },
{
    let ghost l = pairs_view(entries@);
    let mut kept: Vec<(String, String)> = Vec::new();
    let mut found: Option<String> = None;
    let mut i: usize = 0;
    while i < entries.len()
        invariant
            i <= entries.len(),
            l == pairs_view(entries@),
            pairs_view(kept@) == without_key(l.take(i as int), id@),
            match found {
                Some(v) => to_map(l.take(i as int)).dom().contains(id@) && v@ == to_map(l.take(i as int))[id@],
                None => !to_map(l.take(i as int)).dom().contains(id@),
            },
        decreases entries.len() - i,
    {
        proof {
            assert(l.take(i + 1).drop_last() =~= l.take(i as int));
            assert(l.take(i + 1).last() == l[i as int]);
        }
        if str_eq(entries[i].0.as_str(), id) {
            found = Some(entries[i].1.clone());
        } else {
            let ghost before = kept@;
            kept.push((entries[i].0.clone(), entries[i].1.clone()));
            proof {
                assert(pairs_view(kept@) =~= pairs_view(before).push(l[i as int]));
            }
        }
        i = i + 1;
    }
    proof {
        assert(l.take(entries.len() as int) =~= l);
    }
    (kept, found)
}

impl PendingQuestions {
    /// No pending question.
    pub fn new() -> (p: Self)
        ensures
            p@ == Map::<Seq<char>, Seq<char>>::empty(),
    {
        let p = PendingQuestions { entries: Vec::new() };
        assert(pairs_view(p.entries@) =~= Seq::<(Seq<char>, Seq<char>)>::empty());
        p
    }

    /// Records the input of a question call, replacing one with the same id.
    pub fn insert(&mut self, id: String, input: String)
        ensures
            final(self)@ == old(self)@.insert(id@, input@),
    {
        let (mut kept, _) = take_out(&self.entries, id.as_str());
        let ghost w = pairs_view(kept@);
        kept.push((id, input));
        proof {
            lemma_without_key(pairs_view(self.entries@), id@);
            assert(pairs_view(kept@).drop_last() =~= w);
            assert(to_map(pairs_view(kept@)) =~= self@.insert(id@, input@));
        }
        self.entries = kept;
    }

    /// Takes out the input recorded for `id`, if any.
    pub fn remove(&mut self, id: &str) -> (r: Option<String>)
        ensures
            final(self)@ == old(self)@.remove(id@),
            match r {
                Some(s) => old(self)@.dom().contains(id@) && s@ == old(self)@[id@],
                None => !old(self)@.dom().contains(id@),
            },
    {
        let (kept, found) = take_out(&self.entries, id);
        proof {
            lemma_without_key(pairs_view(self.entries@), id@);
        }
        self.entries = kept;
        found
    }
}

/// Token totals and other facts gathered from the event stream.
pub struct SessionTracker {
    /// Slash commands the agent reported.
    pub slash_commands: Vec<String>,
    /// The session id the agent reported.
    pub session_id: Option<String>,
    /// The last slash command sent, until its result arrives.
    pub pending_slash_command: Option<String>,
    /// The model the agent answers with.
    pub detected_model: Option<String>,
    pub total_input_tokens: u64,
    pub total_output_tokens: u64,
    pub todo_tracker: TodoTracker,
    pub agent_tasks: Vec<AgentTask>,
    pub pending_user_questions: PendingQuestions,
}

/// What an event asks of the interface besides the tracked state.
pub struct EventEffects {
    /// A notification to show.
    pub toast: Option<String>,
    /// Questions to put to the user.
    pub questions: Option<Vec<UserQuestion>>,
}

/// The tool call a `ContentBlockStop` at `index` closes in the last message.
pub open spec fn stopped_call(ms: Seq<MessageView>, index: int) -> Option<(Seq<char>, Seq<char>, Seq<char>)> {
    if ms.len() > 0 && 0 <= index < ms.last().content.len() {
        match ms.last().content[index] {
            BlockView::ToolUse { id, name, input } => Some((id, name, input)),
            _ => None,
        }
    } else {
        None
    }
}

/// The sub-agent a Task tool input describes: its description and type,
/// with defaults; `None` when the input is not JSON.
pub open spec fn task_of(input: Seq<char>) -> Option<(Seq<char>, Seq<char>)> {
    task_of_json(spec_parse_json(input))
}

/// The description and agent type of a Task call, given its parsed input.
pub open spec fn task_of_json(j: Option<JsonValue>) -> Option<(Seq<char>, Seq<char>)> {
    match j {
        Some(v) => Some((str_or(v, "description"@, "agent task"@), str_or(v, "subagent_type"@, "unknown"@))),
        None => None,
    }
}

/// The description and agent type of a Task call, given its parsed input
/// (`None` when the input is not JSON).
pub fn task_of_value(json: Option<&JsonValue>) -> (r: Option<(String, String)>)
    ensures
        match r {
            Some(t) => task_of_json(opt_val(json)) == Some((t.0@, t.1@)),
            None => task_of_json(opt_val(json)) is None,
        },
{
    match json {
        Some(v) => {
            let description = match as_str(get(v, "description")) {
                Some(s) => owned(s),
                None => owned("agent task"),
            };
            let agent_type = match as_str(get(v, "subagent_type")) {
                Some(s) => owned(s),
                None => owned("unknown"),
            };
            Some((description, agent_type))
        },
        None => None,
    }
}

/// The notification an event calls for, given the pending slash command.
pub open spec fn toast_for(e: EventView, pending: Option<Seq<char>>) -> Option<Seq<char>> {
    match e {
        EventView::Result { text, is_error } => if text.len() == 0 && !is_error {
            match pending {
                Some(cmd) => Some("Ran "@ + cmd),
                None => None,
            }
        } else {
            None
        },
        EventView::SystemHook { subtype, hook_id } => {
            let name = match hook_id {
                Some(h) => h,
                None => "hook"@,
            };
            if subtype == "hook_started"@ {
                Some("Running hook: "@ + name)
            } else if subtype == "hook_completed"@ {
                Some("Hook completed: "@ + name)
            } else {
                None
            }
        },
        _ => None,
    }
}

/// The tokens an event adds: (input, output).
pub open spec fn tokens_of(e: EventView) -> (nat, nat) {
    match e {
        EventView::MessageStart { usage: Some(u), .. } => (u.input_tokens as nat, u.output_tokens as nat),
        EventView::MessageDelta { usage: Some(u), .. } => (0, u.output_tokens as nat),
        _ => (0, 0),
    }
}

/// The tasks after a tool result for `id`: each task with that id is done.
pub open spec fn completed_for(tasks: Seq<TaskView>, id: Seq<char>) -> Seq<TaskView> {
    Seq::new(
        tasks.len(),
        |i: int|
            if tasks[i].id == id {
                TaskView { completed: true, ..tasks[i] }
            } else {
                tasks[i]
            },
    )
}

/// The optional string's characters.
pub open spec fn opt_view(o: Option<String>) -> Option<Seq<char>> {
    match o {
        Some(s) => Some(s@),
        None => None,
    }
}

/// The tasks as plain values.
pub open spec fn tasks_view(v: Seq<AgentTask>) -> Seq<TaskView> {
    v.map_values(|t: AgentTask| t@)
}

/// A copy of the strings.
fn copy_strings(v: &Vec<String>) -> (r: Vec<String>)
    ensures
        r@.map_values(|s: String| s@) == v@.map_values(|s: String| s@),
{
    let mut out: Vec<String> = Vec::new();
    let mut i: usize = 0;
    while i < v.len()
        invariant
            i <= v.len(),
            out@.map_values(|s: String| s@) == v@.map_values(|s: String| s@).take(i as int),
        decreases v.len() - i,
    {
        let ghost before = out@;
        out.push(v[i].clone());
        proof {
            assert(out@.map_values(|s: String| s@) =~= before.map_values(|s: String| s@).push(v@[i as int]@));
            assert(out@.map_values(|s: String| s@) =~= v@.map_values(|s: String| s@).take(i + 1));
        }
        i = i + 1;
    }
    proof {
        assert(v@.map_values(|s: String| s@).take(v@.len() as int) =~= v@.map_values(|s: String| s@));
    }
    out
}

/// Marks done every task spawned by the call `id`.
fn mark_completed(tasks: &mut Vec<AgentTask>, id: &str)
    ensures
        tasks_view(final(tasks)@) == completed_for(tasks_view(old(tasks)@), id@),
{
    let ghost before = tasks_view(tasks@);
    let mut k: usize = 0;
    while k < tasks.len()
        invariant
            k <= tasks@.len(),
            before.len() == tasks@.len(),
            forall|j: int| 0 <= j < k ==> #[trigger] tasks_view(tasks@)[j] == (if before[j].id == id@ {
                TaskView { completed: true, ..before[j] }
            } else {
                before[j]
            }),
            forall|j: int| k <= j < tasks@.len() ==> #[trigger] tasks_view(tasks@)[j] == before[j],
        decreases tasks.len() - k,
    {
        if str_eq(tasks[k].id.as_str(), id) {
            let ghost prev = tasks@;
            proof {
                assert(tasks_view(prev)[k as int] == prev[k as int]@);
                assert(prev[k as int]@ == before[k as int]);
            }
            let mut t = tasks.remove(k);
            t.completed = true;
            let ghost tv = t@;
            tasks.insert(k, t);
            proof {
                assert(tv == TaskView { completed: true, ..before[k as int] });
                assert(tasks@[k as int]@ == tv);
                assert forall|j: int| 0 <= j < tasks@.len() && j != k implies #[trigger] tasks@[j] == prev[j] by {
                }
                assert(tasks_view(tasks@)[k as int] == TaskView { completed: true, ..before[k as int] });
                assert forall|j: int| 0 <= j < k + 1 implies #[trigger] tasks_view(tasks@)[j] == (if before[j].id == id@ {
                    TaskView { completed: true, ..before[j] }
                } else {
                    before[j]
                }) by {
                    assert(tasks_view(tasks@)[j] == tasks@[j]@);
                    if j < k {
                        assert(tasks@[j] == prev[j]);
                        assert(tasks_view(prev)[j] == prev[j]@);
                    }
                }
                assert forall|j: int| k + 1 <= j < tasks@.len() implies #[trigger] tasks_view(tasks@)[j] == before[j] by {
                    assert(tasks_view(tasks@)[j] == tasks@[j]@);
                    assert(tasks@[j] == prev[j]);
                    assert(tasks_view(prev)[j] == prev[j]@);
                }
            }
        }
        k = k + 1;
    }
    proof {
        assert(tasks_view(tasks@) =~= completed_for(before, id@));
    }
}

impl SessionTracker {
    /// Nothing tracked yet.
    pub fn new() -> (t: Self)
        ensures
            t.slash_commands@.len() == 0,
            t.session_id is None,
            t.pending_slash_command is None,
            t.detected_model is None,
            t.total_input_tokens == 0,
            t.total_output_tokens == 0,
            t.todo_tracker@.len() == 0,
            t.agent_tasks@.len() == 0,
            t.pending_user_questions@ == Map::<Seq<char>, Seq<char>>::empty(),
    {
        SessionTracker {
            slash_commands: Vec::new(),
            session_id: None,
            pending_slash_command: None,
            detected_model: None,
            total_input_tokens: 0,
            total_output_tokens: 0,
            todo_tracker: TodoTracker::new(),
            agent_tasks: Vec::new(),
            pending_user_questions: PendingQuestions::new(),
        }
    }

    /// Takes in an event of the stream, before the conversation applies it
    /// (`messages` are the conversation's messages so far), and says what
    /// the interface should show.
    pub fn observe(&mut self, event: &StreamEvent, messages: &Vec<Message>) -> (fx: EventEffects)
        requires
            old(self).total_input_tokens + tokens_of(event@).0 <= u64::MAX,
            old(self).total_output_tokens + tokens_of(event@).1 <= u64::MAX,
        ensures
            // Reported commands and session.
            match event@ {
                EventView::SystemInit { slash_commands, session_id } => final(self).slash_commands@.map_values(|s: String| s@) == slash_commands
                    && opt_view(final(self).session_id) == session_id,
                _ => final(self).slash_commands@ == old(self).slash_commands@ && final(self).session_id == old(self).session_id,
            },
            // The pending slash command ends with a result or a new message.
            (event@ is Result || event@ is MessageStart) ==> final(self).pending_slash_command is None,
            !(event@ is Result || event@ is MessageStart) ==> final(self).pending_slash_command
                == old(self).pending_slash_command,
            // The model of a new message, unless it names none and one is known.
            match event@ {
                EventView::MessageStart { model, .. } => if old(self).detected_model is None || model.len() > 0 {
                    opt_view(final(self).detected_model) == Some(model)
                } else {
                    final(self).detected_model == old(self).detected_model
                },
                _ => final(self).detected_model == old(self).detected_model,
            },
            // Token totals.
            final(self).total_input_tokens == old(self).total_input_tokens + tokens_of(event@).0,
            final(self).total_output_tokens == old(self).total_output_tokens + tokens_of(event@).1,
            // Notifications.
            opt_view(fx.toast) == toast_for(event@, opt_view(old(self).pending_slash_command)),
            // Tool calls that end: the todo list, questions and sub-agents.
            ({
                let call = match event@ {
                    EventView::ContentBlockStop { index } => stopped_call(messages_view(messages@), index as int),
                    _ => None,
                };
                &&& match call {
                    Some((_, name, input)) => if name == "TodoWrite"@ {
                        final(self).todo_tracker@ == match todo_write_list(spec_parse_json(input)) {
                            Some(items) => items,
                            None => old(self).todo_tracker@,
                        }
                    } else {
                        final(self).todo_tracker@ == old(self).todo_tracker@
                    },
                    None => final(self).todo_tracker@ == old(self).todo_tracker@,
                }
                &&& match event@ {
                    EventView::ToolResult { tool_use_id, .. } => {
                        &&& tasks_view(final(self).agent_tasks@) == completed_for(
                            tasks_view(old(self).agent_tasks@),
                            tool_use_id,
                        )
                        &&& final(self).pending_user_questions@ == old(self).pending_user_questions@.remove(
                            tool_use_id,
                        )
                        &&& match fx.questions {
                            Some(qs) => old(self).pending_user_questions@.dom().contains(tool_use_id)
                                && questions_of(spec_parse_json(old(self).pending_user_questions@[tool_use_id]))
                                == Some(qs@.map_values(|q: UserQuestion| question_view(q))) && qs@.len() > 0,
                            None => !old(self).pending_user_questions@.dom().contains(tool_use_id) || match questions_of(
                                spec_parse_json(old(self).pending_user_questions@[tool_use_id]),
                            ) {
                                Some(qs) => qs.len() == 0,
                                None => true,
                            },
                        }
                    },
                    _ => {
                        &&& fx.questions is None
                        &&& match call {
                            Some((id, name, input)) => {
                                &&& final(self).pending_user_questions@ == if name == "AskUserQuestion"@ {
                                    old(self).pending_user_questions@.insert(id, input)
                                } else {
                                    old(self).pending_user_questions@
                                }
                                &&& tasks_view(final(self).agent_tasks@) == if name == "Task"@ {
                                    match task_of(input) {
                                        Some((d, t)) => tasks_view(old(self).agent_tasks@).push(
                                            TaskView { id, description: d, agent_type: t, completed: false },
                                        ),
                                        None => tasks_view(old(self).agent_tasks@),
                                    }
                                } else {
                                    tasks_view(old(self).agent_tasks@)
                                }
                            },
                            None => {
                                &&& final(self).pending_user_questions@ == old(self).pending_user_questions@
                                &&& tasks_view(final(self).agent_tasks@) == tasks_view(old(self).agent_tasks@)
                            },
                        }
                    },
                }
            }),
    {
        let mut fx = EventEffects { toast: None, questions: None };
        match event {
            StreamEvent::SystemInit { slash_commands, session_id } => {
                self.slash_commands = copy_strings(slash_commands);
                self.session_id = match session_id {
                    Some(s) => Some(s.clone()),
                    None => None,
                };
            },
            StreamEvent::Result { text, is_error } => {
                if text.as_str().is_empty() && !*is_error {
                    match &self.pending_slash_command {
                        Some(cmd) => {
                            let mut t = owned("Ran ");
                            push_str(&mut t, cmd.as_str());
                            fx.toast = Some(t);
                        },
                        None => {},
                    }
                }
                self.pending_slash_command = None;
            },
            StreamEvent::MessageStart { model, usage, .. } => {
                self.pending_slash_command = None;
                if self.detected_model.is_none() || !model.as_str().is_empty() {
                    self.detected_model = Some(model.clone());
                }
                match usage {
                    Some(u) => {
                        self.total_input_tokens = self.total_input_tokens + u.input_tokens;
                        self.total_output_tokens = self.total_output_tokens + u.output_tokens;
                    },
                    None => {},
                }
            },
            StreamEvent::SystemHook { subtype, hook_id } => {
                let name = match hook_id {
                    Some(h) => h.as_str(),
                    None => "hook",
                };
                if str_eq(subtype.as_str(), "hook_started") {
                    let mut t = owned("Running hook: ");
                    push_str(&mut t, name);
                    fx.toast = Some(t);
                } else if str_eq(subtype.as_str(), "hook_completed") {
                    let mut t = owned("Hook completed: ");
                    push_str(&mut t, name);
                    fx.toast = Some(t);
                }
            },
            StreamEvent::MessageDelta { usage, .. } => {
                match usage {
                    Some(u) => {
                        self.total_output_tokens = self.total_output_tokens + u.output_tokens;
                    },
                    None => {},
                }
            },
            StreamEvent::ContentBlockStop { index } => {
                self.tool_call_ended(*index, messages);
            },
            StreamEvent::ToolResult { tool_use_id, .. } => {
                let mut tasks: Vec<AgentTask> = Vec::new();
                std::mem::swap(&mut tasks, &mut self.agent_tasks);
                mark_completed(&mut tasks, tool_use_id.as_str());
                std::mem::swap(&mut tasks, &mut self.agent_tasks);
                match self.pending_user_questions.remove(tool_use_id.as_str()) {
                    Some(input) => {
                        match parse_ask_user_questions(input.as_str()) {
                            Some(qs) => {
                                if qs.len() > 0 {
                                    fx.questions = Some(qs);
                                }
                            },
                            None => {},
                        }
                    },
                    None => {},
                }
            },
            _ => {},
        }
        fx
    }

    /// Takes in the tool call that a block stop at `index` ends.
    fn tool_call_ended(&mut self, index: usize, messages: &Vec<Message>)
        ensures
            final(self).slash_commands@ == old(self).slash_commands@,
            final(self).session_id == old(self).session_id,
            final(self).pending_slash_command == old(self).pending_slash_command,
            final(self).detected_model == old(self).detected_model,
            final(self).total_input_tokens == old(self).total_input_tokens,
            final(self).total_output_tokens == old(self).total_output_tokens,
            match stopped_call(messages_view(messages@), index as int) {
                Some((id, name, input)) => {
                    &&& final(self).todo_tracker@ == if name == "TodoWrite"@ {
                        match todo_write_list(spec_parse_json(input)) {
                            Some(items) => items,
                            None => old(self).todo_tracker@,
                        }
                    } else {
                        old(self).todo_tracker@
                    }
                    &&& final(self).pending_user_questions@ == if name == "AskUserQuestion"@ {
                        old(self).pending_user_questions@.insert(id, input)
                    } else {
                        old(self).pending_user_questions@
                    }
                    &&& tasks_view(final(self).agent_tasks@) == if name == "Task"@ {
                        match task_of(input) {
                            Some((d, t)) => tasks_view(old(self).agent_tasks@).push(
                                TaskView { id, description: d, agent_type: t, completed: false },
                            ),
                            None => tasks_view(old(self).agent_tasks@),
                        }
                    } else {
                        tasks_view(old(self).agent_tasks@)
                    }
                },
                None => {
                    &&& final(self).todo_tracker@ == old(self).todo_tracker@
                    &&& final(self).pending_user_questions@ == old(self).pending_user_questions@
                    &&& tasks_view(final(self).agent_tasks@) == tasks_view(old(self).agent_tasks@)
                },
            },
    {
        let n = messages.len();
        if n == 0 {
            return;
        }
        let blocks = &messages[n - 1].content;
        if index >= blocks.len() {
            proof {
                assert(messages_view(messages@).last() == messages@[n - 1]@);
            }
            return;
        }
        proof {
            assert(messages_view(messages@).last() == messages@[n - 1]@);
            assert(messages@[n - 1]@.content[index as int] == blocks@[index as int]@);
        }
        match &blocks[index] {
            ContentBlock::ToolUse { id, name, input } => {
                if str_eq(name.as_str(), "TodoWrite") {
                    self.todo_tracker.apply_todo_write(input.as_str());
                }
                if str_eq(name.as_str(), "AskUserQuestion") {
                    self.pending_user_questions.insert(id.clone(), input.clone());
                }
                if str_eq(name.as_str(), "Task") {
                    let json = parse_json(input.as_str());
                    let task = match &json {
                        Some(v) => task_of_value(Some(v)),
                        None => task_of_value(None),
                    };
                    match task {
                        Some((description, agent_type)) => {
                            let ghost before = self.agent_tasks@;
                            self.agent_tasks.push(
                                AgentTask {
                                    id: id.clone(),
                                    description,
                                    agent_type,
                                    started: now(),
                                    completed: false,
                                },
                            );
                            proof {
                                assert(tasks_view(self.agent_tasks@) =~= tasks_view(before).push(
                                    self.agent_tasks@.last()@,
                                ));
                            }
                        },
                        None => {},
                    }
                }
            },
            _ => {},
        }
    }
}

} // verus!
