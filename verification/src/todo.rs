//! The agent's todo list, as last written by its TodoWrite tool.
use vstd::prelude::*;

use crate::json::{
    field, field_spec, opt_chars, opt_string, opt_string_spec, opt_val, parse_json,
    spec_parse_json, JsonValue,
};
use crate::text::{decimal, owned, push_decimal, push_str, str_eq};

verus! {

/// Where a todo item stands.
#[derive(Debug, Clone, Copy, PartialEq, Eq, Structural)]
pub enum TodoStatus {
    Pending,
    InProgress,
    Completed,
}

/// A single todo item.
#[derive(Debug, Clone)]
pub struct TodoItem {
    pub id: String,
    pub content: String,
    pub status: TodoStatus,
}

/// A todo item as plain values: id, content and status.
pub struct TodoView {
    pub id: Seq<char>,
    pub content: Seq<char>,
    pub status: TodoStatus,
}

impl View for TodoItem {
    type V = TodoView;

    open spec fn view(&self) -> TodoView {
        TodoView { id: self.id@, content: self.content@, status: self.status }
    }
}

/// The current todo list.
#[derive(Debug)]
pub struct TodoTracker {
    pub items: Vec<TodoItem>,
}

impl View for TodoTracker {
    type V = Seq<TodoView>;

    open spec fn view(&self) -> Seq<TodoView> {
        self.items@.map_values(|t: TodoItem| t@)
    }
}

impl Default for TodoTracker {
    fn default() -> (t: Self)
        ensures
            t@ == Seq::<TodoView>::empty(),
    {
        TodoTracker::new()
    }
}

/// The status a status text stands for: "in_progress" and "completed" are
/// themselves, anything else (or nothing) is pending.
pub open spec fn status_of(s: Option<Seq<char>>) -> TodoStatus {
    if s == Some("in_progress"@) {
        TodoStatus::InProgress
    } else if s == Some("completed"@) {
        TodoStatus::Completed
    } else {
        TodoStatus::Pending
    }
}

/// A missing text reads as empty.
pub open spec fn or_empty_text(s: Option<Seq<char>>) -> Seq<char> {
    match s {
        Some(t) => t,
        None => Seq::empty(),
    }
}

/// One entry of a TodoWrite list, read as a struct with optional string
/// fields `id`, `content` and `status`; `None` when it does not have that
/// shape.
pub open spec fn todo_entry(v: JsonValue) -> Option<TodoView> {
    match (field_spec(v, 0, 3, "id"@), field_spec(v, 1, 3, "content"@), field_spec(v, 2, 3, "status"@)) {
        (Some(i), Some(c), Some(s)) => match (
            opt_string_spec(i),
            opt_string_spec(c),
            opt_string_spec(s),
        ) {
            (Some(id), Some(content), Some(status)) => Some(
                TodoView { id: or_empty_text(id), content: or_empty_text(content), status: status_of(status) },
            ),
            _ => None,
        },
        _ => None,
    }
}

/// The list a TodoWrite input describes: its `todos` field must be an array
/// whose every element is a todo entry. `None` when the input is not such a
/// document.
pub open spec fn todo_write_list(j: Option<JsonValue>) -> Option<Seq<TodoView>> {
    match j {
        Some(v) => match field_spec(v, 0, 1, "todos"@) {
            Some(Some(JsonValue::Array(a))) => if forall|i: int|
                0 <= i < a@.len() ==> (#[trigger] todo_entry(a@[i])) is Some {
                Some(Seq::new(a@.len(), |i: int| todo_entry(a@[i])->0))
            } else {
                None
            },
            _ => None,
        },
        None => None,
    }
}

/// How many items have status `s`.
pub open spec fn count_status(items: Seq<TodoView>, s: TodoStatus) -> nat
    decreases items.len(),
{
    if items.len() == 0 {
        0
    } else {
        count_status(items.drop_last(), s) + if items.last().status == s {
            1nat
        } else {
            0nat
        }
    }
}

/// How many items are not completed.
pub open spec fn count_active(items: Seq<TodoView>) -> nat
    decreases items.len(),
{
    if items.len() == 0 {
        0
    } else {
        count_active(items.drop_last()) + if items.last().status != TodoStatus::Completed {
            1nat
        } else {
            0nat
        }
    }
}

/// The content of the first in-progress item.
pub open spec fn first_in_progress(items: Seq<TodoView>) -> Option<Seq<char>>
    decreases items.len(),
{
    if items.len() == 0 {
        None
    } else if items[0].status == TodoStatus::InProgress {
        Some(items[0].content)
    } else {
        first_in_progress(items.drop_first())
    }
}

/// Reads one todo entry.
fn read_entry(v: &JsonValue) -> (r: Option<TodoItem>)
    ensures
        match r {
            Some(t) => todo_entry(*v) == Some(t@),
            None => todo_entry(*v) is None,
        },
{
    let i = opt_string(field(v, 0, 3, "id")?)?;
    let c = opt_string(field(v, 1, 3, "content")?)?;
    let s = opt_string(field(v, 2, 3, "status")?)?;
    let status = match &s {
        Some(t) => if str_eq(t.as_str(), "in_progress") {
            TodoStatus::InProgress
        } else if str_eq(t.as_str(), "completed") {
            TodoStatus::Completed
        } else {
            TodoStatus::Pending
        },
        None => TodoStatus::Pending,
    };
    proof {
        assert(status == status_of(opt_chars(s)));
    }
    let id = match i {
        Some(x) => x,
        None => String::new(),
    };
    let content = match c {
        Some(x) => x,
        None => String::new(),
    };
    Some(TodoItem { id, content, status })
}

/// Reads the todo list out of a TodoWrite input.
fn read_todo_list(input_json: &str) -> (r: Option<Vec<TodoItem>>)
    ensures
        match r {
            Some(items) => todo_write_list(spec_parse_json(input_json@)) == Some(
                items@.map_values(|t: TodoItem| t@),
            ),
            None => todo_write_list(spec_parse_json(input_json@)) is None,
        },
{
    let json = parse_json(input_json);
    match &json {
        Some(v) => todo_list_of_value(Some(v)),
        None => todo_list_of_value(None),
    }
}

/// The todo list a parsed TodoWrite input holds (`None` when the input is
/// not JSON, or its `todos` is not a list of todo entries).
pub fn todo_list_of_value(json: Option<&JsonValue>) -> (r: Option<Vec<TodoItem>>)
    ensures
        match r {
            Some(items) => todo_write_list(opt_val(json)) == Some(items@.map_values(|t: TodoItem| t@)),
            None => todo_write_list(opt_val(json)) is None,
        },
{
    let v = match json {
        Some(v) => v,
        None => return None,
    };
    let todos = field(v, 0, 1, "todos")?;
    let a = match todos {
        Some(JsonValue::Array(a)) => a,
        _ => return None,
    };
    let mut out: Vec<TodoItem> = Vec::new();
    let mut i: usize = 0;
    while i < a.len()
        invariant
            i <= a.len(),
            out@.len() == i,
            forall|k: int| 0 <= k < i ==> (#[trigger] todo_entry(a@[k])) == Some(out@[k]@),
            opt_val(json) == Some(*v),
            field_spec(*v, 0, 1, "todos"@) == Some(Some(JsonValue::Array(*a))),
        decreases a.len() - i,
    {
        match read_entry(&a[i]) {
            Some(t) => {
                out.push(t);
            },
            None => {
                assert(!(todo_entry(a@[i as int]) is Some));
                return None;
            },
        }
        i = i + 1;
    }
    proof {
        assert(out@.map_values(|t: TodoItem| t@) =~= Seq::new(
            a@.len(),
            |k: int| todo_entry(a@[k])->0,
        ));
    }
    Some(out)
}

impl TodoTracker {
    /// An empty todo list.
    pub fn new() -> (t: Self)
        ensures
            t@ == Seq::<TodoView>::empty(),
    {
        TodoTracker { items: Vec::new() }
    }

    /// Replaces the list with the one a TodoWrite input describes; an input
    /// that does not describe one leaves the list as it was.
    pub fn apply_todo_write(&mut self, input_json: &str)
        ensures
            match todo_write_list(spec_parse_json(input_json@)) {
                Some(items) => final(self)@ == items,
                None => final(self)@ == old(self)@,
            },
    {
        match read_todo_list(input_json) {
            Some(items) => {
                self.items = items;
            },
            None => {},
        }
    }

    /// How many items have status `s` (`completed`), or not (`!completed`
    /// counts the items whose status is other than completed).
    fn count(&self, completed: bool) -> (n: usize)
        ensures
            completed ==> n == count_status(self@, TodoStatus::Completed),
            !completed ==> n == count_active(self@),
    {
        let mut n: usize = 0;
        let mut i: usize = 0;
        while i < self.items.len()
            invariant
                i <= self.items.len(),
                n <= i,
                completed ==> n == count_status(self@.take(i as int), TodoStatus::Completed),
                !completed ==> n == count_active(self@.take(i as int)),
            decreases self.items.len() - i,
        {
            proof {
                assert(self@.take(i + 1).drop_last() =~= self@.take(i as int));
                assert(self@.take(i + 1).last() == self.items@[i as int]@);
            }
            if (self.items[i].status == TodoStatus::Completed) == completed {
                n = n + 1;
            }
            i = i + 1;
        }
        proof {
            assert(self@.take(self.items.len() as int) =~= self@);
        }
        n
    }

    /// Count of pending and in-progress items.
    pub fn active_count(&self) -> (n: usize)
        ensures
            n == count_active(self@),
    {
        self.count(false)
    }

    /// Count of completed items.
    pub fn completed_count(&self) -> (n: usize)
        ensures
            n == count_status(self@, TodoStatus::Completed),
    {
        self.count(true)
    }

    /// A summary like "3/5 tasks"; `None` when the list is empty.
    pub fn summary(&self) -> (r: Option<String>)
        ensures
            self@.len() == 0 ==> r is None,
            self@.len() > 0 ==> (r matches Some(s) && s@ == decimal(
                count_status(self@, TodoStatus::Completed),
            ) + "/"@ + decimal(self@.len()) + " tasks"@),
    {
        if self.items.len() == 0 {
            return None;
        }
        let done = self.completed_count();
        let total = self.items.len();
        let mut s = String::new();
        push_decimal(&mut s, done as u64);
        push_str(&mut s, "/");
        push_decimal(&mut s, total as u64);
        push_str(&mut s, " tasks");
        Some(s)
    }

    /// The content of the in-progress task, if any.
    pub fn current_task(&self) -> (r: Option<&str>)
        ensures
            match r {
                Some(s) => first_in_progress(self@) == Some(s@),
                None => first_in_progress(self@) is None,
            },
    {
        let mut i: usize = 0;
        assert(self@.skip(0) =~= self@);
        while i < self.items.len()
            invariant
                i <= self.items.len(),
                first_in_progress(self@) == first_in_progress(self@.skip(i as int)),
            decreases self.items.len() - i,
        {
            assert(self@.skip(i as int)[0] == self@[i as int]);
            assert(self@.skip(i as int).drop_first() =~= self@.skip(i + 1));
            if self.items[i].status == TodoStatus::InProgress {
                return Some(self.items[i].content.as_str());
            }
            i = i + 1;
        }
        None
    }
}

/// Active and completed items together make up the whole list.
pub proof fn law_active_and_completed_cover_list(items: Seq<TodoView>)
    ensures
        count_active(items) + count_status(items, TodoStatus::Completed) == items.len(),
    decreases items.len(),
{
    if items.len() > 0 {
        law_active_and_completed_cover_list(items.drop_last());
    }
}

} // verus!
