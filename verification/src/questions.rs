//! Questions the agent asks the user: reading them from the tool input and
//! the dialog that answers them.
use vstd::prelude::*;

use crate::json::{as_bool, as_bool_spec, as_str, as_str_spec, get, get_spec, opt_val, parse_json, spec_parse_json, JsonValue};
use crate::sessions::{join, join_strings};
use crate::text::{owned, push_str};

verus! {

/// One option of a question.
#[derive(Debug, Clone)]
pub struct UserQuestionOption {
    pub label: String,
    pub description: String,
}

/// A question with its options.
#[derive(Debug, Clone)]
pub struct UserQuestion {
    pub question: String,
    pub header: String,
    pub options: Vec<UserQuestionOption>,
    pub multi_select: bool,
}

/// An option as plain values: label and description.
pub open spec fn option_view(o: UserQuestionOption) -> (Seq<char>, Seq<char>) {
    (o.label@, o.description@)
}

/// A question as plain values.
pub struct QuestionView {
    pub question: Seq<char>,
    pub header: Seq<char>,
    pub options: Seq<(Seq<char>, Seq<char>)>,
    pub multi_select: bool,
}

/// A question as plain values.
pub open spec fn question_view(q: UserQuestion) -> QuestionView {
    QuestionView {
        question: q.question@,
        header: q.header@,
        options: q.options@.map_values(|o: UserQuestionOption| option_view(o)),
        multi_select: q.multi_select,
    }
}

/// A string member, or empty when it is missing or not a string.
pub open spec fn str_or_empty(v: JsonValue, key: Seq<char>) -> Seq<char> {
    match as_str_spec(get_spec(v, key)) {
        Some(s) => s,
        None => seq![],
    }
}

/// An option of the tool input: it must have a string `label`.
pub open spec fn option_of(v: JsonValue) -> Option<(Seq<char>, Seq<char>)> {
    match as_str_spec(get_spec(v, "label"@)) {
        Some(l) => Some((l, str_or_empty(v, "description"@))),
        None => None,
    }
}

/// A question of the tool input: it must have a string `question` and an
/// array of `options`, each of them an option.
pub open spec fn question_of(v: JsonValue) -> Option<QuestionView> {
    match (as_str_spec(get_spec(v, "question"@)), get_spec(v, "options"@)) {
        (Some(q), Some(JsonValue::Array(opts))) => if forall|i: int|
            0 <= i < opts@.len() ==> (#[trigger] option_of(opts@[i])) is Some {
            Some(
                QuestionView {
                    question: q,
                    header: str_or_empty(v, "header"@),
                    options: Seq::new(opts@.len(), |i: int| option_of(opts@[i])->0),
                    multi_select: match as_bool_spec(get_spec(v, "multiSelect"@)) {
                        Some(b) => b,
                        None => false,
                    },
                },
            )
        } else {
            None
        },
        _ => None,
    }
}

/// The questions of an AskUserQuestion input: its `questions` array, each a
/// question; `None` when the input is not such a document.
pub open spec fn questions_of(j: Option<JsonValue>) -> Option<Seq<QuestionView>> {
    match j {
        Some(v) => match get_spec(v, "questions"@) {
            Some(JsonValue::Array(qs)) => if forall|i: int|
                0 <= i < qs@.len() ==> (#[trigger] question_of(qs@[i])) is Some {
                Some(Seq::new(qs@.len(), |i: int| question_of(qs@[i])->0))
            } else {
                None
            },
            _ => None,
        },
        None => None,
    }
}

/// A string member, or empty.
fn str_member(v: &JsonValue, key: &str) -> (r: String)
    ensures
        r@ == str_or_empty(*v, key@),
{
    match as_str(get(v, key)) {
        Some(s) => owned(s),
        None => String::new(),
    }
}

/// Reads one question.
fn read_question(v: &JsonValue) -> (r: Option<UserQuestion>)
    ensures
        match r {
            Some(q) => question_of(*v) == Some(question_view(q)),
            None => question_of(*v) is None,
        },
{
    let question = owned(as_str(get(v, "question"))?);
    let opts = match get(v, "options") {
        Some(JsonValue::Array(a)) => a,
        _ => {
            return None;
        },
    };
    let header = str_member(v, "header");
    let multi_select = match as_bool(get(v, "multiSelect")) {
        Some(b) => b,
        None => false,
    };
    let mut options: Vec<UserQuestionOption> = Vec::new();
    let mut i: usize = 0;
    while i < opts.len()
        invariant
            i <= opts.len(),
            options@.len() == i,
            get_spec(*v, "options"@) == Some(JsonValue::Array(*opts)),
            forall|k: int| 0 <= k < i ==> (#[trigger] option_of(opts@[k])) == Some(option_view(options@[k])),
        decreases opts.len() - i,
    {
        let o = &opts[i];
        let label = match as_str(get(o, "label")) {
            Some(l) => owned(l),
            None => {
                assert(!(option_of(opts@[i as int]) is Some));
                return None;
            },
        };
        let description = str_member(o, "description");
        options.push(UserQuestionOption { label, description });
        i = i + 1;
    }
    let q = UserQuestion { question, header, options, multi_select };
    proof {
        assert(question_view(q).options =~= Seq::new(opts@.len(), |k: int| option_of(opts@[k])->0));
    }
    Some(q)
}

/// Parse an AskUserQuestion tool input into questions.
pub fn parse_ask_user_questions(input_json: &str) -> (r: Option<Vec<UserQuestion>>)
    ensures
        match r {
            Some(qs) => questions_of(spec_parse_json(input_json@)) == Some(
                qs@.map_values(|q: UserQuestion| question_view(q)),
            ),
            None => questions_of(spec_parse_json(input_json@)) is None,
        },
{
    let json = parse_json(input_json);
    match &json {
        Some(v) => questions_of_value(Some(v)),
        None => questions_of_value(None),
    }
}

/// The questions a parsed AskUserQuestion input asks (`None` when the input
/// is not JSON, or its `questions` is not a list of questions).
pub fn questions_of_value(json: Option<&JsonValue>) -> (r: Option<Vec<UserQuestion>>)
    ensures
        match r {
            Some(qs) => questions_of(opt_val(json)) == Some(qs@.map_values(|q: UserQuestion| question_view(q))),
            None => questions_of(opt_val(json)) is None,
        },
{
    let v = match json {
        Some(v) => v,
        None => {
            return None;
        },
    };
    let qs = match get(v, "questions") {
        Some(JsonValue::Array(a)) => a,
        _ => {
            return None;
        },
    };
    let mut out: Vec<UserQuestion> = Vec::new();
    let mut i: usize = 0;
    while i < qs.len()
        invariant
            i <= qs.len(),
            out@.len() == i,
            opt_val(json) == Some(*v),
            get_spec(*v, "questions"@) == Some(JsonValue::Array(*qs)),
            forall|k: int| 0 <= k < i ==> (#[trigger] question_of(qs@[k])) == Some(question_view(out@[k])),
        decreases qs.len() - i,
    {
        match read_question(&qs[i]) {
            Some(q) => {
                out.push(q);
            },
            None => {
                assert(!(question_of(qs@[i as int]) is Some));
                return None;
            },
        }
        i = i + 1;
    }
    proof {
        assert(out@.map_values(|q: UserQuestion| question_view(q)) =~= Seq::new(
            qs@.len(),
            |k: int| question_of(qs@[k])->0,
        ));
    }
    Some(out)
}

// ---------------------------------------------------------------------------
// The question dialog
// ---------------------------------------------------------------------------

/// The open question dialog: the questions, the one shown, the highlighted
/// option and, for several answers, which options are ticked.
#[derive(Debug, Clone)]
pub struct QuestionDialog {
    pub questions: Vec<UserQuestion>,
    pub current_question: usize,
    pub cursor: usize,
    pub selected: Vec<bool>,
}

/// The keys the dialog answers to.
#[derive(Debug, Clone, Copy, PartialEq, Eq, Structural)]
pub enum DialogKey {
    Up,
    Down,
    Toggle,
    Confirm,
    Cancel,
    Other,
}

/// What a key press leads to.
#[derive(Debug, Clone, PartialEq, Eq)]
pub enum DialogOutcome {
    /// The dialog stays open.
    Stay,
    /// The dialog closes without an answer.
    Close,
    /// The dialog closes, sending this answer as the user's message.
    Answer(String),
}

/// The labels of the ticked options, in order.
pub open spec fn ticked_labels(opts: Seq<(Seq<char>, Seq<char>)>, ticks: Seq<bool>) -> Seq<Seq<char>>
    decreases opts.len(),
{
    if opts.len() == 0 {
        seq![]
    } else {
        let rest = ticked_labels(opts.drop_last(), ticks);
        if opts.len() - 1 < ticks.len() && ticks[opts.len() - 1] {
            rest.push(opts.last().0)
        } else {
            rest
        }
    }
}

/// The label under the cursor, or empty.
pub open spec fn label_at(opts: Seq<(Seq<char>, Seq<char>)>, cursor: int) -> Seq<char> {
    if 0 <= cursor < opts.len() {
        opts[cursor].0
    } else {
        seq![]
    }
}

/// The answer to a question: for several answers the ticked labels joined
/// by ", " (the highlighted one when none is ticked), otherwise the
/// highlighted label.
pub open spec fn answer_of(q: QuestionView, cursor: int, ticks: Seq<bool>) -> Seq<char> {
    if q.multi_select {
        let t = ticked_labels(q.options, ticks);
        if t.len() == 0 {
            label_at(q.options, cursor)
        } else {
            join(t, ", "@)
        }
    } else {
        label_at(q.options, cursor)
    }
}

impl QuestionDialog {
    /// The dialog for a list of questions: the first one shown, nothing
    /// ticked.
    pub fn open(questions: Vec<UserQuestion>) -> (d: Self)
        requires
            questions@.len() > 0,
        ensures
            d.questions@ == questions@,
            d.current_question == 0,
            d.cursor == 0,
            d.selected@.len() == questions@[0].options@.len(),
            forall|i: int| 0 <= i < d.selected@.len() ==> !#[trigger] d.selected@[i],
    {
        let n = questions[0].options.len();
        let mut selected: Vec<bool> = Vec::new();
        let mut i: usize = 0;
        while i < n
            invariant
                i <= n,
                selected@.len() == i,
                forall|k: int| 0 <= k < i ==> !#[trigger] selected@[k],
            decreases n - i,
        {
            selected.push(false);
            i = i + 1;
        }
        QuestionDialog { questions, current_question: 0, cursor: 0, selected }
    }

    /// Handles a key: Up and Down move the highlight round the options,
    /// Toggle ticks the highlighted option of a several-answer question,
    /// Confirm closes with the answer ("question: answer") unless it is
    /// empty, Cancel closes.
    pub fn handle_key(&mut self, key: DialogKey) -> (out: DialogOutcome)
        requires
            old(self).cursor < usize::MAX,
        ensures
            final(self).questions@ == old(self).questions@,
            final(self).current_question == old(self).current_question,
            ({
                let qi = old(self).current_question as int;
                let has_q = qi < old(self).questions@.len();
                let n = if has_q { old(self).questions@[qi].options@.len() as int } else { 0 };
                let c = old(self).cursor as int;
                match key {
                    DialogKey::Up => out == DialogOutcome::Stay && final(self).selected@ == old(self).selected@
                        && final(self).cursor == (if n == 0 { c } else if c > 0 { c - 1 } else { n - 1 }),
                    DialogKey::Down => out == DialogOutcome::Stay && final(self).selected@ == old(self).selected@
                        && final(self).cursor == (if n == 0 { c } else { (c + 1) % n }),
                    DialogKey::Toggle => out == DialogOutcome::Stay && final(self).cursor == c
                        && final(self).selected@ == (if has_q && old(self).questions@[qi].multi_select && c
                        < old(self).selected@.len() {
                        old(self).selected@.update(c, !old(self).selected@[c])
                    } else {
                        old(self).selected@
                    }),
                    DialogKey::Confirm => final(self).cursor == c && final(self).selected@ == old(self).selected@
                        && if has_q {
                        let q = question_view(old(self).questions@[qi]);
                        let a = answer_of(q, c, old(self).selected@);
                        if a.len() > 0 {
                            out matches DialogOutcome::Answer(s) && s@ == q.question + ": "@ + a
                        } else {
                            out == DialogOutcome::Close
                        }
                    } else {
                        out == DialogOutcome::Close
                    },
                    DialogKey::Cancel => out == DialogOutcome::Close && final(self).cursor == c
                        && final(self).selected@ == old(self).selected@,
                    DialogKey::Other => out == DialogOutcome::Stay && final(self).cursor == c
                        && final(self).selected@ == old(self).selected@,
                }
            }),
    {
        let qi = self.current_question;
        match key {
            DialogKey::Up => {
                if qi < self.questions.len() {
                    let n = self.questions[qi].options.len();
                    if n > 0 {
                        if self.cursor > 0 {
                            self.cursor = self.cursor - 1;
                        } else {
                            self.cursor = n - 1;
                        }
                    }
                }
                DialogOutcome::Stay
            },
            DialogKey::Down => {
                if qi < self.questions.len() {
                    let n = self.questions[qi].options.len();
                    if n > 0 {
                        self.cursor = (self.cursor + 1) % n;
                    }
                }
                DialogOutcome::Stay
            },
            DialogKey::Toggle => {
                if qi < self.questions.len() && self.questions[qi].multi_select && self.cursor
                    < self.selected.len() {
                    let c = self.cursor;
                    let v = !self.selected[c];
                    self.selected.set(c, v);
                }
                DialogOutcome::Stay
            },
            DialogKey::Confirm => {
                if qi >= self.questions.len() {
                    return DialogOutcome::Close;
                }
                let q = &self.questions[qi];
                let answer = answer_for(q, self.cursor, &self.selected);
                if answer.as_str().is_empty() {
                    DialogOutcome::Close
                } else {
                    let mut response = q.question.clone();
                    push_str(&mut response, ": ");
                    push_str(&mut response, answer.as_str());
                    DialogOutcome::Answer(response)
                }
            },
            DialogKey::Cancel => DialogOutcome::Close,
            DialogKey::Other => DialogOutcome::Stay,
        }
    }
}

/// The answer to a question given the highlight and the ticks.
fn answer_for(q: &UserQuestion, cursor: usize, ticks: &Vec<bool>) -> (r: String)
    ensures
        r@ == answer_of(question_view(*q), cursor as int, ticks@),
{
    let ghost opts = question_view(*q).options;
    let highlighted = if cursor < q.options.len() {
        q.options[cursor].label.clone()
    } else {
        String::new()
    };
    proof {
        if cursor < q.options@.len() {
            assert(opts[cursor as int] == option_view(q.options@[cursor as int]));
        }
    }
    if !q.multi_select {
        return highlighted;
    }
    let mut labels: Vec<String> = Vec::new();
    let mut i: usize = 0;
    while i < q.options.len()
        invariant
            i <= q.options@.len(),
            opts == question_view(*q).options,
            labels@.map_values(|p: String| p@) == ticked_labels(opts.take(i as int), ticks@),
        decreases q.options.len() - i,
    {
        proof {
            assert(opts.take(i + 1).drop_last() =~= opts.take(i as int));
            assert(opts.take(i + 1).last() == option_view(q.options@[i as int]));
        }
        if i < ticks.len() && ticks[i] {
            let ghost before = labels@;
            labels.push(q.options[i].label.clone());
            proof {
                assert(labels@.map_values(|p: String| p@) =~= before.map_values(|p: String| p@).push(
                    q.options@[i as int].label@,
                ));
            }
        }
        i = i + 1;
    }
    proof {
        assert(opts.take(q.options@.len() as int) =~= opts);
    }
    if labels.len() == 0 {
        highlighted
    } else {
        join_strings(&labels, ", ")
    }
}

} // verus!
