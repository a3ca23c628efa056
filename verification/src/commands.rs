//! Custom commands defined in markdown files with optional frontmatter.
use vstd::prelude::*;

use crate::text::{
    chars_of, find, find_from, find_in, lemma_find_from_shift, lines_of, matches_at, replace_all,
    replace_str, split_lines, starts_with, str_eq, string_of_range, trim, trim_owned, trim_range,
    trim_start, occurs_at,
};

verus! {

/// A custom command loaded from a `.md` file of a commands directory.
#[derive(Debug, Clone)]
pub struct CustomCommand {
    pub name: String,
    pub description: String,
    pub body: String,
    pub accepts_args: bool,
}

/// The placeholder that a command's arguments replace.
pub open spec fn placeholder() -> Seq<char> {
    "$ARGUMENTS"@
}

/// The prompt of a command: the body, with the placeholder replaced by the
/// arguments when the command takes them.
pub open spec fn render_spec(body: Seq<char>, accepts_args: bool, args: Seq<char>) -> Seq<char> {
    if accepts_args {
        replace_all(body, placeholder(), args)
    } else {
        body
    }
}

/// `find_from` gives `k` when `p` occurs at `k` and nowhere from `i` on
/// before it.
proof fn lemma_find_from_at(s: Seq<char>, p: Seq<char>, i: int, k: int)
    requires
        0 <= i <= k,
        occurs_at(s, p, k),
        forall|j: int| i <= j < k ==> !occurs_at(s, p, j),
    ensures
        find_from(s, p, i) == Some(k),
    decreases k - i,
{
    if i < k {
        lemma_find_from_at(s, p, i + 1, k);
    }
}

/// A body without the placeholder renders as itself; a command that takes
/// no arguments renders as its body.
pub proof fn law_render_without_placeholder(body: Seq<char>, accepts_args: bool, args: Seq<char>)
    requires
        !accepts_args || forall|j: int| !occurs_at(body, placeholder(), j),
    ensures
        render_spec(body, accepts_args, args) == body,
{
    if accepts_args {
        crate::text::lemma_find_from(body, placeholder(), 0);
    }
}

/// Every placeholder is replaced: a body whose first placeholder follows
/// `before` renders as `before`, the arguments, then the rest of the body
/// rendered in turn.
pub proof fn law_render_replaces_each_placeholder(before: Seq<char>, rest: Seq<char>, args: Seq<char>)
    requires
        forall|j: int| 0 <= j < before.len() ==> !occurs_at(before + placeholder(), placeholder(), j),
    ensures
        render_spec(before + placeholder() + rest, true, args) == before + args + render_spec(rest, true, args),
{
    reveal_strlit("$ARGUMENTS");
    let p = placeholder();
    let s = before + p + rest;
    let k = before.len() as int;
    assert(s.subrange(k, k + p.len()) =~= p);
    assert forall|j: int| 0 <= j < k implies !occurs_at(s, p, j) by {
        assert(!occurs_at(before + placeholder(), placeholder(), j));
        assert(j + p.len() <= (before + p).len());
        assert(s.subrange(j, j + p.len()) =~= (before + p).subrange(j, j + p.len()));
    }
    lemma_find_from_at(s, p, 0, k);
    assert(s.take(k) =~= before);
    assert(s.skip(k + p.len()) =~= rest);
}

impl CustomCommand {
    /// Build the final prompt text, substituting `$ARGUMENTS` with the given args.
    pub fn render(&self, args: &str) -> (r: String)
        ensures
            r@ == render_spec(self.body@, self.accepts_args, args@),
    {
        if self.accepts_args {
            proof {
                reveal_strlit("$ARGUMENTS");
            }
            replace_str(self.body.as_str(), "$ARGUMENTS", args)
        } else {
            self.body.clone()
        }
    }
}

/// `s` without its leading `'\r'` and `'\n'` characters.
pub open spec fn drop_newlines(s: Seq<char>) -> Seq<char>
    decreases s.len(),
{
    if s.len() > 0 && (s[0] == '\r' || s[0] == '\n') {
        drop_newlines(s.drop_first())
    } else {
        s
    }
}

/// The value of the first `key: value` line among `lines`, trimmed; empty
/// when no line has the key.
pub open spec fn field_in_lines(lines: Seq<Seq<char>>, prefix: Seq<char>) -> Seq<char>
    decreases lines.len(),
{
    if lines.len() == 0 {
        seq![]
    } else {
        let t = trim(lines[0]);
        if starts_with(t, prefix) {
            trim(t.skip(prefix.len() as int))
        } else {
            field_in_lines(lines.drop_first(), prefix)
        }
    }
}

/// The value of field `key` in frontmatter text.
pub open spec fn field_spec(frontmatter: Seq<char>, key: Seq<char>) -> Seq<char> {
    field_in_lines(lines_of(frontmatter), key.push(':'))
}

/// `(description, body)` of a command file: with frontmatter between `---`
/// lines, the description field and the text after the closing line (leading
/// line breaks dropped); without, an empty description and the whole text.
pub open spec fn frontmatter_spec(content: Seq<char>) -> (Seq<char>, Seq<char>) {
    let trimmed = trim_start(content);
    if !starts_with(trimmed, "---"@) {
        (seq![], content)
    } else {
        let after = drop_newlines(trimmed.skip(3));
        match find(after, "\n---"@) {
            Some(e) => (field_spec(after.take(e), "description"@), drop_newlines(after.skip(e + 4))),
            None => (seq![], content),
        }
    }
}

/// Extract a simple `key: value` field from frontmatter text.
pub fn extract_field(frontmatter: &str, key: &str) -> (r: String)
    ensures
        r@ == field_spec(frontmatter@, key@),
{
    let mut prefix_s = String::new();
    crate::text::push_str(&mut prefix_s, key);
    crate::text::push_char(&mut prefix_s, ':');
    let prefix = chars_of(prefix_s.as_str());
    let lines = split_lines(frontmatter);
    let mut i: usize = 0;
    assert(lines_of(frontmatter@).skip(0) =~= lines_of(frontmatter@));
    while i < lines.len()
        invariant
            i <= lines.len(),
            prefix@ == key@.push(':'),
            crate::text::strs_view(lines@) == lines_of(frontmatter@),
            field_spec(frontmatter@, key@) == field_in_lines(
                lines_of(frontmatter@).skip(i as int),
                prefix@,
            ),
        decreases lines.len() - i,
    {
        let ghost ls = lines_of(frontmatter@).skip(i as int);
        assert(ls[0] == lines@[i as int]@);
        assert(ls.drop_first() =~= lines_of(frontmatter@).skip(i + 1));
        let v = chars_of(lines[i]);
        let (a, b) = trim_range(&v, 0, v.len());
        assert(v@.subrange(0, v@.len() as int) =~= v@);
        if prefix.len() <= b - a && matches_at(&v, &prefix, a) {
            proof {
                let t = v@.subrange(a as int, b as int);
                assert(t.take(prefix@.len() as int) =~= v@.subrange(a as int, a + prefix@.len()));
            }
            let (c, d) = trim_range(&v, a + prefix.len(), b);
            proof {
                let t = v@.subrange(a as int, b as int);
                assert(t.skip(prefix@.len() as int) =~= v@.subrange(a + prefix@.len(), b as int));
            }
            return string_of_range(&v, c, d);
        }
        proof {
            let t = v@.subrange(a as int, b as int);
            if starts_with(t, prefix@) {
                assert(v@.subrange(a as int, a + prefix@.len()) =~= t.take(prefix@.len() as int));
            }
        }
        i = i + 1;
    }
    String::new()
}

/// Position of the first character at or after `from` that is not a line break.
fn skip_newlines(v: &Vec<char>, from: usize) -> (k: usize)
    requires
        from <= v@.len(),
    ensures
        from <= k <= v@.len(),
        drop_newlines(v@.skip(from as int)) == v@.skip(k as int),
{
    let mut k = from;
    while k < v.len() && (v[k] == '\r' || v[k] == '\n')
        invariant
            from <= k <= v@.len(),
            drop_newlines(v@.skip(from as int)) == drop_newlines(v@.skip(k as int)),
        decreases v.len() - k,
    {
        assert(v@.skip(k as int).drop_first() =~= v@.skip(k + 1));
        k = k + 1;
    }
    k
}

/// Extract frontmatter and body from a markdown file: `(description, body)`.
/// Without frontmatter the description is empty and the body is the whole content.
pub fn parse_frontmatter(content: &str) -> (r: (String, String))
    ensures
        r.0@ == frontmatter_spec(content@).0,
        r.1@ == frontmatter_spec(content@).1,
{
    let v = chars_of(content);
    let (c, _) = trim_range(&v, 0, v.len());
    assert(v@.subrange(0, v@.len() as int) =~= v@);
    let ghost trimmed = trim_start(v@);
    assert(trimmed == v@.skip(c as int)) by {
        assert(v@.subrange(c as int, v@.len() as int) =~= v@.skip(c as int));
    }
    let dashes = chars_of("---");
    proof {
        reveal_strlit("---");
    }
    let opens = matches_at(&v, &dashes, c);
    proof {
        if opens {
            assert(trimmed.take(3) =~= v@.subrange(c as int, c + 3));
        } else if starts_with(trimmed, "---"@) {
            assert(trimmed.take(3) =~= v@.subrange(c as int, c + 3));
        }
    }
    if !opens {
        return (String::new(), crate::text::owned(content));
    }
    let k = skip_newlines(&v, c + 3);
    assert(trimmed.skip(3) =~= v@.skip(c + 3));
    let ghost after = v@.skip(k as int);
    let close = chars_of("\n---");
    let found = find_in(&v, &close, k);
    proof {
        lemma_find_from_shift(v@, close@, k as int, k as int);
    }
    match found {
        Some(e) => {
            proof {
                crate::text::lemma_find_from(v@, close@, k as int);
                reveal_strlit("\n---");
                assert(after.take(e - k) =~= v@.subrange(k as int, e as int));
            }
            let fm = string_of_range(&v, k, e);
            let description = extract_field(fm.as_str(), "description");
            let b = skip_newlines(&v, e + 4);
            proof {
                assert(after.skip(e - k + 4) =~= v@.skip(e + 4));
                assert(v@.skip(b as int) =~= v@.subrange(b as int, v@.len() as int));
            }
            let body = string_of_range(&v, b, v.len());
            (description, body)
        },
        None => (String::new(), crate::text::owned(content)),
    }
}

/// The command a file defines: `None` when its body is empty after trimming.
pub open spec fn command_spec(content: Seq<char>) -> Option<(Seq<char>, Seq<char>, bool)> {
    let (description, body) = frontmatter_spec(content);
    let body = trim(body);
    if body.len() == 0 {
        None
    } else {
        Some((description, body, find(body, placeholder()) is Some))
    }
}

/// Parse the content of a command file named `name`.
pub fn parse_command(name: &str, content: &str) -> (r: Option<CustomCommand>)
    ensures
        match r {
            Some(cmd) => command_spec(content@) == Some((cmd.description@, cmd.body@, cmd.accepts_args))
                && cmd.name@ == name@,
            None => command_spec(content@) is None,
        },
{
    let (description, body) = parse_frontmatter(content);
    let body = trim_owned(body.as_str());
    if body.as_str().is_empty() {
        return None;
    }
    let bv = chars_of(body.as_str());
    let pv = chars_of("$ARGUMENTS");
    let accepts_args = find_in(&bv, &pv, 0).is_some();
    Some(
        CustomCommand {
            name: crate::text::owned(name),
            description,
            body,
            accepts_args,
        },
    )
}

/// Whether a command of this name is already among `commands`; the first
/// definition of a name wins.
pub fn has_command(commands: &Vec<CustomCommand>, name: &str) -> (r: bool)
    ensures
        r == exists|i: int| 0 <= i < commands@.len() && #[trigger] commands@[i].name@ == name@,
{
    let mut i: usize = 0;
    while i < commands.len()
        invariant
            i <= commands.len(),
            forall|j: int| 0 <= j < i ==> #[trigger] commands@[j].name@ != name@,
        decreases commands.len() - i,
    {
        if str_eq(commands[i].name.as_str(), name) {
            return true;
        }
        i = i + 1;
    }
    false
}

} // verus!
