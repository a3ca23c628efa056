//! The multi-line input editor: text with a cursor between characters.
use vstd::prelude::*;

use crate::text::{
    byte_len, chars_of, count_char, index_of, lemma_byte_len_mono, lemma_byte_len_prefix,
    lemma_count_char_bound, lemma_index_of, lemma_index_of_at, string_of, utf8_len, utf8_width,
};

verus! {

/// An editor's text and its cursor, counted in characters.
pub struct EditorView {
    pub content: Seq<char>,
    pub cursor: nat,
}

/// A text input with a cursor. The cursor always sits between characters.
pub struct InputEditor {
    content: String,
    /// Characters before the cursor.
    cursor: usize,
}

impl View for InputEditor {
    type V = EditorView;

    closed spec fn view(&self) -> EditorView {
        EditorView { content: self.content@, cursor: self.cursor as nat }
    }
}

impl InputEditor {
    /// The cursor lies within the text, and the text's UTF-8 length fits a
    /// `usize`.
    #[verifier::type_invariant]
    closed spec fn well_formed(self) -> bool {
        &&& self.cursor <= self.content@.len()
        &&& byte_len(self.content@) <= usize::MAX
    }

    /// The cursor of every editor lies within its text, whose UTF-8 length
    /// fits a `usize`: a call gives the caller the editor's invariant.
    pub fn lemma_well_formed(&self)
        ensures
            self@.cursor <= self@.content.len(),
            byte_len(self@.content) <= usize::MAX,
    {
        proof {
            use_type_invariant(self);
        }
    }
}

/// The index of the last `c` in `s`, or -1.
pub open spec fn last_index_of(s: Seq<char>, c: char) -> int
    decreases s.len(),
{
    if s.len() == 0 {
        -1
    } else if s.last() == c {
        s.len() - 1
    } else {
        last_index_of(s.drop_last(), c)
    }
}

proof fn lemma_last_index_of(s: Seq<char>, c: char)
    ensures
        -1 <= last_index_of(s, c) < s.len(),
        last_index_of(s, c) >= 0 ==> s[last_index_of(s, c)] == c,
        forall|i: int| last_index_of(s, c) < i < s.len() ==> s[i] != c,
    decreases s.len(),
{
    if s.len() > 0 && s.last() != c {
        lemma_last_index_of(s.drop_last(), c);
        assert forall|i: int| last_index_of(s, c) < i < s.len() implies s[i] != c by {
            if i < s.len() - 1 {
                assert(s[i] == s.drop_last()[i]);
            }
        }
    }
}

/// The editor after typing `c` at the cursor.
pub open spec fn inserted(v: EditorView, c: char) -> EditorView {
    EditorView { content: v.content.insert(v.cursor as int, c), cursor: v.cursor + 1 }
}

/// The editor after pasting `s` at the cursor.
pub open spec fn inserted_str(v: EditorView, s: Seq<char>) -> EditorView {
    EditorView {
        content: v.content.take(v.cursor as int) + s + v.content.skip(v.cursor as int),
        cursor: v.cursor + s.len(),
    }
}

/// The editor after Backspace: the character before the cursor goes.
pub open spec fn backspaced(v: EditorView) -> EditorView {
    if v.cursor > 0 {
        EditorView { content: v.content.remove(v.cursor - 1), cursor: (v.cursor - 1) as nat }
    } else {
        v
    }
}

/// Typing a character and then Backspace gives the editor back; Backspace
/// at the start of the text changes nothing.
pub proof fn law_backspace_undoes_insert(v: EditorView, c: char)
    requires
        v.cursor <= v.content.len(),
    ensures
        backspaced(inserted(v, c)) == v,
        v.cursor == 0 ==> backspaced(v) == v,
{
    assert(v.content.insert(v.cursor as int, c).remove(v.cursor as int) =~= v.content);
}

/// The editor after Delete: the character after the cursor goes.
pub open spec fn deleted(v: EditorView) -> EditorView {
    if v.cursor < v.content.len() {
        EditorView { content: v.content.remove(v.cursor as int), cursor: v.cursor }
    } else {
        v
    }
}

/// The cursor after Home: the start of its line.
pub open spec fn home_cursor(v: EditorView) -> nat {
    (last_index_of(v.content.take(v.cursor as int), '\n') + 1) as nat
}

/// The cursor after End: the end of its line.
pub open spec fn end_cursor(v: EditorView) -> nat {
    (v.cursor + index_of(v.content.skip(v.cursor as int), '\n')) as nat
}

/// The text before the cursor.
pub open spec fn before_cursor(v: EditorView) -> Seq<char> {
    v.content.take(v.cursor as int)
}

/// The line and the column (in bytes) of the cursor, each cut to 16 bits.
pub open spec fn cursor_xy_of(v: EditorView) -> (u16, u16) {
    let b = before_cursor(v);
    let line_start = last_index_of(b, '\n') + 1;
    ((byte_len(b.skip(line_start)) as u16), (count_char(b, '\n') as u16))
}

impl InputEditor {
    /// The UTF-8 length of the text.
    pub open spec fn byte_count(&self) -> nat {
        byte_len(self@.content)
    }

    /// An empty editor.
    pub fn new() -> (e: Self)
        ensures
            e@.content == Seq::<char>::empty(),
            e@.cursor == 0,
    {
        InputEditor { content: String::new(), cursor: 0 }
    }

    /// Rebuilds the text from its characters; the cursor goes to `cursor`.
    fn replace_with(&mut self, v: Vec<char>, cursor: usize)
        requires
            cursor <= v@.len(),
            byte_len(v@) <= usize::MAX,
        ensures
            final(self)@ == (EditorView { content: v@, cursor: cursor as nat }),
    {
        let s = string_of(v.as_slice());
        *self = InputEditor { content: s, cursor };
    }

    /// Type a character at the cursor.
    pub fn insert_char(&mut self, c: char)
        requires
            old(self).byte_count() + utf8_len(c) <= usize::MAX,
        ensures
            final(self)@ == inserted(old(self)@, c),
    {
        proof {
            use_type_invariant(&*self);
        }
        let mut v = chars_of(self.content.as_str());
        v.insert(self.cursor, c);
        proof {
            lemma_byte_len_insert(self.content@, self.cursor as int, c);
            lemma_len_le_bytes(self.content@);
        }
        let k = self.cursor + 1;
        self.replace_with(v, k);
    }

    /// Start a new line at the cursor.
    pub fn insert_newline(&mut self)
        requires
            old(self).byte_count() + 1 <= usize::MAX,
        ensures
            final(self)@ == inserted(old(self)@, '\n'),
    {
        self.insert_char('\n');
    }

    /// Insert a string at the cursor (used for paste).
    pub fn insert_str(&mut self, s: &str)
        requires
            old(self).byte_count() + byte_len(s@) <= usize::MAX,
        ensures
            final(self)@ == inserted_str(old(self)@, s@),
    {
        proof {
            use_type_invariant(&*self);
        }
        let old_chars = chars_of(self.content.as_str());
        let add = chars_of(s);
        let k = self.cursor;
        let mut v: Vec<char> = Vec::new();
        let mut i: usize = 0;
        while i < k
            invariant
                i <= k <= old_chars@.len(),
                v@ == old_chars@.take(i as int),
            decreases k - i,
        {
            v.push(old_chars[i]);
            proof {
                assert(v@ =~= old_chars@.take(i + 1));
            }
            i = i + 1;
        }
        let mut j: usize = 0;
        while j < add.len()
            invariant
                j <= add@.len(),
                k <= old_chars@.len(),
                v@ == old_chars@.take(k as int) + add@.take(j as int),
            decreases add.len() - j,
        {
            v.push(add[j]);
            proof {
                assert(v@ =~= old_chars@.take(k as int) + add@.take(j + 1));
            }
            j = j + 1;
        }
        let mut m: usize = k;
        while m < old_chars.len()
            invariant
                k <= m <= old_chars@.len(),
                v@ == old_chars@.take(k as int) + add@ + old_chars@.subrange(k as int, m as int),
            decreases old_chars.len() - m,
        {
            proof {
                assert(add@.take(add@.len() as int) =~= add@);
            }
            v.push(old_chars[m]);
            proof {
                assert(v@ =~= old_chars@.take(k as int) + add@ + old_chars@.subrange(k as int, m + 1));
            }
            m = m + 1;
        }
        proof {
            assert(add@.take(add@.len() as int) =~= add@);
            assert(old_chars@.subrange(k as int, old_chars@.len() as int) =~= old_chars@.skip(k as int));
            assert(v@ =~= old_chars@.take(k as int) + add@ + old_chars@.skip(k as int));
            lemma_byte_len_concat(old_chars@.take(k as int), add@);
            lemma_byte_len_concat(old_chars@.take(k as int) + add@, old_chars@.skip(k as int));
            lemma_byte_len_concat(old_chars@.take(k as int), old_chars@.skip(k as int));
            assert(old_chars@.take(k as int) + old_chars@.skip(k as int) =~= old_chars@);
            lemma_len_le_bytes(old_chars@);
            lemma_len_le_bytes(add@);
        }
        let n = k + add.len();
        self.replace_with(v, n);
    }

    /// Remove the character before the cursor.
    pub fn backspace(&mut self)
        ensures
            final(self)@ == backspaced(old(self)@),
    {
        proof {
            use_type_invariant(&*self);
        }
        if self.cursor > 0 {
            let mut v = chars_of(self.content.as_str());
            let k = self.cursor - 1;
            let ghost before = v@;
            v.remove(k);
            proof {
                lemma_byte_len_remove(before, k as int);
            }
            self.replace_with(v, k);
        }
    }

    /// Remove the character after the cursor.
    pub fn delete(&mut self)
        ensures
            final(self)@ == deleted(old(self)@),
    {
        proof {
            use_type_invariant(&*self);
        }
        let mut v = chars_of(self.content.as_str());
        if self.cursor < v.len() {
            let k = self.cursor;
            let ghost before = v@;
            v.remove(k);
            proof {
                lemma_byte_len_remove(before, k as int);
            }
            self.replace_with(v, k);
        }
    }

    /// Move the cursor one character left.
    pub fn move_left(&mut self)
        ensures
            final(self)@.content == old(self)@.content,
            final(self)@.cursor == if old(self)@.cursor > 0 {
                (old(self)@.cursor - 1) as nat
            } else {
                0
            },
    {
        proof {
            use_type_invariant(&*self);
        }
        if self.cursor > 0 {
            self.cursor = self.cursor - 1;
        }
    }

    /// Move the cursor one character right.
    pub fn move_right(&mut self)
        ensures
            final(self)@.content == old(self)@.content,
            final(self)@.cursor == if old(self)@.cursor < old(self)@.content.len() {
                old(self)@.cursor + 1
            } else {
                old(self)@.cursor
            },
    {
        proof {
            use_type_invariant(&*self);
        }
        let n = chars_of(self.content.as_str()).len();
        if self.cursor < n {
            self.cursor = self.cursor + 1;
        }
    }

    /// Move the cursor to the start of its line.
    pub fn move_home(&mut self)
        ensures
            final(self)@.content == old(self)@.content,
            final(self)@.cursor == home_cursor(old(self)@),
    {
        proof {
            use_type_invariant(&*self);
        }
        let v = chars_of(self.content.as_str());
        let mut k = self.cursor;
        while k > 0 && v[k - 1] != '\n'
            invariant
                k <= self.cursor <= v@.len(),
                forall|i: int| k <= i < self.cursor ==> v@[i] != '\n',
            decreases k,
        {
            k = k - 1;
        }
        proof {
            let b = v@.take(self.cursor as int);
            lemma_last_index_of(b, '\n');
            let li = last_index_of(b, '\n');
            if k > 0 {
                assert(b[k - 1] == '\n');
                assert(li >= k - 1);
                if li > k - 1 {
                    assert(b[li] == v@[li]);
                }
            } else if li >= 0 {
                assert(b[li] == v@[li]);
            }
        }
        self.cursor = k;
    }

    /// Move the cursor to the end of its line.
    pub fn move_end(&mut self)
        ensures
            final(self)@.content == old(self)@.content,
            final(self)@.cursor == end_cursor(old(self)@),
    {
        proof {
            use_type_invariant(&*self);
        }
        let v = chars_of(self.content.as_str());
        let mut k = self.cursor;
        while k < v.len() && v[k] != '\n'
            invariant
                self.cursor <= k <= v@.len(),
                forall|i: int| self.cursor <= i < k ==> v@[i] != '\n',
            decreases v.len() - k,
        {
            k = k + 1;
        }
        proof {
            let t = v@.skip(self.cursor as int);
            assert forall|i: int| 0 <= i < k - self.cursor implies t[i] != '\n' by {
                assert(t[i] == v@[i + self.cursor]);
            }
            if k < v.len() {
                assert(t[k - self.cursor] == v@[k as int]);
            }
            lemma_index_of_at(t, '\n', k - self.cursor);
        }
        self.cursor = k;
    }

    /// Take the text out, leaving the editor empty.
    pub fn take_content(&mut self) -> (r: String)
        ensures
            r@ == old(self)@.content,
            final(self)@.content == Seq::<char>::empty(),
            final(self)@.cursor == 0,
    {
        let mut e = InputEditor::new();
        std::mem::swap(self, &mut e);
        e.content
    }

    /// Replace the whole text and put the cursor at its end.
    pub fn set_content(&mut self, text: &str)
        ensures
            final(self)@.content == text@,
            final(self)@.cursor == text@.len(),
    {
        // The text is in memory, so its length in bytes fits a `usize`.
        let _bytes = crate::text::str_len(text);
        let v = chars_of(text);
        let n = v.len();
        self.replace_with(v, n);
    }

    /// Whether `extra` more bytes of text still fit.
    pub fn has_room(&self, extra: usize) -> (r: bool)
        ensures
            r == (self.byte_count() + extra <= usize::MAX),
    {
        let n = crate::text::str_len(self.content.as_str());
        extra <= usize::MAX - n
    }

    /// Whether the text is empty.
    pub fn is_empty(&self) -> (r: bool)
        ensures
            r == (self@.content.len() == 0),
    {
        self.content.as_str().is_empty()
    }

    /// The text.
    pub fn content(&self) -> (r: &str)
        ensures
            r@ == self@.content,
    {
        self.content.as_str()
    }

    /// The cursor as a byte offset into the text.
    pub fn cursor_position(&self) -> (n: usize)
        ensures
            n == byte_len(before_cursor(self@)),
    {
        proof {
            use_type_invariant(self);
        }
        let v = chars_of(self.content.as_str());
        prefix_bytes(&v, self.cursor)
    }

    /// The (column, row) of the cursor in the text: the row counts line
    /// breaks before it, the column the bytes since the last one.
    pub fn cursor_xy(&self) -> (r: (u16, u16))
        ensures
            r == cursor_xy_of(self@),
    {
        proof {
            use_type_invariant(self);
        }
        let v = chars_of(self.content.as_str());
        let k = self.cursor;
        let ghost b = v@.take(k as int);
        let mut rows: usize = 0;
        let mut i: usize = 0;
        while i < k
            invariant
                i <= k <= v@.len(),
                b == v@.take(k as int),
                rows == count_char(v@.take(i as int), '\n'),
                rows <= i,
            decreases k - i,
        {
            proof {
                assert(v@.take(i + 1).drop_last() =~= v@.take(i as int));
            }
            if v[i] == '\n' {
                rows = rows + 1;
            }
            i = i + 1;
        }
        let mut start = k;
        while start > 0 && v[start - 1] != '\n'
            invariant
                start <= k <= v@.len(),
                forall|j: int| start <= j < k ==> v@[j] != '\n',
            decreases start,
        {
            start = start - 1;
        }
        let mut col: usize = 0;
        let mut j: usize = start;
        proof {
            lemma_byte_len_mono(v@, k as int, v@.len() as int);
            assert(v@.take(v@.len() as int) =~= v@);
            lemma_byte_len_concat(v@.take(start as int), v@.subrange(start as int, k as int));
            assert(v@.take(start as int) + v@.subrange(start as int, k as int) =~= v@.take(k as int));
            assert(v@.subrange(start as int, start as int) =~= Seq::<char>::empty());
        }
        while j < k
            invariant
                start <= j <= k <= v@.len(),
                col == byte_len(v@.subrange(start as int, j as int)),
                byte_len(v@.subrange(start as int, k as int)) <= usize::MAX,
            decreases k - j,
        {
            proof {
                assert(v@.subrange(start as int, j + 1).drop_last() =~= v@.subrange(start as int, j as int));
                lemma_byte_len_mono(v@.subrange(start as int, k as int), j - start + 1, k - start);
                assert(v@.subrange(start as int, k as int).take(j - start + 1) =~= v@.subrange(start as int, j + 1));
                assert(v@.subrange(start as int, k as int).take(k - start) =~= v@.subrange(start as int, k as int));
            }
            col = col + utf8_width(v[j]);
            j = j + 1;
        }
        proof {
            assert(v@.take(k as int) =~= b);
            lemma_last_index_of(b, '\n');
            let li = last_index_of(b, '\n');
            if start > 0 {
                assert(b[start - 1] == '\n');
                if li > start - 1 {
                    assert(b[li] == v@[li]);
                }
            } else if li >= 0 {
                assert(b[li] == v@[li]);
            }
            assert(li + 1 == start);
            assert(b.skip(start as int) =~= v@.subrange(start as int, k as int));
        }
        ((col as u16), (rows as u16))
    }
}

/// The UTF-8 length of the first `k` characters.
fn prefix_bytes(v: &Vec<char>, k: usize) -> (n: usize)
    requires
        k <= v@.len(),
        byte_len(v@) <= usize::MAX,
    ensures
        n == byte_len(v@.take(k as int)),
{
    let mut n: usize = 0;
    let mut i: usize = 0;
    proof {
        assert(v@.take(v@.len() as int) =~= v@);
    }
    while i < k
        invariant
            i <= k <= v@.len(),
            byte_len(v@) <= usize::MAX,
            v@.take(v@.len() as int) == v@,
            n == byte_len(v@.take(i as int)),
        decreases k - i,
    {
        proof {
            lemma_byte_len_prefix(v@, i as int);
            lemma_byte_len_mono(v@, i + 1, v@.len() as int);
        }
        n = n + utf8_width(v[i]);
        i = i + 1;
    }
    n
}

/// The UTF-8 length of a concatenation is the sum of the lengths.
pub proof fn lemma_byte_len_concat(a: Seq<char>, b: Seq<char>)
    ensures
        byte_len(a + b) == byte_len(a) + byte_len(b),
    decreases b.len(),
{
    if b.len() == 0 {
        assert(a + b =~= a);
    } else {
        lemma_byte_len_concat(a, b.drop_last());
        assert((a + b).drop_last() =~= a + b.drop_last());
    }
}

proof fn lemma_byte_len_insert(s: Seq<char>, k: int, c: char)
    requires
        0 <= k <= s.len(),
    ensures
        byte_len(s.insert(k, c)) == byte_len(s) + utf8_len(c),
{
    assert(s.insert(k, c) =~= s.take(k) + seq![c] + s.skip(k));
    lemma_byte_len_concat(s.take(k) + seq![c], s.skip(k));
    lemma_byte_len_concat(s.take(k), seq![c]);
    lemma_byte_len_concat(s.take(k), s.skip(k));
    assert(s.take(k) + s.skip(k) =~= s);
    assert(seq![c].drop_last() =~= Seq::<char>::empty());
    assert(byte_len(Seq::<char>::empty()) == 0);
    assert(byte_len(seq![c]) == utf8_len(c));
}

/// Every character takes at least one byte.
proof fn lemma_len_le_bytes(s: Seq<char>)
    ensures
        s.len() <= byte_len(s),
    decreases s.len(),
{
    if s.len() > 0 {
        lemma_len_le_bytes(s.drop_last());
    }
}

proof fn lemma_byte_len_remove(s: Seq<char>, k: int)
    requires
        0 <= k < s.len(),
    ensures
        byte_len(s.remove(k)) <= byte_len(s),
{
    assert(s.remove(k) =~= s.take(k) + s.skip(k + 1));
    assert(s =~= s.take(k) + seq![s[k]] + s.skip(k + 1));
    lemma_byte_len_concat(s.take(k), s.skip(k + 1));
    lemma_byte_len_concat(s.take(k) + seq![s[k]], s.skip(k + 1));
    lemma_byte_len_concat(s.take(k), seq![s[k]]);
}

/// Typing a character and then pressing Backspace restores the editor.
pub proof fn law_insert_then_backspace(v: EditorView, c: char)
    requires
        v.cursor <= v.content.len(),
    ensures
        backspaced(inserted(v, c)) == v,
{
    assert(v.content.insert(v.cursor as int, c).remove(v.cursor as int) =~= v.content);
}

/// Typing a character, moving left and pressing Delete restores the text.
pub proof fn law_insert_left_delete(v: EditorView, c: char)
    requires
        v.cursor <= v.content.len(),
    ensures
        deleted(EditorView { content: inserted(v, c).content, cursor: v.cursor }).content == v.content,
{
    assert(v.content.insert(v.cursor as int, c).remove(v.cursor as int) =~= v.content);
}

/// Home and End keep the cursor on its line: Home never moves it right, End
/// never moves it left, and both stay within the text.
pub proof fn law_home_end_bounds(v: EditorView)
    requires
        v.cursor <= v.content.len(),
    ensures
        home_cursor(v) <= v.cursor,
        v.cursor <= end_cursor(v) <= v.content.len(),
{
    lemma_last_index_of(v.content.take(v.cursor as int), '\n');
    lemma_index_of(v.content.skip(v.cursor as int), '\n');
}

} // verus!
