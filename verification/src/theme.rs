//! Colour themes: the colour names a theme file gives, read as RGB colours.
use vstd::prelude::*;

use crate::converter::UiColor;
use crate::text::{byte_len, bytes_upto, chars_of, lemma_byte_len_mono, lemma_byte_len_prefix, owned, string_of_range};

verus! {

/// A theme file: its name and its colours as written (`"#rrggbb"`).
#[derive(Debug, Clone)]
pub struct ThemeFile {
    pub name: String,
    pub colors: ThemeColors,
}

/// The colours of a theme file, as written.
#[derive(Debug, Clone)]
pub struct ThemeColors {
    pub background: String,
    pub foreground: String,
    pub surface: String,
    pub overlay: String,
    pub primary: String,
    pub secondary: String,
    pub accent: String,
    pub success: String,
    pub warning: String,
    pub error: String,
    pub info: String,
    pub border: String,
    pub border_focused: String,
    pub status_bg: String,
    pub status_fg: String,
    pub input_bg: String,
    pub input_fg: String,
    pub input_cursor: String,
    pub input_placeholder: String,
}

/// A theme ready to draw with: its name and colours.
#[derive(Debug, Clone)]
pub struct Palette {
    pub name: String,
    pub background: UiColor,
    pub foreground: UiColor,
    pub surface: UiColor,
    pub overlay: UiColor,
    pub primary: UiColor,
    pub secondary: UiColor,
    pub accent: UiColor,
    pub success: UiColor,
    pub warning: UiColor,
    pub error: UiColor,
    pub info: UiColor,
    pub border: UiColor,
    pub border_focused: UiColor,
    pub status_bg: UiColor,
    pub status_fg: UiColor,
    pub input_bg: UiColor,
    pub input_fg: UiColor,
    pub input_cursor: UiColor,
    pub input_placeholder: UiColor,
}

/// Why a colour could not be read.
#[derive(Debug, Clone, Copy, PartialEq, Eq, Structural)]
pub enum HexError {
    /// Not six bytes after the leading `#`s.
    Length,
    /// The first pair is not a hex number.
    Red,
    /// The second pair is not a hex number.
    Green,
    /// The third pair is not a hex number.
    Blue,
}

/// The colours of a theme file in field order.
pub open spec fn color_texts(c: ThemeColors) -> Seq<Seq<char>> {
    seq![
        c.background@, c.foreground@, c.surface@, c.overlay@, c.primary@, c.secondary@,
        c.accent@, c.success@, c.warning@, c.error@, c.info@, c.border@, c.border_focused@,
        c.status_bg@, c.status_fg@, c.input_bg@, c.input_fg@, c.input_cursor@,
        c.input_placeholder@,
    ]
}

/// The colours of a theme in field order.
pub open spec fn theme_colors(t: Palette) -> Seq<UiColor> {
    seq![
        t.background, t.foreground, t.surface, t.overlay, t.primary, t.secondary, t.accent,
        t.success, t.warning, t.error, t.info, t.border, t.border_focused, t.status_bg,
        t.status_fg, t.input_bg, t.input_fg, t.input_cursor, t.input_placeholder,
    ]
}

// ---------------------------------------------------------------------------
// Hex colours
// ---------------------------------------------------------------------------

/// The value of a hex digit.
pub open spec fn hex_digit_value(c: char) -> Option<nat> {
    if '0' <= c <= '9' {
        Some((c as nat - '0' as nat) as nat)
    } else if 'a' <= c <= 'f' {
        Some((c as nat - 'a' as nat + 10) as nat)
    } else if 'A' <= c <= 'F' {
        Some((c as nat - 'A' as nat + 10) as nat)
    } else {
        None
    }
}

/// The number that hex digits write, most significant first; `None` when a
/// character is not a hex digit.
pub open spec fn hex_digits_value(s: Seq<char>) -> Option<nat>
    decreases s.len(),
{
    if s.len() == 0 {
        Some(0)
    } else {
        match (hex_digits_value(s.drop_last()), hex_digit_value(s.last())) {
            (Some(v), Some(d)) => Some(v * 16 + d),
            _ => None,
        }
    }
}

/// What `u8::from_str_radix(s, 16)` gives, `None` for its error: an
/// optional `+`, then one or more hex digits whose value is below 256.
#[verifier::opaque]
pub open spec fn hex_u8(s: Seq<char>) -> Option<u8> {
    let digits = if s.len() > 0 && s[0] == '+' {
        s.drop_first()
    } else {
        s
    };
    if digits.len() == 0 {
        None
    } else {
        match hex_digits_value(digits) {
            Some(v) => if v < 256 {
                Some(v as u8)
            } else {
                None
            },
            None => None,
        }
    }
}

/// Two hex digits read as the number they write.
pub proof fn lemma_hex_pair(s: Seq<char>)
    requires
        s.len() == 2,
        hex_digit_value(s[0]) is Some,
        hex_digit_value(s[1]) is Some,
    ensures
        hex_u8(s) == Some((hex_digit_value(s[0])->0 * 16 + hex_digit_value(s[1])->0) as u8),
{
    reveal(hex_u8);
    let first = s.drop_last();
    assert(first.drop_last().len() == 0);
    assert(hex_digits_value(first.drop_last()) == Some(0nat));
    assert(first.last() == s[0]);
    assert(hex_digits_value(first) == Some(hex_digit_value(s[0])->0));
    assert(s.last() == s[1]);
}

/// The value of a hex digit, if `c` is one.
fn hex_digit(c: char) -> (r: Option<u32>)
    ensures
        match hex_digit_value(c) {
            Some(d) => r == Some(d as u32),
            None => r is None,
        },
{
    if '0' <= c && c <= '9' {
        Some((c as u32) - ('0' as u32))
    } else if 'a' <= c && c <= 'f' {
        Some((c as u32) - ('a' as u32) + 10)
    } else if 'A' <= c && c <= 'F' {
        Some((c as u32) - ('A' as u32) + 10)
    } else {
        None
    }
}

/// Reads a byte written in hex, as `u8::from_str_radix(s, 16)` does: an
/// optional `+`, then one or more hex digits whose value is below 256.
fn hex_byte(s: &str) -> (r: Option<u8>)
    ensures
        r == hex_u8(s@),
{
    let v = chars_of(s);
    let n = v.len();
    let start: usize = if n > 0 && v[0] == '+' {
        1
    } else {
        0
    };
    let ghost digits = v@.skip(start as int);
    proof {
        assert(start == 1 ==> digits =~= v@.drop_first());
        assert(start == 0 ==> digits =~= v@);
    }
    if start == n {
        proof {
            reveal(hex_u8);
        }
        return None;
    }
    let mut bad = false;
    let mut acc: u32 = 0;
    let mut j: usize = start;
    proof {
        assert(digits.take(0) =~= seq![]);
    }
    while j < n
        invariant
            start <= j <= n,
            n == v@.len(),
            digits == v@.skip(start as int),
            bad == (hex_digits_value(digits.take(j - start)) is None),
            !bad ==> acc <= 256,
            !bad ==> acc == (if hex_digits_value(digits.take(j - start))->0 < 256 {
                hex_digits_value(digits.take(j - start))->0
            } else {
                256
            }),
        decreases n - j,
    {
        let ghost prefix = digits.take(j - start);
        let ghost next = digits.take(j + 1 - start);
        proof {
            assert(next.drop_last() =~= prefix);
            assert(next.last() == v@[j as int]);
        }
        match hex_digit(v[j]) {
            None => {
                bad = true;
            },
            Some(d) => {
                if !bad {
                    if acc >= 256 {
                        acc = 256;
                    } else {
                        acc = acc * 16 + d;
                        if acc > 256 {
                            acc = 256;
                        }
                    }
                }
            },
        }
        j = j + 1;
    }
    proof {
        reveal(hex_u8);
        assert(digits.take(n - start) =~= digits);
    }
    if bad || acc >= 256 {
        None
    } else {
        Some(acc as u8)
    }
}

/// How many `#` the text begins with.
pub open spec fn leading_hashes(s: Seq<char>) -> nat
    decreases s.len(),
{
    if s.len() > 0 && s[0] == '#' {
        1 + leading_hashes(s.drop_first())
    } else {
        0
    }
}

/// The text without its leading `#`s.
pub open spec fn without_hashes(s: Seq<char>) -> Seq<char> {
    s.skip(leading_hashes(s) as int)
}

/// Whether some prefix of `t` is exactly `b` bytes long.
pub open spec fn has_byte_boundary(t: Seq<char>, b: nat) -> bool {
    exists|k: int| 0 <= k <= t.len() && #[trigger] byte_len(t.take(k)) == b
}

/// The number of characters making up the first `b` bytes of `t`.
pub open spec fn chars_in_bytes(t: Seq<char>, b: nat) -> int {
    choose|k: int| 0 <= k <= t.len() && #[trigger] byte_len(t.take(k)) == b
}

/// Whether reading the colour can slice it where it needs to: a six-byte
/// text must split into byte pairs at character boundaries.
pub open spec fn hex_sliceable(s: Seq<char>) -> bool {
    let h = without_hashes(s);
    byte_len(h) == 6 ==> has_byte_boundary(h, 2) && has_byte_boundary(h, 4)
}

/// The colour a text such as `"#1e1e2e"` names: after its leading `#`s it
/// must be six bytes, three hex pairs for red, green and blue.
pub open spec fn hex_color(s: Seq<char>) -> Result<UiColor, HexError> {
    let h = without_hashes(s);
    if byte_len(h) != 6 {
        Err(HexError::Length)
    } else {
        let k2 = chars_in_bytes(h, 2);
        let k4 = chars_in_bytes(h, 4);
        match (
            hex_u8(h.take(k2)),
            hex_u8(h.subrange(k2, k4)),
            hex_u8(h.skip(k4)),
        ) {
            (None, _, _) => Err(HexError::Red),
            (Some(_), None, _) => Err(HexError::Green),
            (Some(_), Some(_), None) => Err(HexError::Blue),
            (Some(r), Some(g), Some(b)) => Ok(UiColor::Rgb(r, g, b)),
        }
    }
}

/// Prefixes grow strictly in bytes.
proof fn lemma_byte_len_strict(s: Seq<char>, j: int, k: int)
    requires
        0 <= j < k <= s.len(),
    ensures
        byte_len(s.take(j)) < byte_len(s.take(k)),
    decreases k - j,
{
    lemma_byte_len_prefix(s, k - 1);
    if j < k - 1 {
        lemma_byte_len_strict(s, j, k - 1);
    }
}

/// The characters after the leading `#`s.
fn strip_hashes(s: &str) -> (v: Vec<char>)
    ensures
        v@ == without_hashes(s@),
{
    let all = chars_of(s);
    let mut i: usize = 0;
    assert(all@.skip(0) =~= all@);
    while i < all.len() && all[i] == '#'
        invariant
            i <= all@.len(),
            all@ == s@,
            leading_hashes(s@) == i + leading_hashes(all@.skip(i as int)),
        decreases all.len() - i,
    {
        assert(all@.skip(i as int).drop_first() =~= all@.skip(i + 1));
        i = i + 1;
    }
    let mut out: Vec<char> = Vec::new();
    let mut j: usize = i;
    while j < all.len()
        invariant
            i <= j <= all@.len(),
            out@ == all@.subrange(i as int, j as int),
        decreases all.len() - j,
    {
        out.push(all[j]);
        assert(out@ =~= all@.subrange(i as int, j + 1));
        j = j + 1;
    }
    assert(out@ =~= all@.skip(i as int));
    out
}

/// Where the first `b` bytes of `h` end, if a character boundary is there.
fn boundary_at(h: &Vec<char>, b: usize) -> (r: Option<usize>)
    requires
        b <= 6,
    ensures
        match r {
            Some(k) => k <= h@.len() && byte_len(h@.take(k as int)) == b,
            None => !has_byte_boundary(h@, b as nat),
        },
{
    let (k, n) = bytes_upto(h, b);
    proof {
        assert(h@.take(h@.len() as int) =~= h@);
    }
    if n == b {
        Some(k)
    } else {
        proof {
            if has_byte_boundary(h@, b as nat) {
                let j = choose|j: int| 0 <= j <= h@.len() && #[trigger] byte_len(h@.take(j)) == b;
                if j < k {
                    assert(byte_len(h@.take(j)) < b);
                } else if j > k {
                    lemma_byte_len_strict(h@, k as int, j);
                }
            }
        }
        None
    }
}

/// Whether `hex_color` can read the text without cutting a character.
pub fn is_hex_sliceable(s: &str) -> (r: bool)
    ensures
        r == hex_sliceable(s@),
{
    let h = strip_hashes(s);
    let (k7, n7) = bytes_upto(&h, 7);
    proof {
        assert(h@.take(h@.len() as int) =~= h@);
        lemma_byte_len_mono(h@, k7 as int, h@.len() as int);
    }
    if !(k7 == h.len() && n7 == 6) {
        return true;
    }
    boundary_at(&h, 2).is_some() && boundary_at(&h, 4).is_some()
}

/// Reads a colour written `"#rrggbb"` (any number of leading `#`s).
pub fn parse_hex(hex: &str) -> (r: Result<UiColor, HexError>)
    requires
        hex_sliceable(hex@),
    ensures
        r == hex_color(hex@),
{
    let h = strip_hashes(hex);
    let (k7, n7) = bytes_upto(&h, 7);
    proof {
        assert(h@.take(h@.len() as int) =~= h@);
        lemma_byte_len_mono(h@, k7 as int, h@.len() as int);
    }
    if !(k7 == h.len() && n7 == 6) {
        return Err(HexError::Length);
    }
    let k2 = match boundary_at(&h, 2) {
        Some(k) => k,
        None => {
            return Err(HexError::Length);
        },
    };
    let k4 = match boundary_at(&h, 4) {
        Some(k) => k,
        None => {
            return Err(HexError::Length);
        },
    };
    proof {
        let c2 = chars_in_bytes(h@, 2);
        let c4 = chars_in_bytes(h@, 4);
        assert(byte_len(h@.take(c2)) == 2);
        assert(byte_len(h@.take(c4)) == 4);
        if c2 < k2 {
            lemma_byte_len_strict(h@, c2, k2 as int);
        } else if c2 > k2 {
            lemma_byte_len_strict(h@, k2 as int, c2);
        }
        if c4 < k4 {
            lemma_byte_len_strict(h@, c4, k4 as int);
        } else if c4 > k4 {
            lemma_byte_len_strict(h@, k4 as int, c4);
        }
        if k4 < k2 {
            lemma_byte_len_strict(h@, k4 as int, k2 as int);
        }
        if k7 < k4 {
            lemma_byte_len_strict(h@, k7 as int, k4 as int);
        }
    }
    let red = string_of_range(&h, 0, k2);
    let green = string_of_range(&h, k2, k4);
    let blue = string_of_range(&h, k4, h.len());
    proof {
        assert(h@.subrange(0, k2 as int) =~= h@.take(k2 as int));
        assert(h@.subrange(k4 as int, h@.len() as int) =~= h@.skip(k4 as int));
    }
    let r = match hex_byte(red.as_str()) {
        Some(v) => v,
        None => {
            return Err(HexError::Red);
        },
    };
    let g = match hex_byte(green.as_str()) {
        Some(v) => v,
        None => {
            return Err(HexError::Green);
        },
    };
    let b = match hex_byte(blue.as_str()) {
        Some(v) => v,
        None => {
            return Err(HexError::Blue);
        },
    };
    Ok(UiColor::Rgb(r, g, b))
}

impl HexError {
    /// The error message for the colour text `hex`.
    pub fn message(&self, hex: &str) -> (m: String)
        ensures
            m@ == match *self {
                HexError::Length => "Invalid hex color: #"@,
                HexError::Red => "Invalid red component in #"@,
                HexError::Green => "Invalid green component in #"@,
                HexError::Blue => "Invalid blue component in #"@,
            } + without_hashes(hex@),
    {
        let mut m = match self {
            HexError::Length => owned("Invalid hex color: #"),
            HexError::Red => owned("Invalid red component in #"),
            HexError::Green => owned("Invalid green component in #"),
            HexError::Blue => owned("Invalid blue component in #"),
        };
        let h = strip_hashes(hex);
        let rest = string_of_range(&h, 0, h.len());
        proof {
            assert(h@.subrange(0, h@.len() as int) =~= h@);
        }
        crate::text::push_str(&mut m, rest.as_str());
        m
    }
}

// ---------------------------------------------------------------------------
// Themes
// ---------------------------------------------------------------------------

/// The first colour that cannot be read, with the error, if any.
pub open spec fn first_bad_color(texts: Seq<Seq<char>>) -> Option<(int, HexError)>
    decreases texts.len(),
{
    if texts.len() == 0 {
        None
    } else {
        match first_bad_color(texts.drop_last()) {
            Some(p) => Some(p),
            None => match hex_color(texts.last()) {
                Err(e) => Some(((texts.len() - 1) as int, e)),
                Ok(_) => None,
            },
        }
    }
}

/// Once a prefix has a bad colour, the whole list has that one first.
proof fn lemma_first_bad_prefix(texts: Seq<Seq<char>>, j: int)
    requires
        0 <= j <= texts.len(),
        first_bad_color(texts.take(j)) is Some,
    ensures
        first_bad_color(texts) == first_bad_color(texts.take(j)),
    decreases texts.len() - j,
{
    if j < texts.len() {
        assert(texts.take(j + 1).drop_last() =~= texts.take(j));
        lemma_first_bad_prefix(texts, j + 1);
    } else {
        assert(texts.take(j) =~= texts);
    }
}

/// Whether every colour text of a theme file can be read without cutting
/// a character.
pub open spec fn colors_sliceable(c: ThemeColors) -> bool {
    forall|i: int| 0 <= i < 19 ==> hex_sliceable(#[trigger] color_texts(c)[i])
}

impl ThemeFile {
    /// The theme a file describes: each colour read in field order; the
    /// first that cannot be read is the error.
    pub fn to_theme(&self) -> (r: Result<Palette, (usize, HexError)>)
        requires
            colors_sliceable(self.colors),
        ensures
            match r {
                Ok(t) => first_bad_color(color_texts(self.colors)) is None && t.name@ == self.name@
                    && forall|i: int|
                    0 <= i < 19 ==> hex_color(color_texts(self.colors)[i]) == Ok::<UiColor, HexError>(
                        #[trigger] theme_colors(t)[i],
                    ),
                Err((i, e)) => first_bad_color(color_texts(self.colors)) == Some((i as int, e)),
            },
    {
        let c = &self.colors;
        let ghost texts = color_texts(self.colors);
        let mut out: Vec<UiColor> = Vec::new();
        let mut i: usize = 0;
        proof {
            assert(texts.take(0) =~= Seq::<Seq<char>>::empty());
        }
        while i < 19
            invariant
                i <= 19,
                texts == color_texts(self.colors),
                *c == self.colors,
                colors_sliceable(self.colors),
                out@.len() == i,
                first_bad_color(texts.take(i as int)) is None,
                forall|k: int| 0 <= k < i ==> hex_color(texts[k]) == Ok::<UiColor, HexError>(#[trigger] out@[k]),
            decreases 19 - i,
        {
            let text: &String = if i == 0 {
                &c.background
            } else if i == 1 {
                &c.foreground
            } else if i == 2 {
                &c.surface
            } else if i == 3 {
                &c.overlay
            } else if i == 4 {
                &c.primary
            } else if i == 5 {
                &c.secondary
            } else if i == 6 {
                &c.accent
            } else if i == 7 {
                &c.success
            } else if i == 8 {
                &c.warning
            } else if i == 9 {
                &c.error
            } else if i == 10 {
                &c.info
            } else if i == 11 {
                &c.border
            } else if i == 12 {
                &c.border_focused
            } else if i == 13 {
                &c.status_bg
            } else if i == 14 {
                &c.status_fg
            } else if i == 15 {
                &c.input_bg
            } else if i == 16 {
                &c.input_fg
            } else if i == 17 {
                &c.input_cursor
            } else {
                &c.input_placeholder
            };
            proof {
                assert(text@ == texts[i as int]);
                assert(hex_sliceable(texts[i as int]));
                assert(texts.take(i + 1).drop_last() =~= texts.take(i as int));
                assert(texts.take(i + 1).last() == texts[i as int]);
            }
            match parse_hex(text.as_str()) {
                Ok(color) => {
                    out.push(color);
                },
                Err(e) => {
                    proof {
                        lemma_first_bad_prefix(texts, i + 1);
                    }
                    return Err((i, e));
                },
            }
            i = i + 1;
        }
        proof {
            assert(texts.take(19) =~= texts);
        }
        Ok(
            Palette {
                name: self.name.clone(),
                background: out[0],
                foreground: out[1],
                surface: out[2],
                overlay: out[3],
                primary: out[4],
                secondary: out[5],
                accent: out[6],
                success: out[7],
                warning: out[8],
                error: out[9],
                info: out[10],
                border: out[11],
                border_focused: out[12],
                status_bg: out[13],
                status_fg: out[14],
                input_bg: out[15],
                input_fg: out[16],
                input_cursor: out[17],
                input_placeholder: out[18],
            },
        )
    }
}

} // verus!
