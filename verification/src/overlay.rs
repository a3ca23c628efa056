//! Overlay pickers: a filterable list with a selection, and where the popup
//! sits on screen.
use vstd::prelude::*;

use crate::text::{chars_of, contains, contains_str, lemma_contains_infix, lowercase_of, push_char, string_of_range, to_lowercase};

verus! {

/// One entry of an overlay list.
#[derive(Debug, Clone)]
pub struct OverlayItem {
    pub label: String,
    pub value: String,
    pub hint: String,
}

/// An overlay entry as plain values.
pub struct ItemView {
    pub label: Seq<char>,
    pub value: Seq<char>,
    pub hint: Seq<char>,
}

impl View for OverlayItem {
    type V = ItemView;

    open spec fn view(&self) -> ItemView {
        ItemView { label: self.label@, value: self.value@, hint: self.hint@ }
    }
}

/// The state of an overlay picker: its items, the typed filter and the
/// selection among the items that pass the filter.
#[derive(Debug)]
pub struct OverlayState {
    pub items: Vec<OverlayItem>,
    pub selected: usize,
    pub filter: String,
    pub original_theme: Option<String>,
}

/// The items as plain values.
pub open spec fn items_view(items: Seq<OverlayItem>) -> Seq<ItemView> {
    items.map_values(|i: OverlayItem| i@)
}

/// Whether an item passes the filter: every item passes an empty filter;
/// otherwise its lowercase label must contain the lowercase filter.
pub open spec fn passes(item: ItemView, filter: Seq<char>) -> bool {
    filter.len() == 0 || contains(lowercase_of(item.label), lowercase_of(filter))
}

/// The items that pass the filter, each with its index, in order.
pub open spec fn filtered(items: Seq<ItemView>, filter: Seq<char>) -> Seq<(usize, ItemView)>
    decreases items.len(),
{
    if items.len() == 0 {
        seq![]
    } else if passes(items.last(), filter) {
        filtered(items.drop_last(), filter).push(((items.len() - 1) as usize, items.last()))
    } else {
        filtered(items.drop_last(), filter)
    }
}

/// A filtered list as plain values.
pub open spec fn pairs_view(v: Seq<(usize, &OverlayItem)>) -> Seq<(usize, ItemView)> {
    v.map_values(|p: (usize, &OverlayItem)| (p.0, p.1@))
}

/// The selection after moving up among `count` items: one up, from the top
/// to the bottom.
pub open spec fn moved_up(selected: nat, count: nat) -> nat {
    if count == 0 {
        selected
    } else if selected > 0 {
        (selected - 1) as nat
    } else {
        (count - 1) as nat
    }
}

/// The selection after moving down among `count` items: one down, from the
/// bottom to the top.
pub open spec fn moved_down(selected: nat, count: nat) -> nat {
    if count == 0 {
        selected
    } else {
        (selected + 1) % count
    }
}

impl OverlayState {
    /// A picker over `items` with an empty filter and the first item selected.
    pub fn new(items: Vec<OverlayItem>, original_theme: Option<String>) -> (s: Self)
        ensures
            s.items@ == items@,
            s.selected == 0,
            s.filter@ == Seq::<char>::empty(),
            s.original_theme == original_theme,
    {
        OverlayState { items, selected: 0, filter: String::new(), original_theme }
    }

    /// The items that pass the filter, each with its index.
    pub fn filtered_items(&self) -> (r: Vec<(usize, &OverlayItem)>)
        ensures
            pairs_view(r@) == filtered(items_view(self.items@), self.filter@),
    {
        let ghost all = items_view(self.items@);
        let empty_filter = self.filter.as_str().is_empty();
        let lower_filter = to_lowercase(self.filter.as_str());
        let mut out: Vec<(usize, &OverlayItem)> = Vec::new();
        let mut i: usize = 0;
        while i < self.items.len()
            invariant
                i <= self.items.len(),
                all == items_view(self.items@),
                empty_filter == (self.filter@.len() == 0),
                lower_filter@ == lowercase_of(self.filter@),
                pairs_view(out@) == filtered(all.take(i as int), self.filter@),
            decreases self.items.len() - i,
        {
            proof {
                assert(all.take(i + 1).drop_last() =~= all.take(i as int));
                assert(all.take(i + 1).last() == self.items@[i as int]@);
            }
            let keep = if empty_filter {
                true
            } else {
                let label = to_lowercase(self.items[i].label.as_str());
                contains_str(label.as_str(), lower_filter.as_str())
            };
            if keep {
                let ghost before = out@;
                out.push((i, &self.items[i]));
                proof {
                    assert(pairs_view(out@) =~= pairs_view(before).push((i, self.items@[i as int]@)));
                }
            }
            i = i + 1;
        }
        proof {
            assert(all.take(self.items.len() as int) =~= all);
        }
        out
    }

    /// How many items pass the filter.
    fn filtered_count(&self) -> (n: usize)
        ensures
            n == filtered(items_view(self.items@), self.filter@).len(),
    {
        self.filtered_items().len()
    }

    /// Move the selection up, wrapping from the top to the bottom.
    pub fn move_up(&mut self)
        ensures
            final(self).items@ == old(self).items@,
            final(self).filter@ == old(self).filter@,
            final(self).original_theme == old(self).original_theme,
            final(self).selected == moved_up(
                old(self).selected as nat,
                filtered(items_view(old(self).items@), old(self).filter@).len(),
            ),
    {
        let count = self.filtered_count();
        if count > 0 {
            if self.selected > 0 {
                self.selected = self.selected - 1;
            } else {
                self.selected = count - 1;
            }
        }
    }

    /// Move the selection down, wrapping from the bottom to the top.
    pub fn move_down(&mut self)
        requires
            old(self).selected < usize::MAX,
        ensures
            final(self).items@ == old(self).items@,
            final(self).filter@ == old(self).filter@,
            final(self).original_theme == old(self).original_theme,
            final(self).selected == moved_down(
                old(self).selected as nat,
                filtered(items_view(old(self).items@), old(self).filter@).len(),
            ),
    {
        let count = self.filtered_count();
        if count > 0 {
            self.selected = (self.selected + 1) % count;
        }
    }

    /// The value of the selected item among those that pass the filter.
    pub fn selected_value(&self) -> (r: Option<String>)
        ensures
            ({
                let f = filtered(items_view(self.items@), self.filter@);
                match r {
                    Some(v) => self.selected < f.len() && v@ == f[self.selected as int].1.value,
                    None => self.selected >= f.len(),
                }
            }),
    {
        let filtered = self.filtered_items();
        if self.selected < filtered.len() {
            let (_, item) = filtered[self.selected];
            proof {
                assert(pairs_view(filtered@)[self.selected as int] == (
                    filtered@[self.selected as int].0,
                    item@,
                ));
            }
            Some(item.value.clone())
        } else {
            None
        }
    }

    /// Add a character to the filter and select the first item.
    pub fn type_char(&mut self, c: char)
        ensures
            final(self).items@ == old(self).items@,
            final(self).filter@ == old(self).filter@.push(c),
            final(self).selected == 0,
            final(self).original_theme == old(self).original_theme,
    {
        push_char(&mut self.filter, c);
        self.selected = 0;
    }

    /// Remove the last character of the filter, if any, and select the
    /// first item.
    pub fn backspace(&mut self)
        ensures
            final(self).items@ == old(self).items@,
            final(self).filter@ == if old(self).filter@.len() > 0 {
                old(self).filter@.drop_last()
            } else {
                old(self).filter@
            },
            final(self).selected == 0,
            final(self).original_theme == old(self).original_theme,
    {
        let v = chars_of(self.filter.as_str());
        if v.len() > 0 {
            self.filter = string_of_range(&v, 0, v.len() - 1);
            proof {
                assert(v@.subrange(0, v@.len() - 1) =~= v@.drop_last());
            }
        }
        self.selected = 0;
    }
}

/// Typing a character and then Backspace restores the filter.
pub proof fn law_type_then_backspace_filter(filter: Seq<char>, c: char)
    ensures
        filter.push(c).drop_last() == filter,
{
    assert(filter.push(c).drop_last() =~= filter);
}

/// Moving down then up returns to the same item whenever the selection is
/// on the list.
pub proof fn law_down_then_up(selected: nat, count: nat)
    requires
        selected < count,
    ensures
        moved_up(moved_down(selected, count), count) == selected,
{
    if selected + 1 < count {
        assert((selected + 1) % count == selected + 1) by (nonlinear_arith)
            requires
                selected + 1 < count,
        ;
    } else {
        assert((selected + 1) % count == 0) by (nonlinear_arith)
            requires
                selected + 1 == count,
                count > 0,
        ;
    }
}

/// Moving keeps a selection that is on the list on the list.
pub proof fn law_moves_stay_in_list(selected: nat, count: nat)
    requires
        selected < count,
    ensures
        moved_up(selected, count) < count,
        moved_down(selected, count) < count,
{
    assert((selected + 1) % count < count) by (nonlinear_arith)
        requires
            count > 0,
    ;
}

// ---------------------------------------------------------------------------
// Popup placement
// ---------------------------------------------------------------------------

/// A screen rectangle.
#[derive(Debug, Clone, Copy, PartialEq, Eq, Structural)]
pub struct Area {
    pub x: u16,
    pub y: u16,
    pub width: u16,
    pub height: u16,
}

/// `n` clamped to `[lo, hi]`.
pub open spec fn clamp(n: int, lo: int, hi: int) -> int {
    if n < lo {
        lo
    } else if n > hi {
        hi
    } else {
        n
    }
}

/// The popup for a list of `count` items: half the screen wide (between 30
/// and 60 columns, and 4 less than the screen at most), tall enough for the
/// filter line, a separator, the items and the borders (at least 5 rows, at
/// most 60% of the screen), centered.
pub open spec fn popup_spec(screen: Area, count: nat) -> Area {
    let half = (if screen.width * 50 > 0xffff { 0xffff } else { screen.width * 50 }) / 100;
    let narrow = if screen.width >= 4 { screen.width - 4 } else { 0 };
    let width = {
        let w = clamp(half, 30, 60);
        if w < narrow { w } else { narrow }
    };
    let max_height = (if screen.height * 60 > 0xffff { 0xffff } else { screen.height * 60 }) / 100;
    let height = clamp(count as int + 4, 5, max_height);
    Area {
        x: (screen.x + (screen.width - width) / 2) as u16,
        y: (screen.y + (if screen.height >= height { screen.height - height } else { 0 }) / 2) as u16,
        width: width as u16,
        height: height as u16,
    }
}

/// `n * p / 100`, the product saturating at `u16::MAX` before the division.
fn saturating_percent(n: u16, p: u16) -> (r: u16)
    requires
        p <= 100,
    ensures
        r == (if n * p > 0xffff { 0xffff } else { n * p }) / 100,
{
    assert((n as u32) * (p as u32) <= 0xffff * 100) by (nonlinear_arith)
        requires
            p <= 100,
    ;
    let prod: u32 = (n as u32) * (p as u32);
    if prod > 0xffff {
        0xffffu16 / 100
    } else {
        (prod as u16) / 100
    }
}

/// Where an overlay popup listing `count` items sits on `screen`.
pub fn popup_area_of(screen: Area, count: usize) -> (r: Area)
    requires
        count + 4 <= 0xffff,
        (if screen.height * 60 > 0xffff { 0xffff } else { screen.height * 60 }) / 100 >= 5,
        screen.x + screen.width <= 0xffff,
        screen.y + screen.height <= 0xffff,
    ensures
        r == popup_spec(screen, count as nat),
{
    let half = saturating_percent(screen.width, 50);
    let w = if half < 30 {
        30
    } else if half > 60 {
        60
    } else {
        half
    };
    let narrow = screen.width.saturating_sub(4);
    let width = if w < narrow {
        w
    } else {
        narrow
    };
    let content_height = 2 + count as u16;
    let max_height = saturating_percent(screen.height, 60);
    let wanted = content_height + 2;
    let height = if wanted < 5 {
        5
    } else if wanted > max_height {
        max_height
    } else {
        wanted
    };
    let x = screen.x + (screen.width.saturating_sub(width)) / 2;
    let y = screen.y + (screen.height.saturating_sub(height)) / 2;
    Area { x, y, width, height }
}

/// The popup never leaves the screen sideways and is at most 60 wide.
pub proof fn law_popup_fits_width(screen: Area, count: nat)
    requires
        count + 4 <= 0xffff,
        screen.x + screen.width <= 0xffff,
        screen.y + screen.height <= 0xffff,
    ensures
        popup_spec(screen, count).width <= 60,
        popup_spec(screen, count).width <= screen.width,
        popup_spec(screen, count).x >= screen.x,
        popup_spec(screen, count).x + popup_spec(screen, count).width <= screen.x + screen.width,
{
}

/// The filtered list: each entry is an item with its index, the indices
/// increase, and an item is listed exactly when it passes the filter.
proof fn lemma_filtered_members(items: Seq<ItemView>, filter: Seq<char>)
    requires
        items.len() <= usize::MAX,
    ensures
        ({
            let f = filtered(items, filter);
            &&& forall|k: int| 0 <= k < f.len() ==> (#[trigger] f[k]).0 < items.len() && f[k].1 == items[f[k].0 as int]
            &&& forall|k: int, j: int| 0 <= k < j < f.len() ==> (#[trigger] f[k]).0 < (#[trigger] f[j]).0
            &&& forall|i: int| 0 <= i < items.len() ==> ((exists|k: int| 0 <= k < f.len() && (#[trigger] f[k]).0 == i)
                <==> passes(items[i], filter))
        }),
    decreases items.len(),
{
    if items.len() > 0 {
        let pre_items = items.drop_last();
        lemma_filtered_members(pre_items, filter);
        let pre = filtered(pre_items, filter);
        let f = filtered(items, filter);
        let n = items.len() - 1;
        assert forall|i: int| 0 <= i < items.len() implies ((exists|k: int| 0 <= k < f.len() && (#[trigger] f[k]).0 == i)
            <==> passes(items[i], filter)) by {
            if i < n {
                assert(pre_items[i] == items[i]);
                if exists|k: int| 0 <= k < f.len() && (#[trigger] f[k]).0 == i {
                    let k = choose|k: int| 0 <= k < f.len() && (#[trigger] f[k]).0 == i;
                    if k < pre.len() {
                        assert(f[k] == pre[k]);
                    }
                }
                if passes(items[i], filter) {
                    let k = choose|k: int| 0 <= k < pre.len() && (#[trigger] pre[k]).0 == i;
                    assert(f[k] == pre[k]);
                }
            } else {
                if passes(items[i], filter) {
                    assert(f[pre.len() as int].0 == i);
                } else {
                    assert forall|k: int| 0 <= k < f.len() implies (#[trigger] f[k]).0 != i by {
                        assert(f[k] == pre[k]);
                    }
                }
            }
        }
    }
}

/// Whether `p` occurs in `s`: `s` is some text, then `p`, then some text.
pub open spec fn occurs_in(p: Seq<char>, s: Seq<char>) -> bool {
    exists|x: Seq<char>, y: Seq<char>| s == #[trigger] (x + p + y)
}

/// Whether the filtered list has an entry for the item at index `i`.
pub open spec fn lists_index(f: Seq<(usize, ItemView)>, i: int) -> bool {
    exists|k: int| 0 <= k < f.len() && (#[trigger] f[k]).0 == i
}

/// Filtering keeps exactly the items whose label, lowercased, contains the
/// lowercased filter anywhere (all items for an empty filter), each with
/// its index, in the order of the items.
pub proof fn law_filter_keeps_matching_labels(items: Seq<ItemView>, filter: Seq<char>)
    requires
        items.len() <= usize::MAX,
    ensures
        forall|k: int|
            0 <= k < filtered(items, filter).len() ==> (#[trigger] filtered(items, filter)[k]).0 < items.len()
                && filtered(items, filter)[k].1 == items[filtered(items, filter)[k].0 as int],
        forall|k: int, j: int|
            0 <= k < j < filtered(items, filter).len() ==> (#[trigger] filtered(items, filter)[k]).0 < (
            #[trigger] filtered(items, filter)[j]).0,
        forall|i: int|
            0 <= i < items.len() ==> (#[trigger] lists_index(filtered(items, filter), i) <==> (filter.len() == 0
                || occurs_in(lowercase_of(filter), lowercase_of(items[i].label)))),
{
    lemma_filtered_members(items, filter);
    assert forall|i: int|
        0 <= i < items.len() implies (#[trigger] lists_index(filtered(items, filter), i) <==> (filter.len() == 0
            || occurs_in(lowercase_of(filter), lowercase_of(items[i].label)))) by {
        lemma_contains_infix(lowercase_of(items[i].label), lowercase_of(filter));
        assert(passes(items[i], filter) == (filter.len() == 0 || contains(
            lowercase_of(items[i].label),
            lowercase_of(filter),
        )));
    }
}

} // verus!
