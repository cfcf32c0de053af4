//! The sidebar's selection: selecting a game row selects every row of the
//! same game (its variants and duplicates listed elsewhere), any other row
//! selects alone, and each change reports the range of rows to repaint.

use vstd::prelude::*;

verus! {

/// One sidebar row as the selection sees it: whether it is a game row and
/// the game's database id.
#[derive(Clone, Copy, PartialEq, Eq, Debug, Structural)]
pub struct SidebarEntry {
    pub is_game: bool,
    pub db_id: i64,
}

/// Row positions in strictly increasing order (a set of positions).
pub open spec fn strictly_increasing(s: Seq<u32>) -> bool {
    forall|i: int, j: int| 0 <= i < j < s.len() ==> #[trigger] s[i] < #[trigger] s[j]
}

/// The rows a click on `position` selects: every game row of the clicked
/// game when it is a game row, else the clicked row alone.
pub open spec fn rows_for_click(items: Seq<SidebarEntry>, position: int, row: int) -> bool {
    if items[position].is_game {
        0 <= row < items.len() && items[row].is_game && items[row].db_id == items[position].db_id
    } else {
        row == position
    }
}

/// The range `(first, count)` covering every position of `a` and `b`:
/// from the smallest to the largest.
pub open spec fn covers(a: Seq<u32>, b: Seq<u32>, range: (u32, u32)) -> bool {
    let lo = range.0 as int;
    let hi = range.0 + range.1 - 1;
    &&& range.1 >= 1
    &&& (a.contains(range.0) || b.contains(range.0))
    &&& (a.contains(hi as u32) || b.contains(hi as u32))
    &&& hi <= u32::MAX
    &&& forall|x: u32| (a.contains(x) || b.contains(x)) ==> lo <= x <= hi
}

/// What a selection request did: whether it was handled, the selection
/// afterwards, and the rows whose selected state may have changed
/// (`None` when nothing changed).
pub struct SelectionChange {
    pub handled: bool,
    pub selected: Vec<u32>,
    pub changed: Option<(u32, u32)>,
}

fn same_positions(a: &Vec<u32>, b: &Vec<u32>) -> (r: bool)
    ensures
        r == (a@ == b@),
{
    if a.len() != b.len() {
        return false;
    }
    let mut i: usize = 0;
    while i < a.len()
        invariant
            a.len() == b.len(),
            i <= a.len(),
            forall|k: int| 0 <= k < i ==> a@[k] == b@[k],
        decreases a.len() - i,
    {
        if a[i] != b[i] {
            return false;
        }
        i = i + 1;
    }
    assert(a@ =~= b@);
    true
}

fn copy_positions(a: &Vec<u32>) -> (r: Vec<u32>)
    ensures
        r@ == a@,
{
    let mut r: Vec<u32> = Vec::new();
    let mut i: usize = 0;
    while i < a.len()
        invariant
            i <= a.len(),
            r@ == a@.take(i as int),
        decreases a.len() - i,
    {
        r.push(a[i]);
        i = i + 1;
        assert(r@ =~= a@.take(i as int));
    }
    assert(a@.take(a.len() as int) =~= a@);
    r
}

proof fn lemma_sorted_min_max(s: Seq<u32>, x: u32)
    requires
        strictly_increasing(s),
        s.contains(x),
    ensures
        s[0] <= x <= s[s.len() - 1],
{
    let k = choose|k: int| 0 <= k < s.len() && s[k] == x;
    if k > 0 {
        assert(s[0] < s[k]);
    }
    if k < s.len() - 1 {
        assert(s[k] < s[s.len() - 1]);
    }
}

/// The range from the smallest to the largest position of `a` and `b`,
/// both sorted, at least one non-empty.
fn covering_range(a: &Vec<u32>, b: &Vec<u32>) -> (range: (u32, u32))
    requires
        strictly_increasing(a@),
        strictly_increasing(b@),
        forall|k: int| 0 <= k < a@.len() ==> #[trigger] a@[k] < u32::MAX,
        forall|k: int| 0 <= k < b@.len() ==> #[trigger] b@[k] < u32::MAX,
        a.len() > 0 || b.len() > 0,
    ensures
        covers(a@, b@, range),
{
    let lo: u32 = if a.len() == 0 {
        b[0]
    } else if b.len() == 0 {
        a[0]
    } else if a[0] <= b[0] {
        a[0]
    } else {
        b[0]
    };
    let hi: u32 = if a.len() == 0 {
        b[b.len() - 1]
    } else if b.len() == 0 {
        a[a.len() - 1]
    } else if a[a.len() - 1] >= b[b.len() - 1] {
        a[a.len() - 1]
    } else {
        b[b.len() - 1]
    };
    proof {
        if a.len() > 0 {
            assert(a@.contains(a@[0]));
            assert(a@.contains(a@[a.len() - 1]));
            lemma_sorted_min_max(a@, a@[0]);
        }
        if b.len() > 0 {
            assert(b@.contains(b@[0]));
            assert(b@.contains(b@[b.len() - 1]));
            lemma_sorted_min_max(b@, b@[0]);
        }
        assert forall|x: u32| (a@.contains(x) || b@.contains(x)) implies lo <= x <= hi by {
            if a@.contains(x) {
                lemma_sorted_min_max(a@, x);
            }
            if b@.contains(x) {
                lemma_sorted_min_max(b@, x);
            }
        }
    }
    (lo, hi - lo + 1)
}

/// What a click on row `position` does to the selection `selected`: a
/// game row selects every row of that game, any other row selects alone.
/// An unknown position is not handled and changes nothing; a click that
/// leaves the selection as it was is handled with no change reported.
pub open spec fn click_outcome(
    items: Seq<SidebarEntry>,
    position: u32,
    selected: Seq<u32>,
    r: SelectionChange,
) -> bool {
    &&& strictly_increasing(r.selected@)
    &&& position >= items.len() ==> !r.handled && r.selected@ == selected && r.changed is None
    &&& position < items.len() ==> {
        &&& r.handled
        &&& forall|x: u32|
            r.selected@.contains(x) <==> rows_for_click(items, position as int, x as int)
        &&& match r.changed {
            None => r.selected@ == selected,
            Some(range) => r.selected@ != selected && covers(selected, r.selected@, range),
        }
    }
}

/// A click on row `position`, as `click_outcome` describes it.
pub fn select_item(items: &Vec<SidebarEntry>, position: u32, selected: &Vec<u32>) -> (r:
    SelectionChange)
    requires
        items.len() <= u32::MAX,
        strictly_increasing(selected@),
        forall|k: int| 0 <= k < selected@.len() ==> #[trigger] selected@[k] < u32::MAX,
    ensures
        click_outcome(items@, position, selected@, r),
{
    if position as usize >= items.len() {
        return SelectionChange { handled: false, selected: copy_positions(selected), changed: None };
    }
    let clicked = items[position as usize];
    let mut next: Vec<u32> = Vec::new();
    if clicked.is_game {
        let mut i: usize = 0;
        while i < items.len()
            invariant
                i <= items.len(),
                items.len() <= u32::MAX,
                position < items.len(),
                clicked == items@[position as int],
                clicked.is_game,
                strictly_increasing(next@),
                forall|k: int| 0 <= k < next@.len() ==> next@[k] < i,
                forall|x: u32|
                    next@.contains(x) <==> (x < i && rows_for_click(items@, position as int, x as int)),
            decreases items.len() - i,
        {
            let it = items[i];
            assert(it == items@[i as int]);
            if it.is_game && it.db_id == clicked.db_id {
                assert(rows_for_click(items@, position as int, i as int));
                let ghost before = next@;
                next.push(i as u32);
                proof {
                    assert forall|x: u32| next@.contains(x) <==> (x < i + 1 && rows_for_click(
                        items@,
                        position as int,
                        x as int,
                    )) by {
                        if next@.contains(x) && x != i as u32 {
                            let k = choose|k: int| 0 <= k < next@.len() && next@[k] == x;
                            assert(k < before.len());
                            assert(before[k] == x);
                            assert(before.contains(x));
                        }
                        if x == i as u32 {
                            assert(x as int == i as int);
                        }
                        if x < i && rows_for_click(items@, position as int, x as int) {
                            assert(before.contains(x));
                            let k = choose|k: int| 0 <= k < before.len() && before[k] == x;
                            assert(next@[k] == x);
                        }
                        if x == i as u32 {
                            assert(next@[before.len() as int] == x);
                        }
                    }
                }
            } else {
                assert forall|x: u32| next@.contains(x) <==> (x < i + 1 && rows_for_click(
                    items@,
                    position as int,
                    x as int,
                )) by {
                    if next@.contains(x) {
                        let k = choose|k: int| 0 <= k < next@.len() && next@[k] == x;
                        assert(next@[k] < i);
                    }
                }
            }
            i = i + 1;
        }
        assert(i == items.len());
        assert(rows_for_click(items@, position as int, position as int));
        assert(next@.contains(position));
    } else {
        next.push(position);
        assert(next@ =~= seq![position]);
        assert(next@[0] == position);
        assert(next@.contains(position));
        assert forall|x: u32| next@.contains(x) <==> rows_for_click(items@, position as int, x as int) by {
            if next@.contains(x) {
                let k = choose|k: int| 0 <= k < next@.len() && next@[k] == x;
                assert(k == 0);
            }
        }
    }
    if same_positions(selected, &next) {
        return SelectionChange { handled: true, selected: next, changed: None };
    }
    let range = covering_range(selected, &next);
    SelectionChange { handled: true, selected: next, changed: Some(range) }
}

/// Clear the selection; the rows that were selected need repainting.
pub fn unselect_all(selected: &Vec<u32>) -> (r: SelectionChange)
    requires
        strictly_increasing(selected@),
        forall|k: int| 0 <= k < selected@.len() ==> #[trigger] selected@[k] < u32::MAX,
    ensures
        r.handled,
        r.selected@.len() == 0,
        match r.changed {
            None => selected@.len() == 0,
            Some(range) => selected@.len() > 0 && covers(selected@, Seq::<u32>::empty(), range),
        },
{
    if selected.len() == 0 {
        return SelectionChange { handled: true, selected: Vec::new(), changed: None };
    }
    let empty: Vec<u32> = Vec::new();
    let range = covering_range(selected, &empty);
    SelectionChange { handled: true, selected: empty, changed: Some(range) }
}

/// Replace the selection wholesale; the rows selected before or after
/// need repainting, unless nothing changed.
pub fn set_selection(selected: &Vec<u32>, wanted: &Vec<u32>) -> (r: SelectionChange)
    requires
        strictly_increasing(selected@),
        strictly_increasing(wanted@),
        forall|k: int| 0 <= k < selected@.len() ==> #[trigger] selected@[k] < u32::MAX,
        forall|k: int| 0 <= k < wanted@.len() ==> #[trigger] wanted@[k] < u32::MAX,
    ensures
        r.handled,
        r.selected@ == wanted@,
        match r.changed {
            None => selected@ == wanted@,
            Some(range) => selected@ != wanted@ && covers(selected@, wanted@, range),
        },
{
    let next = copy_positions(wanted);
    if same_positions(selected, wanted) {
        return SelectionChange { handled: true, selected: next, changed: None };
    }
    assert(selected.len() > 0 || wanted.len() > 0) by {
        if selected.len() == 0 && wanted.len() == 0 {
            assert(selected@ =~= wanted@);
        }
    }
    let range = covering_range(selected, wanted);
    SelectionChange { handled: true, selected: next, changed: Some(range) }
}

/// Where a selected position goes when the list model replaces `removed`
/// rows at `position` with `added` new ones: rows before stay, removed rows
/// drop out, rows after shift by `added - removed`; new rows start
/// unselected.
pub open spec fn splice_position(x: int, position: int, removed: int, added: int) -> Option<int> {
    if x < position {
        Some(x)
    } else if x < position + removed {
        None
    } else {
        Some(x - removed + added)
    }
}

/// Follow a list model's items-changed signal: the selection after
/// `removed` rows at `position` were replaced by `added` new ones.
pub fn splice_selection(selected: &Vec<u32>, position: u32, removed: u32, added: u32) -> (r: Vec<
    u32,
>)
    requires
        strictly_increasing(selected@),
        forall|k: int|
            0 <= k < selected@.len() ==> #[trigger] selected@[k] + added - removed <= u32::MAX,
    ensures
        strictly_increasing(r@),
        forall|y: u32|
            r@.contains(y) <==> exists|k: int|
                0 <= k < selected@.len() && splice_position(
                    #[trigger] selected@[k] as int,
                    position as int,
                    removed as int,
                    added as int,
                ) == Some(y as int),
{
    let mut r: Vec<u32> = Vec::new();
    let mut i: usize = 0;
    let end: u64 = position as u64 + removed as u64;
    while i < selected.len()
        invariant
            i <= selected.len(),
            end == position + removed,
            strictly_increasing(selected@),
            forall|k: int|
                0 <= k < selected@.len() ==> #[trigger] selected@[k] + added - removed <= u32::MAX,
            strictly_increasing(r@),
            forall|k: int|
                #![trigger r@[k]]
                0 <= k < r@.len() ==> exists|m: int|
                    0 <= m < i && splice_position(
                        #[trigger] selected@[m] as int,
                        position as int,
                        removed as int,
                        added as int,
                    ) == Some(r@[k] as int),
            forall|m: int|
                0 <= m < i ==> match splice_position(
                    #[trigger] selected@[m] as int,
                    position as int,
                    removed as int,
                    added as int,
                ) {
                    Some(y) => r@.contains(y as u32),
                    None => true,
                },
            forall|k: int, m: int|
                0 <= k < r@.len() && i <= m < selected@.len() ==> #[trigger] r@[k] < splice_image(
                    #[trigger] selected@[m] as int,
                    position as int,
                    removed as int,
                    added as int,
                ),
        decreases selected.len() - i,
    {
        let x = selected[i];
        let ghost before = r@;
        if x < position {
            r.push(x);
        } else if (x as u64) < end {
        } else {
            let y: u32 = ((x as u64 + added as u64) - removed as u64) as u32;
            r.push(y);
        }
        proof {
            assert forall|k: int|
                #![trigger r@[k]]
                0 <= k < r@.len() implies exists|m: int|
                    0 <= m < i + 1 && splice_position(
                        #[trigger] selected@[m] as int,
                        position as int,
                        removed as int,
                        added as int,
                    ) == Some(r@[k] as int) by {
                if k < before.len() {
                    assert(r@[k] == before[k]);
                } else {
                    assert(splice_position(selected@[i as int] as int, position as int, removed as int, added as int) == Some(r@[k] as int));
                }
            }
            assert forall|m: int|
                0 <= m < i + 1 implies match splice_position(
                    #[trigger] selected@[m] as int,
                    position as int,
                    removed as int,
                    added as int,
                ) {
                    Some(y) => r@.contains(y as u32),
                    None => true,
                } by {
                if m < i {
                    if let Some(y) = splice_position(selected@[m] as int, position as int, removed as int, added as int) {
                        let k = choose|k: int| 0 <= k < before.len() && before[k] == y as u32;
                        assert(r@[k] == y as u32);
                    }
                } else {
                    if let Some(y) = splice_position(selected@[m] as int, position as int, removed as int, added as int) {
                        assert(r@[before.len() as int] == y as u32);
                    }
                }
            }
            assert forall|k: int, m: int|
                0 <= k < r@.len() && i + 1 <= m < selected@.len() implies #[trigger] r@[k] < splice_image(
                    #[trigger] selected@[m] as int,
                    position as int,
                    removed as int,
                    added as int,
                ) by {
                assert(selected@[i as int] < selected@[m]);
                if k < before.len() {
                    assert(r@[k] == before[k]);
                    assert(before[k] < splice_image(selected@[i as int] as int, position as int, removed as int, added as int));
                }
            }
            assert forall|a: int, b: int| 0 <= a < b < r@.len() implies #[trigger] r@[a] < #[trigger] r@[b] by {
                if b >= before.len() {
                    assert(r@[a] == before[a]);
                }
            }
        }
        i = i + 1;
    }
    proof {
        assert forall|y: u32|
            r@.contains(y) <==> exists|k: int|
                0 <= k < selected@.len() && splice_position(
                    #[trigger] selected@[k] as int,
                    position as int,
                    removed as int,
                    added as int,
                ) == Some(y as int) by {
            if r@.contains(y) {
                let k = choose|k: int| 0 <= k < r@.len() && r@[k] == y;
                let m = choose|m: int|
                    0 <= m < selected@.len() && splice_position(
                        #[trigger] selected@[m] as int,
                        position as int,
                        removed as int,
                        added as int,
                    ) == Some(r@[k] as int);
            }
            if exists|k: int|
                0 <= k < selected@.len() && splice_position(
                    #[trigger] selected@[k] as int,
                    position as int,
                    removed as int,
                    added as int,
                ) == Some(y as int) {
                let m = choose|m: int|
                    0 <= m < selected@.len() && splice_position(
                        #[trigger] selected@[m] as int,
                        position as int,
                        removed as int,
                        added as int,
                    ) == Some(y as int);
                assert(r@.contains(y as u32));
            }
        }
    }
    r
}

/// A lower bound for where a selected position can land: the position
/// itself when before the splice, the first row after the new rows
/// otherwise.
pub open spec fn splice_image(x: int, position: int, removed: int, added: int) -> int {
    if x < position {
        x
    } else if x < position + removed {
        position + added
    } else {
        x - removed + added
    }
}


proof fn lemma_increasing_unique(a: Seq<u32>, b: Seq<u32>)
    requires
        strictly_increasing(a),
        strictly_increasing(b),
        forall|x: u32| a.contains(x) <==> b.contains(x),
    ensures
        a == b,
    decreases a.len(),
{
    if a.len() == 0 {
        if b.len() > 0 {
            assert(b.contains(b[0]));
        }
        assert(a =~= b);
    } else {
        assert(a.contains(a[0]));
        assert(b.contains(b[0]));
        lemma_sorted_min_max(b, a[0]);
        lemma_sorted_min_max(a, b[0]);
        let ra = a.drop_first();
        let rb = b.drop_first();
        assert forall|x: u32| ra.contains(x) <==> rb.contains(x) by {
            if ra.contains(x) {
                let k = choose|k: int| 0 <= k < ra.len() && ra[k] == x;
                assert(a[k + 1] == x);
                assert(a[0] < a[k + 1]);
                assert(b.contains(x));
                let m = choose|m: int| 0 <= m < b.len() && b[m] == x;
                assert(rb[m - 1] == x);
            }
            if rb.contains(x) {
                let k = choose|k: int| 0 <= k < rb.len() && rb[k] == x;
                assert(b[k + 1] == x);
                assert(b[0] < b[k + 1]);
                assert(a.contains(x));
                let m = choose|m: int| 0 <= m < a.len() && a[m] == x;
                assert(ra[m - 1] == x);
            }
        }
        assert forall|i: int, j: int| 0 <= i < j < ra.len() implies #[trigger] ra[i] < #[trigger] ra[j] by {
            assert(ra[i] == a[i + 1] && ra[j] == a[j + 1]);
        }
        assert forall|i: int, j: int| 0 <= i < j < rb.len() implies #[trigger] rb[i] < #[trigger] rb[j] by {
            assert(rb[i] == b[i + 1] && rb[j] == b[j + 1]);
        }
        lemma_increasing_unique(ra, rb);
        assert(a =~= seq![a[0]] + ra);
        assert(b =~= seq![b[0]] + rb);
    }
}

/// What a click selects depends on the rows and the clicked position
/// alone: any two selections made by clicking the same row are equal, so
/// clicking a row again reports no change.
pub proof fn law_click_selection_is_determined(
    items: Seq<SidebarEntry>,
    position: u32,
    a: Seq<u32>,
    b: Seq<u32>,
)
    requires
        position < items.len(),
        strictly_increasing(a),
        strictly_increasing(b),
        forall|x: u32| a.contains(x) <==> rows_for_click(items, position as int, x as int),
        forall|x: u32| b.contains(x) <==> rows_for_click(items, position as int, x as int),
    ensures
        a == b,
{
    lemma_increasing_unique(a, b);
}

/// A selection that can be held: rows in increasing order, none at the
/// last `u32` (the "no row" mark).
pub open spec fn selection_wf(selected: Seq<u32>) -> bool {
    &&& strictly_increasing(selected)
    &&& forall|k: int| 0 <= k < selected.len() ==> #[trigger] selected[k] < u32::MAX
}

/// The "no row" position (`GTK_INVALID_LIST_POSITION`).
pub const NO_POSITION: u32 = 0xffff_ffff;

/// The sidebar's selection model: the selected rows and the row last
/// clicked.
pub struct SelectionModel {
    pub selected: Vec<u32>,
    /// The position of the last click, handled or not; `NO_POSITION`
    /// before any.
    pub clicked_position: u32,
}

impl SelectionModel {
    /// A model with nothing selected and no click yet.
    pub fn new() -> (m: SelectionModel)
        ensures
            m.selected@.len() == 0,
            m.clicked_position == NO_POSITION,
    {
        SelectionModel { selected: Vec::new(), clicked_position: NO_POSITION }
    }

    /// The row last clicked.
    pub fn clicked_position(&self) -> (p: u32)
        ensures
            p == self.clicked_position,
    {
        self.clicked_position
    }

    /// A click on row `position`: the position is recorded whether or
    /// not the click is handled, and the selection becomes what
    /// `click_outcome` says.
    pub fn select_item(&mut self, items: &Vec<SidebarEntry>, position: u32) -> (r: SelectionChange)
        requires
            items.len() <= u32::MAX,
            selection_wf(old(self).selected@),
        ensures
            click_outcome(items@, position, old(self).selected@, r),
            final(self).clicked_position == position,
            final(self).selected@ == r.selected@,
            selection_wf(final(self).selected@),
    {
        self.clicked_position = position;
        let r = select_item(items, position, &self.selected);
        if r.handled {
            proof {
                assert forall|k: int| 0 <= k < r.selected@.len() implies #[trigger] r.selected@[k]
                    < u32::MAX by {
                    assert(r.selected@.contains(r.selected@[k]));
                    assert(rows_for_click(items@, position as int, r.selected@[k] as int));
                    if !items@[position as int].is_game {
                        assert(r.selected@[k] == position);
                    }
                }
            }
        }
        self.selected = copy_positions(&r.selected);
        r
    }
}

} // verus!
