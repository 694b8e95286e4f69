//! What undo and redo do to a canvas over several steps.
//!
//! A history is read against the canvas it started from: carrying out the
//! actions of its first `n` entries on that canvas gives the state after
//! `n` entries. Redo moves along these states by construction. Undo gets
//! back to them only where the snapshots allow it, and the lemmas here say
//! when that is.
//!
//! `round_trips` is the statement that `n` undos and `n` redos change
//! nothing. It does not hold of every history: a paint that follows a
//! clear, undone alone, leaves the canvas as it was before the clear. It
//! holds
//! - where every undone entry can be taken back
//!   (`lemma_recorded_round_trip`);
//! - where the undos end on a paint or a clear after a paint, whatever lies
//!   above (`lemma_round_trip_onto_paint`, `lemma_round_trip_onto_clear`,
//!   `lemma_round_trip_from_snapshot`);
//! - where they end on a resize or a first-entry clear with a paint or a
//!   clear right above it (`lemma_round_trip_under_snapshot`);
//! - where only resizes are undone, whatever they dropped
//!   (`lemma_resizes_round_trip`), or resizes and the first entry under
//!   them (`lemma_round_trip_to_the_start`);
//! - and where such stretches follow one another
//!   (`lemma_round_trips_compose`, `lemma_anchored_round_trip`).

use vstd::prelude::*;
use crate::grid::{
    GridView,
    transparent,
    lemma_offset_in_range,
    lemma_resize_pixels,
    lemma_resize_same_size,
    lemma_same_pixels,
};
use crate::undo::{
    ActionView,
    EntryView,
    UndoView,
    erase_all,
    paint_all,
    lemma_erase_all_wf,
    lemma_paint_all_wf,
};

verus! {

/// The canvas after the actions of the first `n` entries have been carried
/// out on `start`, oldest first.
pub open spec fn state_at(start: GridView, entries: Seq<EntryView>, n: nat) -> GridView
    decreases n,
{
    if n == 0 {
        start
    } else {
        entries[n - 1].action.apply(state_at(start, entries, (n - 1) as nat))
    }
}

/// Every snapshot was taken at the moment its action asks for: after the
/// action for a paint, before it for a resize or a clear.
pub open spec fn recorded(start: GridView, entries: Seq<EntryView>) -> bool {
    forall|i: int|
        0 <= i < entries.len() ==> (#[trigger] entries[i]).snapshot == if entries[i].action is Paint {
            state_at(start, entries, (i + 1) as nat)
        } else {
            state_at(start, entries, i as nat)
        }
}

/// The snapshot to push with an action for the history to stay recorded:
/// the canvas after the action for a paint, the canvas before it for a
/// resize or a clear.
pub open spec fn snapshot_for(action: ActionView, canvas: GridView) -> GridView {
    if action is Paint {
        action.apply(canvas)
    } else {
        canvas
    }
}

/// The states of a history depend on the entries that lead to them only.
proof fn lemma_state_at_prefix(start: GridView, a: Seq<EntryView>, b: Seq<EntryView>, n: nat)
    requires
        n <= a.len(),
        n <= b.len(),
        forall|i: int| 0 <= i < n ==> a[i] == b[i],
    ensures
        state_at(start, a, n) == state_at(start, b, n),
    decreases n,
{
    if n > 0 {
        lemma_state_at_prefix(start, a, b, (n - 1) as nat);
    }
}

/// Pushing an action with the snapshot it asks for keeps a history
/// recorded, and carrying the action out leaves the canvas in the state
/// after the new entry. An empty history is recorded to begin with.
pub proof fn lemma_push_keeps_recorded(
    start: GridView,
    h: UndoView,
    action: ActionView,
    canvas: GridView,
)
    requires
        h.cursor <= h.entries.len(),
        recorded(start, h.entries),
        canvas == state_at(start, h.entries, h.cursor),
    ensures
        recorded(start, UndoView::empty().entries),
        ({
            let pushed = h.push(action, snapshot_for(action, canvas));
            &&& recorded(start, pushed.entries)
            &&& state_at(start, pushed.entries, pushed.cursor) == action.apply(canvas)
        }),
{
    let pushed = h.push(action, snapshot_for(action, canvas));
    lemma_state_at_prefix(start, h.entries, pushed.entries, h.cursor);
    assert(state_at(start, pushed.entries, pushed.cursor) == action.apply(canvas));
    assert forall|i: int| 0 <= i < pushed.entries.len() implies (#[trigger] pushed.entries[i]).snapshot
        == if pushed.entries[i].action is Paint {
        state_at(start, pushed.entries, (i + 1) as nat)
    } else {
        state_at(start, pushed.entries, i as nat)
    } by {
        if i < h.cursor {
            assert(pushed.entries[i] == h.entries[i]);
            lemma_state_at_prefix(start, h.entries, pushed.entries, i as nat);
            lemma_state_at_prefix(start, h.entries, pushed.entries, (i + 1) as nat);
        }
    }
}

/// History and canvas after `n` undos.
pub open spec fn undo_n(h: UndoView, canvas: GridView, n: nat) -> (UndoView, GridView)
    decreases n,
{
    if n == 0 {
        (h, canvas)
    } else {
        undo_n(h.undo(), h.undo_canvas(canvas), (n - 1) as nat)
    }
}

/// History and canvas after `n` redos.
pub open spec fn redo_n(h: UndoView, canvas: GridView, n: nat) -> (UndoView, GridView)
    decreases n,
{
    if n == 0 {
        (h, canvas)
    } else {
        redo_n(h.redo(), h.redo_canvas(canvas), (n - 1) as nat)
    }
}

/// Undo `n` times and redo `n` times, starting from the state that the
/// applied entries lead to, and history and canvas are as they were.
pub open spec fn round_trips(start: GridView, h: UndoView, n: nat) -> bool {
    let canvas = state_at(start, h.entries, h.cursor);
    let undone = undo_n(h, canvas, n);
    &&& undone.0 == UndoView { cursor: (h.cursor - n) as nat, ..h }
    &&& redo_n(undone.0, undone.1, n) == (h, canvas)
}

/// The canvas that undoing entry `j` leaves, when the canvas was in the
/// state after that entry.
pub open spec fn stepped_back(start: GridView, entries: Seq<EntryView>, j: int) -> GridView {
    UndoView { entries, cursor: (j + 1) as nat }.undo_canvas(
        state_at(start, entries, (j + 1) as nat),
    )
}

/// Undoing entry `j` gives back the state before it.
pub open spec fn undo_is_exact(start: GridView, entries: Seq<EntryView>, j: int) -> bool {
    stepped_back(start, entries, j) == state_at(start, entries, j as nat)
}

/// Undoing entry `j` and redoing it gives back the state after it.
pub open spec fn redo_restores(start: GridView, entries: Seq<EntryView>, j: int) -> bool {
    entries[j].action.apply(stepped_back(start, entries, j)) == state_at(
        start,
        entries,
        (j + 1) as nat,
    )
}

/// Undoing `a` times and then `b` times is undoing `a + b` times.
proof fn lemma_undo_n_split(h: UndoView, canvas: GridView, a: nat, b: nat)
    ensures
        undo_n(h, canvas, a + b) == undo_n(undo_n(h, canvas, a).0, undo_n(h, canvas, a).1, b),
    decreases a,
{
    if a > 0 {
        lemma_undo_n_split(h.undo(), h.undo_canvas(canvas), (a - 1) as nat, b);
        assert(((a - 1) as nat + b) as nat == (a + b - 1) as nat);
    }
}

/// Redoing `a` times and then `b` times is redoing `a + b` times.
proof fn lemma_redo_n_split(h: UndoView, canvas: GridView, a: nat, b: nat)
    ensures
        redo_n(h, canvas, a + b) == redo_n(redo_n(h, canvas, a).0, redo_n(h, canvas, a).1, b),
    decreases a,
{
    if a > 0 {
        lemma_redo_n_split(h.redo(), h.redo_canvas(canvas), (a - 1) as nat, b);
        assert(((a - 1) as nat + b) as nat == (a + b - 1) as nat);
    }
}

/// From the state after `h.cursor` entries, `n` redos lead to the state
/// after `h.cursor + n` entries.
pub proof fn lemma_redo_follows_states(start: GridView, h: UndoView, n: nat)
    requires
        h.cursor + n <= h.entries.len(),
    ensures
        redo_n(h, state_at(start, h.entries, h.cursor), n) == (
            UndoView { cursor: h.cursor + n, ..h },
            state_at(start, h.entries, h.cursor + n),
        ),
    decreases n,
{
    if n > 0 {
        lemma_redo_follows_states(start, h.redo(), (n - 1) as nat);
        assert(h.redo().cursor + (n - 1) as nat == h.cursor + n);
    }
}

/// From the state after `h.cursor` entries, `n` undos lead back to the
/// state after `h.cursor - n` entries, where the undo of each entry on the
/// way is exact.
pub proof fn lemma_undo_follows_states(start: GridView, h: UndoView, n: nat)
    requires
        h.cursor <= h.entries.len(),
        n <= h.cursor,
        forall|j: int| h.cursor - n <= j < h.cursor ==> undo_is_exact(start, h.entries, j),
    ensures
        undo_n(h, state_at(start, h.entries, h.cursor), n) == (
            UndoView { cursor: (h.cursor - n) as nat, ..h },
            state_at(start, h.entries, (h.cursor - n) as nat),
        ),
    decreases n,
{
    if n == 0 {
        assert(h == UndoView { cursor: (h.cursor - n) as nat, ..h });
    } else {
        assert(undo_is_exact(start, h.entries, h.cursor - 1));
        lemma_undo_follows_states(start, h.undo(), (n - 1) as nat);
    }
}

/// Undo `n` times, redo `n` times: history and canvas are as they were,
/// given that each single step does its part.
///
/// The canvas is taken to be in the state that the applied entries lead to.
/// Every undone entry but the oldest has to be one whose undo is exact; for
/// the oldest it is enough that redoing it makes up for its undo.
pub proof fn lemma_undo_redo_round_trip(start: GridView, h: UndoView, n: nat)
    requires
        h.cursor <= h.entries.len(),
        n <= h.cursor,
        forall|j: int| h.cursor - n < j < h.cursor ==> undo_is_exact(start, h.entries, j),
        n > 0 ==> redo_restores(start, h.entries, h.cursor - n),
    ensures
        round_trips(start, h, n),
    decreases n,
{
    let canvas = state_at(start, h.entries, h.cursor);
    if n == 0 {
        assert(h == UndoView { cursor: (h.cursor - n) as nat, ..h });
    } else {
        let back = h.undo();
        let stepped = h.undo_canvas(canvas);
        assert(stepped == stepped_back(start, h.entries, h.cursor - 1));
        assert(back.redo() == h);
        if n == 1 {
            assert(undo_n(back, stepped, 0) == (back, stepped));
            assert(back.redo_canvas(stepped) == canvas);
            assert(redo_n(h, canvas, 0) == (h, canvas));
        } else {
            assert(undo_is_exact(start, h.entries, h.cursor - 1));
            lemma_undo_redo_round_trip(start, back, (n - 1) as nat);
            let low = undo_n(back, stepped, (n - 1) as nat);
            assert(undo_n(h, canvas, n) == low);
            lemma_redo_n_split(low.0, low.1, (n - 1) as nat, 1);
            assert(redo_n(back, stepped, 1) == redo_n(h, canvas, 0));
            assert(redo_n(h, canvas, 0) == (h, canvas));
        }
    }
}

/// One of `coords` is the cell `(x, y)`.
pub open spec fn touches(coords: Seq<(usize, usize)>, x: int, y: int) -> bool {
    exists|k: int| 0 <= k < coords.len() && (#[trigger] coords[k]).0 == x && coords[k].1 == y
}

/// Every cell of the canvas that the stroke touches is transparent.
pub open spec fn clear_under(canvas: GridView, coords: Seq<(usize, usize)>) -> bool {
    forall|x: int, y: int|
        canvas.in_bounds(x, y) && touches(coords, x, y) ==> canvas.pixel(x, y) == transparent()
}

/// Every cell of the canvas outside the given size is transparent, so
/// that a resize to that size drops nothing.
pub open spec fn clear_outside(canvas: GridView, width: nat, height: nat) -> bool {
    forall|x: int, y: int|
        canvas.in_bounds(x, y) && !(x < width && y < height) ==> canvas.pixel(x, y)
            == transparent()
}

/// Entry `j` is one that undo can take back exactly.
///
/// A paint or a clear has to follow a paint, whose snapshot is then the
/// state to go back to; a paint that is the first entry has to have gone
/// over transparent cells only; a resize must not have dropped anything.
pub open spec fn reversible(start: GridView, entries: Seq<EntryView>, j: int) -> bool {
    match entries[j].action {
        ActionView::Paint(coords, _) => if j > 0 {
            entries[j - 1].action is Paint
        } else {
            clear_under(start, coords)
        },
        ActionView::Clear => j > 0 && entries[j - 1].action is Paint,
        ActionView::Resize(width, height) => clear_outside(
            state_at(start, entries, j as nat),
            width,
            height,
        ),
    }
}

/// Entry `j` is one that comes out the same when it is undone and redone,
/// whether or not the undo is exact.
///
/// Besides the reversible entries these are every resize, a clear that is
/// the first entry, and an opaque paint that is the first entry.
pub open spec fn repeatable(start: GridView, entries: Seq<EntryView>, j: int) -> bool {
    match entries[j].action {
        ActionView::Paint(coords, color) => if j > 0 {
            entries[j - 1].action is Paint
        } else {
            color[3] == 255 || clear_under(start, coords)
        },
        ActionView::Clear => j == 0 || entries[j - 1].action is Paint,
        ActionView::Resize(_, _) => true,
    }
}

/// Every state of a history that starts from a valid canvas is a valid
/// canvas.
pub proof fn lemma_state_at_wf(start: GridView, entries: Seq<EntryView>, n: nat)
    requires
        start.wf(),
        n <= entries.len(),
    ensures
        state_at(start, entries, n).wf(),
    decreases n,
{
    if n > 0 {
        lemma_state_at_wf(start, entries, (n - 1) as nat);
        let before = state_at(start, entries, (n - 1) as nat);
        match entries[n - 1].action {
            ActionView::Paint(coords, color) => {
                lemma_paint_all_wf(before, coords, color);
            },
            ActionView::Resize(width, height) => {
                lemma_resize_pixels(before, width, height);
            },
            ActionView::Clear => {},
        }
    }
}

/// Undoing a paint or a clear that follows a paint is exact: the paint
/// before it left a snapshot of the very state to go back to.
proof fn lemma_undo_after_paint_is_exact(start: GridView, entries: Seq<EntryView>, j: int)
    requires
        recorded(start, entries),
        0 < j < entries.len(),
        entries[j - 1].action is Paint,
        entries[j].action is Paint || entries[j].action is Clear,
    ensures
        undo_is_exact(start, entries, j),
{
    assert(entries[j - 1].snapshot == state_at(start, entries, j as nat));
}

/// Undoing a resize is exact where the resize dropped nothing: every pixel
/// outside the new bounds was transparent.
proof fn lemma_undo_resize_is_exact(start: GridView, entries: Seq<EntryView>, j: int)
    requires
        start.wf(),
        recorded(start, entries),
        0 <= j < entries.len(),
        entries[j].action is Resize,
        clear_outside(
            state_at(start, entries, j as nat),
            entries[j].action->Resize_0,
            entries[j].action->Resize_1,
        ),
    ensures
        undo_is_exact(start, entries, j),
{
    let before = state_at(start, entries, j as nat);
    let width = entries[j].action->Resize_0;
    let height = entries[j].action->Resize_1;
    let after = before.resize(width, height);
    lemma_state_at_wf(start, entries, j as nat);
    assert(entries[j].snapshot == before);
    assert(state_at(start, entries, (j + 1) as nat) == after);
    let back = after.resize(before.width, before.height);
    assert(stepped_back(start, entries, j) == back);
    lemma_resize_pixels(before, width, height);
    lemma_resize_pixels(after, before.width, before.height);
    assert forall|x: int, y: int| back.in_bounds(x, y) implies back.pixel(x, y) == before.pixel(
        x,
        y,
    ) by {
        assert(back.pixel(x, y) == after.pixel_or_transparent(x, y));
        if after.in_bounds(x, y) {
            assert(after.pixel(x, y) == before.pixel_or_transparent(x, y));
        }
    }
    lemma_same_pixels(back, before);
}

/// Undoing any resize and redoing it gives back the resized canvas, even
/// where the undo could not bring back what the resize had dropped.
proof fn lemma_resize_is_restored(start: GridView, entries: Seq<EntryView>, j: int)
    requires
        start.wf(),
        recorded(start, entries),
        0 <= j < entries.len(),
        entries[j].action is Resize,
    ensures
        redo_restores(start, entries, j),
{
    let before = state_at(start, entries, j as nat);
    let width = entries[j].action->Resize_0;
    let height = entries[j].action->Resize_1;
    let after = before.resize(width, height);
    lemma_state_at_wf(start, entries, j as nat);
    assert(entries[j].snapshot == before);
    assert(state_at(start, entries, (j + 1) as nat) == after);
    let back = after.resize(before.width, before.height);
    assert(stepped_back(start, entries, j) == back);
    let again = back.resize(width, height);
    lemma_resize_pixels(before, width, height);
    lemma_resize_pixels(after, before.width, before.height);
    lemma_resize_pixels(back, width, height);
    assert forall|x: int, y: int| again.in_bounds(x, y) implies again.pixel(x, y) == after.pixel(
        x,
        y,
    ) by {
        assert(again.pixel(x, y) == back.pixel_or_transparent(x, y));
        assert(after.pixel(x, y) == before.pixel_or_transparent(x, y));
        if back.in_bounds(x, y) {
            assert(back.pixel(x, y) == after.pixel_or_transparent(x, y));
        }
    }
    lemma_same_pixels(again, after);
}

/// A clear that is the first entry is stepped over by undo without a change
/// to the canvas, and clearing the cleared canvas again changes nothing.
proof fn lemma_first_clear_is_restored(start: GridView, entries: Seq<EntryView>)
    requires
        0 < entries.len(),
        entries[0].action is Clear,
    ensures
        redo_restores(start, entries, 0),
{
    let after = state_at(start, entries, 1);
    assert(state_at(start, entries, 0) == start);
    assert(after == start.clear());
    assert(stepped_back(start, entries, 0) == after);
    assert(after.clear().cells =~= after.cells);
}

/// A cell is touched by a stroke if it is the stroke's last cell or one of
/// those before it.
proof fn lemma_touches_last(coords: Seq<(usize, usize)>, x: int, y: int)
    requires
        coords.len() > 0,
    ensures
        touches(coords, x, y) <==> touches(coords.drop_last(), x, y) || (coords.last().0 == x
            && coords.last().1 == y),
{
    let front = coords.drop_last();
    let last = coords.last();
    if touches(front, x, y) {
        let k = choose|k: int|
            0 <= k < front.len() && (#[trigger] front[k]).0 == x && front[k].1 == y;
        assert(coords[k] == front[k]);
    }
    if last.0 == x && last.1 == y {
        assert(coords[coords.len() - 1] == last);
    }
    if touches(coords, x, y) {
        let k = choose|k: int|
            0 <= k < coords.len() && (#[trigger] coords[k]).0 == x && coords[k].1 == y;
        if k < front.len() {
            assert(front[k] == coords[k]);
        }
    }
}

/// Erasing makes the touched cells transparent and leaves the others.
pub proof fn lemma_erase_all_pixels(canvas: GridView, coords: Seq<(usize, usize)>)
    requires
        canvas.wf(),
    ensures
        forall|x: int, y: int|
            canvas.in_bounds(x, y) ==> #[trigger] erase_all(canvas, coords).pixel(x, y) == if touches(
                coords,
                x,
                y,
            ) {
                transparent()
            } else {
                canvas.pixel(x, y)
            },
    decreases coords.len(),
{
    if coords.len() > 0 {
        let front = coords.drop_last();
        let last = coords.last();
        let before = erase_all(canvas, front);
        lemma_erase_all_pixels(canvas, front);
        lemma_erase_all_wf(canvas, front);
        assert forall|x: int, y: int| canvas.in_bounds(x, y) implies #[trigger] erase_all(
            canvas,
            coords,
        ).pixel(x, y) == if touches(coords, x, y) {
            transparent()
        } else {
            canvas.pixel(x, y)
        } by {
            lemma_offset_in_range(canvas.width, canvas.height, x, y);
            if before.in_bounds(last.0 as int, last.1 as int) {
                lemma_offset_in_range(canvas.width, canvas.height, last.0 as int, last.1 as int);
            }
            lemma_touches_last(coords, x, y);
            assert(before.pixel(x, y) == if touches(front, x, y) {
                transparent()
            } else {
                canvas.pixel(x, y)
            });
        }
    }
}

/// Painting leaves the cells that are not touched, and an opaque colour
/// is what every touched cell then holds.
pub proof fn lemma_paint_all_pixels(canvas: GridView, coords: Seq<(usize, usize)>, color: [u8; 4])
    requires
        canvas.wf(),
    ensures
        forall|x: int, y: int|
            canvas.in_bounds(x, y) && !touches(coords, x, y) ==> #[trigger] paint_all(
                canvas,
                coords,
                color,
            ).pixel(x, y) == canvas.pixel(x, y),
        color[3] == 255 ==> forall|x: int, y: int|
            canvas.in_bounds(x, y) && touches(coords, x, y) ==> #[trigger] paint_all(
                canvas,
                coords,
                color,
            ).pixel(x, y) == color,
    decreases coords.len(),
{
    if coords.len() > 0 {
        let front = coords.drop_last();
        let last = coords.last();
        let before = paint_all(canvas, front, color);
        lemma_paint_all_pixels(canvas, front, color);
        lemma_paint_all_wf(canvas, front, color);
        assert forall|x: int, y: int| canvas.in_bounds(x, y) implies (!touches(coords, x, y)
            ==> #[trigger] paint_all(canvas, coords, color).pixel(x, y) == canvas.pixel(x, y)) && (
        color[3] == 255 && touches(coords, x, y) ==> paint_all(canvas, coords, color).pixel(x, y)
            == color) by {
            lemma_offset_in_range(canvas.width, canvas.height, x, y);
            if before.in_bounds(last.0 as int, last.1 as int) {
                lemma_offset_in_range(canvas.width, canvas.height, last.0 as int, last.1 as int);
            }
            lemma_touches_last(coords, x, y);
            if !touches(front, x, y) {
                assert(before.pixel(x, y) == canvas.pixel(x, y));
            }
            if color[3] == 255 && touches(front, x, y) {
                assert(before.pixel(x, y) == color);
            }
        }
    }
}

/// Undoing a paint that is the first entry is exact where the stroke went
/// over transparent cells only: erasing them gives back what was there.
proof fn lemma_undo_first_paint_is_exact(start: GridView, entries: Seq<EntryView>)
    requires
        start.wf(),
        0 < entries.len(),
        entries[0].action is Paint,
        clear_under(start, entries[0].action->Paint_0),
    ensures
        undo_is_exact(start, entries, 0),
{
    let coords = entries[0].action->Paint_0;
    let color = entries[0].action->Paint_1;
    let after = paint_all(start, coords, color);
    assert(state_at(start, entries, 0) == start);
    assert(state_at(start, entries, 1) == after);
    let back = erase_all(after, coords);
    assert(stepped_back(start, entries, 0) == back);
    lemma_paint_all_wf(start, coords, color);
    lemma_paint_all_pixels(start, coords, color);
    lemma_erase_all_wf(after, coords);
    lemma_erase_all_pixels(after, coords);
    assert forall|x: int, y: int| back.in_bounds(x, y) implies back.pixel(x, y) == start.pixel(
        x,
        y,
    ) by {
        assert(after.in_bounds(x, y));
        assert(back.pixel(x, y) == if touches(coords, x, y) {
            transparent()
        } else {
            after.pixel(x, y)
        });
    }
    lemma_same_pixels(back, start);
}

/// Undoing a paint that is the first entry and redoing it gives back the
/// painted canvas where the colour is opaque, whatever lay under it.
proof fn lemma_first_opaque_paint_is_restored(start: GridView, entries: Seq<EntryView>)
    requires
        start.wf(),
        0 < entries.len(),
        entries[0].action is Paint,
        (entries[0].action->Paint_1)[3] == 255,
    ensures
        redo_restores(start, entries, 0),
{
    let coords = entries[0].action->Paint_0;
    let color = entries[0].action->Paint_1;
    let after = paint_all(start, coords, color);
    assert(state_at(start, entries, 0) == start);
    assert(state_at(start, entries, 1) == after);
    let back = erase_all(after, coords);
    assert(stepped_back(start, entries, 0) == back);
    let again = paint_all(back, coords, color);
    lemma_paint_all_wf(start, coords, color);
    lemma_paint_all_pixels(start, coords, color);
    lemma_erase_all_wf(after, coords);
    lemma_erase_all_pixels(after, coords);
    lemma_paint_all_wf(back, coords, color);
    lemma_paint_all_pixels(back, coords, color);
    assert forall|x: int, y: int| again.in_bounds(x, y) implies again.pixel(x, y) == after.pixel(
        x,
        y,
    ) by {
        assert(after.in_bounds(x, y));
        assert(back.in_bounds(x, y));
        assert(back.pixel(x, y) == if touches(coords, x, y) {
            transparent()
        } else {
            after.pixel(x, y)
        });
    }
    lemma_same_pixels(again, after);
}

/// Undoing a reversible entry of a recorded history gives back the state
/// before it.
pub proof fn lemma_reversible_is_exact(start: GridView, entries: Seq<EntryView>, j: int)
    requires
        start.wf(),
        recorded(start, entries),
        0 <= j < entries.len(),
        reversible(start, entries, j),
    ensures
        undo_is_exact(start, entries, j),
{
    match entries[j].action {
        ActionView::Paint(_, _) => {
            if j > 0 {
                lemma_undo_after_paint_is_exact(start, entries, j);
            } else {
                lemma_undo_first_paint_is_exact(start, entries);
            }
        },
        ActionView::Clear => {
            lemma_undo_after_paint_is_exact(start, entries, j);
        },
        ActionView::Resize(_, _) => {
            lemma_undo_resize_is_exact(start, entries, j);
        },
    }
}

/// Undoing a repeatable entry of a recorded history and redoing it gives
/// back the state after it.
pub proof fn lemma_repeatable_is_restored(start: GridView, entries: Seq<EntryView>, j: int)
    requires
        start.wf(),
        recorded(start, entries),
        0 <= j < entries.len(),
        repeatable(start, entries, j),
    ensures
        redo_restores(start, entries, j),
{
    match entries[j].action {
        ActionView::Paint(coords, color) => {
            if j > 0 {
                lemma_undo_after_paint_is_exact(start, entries, j);
            } else if color[3] == 255 {
                lemma_first_opaque_paint_is_restored(start, entries);
            } else {
                lemma_undo_first_paint_is_exact(start, entries);
            }
        },
        ActionView::Clear => {
            if j > 0 {
                lemma_undo_after_paint_is_exact(start, entries, j);
            } else {
                lemma_first_clear_is_restored(start, entries);
            }
        },
        ActionView::Resize(_, _) => {
            lemma_resize_is_restored(start, entries, j);
        },
    }
}

/// A recorded history: undo `n` times, redo `n` times, and history and
/// canvas are as they were.
///
/// Every snapshot was taken when its action asks for it, and the canvas is
/// in the state that the applied entries lead to. The oldest entry undone
/// has to be repeatable and the others reversible. A paint that follows a
/// clear is neither: undone alone, it leaves the canvas as it was before
/// the clear, and the redo paints over that. Where the undos go on past such
/// an entry to a paint or a clear that follows a paint, the round trip
/// holds again: see `lemma_round_trip_onto_paint` and
/// `lemma_anchored_round_trip`.
pub proof fn lemma_recorded_round_trip(start: GridView, h: UndoView, n: nat)
    requires
        start.wf(),
        h.cursor <= h.entries.len(),
        n <= h.cursor,
        recorded(start, h.entries),
        forall|j: int| h.cursor - n < j < h.cursor ==> reversible(start, h.entries, j),
        n > 0 ==> repeatable(start, h.entries, h.cursor - n),
    ensures
        round_trips(start, h, n),
{
    assert forall|j: int| h.cursor - n < j < h.cursor implies undo_is_exact(start, h.entries, j) by {
        lemma_reversible_is_exact(start, h.entries, j);
    }
    if n > 0 {
        lemma_repeatable_is_restored(start, h.entries, h.cursor - n);
    }
    lemma_undo_redo_round_trip(start, h, n);
}

/// Undoing down to a paint or a clear that is not the first entry ends on
/// the snapshot of the entry before it, whatever the canvas was and
/// whatever the entries above it are: the last of these undos loads that
/// snapshot.
pub proof fn lemma_undo_lands_on_snapshot(h: UndoView, canvas: GridView, n: nat)
    requires
        h.cursor <= h.entries.len(),
        0 < n < h.cursor,
        h.entries[h.cursor - n].action is Paint || h.entries[h.cursor - n].action is Clear,
    ensures
        undo_n(h, canvas, n) == (
            UndoView { cursor: (h.cursor - n) as nat, ..h },
            h.entries[h.cursor - n - 1].snapshot,
        ),
    decreases n,
{
    let back = h.undo();
    let stepped = h.undo_canvas(canvas);
    if n == 1 {
        assert(undo_n(back, stepped, 0) == (back, stepped));
    } else {
        lemma_undo_lands_on_snapshot(back, stepped, (n - 1) as nat);
    }
}

/// Undoing down to a paint or a clear that follows a paint ends on the
/// state before it, whatever the canvas was and whatever the entries above
/// it are.
pub proof fn lemma_undo_lands_on_paint(start: GridView, h: UndoView, canvas: GridView, n: nat)
    requires
        h.cursor <= h.entries.len(),
        0 < n < h.cursor,
        recorded(start, h.entries),
        h.entries[h.cursor - n].action is Paint || h.entries[h.cursor - n].action is Clear,
        h.entries[h.cursor - n - 1].action is Paint,
    ensures
        undo_n(h, canvas, n) == (
            UndoView { cursor: (h.cursor - n) as nat, ..h },
            state_at(start, h.entries, (h.cursor - n) as nat),
        ),
{
    lemma_undo_lands_on_snapshot(h, canvas, n);
    assert(h.entries[h.cursor - n - 1].snapshot == state_at(
        start,
        h.entries,
        (h.cursor - n) as nat,
    ));
}

/// Undo `n` times down to a paint or a clear that is not the first entry,
/// redo `n` times, and history and canvas are as they were, given that
/// the oldest undone action turns the snapshot before it into the state
/// after it. Nothing is asked of the entries between, nor of how the
/// snapshots were taken.
pub proof fn lemma_round_trip_from_snapshot(start: GridView, h: UndoView, n: nat)
    requires
        h.cursor <= h.entries.len(),
        0 < n < h.cursor,
        h.entries[h.cursor - n].action is Paint || h.entries[h.cursor - n].action is Clear,
        h.entries[h.cursor - n].action.apply(h.entries[h.cursor - n - 1].snapshot) == state_at(
            start,
            h.entries,
            (h.cursor - n + 1) as nat,
        ),
    ensures
        round_trips(start, h, n),
{
    let canvas = state_at(start, h.entries, h.cursor);
    let low = UndoView { cursor: (h.cursor - n) as nat, ..h };
    let snapshot = h.entries[h.cursor - n - 1].snapshot;
    lemma_undo_lands_on_snapshot(h, canvas, n);
    let next = low.redo();
    assert(low.redo_canvas(snapshot) == state_at(start, h.entries, next.cursor));
    lemma_redo_follows_states(start, next, (n - 1) as nat);
    assert(UndoView { cursor: next.cursor + (n - 1) as nat, ..next } == h);
}

/// A recorded history: undo `n` times down to a paint or a clear that
/// follows a paint, redo `n` times, and history and canvas are as they
/// were. Nothing is asked of the entries between.
pub proof fn lemma_round_trip_onto_paint(start: GridView, h: UndoView, n: nat)
    requires
        h.cursor <= h.entries.len(),
        0 < n < h.cursor,
        recorded(start, h.entries),
        h.entries[h.cursor - n].action is Paint || h.entries[h.cursor - n].action is Clear,
        h.entries[h.cursor - n - 1].action is Paint,
    ensures
        round_trips(start, h, n),
{
    assert(h.entries[h.cursor - n - 1].snapshot == state_at(
        start,
        h.entries,
        (h.cursor - n) as nat,
    ));
    lemma_round_trip_from_snapshot(start, h, n);
}

/// A recorded history: undo `n` times down to a clear that follows a
/// clear, redo `n` times, and history and canvas are as they were. The
/// undos end on the canvas as it was before the earlier clear, and the
/// redo of the later clear makes up for that.
pub proof fn lemma_round_trip_onto_clear(start: GridView, h: UndoView, n: nat)
    requires
        h.cursor <= h.entries.len(),
        0 < n < h.cursor,
        recorded(start, h.entries),
        h.entries[h.cursor - n].action is Clear,
        h.entries[h.cursor - n - 1].action is Clear,
    ensures
        round_trips(start, h, n),
{
    let before = state_at(start, h.entries, (h.cursor - n - 1) as nat);
    assert(h.entries[h.cursor - n - 1].snapshot == before);
    assert(state_at(start, h.entries, (h.cursor - n) as nat) == before.clear());
    assert(state_at(start, h.entries, (h.cursor - n + 1) as nat) == before.clear().clear());
    assert(before.clear().clear().cells =~= before.clear().cells);
    lemma_round_trip_from_snapshot(start, h, n);
}

/// Undoing a paint or a clear and then the entry under it, where that is a
/// resize or a clear that is the first entry, ends on the state before
/// the two, whatever the entries above are.
///
/// The snapshot of such an entry was taken before it, so the undo of the
/// paint or clear above loads the very state to end on; the undo of a
/// resize then resizes that state to its own size, and the undo of a
/// first-entry clear leaves it alone.
pub proof fn lemma_undo_lands_under_snapshot(
    start: GridView,
    h: UndoView,
    canvas: GridView,
    n: nat,
)
    requires
        start.wf(),
        h.cursor <= h.entries.len(),
        2 <= n <= h.cursor,
        recorded(start, h.entries),
        h.entries[h.cursor - n + 1].action is Paint || h.entries[h.cursor - n + 1].action is Clear,
        h.entries[h.cursor - n].action is Resize || (h.entries[h.cursor - n].action is Clear
            && n == h.cursor),
    ensures
        undo_n(h, canvas, n) == (
            UndoView { cursor: (h.cursor - n) as nat, ..h },
            state_at(start, h.entries, (h.cursor - n) as nat),
        ),
{
    let under = (h.cursor - n) as nat;
    let before = state_at(start, h.entries, under);
    let mid = UndoView { cursor: under + 1, ..h };
    lemma_undo_lands_on_snapshot(h, canvas, (n - 1) as nat);
    lemma_undo_n_split(h, canvas, (n - 1) as nat, 1);
    assert(h.entries[under as int].snapshot == before);
    assert(undo_n(mid.undo(), mid.undo_canvas(before), 0) == (mid.undo(), mid.undo_canvas(before)));
    lemma_state_at_wf(start, h.entries, under);
    lemma_resize_same_size(before);
}

/// A recorded history: undo `n` times down to a resize, or to a clear that
/// is the first entry, with a paint or a clear right above it, redo `n`
/// times, and history and canvas are as they were. Nothing is asked of the
/// entries further up.
pub proof fn lemma_round_trip_under_snapshot(start: GridView, h: UndoView, n: nat)
    requires
        start.wf(),
        h.cursor <= h.entries.len(),
        2 <= n <= h.cursor,
        recorded(start, h.entries),
        h.entries[h.cursor - n + 1].action is Paint || h.entries[h.cursor - n + 1].action is Clear,
        h.entries[h.cursor - n].action is Resize || (h.entries[h.cursor - n].action is Clear
            && n == h.cursor),
    ensures
        round_trips(start, h, n),
{
    let low = UndoView { cursor: (h.cursor - n) as nat, ..h };
    lemma_undo_lands_under_snapshot(start, h, state_at(start, h.entries, h.cursor), n);
    lemma_redo_follows_states(start, low, n);
    assert(UndoView { cursor: low.cursor + n, ..low } == h);
}

/// Round trips add up: where the newest `free` undos end on the state
/// before the entries they step over, and the `n - free` undos that follow
/// round-trip from there, all `n` round-trip.
pub proof fn lemma_round_trips_compose(start: GridView, h: UndoView, n: nat, free: nat)
    requires
        h.cursor <= h.entries.len(),
        free <= n <= h.cursor,
        undo_n(h, state_at(start, h.entries, h.cursor), free) == (
            UndoView { cursor: (h.cursor - free) as nat, ..h },
            state_at(start, h.entries, (h.cursor - free) as nat),
        ),
        round_trips(start, UndoView { cursor: (h.cursor - free) as nat, ..h }, (n - free) as nat),
    ensures
        round_trips(start, h, n),
{
    let canvas = state_at(start, h.entries, h.cursor);
    let rest = (n - free) as nat;
    let mid = UndoView { cursor: (h.cursor - free) as nat, ..h };
    let mid_canvas = state_at(start, h.entries, mid.cursor);
    lemma_undo_n_split(h, canvas, free, rest);
    let undone = undo_n(h, canvas, n);
    assert(undone == undo_n(mid, mid_canvas, rest));
    lemma_redo_n_split(undone.0, undone.1, rest, free);
    lemma_redo_follows_states(start, mid, free);
    assert(UndoView { cursor: mid.cursor + free, ..mid } == h);
    assert(undone.0 == UndoView { cursor: (h.cursor - n) as nat, ..h });
}

/// A recorded history: undo `n` times, redo `n` times, and history and
/// canvas are as they were, where the newest `free` of the undone entries
/// may be any at all.
///
/// The undo of these `free` entries ends on a paint or a clear that follows
/// a paint, and so on the state before it. The older undone entries are
/// held to what `lemma_recorded_round_trip` asks.
pub proof fn lemma_anchored_round_trip(start: GridView, h: UndoView, n: nat, free: nat)
    requires
        start.wf(),
        h.cursor <= h.entries.len(),
        0 < free <= n <= h.cursor,
        free < h.cursor,
        recorded(start, h.entries),
        h.entries[h.cursor - free].action is Paint || h.entries[h.cursor - free].action is Clear,
        h.entries[h.cursor - free - 1].action is Paint,
        forall|j: int| h.cursor - n < j < h.cursor - free ==> reversible(start, h.entries, j),
        n > free ==> repeatable(start, h.entries, h.cursor - n),
    ensures
        round_trips(start, h, n),
{
    let mid = UndoView { cursor: (h.cursor - free) as nat, ..h };
    lemma_undo_lands_on_paint(start, h, state_at(start, h.entries, h.cursor), free);
    lemma_recorded_round_trip(start, mid, (n - free) as nat);
    lemma_round_trips_compose(start, h, n, free);
}

/// The cell `(x, y)` lies on the canvas in every state from `lo` to `hi`.
pub open spec fn inside_all(
    start: GridView,
    entries: Seq<EntryView>,
    lo: nat,
    hi: nat,
    x: int,
    y: int,
) -> bool {
    forall|i: nat| lo <= i <= hi ==> (#[trigger] state_at(start, entries, i)).in_bounds(x, y)
}

/// `canvas` is the state after `at` entries with every cell made
/// transparent that falls off the canvas somewhere between the states
/// `lo` and `hi`.
pub open spec fn masked(
    start: GridView,
    entries: Seq<EntryView>,
    lo: nat,
    hi: nat,
    at: nat,
    canvas: GridView,
) -> bool {
    let state = state_at(start, entries, at);
    &&& canvas.wf()
    &&& canvas.width == state.width
    &&& canvas.height == state.height
    &&& forall|x: int, y: int|
        state.in_bounds(x, y) ==> #[trigger] canvas.pixel(x, y) == if inside_all(
            start,
            entries,
            lo,
            hi,
            x,
            y,
        ) {
            state.pixel(x, y)
        } else {
            transparent()
        }
}

/// Every entry from `lo` up to `hi`, the latter left out, is a resize.
pub open spec fn all_resizes(entries: Seq<EntryView>, lo: nat, hi: nat) -> bool {
    forall|j: int| lo <= j < hi ==> (#[trigger] entries[j]).action is Resize
}

/// After resizes only, a cell that fell off the canvas on the way is
/// transparent.
proof fn lemma_dropped_cells_are_transparent(
    start: GridView,
    entries: Seq<EntryView>,
    lo: nat,
    hi: nat,
    x: int,
    y: int,
)
    requires
        lo <= hi <= entries.len(),
        all_resizes(entries, lo, hi),
        state_at(start, entries, hi).in_bounds(x, y),
        !inside_all(start, entries, lo, hi, x, y),
    ensures
        state_at(start, entries, hi).pixel(x, y) == transparent(),
    decreases hi - lo,
{
    if lo < hi {
        let below = state_at(start, entries, (hi - 1) as nat);
        assert(entries[hi - 1].action is Resize);
        lemma_resize_pixels(below, entries[hi - 1].action->Resize_0, entries[hi - 1].action->Resize_1);
        if below.in_bounds(x, y) {
            if inside_all(start, entries, lo, (hi - 1) as nat, x, y) {
                assert forall|i: nat| lo <= i <= hi implies (#[trigger] state_at(
                    start,
                    entries,
                    i,
                )).in_bounds(x, y) by {}
            }
            lemma_dropped_cells_are_transparent(start, entries, lo, (hi - 1) as nat, x, y);
        }
    }
}

/// Undoing a resize takes a masked state one entry down.
proof fn lemma_undo_resize_keeps_mask(
    start: GridView,
    h: UndoView,
    top: nat,
    canvas: GridView,
)
    requires
        start.wf(),
        0 < h.cursor <= top <= h.entries.len(),
        recorded(start, h.entries),
        h.entries[h.cursor - 1].action is Resize,
        masked(start, h.entries, h.cursor, top, h.cursor, canvas),
    ensures
        masked(
            start,
            h.entries,
            (h.cursor - 1) as nat,
            top,
            (h.cursor - 1) as nat,
            h.undo_canvas(canvas),
        ),
{
    let j = (h.cursor - 1) as nat;
    let below = state_at(start, h.entries, j);
    let above = state_at(start, h.entries, h.cursor);
    let back = h.undo_canvas(canvas);
    assert(h.entries[j as int].snapshot == below);
    assert(back == canvas.resize(below.width, below.height));
    lemma_state_at_wf(start, h.entries, j);
    lemma_resize_pixels(canvas, below.width, below.height);
    lemma_resize_pixels(
        below,
        h.entries[j as int].action->Resize_0,
        h.entries[j as int].action->Resize_1,
    );
    assert forall|x: int, y: int| below.in_bounds(x, y) implies #[trigger] back.pixel(x, y)
        == if inside_all(start, h.entries, j, top, x, y) {
        below.pixel(x, y)
    } else {
        transparent()
    } by {
        assert(back.pixel(x, y) == canvas.pixel_or_transparent(x, y));
        if inside_all(start, h.entries, j, top, x, y) {
            assert(state_at(start, h.entries, h.cursor).in_bounds(x, y));
            assert forall|i: nat| h.cursor <= i <= top implies (#[trigger] state_at(
                start,
                h.entries,
                i,
            )).in_bounds(x, y) by {}
            assert(above.pixel(x, y) == below.pixel_or_transparent(x, y));
        } else if above.in_bounds(x, y) {
            if inside_all(start, h.entries, h.cursor, top, x, y) {
                assert forall|i: nat| j <= i <= top implies (#[trigger] state_at(
                    start,
                    h.entries,
                    i,
                )).in_bounds(x, y) by {}
            }
        }
    }
}

/// `canvas` is as good as the state after `at` entries for redoing the
/// resizes up to `top`: it agrees with the state on every cell that stays
/// on the canvas from `lo` to `top`, and the cells that fell off between
/// `lo` and `at` are transparent.
pub open spec fn agrees_inside(
    start: GridView,
    entries: Seq<EntryView>,
    lo: nat,
    top: nat,
    at: nat,
    canvas: GridView,
) -> bool {
    let state = state_at(start, entries, at);
    &&& canvas.wf()
    &&& canvas.width == state.width
    &&& canvas.height == state.height
    &&& forall|x: int, y: int|
        state.in_bounds(x, y) && inside_all(start, entries, lo, top, x, y)
            ==> #[trigger] canvas.pixel(x, y) == state.pixel(x, y)
    &&& forall|x: int, y: int|
        state.in_bounds(x, y) && !inside_all(start, entries, lo, at, x, y)
            ==> #[trigger] canvas.pixel(x, y) == transparent()
}

/// Redoing a resize takes a canvas that is as good as the state one entry
/// up.
proof fn lemma_redo_resize_keeps_agreement(
    start: GridView,
    h: UndoView,
    lo: nat,
    top: nat,
    canvas: GridView,
)
    requires
        lo <= h.cursor < top <= h.entries.len(),
        h.entries[h.cursor as int].action is Resize,
        agrees_inside(start, h.entries, lo, top, h.cursor, canvas),
    ensures
        agrees_inside(start, h.entries, lo, top, h.cursor + 1, h.redo_canvas(canvas)),
{
    let below = state_at(start, h.entries, h.cursor);
    let above = state_at(start, h.entries, h.cursor + 1);
    let width = h.entries[h.cursor as int].action->Resize_0;
    let height = h.entries[h.cursor as int].action->Resize_1;
    let next = h.redo_canvas(canvas);
    assert(next == canvas.resize(width, height));
    assert(above == below.resize(width, height));
    lemma_resize_pixels(canvas, width, height);
    lemma_resize_pixels(below, width, height);
    assert forall|x: int, y: int|
        above.in_bounds(x, y) && inside_all(start, h.entries, lo, top, x, y) implies #[trigger] next.pixel(
        x,
        y,
    ) == above.pixel(x, y) by {
        assert(next.pixel(x, y) == canvas.pixel_or_transparent(x, y));
        assert(above.pixel(x, y) == below.pixel_or_transparent(x, y));
        assert(state_at(start, h.entries, h.cursor).in_bounds(x, y));
    }
    assert forall|x: int, y: int|
        above.in_bounds(x, y) && !inside_all(
            start,
            h.entries,
            lo,
            h.cursor + 1,
            x,
            y,
        ) implies #[trigger] next.pixel(x, y) == transparent() by {
        assert(next.pixel(x, y) == canvas.pixel_or_transparent(x, y));
        if below.in_bounds(x, y) {
            if inside_all(start, h.entries, lo, h.cursor, x, y) {
                assert forall|i: nat| lo <= i <= h.cursor + 1 implies (#[trigger] state_at(
                    start,
                    h.entries,
                    i,
                )).in_bounds(x, y) by {}
            }
        }
    }
}

/// Undoing resizes only takes a masked state down by as many entries.
proof fn lemma_undo_resizes_keep_mask(
    start: GridView,
    h: UndoView,
    top: nat,
    canvas: GridView,
    n: nat,
)
    requires
        start.wf(),
        n <= h.cursor <= top <= h.entries.len(),
        recorded(start, h.entries),
        all_resizes(h.entries, (h.cursor - n) as nat, h.cursor),
        masked(start, h.entries, h.cursor, top, h.cursor, canvas),
    ensures
        undo_n(h, canvas, n).0 == (UndoView { cursor: (h.cursor - n) as nat, ..h }),
        masked(
            start,
            h.entries,
            (h.cursor - n) as nat,
            top,
            (h.cursor - n) as nat,
            undo_n(h, canvas, n).1,
        ),
    decreases n,
{
    if n == 0 {
        assert(h == UndoView { cursor: (h.cursor - n) as nat, ..h });
    } else {
        assert(h.entries[h.cursor - 1].action is Resize);
        lemma_undo_resize_keeps_mask(start, h, top, canvas);
        lemma_undo_resizes_keep_mask(start, h.undo(), top, h.undo_canvas(canvas), (n - 1) as nat);
    }
}

/// Redoing resizes only takes a canvas that is as good as the state up by
/// as many entries.
proof fn lemma_redo_resizes_keep_agreement(
    start: GridView,
    h: UndoView,
    lo: nat,
    top: nat,
    canvas: GridView,
    n: nat,
)
    requires
        lo <= h.cursor,
        h.cursor + n <= top <= h.entries.len(),
        all_resizes(h.entries, h.cursor, h.cursor + n),
        agrees_inside(start, h.entries, lo, top, h.cursor, canvas),
    ensures
        redo_n(h, canvas, n).0 == (UndoView { cursor: h.cursor + n, ..h }),
        agrees_inside(start, h.entries, lo, top, h.cursor + n, redo_n(h, canvas, n).1),
    decreases n,
{
    if n == 0 {
        assert(h == UndoView { cursor: h.cursor + n, ..h });
    } else {
        assert(h.entries[h.cursor as int].action is Resize);
        lemma_redo_resize_keeps_agreement(start, h, lo, top, canvas);
        lemma_redo_resizes_keep_agreement(
            start,
            h.redo(),
            lo,
            top,
            h.redo_canvas(canvas),
            (n - 1) as nat,
        );
        assert(h.redo().cursor + (n - 1) as nat == h.cursor + n);
    }
}

/// After resizes only, a canvas that is as good as the state is the state.
proof fn lemma_agreement_at_the_top(
    start: GridView,
    entries: Seq<EntryView>,
    lo: nat,
    top: nat,
    canvas: GridView,
)
    requires
        start.wf(),
        lo <= top <= entries.len(),
        all_resizes(entries, lo, top),
        agrees_inside(start, entries, lo, top, top, canvas),
    ensures
        canvas == state_at(start, entries, top),
{
    let state = state_at(start, entries, top);
    lemma_state_at_wf(start, entries, top);
    assert forall|x: int, y: int| canvas.in_bounds(x, y) implies canvas.pixel(x, y) == state.pixel(
        x,
        y,
    ) by {
        if !inside_all(start, entries, lo, top, x, y) {
            lemma_dropped_cells_are_transparent(start, entries, lo, top, x, y);
        }
    }
    lemma_same_pixels(canvas, state);
}

/// A recorded history: undo `n` resizes, redo them, and history and canvas
/// are as they were, whatever the resizes dropped. What a resize drops is
/// not brought back by its undo, but it is dropped again by its redo.
pub proof fn lemma_resizes_round_trip(start: GridView, h: UndoView, n: nat)
    requires
        start.wf(),
        h.cursor <= h.entries.len(),
        n <= h.cursor,
        recorded(start, h.entries),
        all_resizes(h.entries, (h.cursor - n) as nat, h.cursor),
    ensures
        round_trips(start, h, n),
{
    let top = h.cursor;
    let lo = (h.cursor - n) as nat;
    let canvas = state_at(start, h.entries, top);
    lemma_state_at_wf(start, h.entries, top);
    assert(masked(start, h.entries, top, top, top, canvas));
    lemma_undo_resizes_keep_mask(start, h, top, canvas, n);
    let undone = undo_n(h, canvas, n);
    assert(agrees_inside(start, h.entries, lo, top, lo, undone.1));
    lemma_redo_resizes_keep_agreement(start, undone.0, lo, top, undone.1, n);
    let redone = redo_n(undone.0, undone.1, n);
    assert(redone.0 == h);
    lemma_agreement_at_the_top(start, h.entries, lo, top, redone.1);
}

/// What a stroke makes of a cell depends on that cell alone.
proof fn lemma_paint_all_is_local(
    a: GridView,
    b: GridView,
    coords: Seq<(usize, usize)>,
    color: [u8; 4],
    x: int,
    y: int,
)
    requires
        a.wf(),
        b.wf(),
        a.width == b.width,
        a.height == b.height,
        a.in_bounds(x, y),
        a.pixel(x, y) == b.pixel(x, y),
    ensures
        paint_all(a, coords, color).pixel(x, y) == paint_all(b, coords, color).pixel(x, y),
    decreases coords.len(),
{
    if coords.len() > 0 {
        let front = coords.drop_last();
        let last = coords.last();
        lemma_paint_all_is_local(a, b, front, color, x, y);
        lemma_paint_all_wf(a, front, color);
        lemma_paint_all_wf(b, front, color);
        lemma_offset_in_range(a.width, a.height, x, y);
        if a.in_bounds(last.0 as int, last.1 as int) {
            lemma_offset_in_range(a.width, a.height, last.0 as int, last.1 as int);
        }
    }
}

/// A recorded history of a paint or a clear and then resizes only: undo
/// all of it, redo all of it, and history and canvas are as they were,
/// whatever the resizes dropped.
///
/// The first entry has to be repeatable: a clear, an opaque paint, or a
/// paint that went over transparent cells only.
pub proof fn lemma_round_trip_to_the_start(start: GridView, h: UndoView)
    requires
        start.wf(),
        0 < h.cursor <= h.entries.len(),
        recorded(start, h.entries),
        h.entries[0].action is Paint || h.entries[0].action is Clear,
        repeatable(start, h.entries, 0),
        all_resizes(h.entries, 1, h.cursor),
    ensures
        round_trips(start, h, h.cursor),
{
    let top = h.cursor;
    let entries = h.entries;
    let canvas = state_at(start, entries, top);
    let first = state_at(start, entries, 1);
    let resizes = (top - 1) as nat;
    let h1 = UndoView { cursor: 1, ..h };
    let h0 = UndoView { cursor: 0, ..h };
    assert(state_at(start, entries, 0) == start);
    assert(first == entries[0].action.apply(start));
    lemma_state_at_wf(start, entries, top);
    lemma_state_at_wf(start, entries, 1);

    // down the resizes, then over the first entry
    assert(masked(start, entries, top, top, top, canvas));
    lemma_undo_resizes_keep_mask(start, h, top, canvas, resizes);
    let u1 = undo_n(h, canvas, resizes).1;
    lemma_undo_n_split(h, canvas, resizes, 1);
    let u0 = h1.undo_canvas(u1);
    assert(h1.undo() == h0);
    assert(undo_n(h0, u0, 0) == (h0, u0));
    assert(undo_n(h, canvas, top) == (h0, u0));

    // and up again
    let r1 = entries[0].action.apply(u0);
    assert(h0.redo() == h1);
    assert(h0.redo_canvas(u0) == r1);
    lemma_redo_n_split(h0, u0, 1, resizes);
    assert(redo_n(h1, r1, 0) == (h1, r1));
    assert(redo_n(h0, u0, 1) == (h1, r1));

    match entries[0].action {
        ActionView::Paint(coords, color) => {
            lemma_erase_all_wf(u1, coords);
            lemma_erase_all_pixels(u1, coords);
            lemma_paint_all_wf(u0, coords, color);
            lemma_paint_all_pixels(u0, coords, color);
            lemma_paint_all_wf(start, coords, color);
            lemma_paint_all_pixels(start, coords, color);
            assert forall|x: int, y: int|
                first.in_bounds(x, y) && inside_all(start, entries, 1, top, x, y) implies #[trigger] r1.pixel(
                x,
                y,
            ) == first.pixel(x, y) by {
                assert(u1.pixel(x, y) == first.pixel(x, y));
                assert(u0.pixel(x, y) == if touches(coords, x, y) {
                    transparent()
                } else {
                    u1.pixel(x, y)
                });
                if touches(coords, x, y) && color[3] != 255 {
                    assert(start.pixel(x, y) == transparent());
                    lemma_paint_all_is_local(u0, start, coords, color, x, y);
                }
            }
        },
        ActionView::Clear => {
            assert forall|x: int, y: int|
                first.in_bounds(x, y) && inside_all(start, entries, 1, top, x, y) implies #[trigger] r1.pixel(
                x,
                y,
            ) == first.pixel(x, y) by {
                lemma_offset_in_range(first.width, first.height, x, y);
            }
        },
        ActionView::Resize(_, _) => {},
    }
    assert forall|x: int, y: int| first.in_bounds(x, y) implies inside_all(
        start,
        entries,
        1,
        1,
        x,
        y,
    ) by {}
    assert(agrees_inside(start, entries, 1, top, 1, r1));
    lemma_redo_resizes_keep_agreement(start, h1, 1, top, r1, resizes);
    let redone = redo_n(h1, r1, resizes);
    lemma_agreement_at_the_top(start, entries, 1, top, redone.1);
    assert(redone.0 == h);
    assert(redo_n(h0, u0, top) == (h, canvas));
}

/// Once an action is pushed, nothing is left to redo: the entries that an
/// undo had stepped back over are gone.
pub proof fn lemma_push_discards_redo(h: UndoView, action: ActionView, snapshot: GridView)
    requires
        h.cursor <= h.entries.len(),
    ensures
        ({
            let pushed = h.undo().push(action, snapshot);
            &&& pushed.redone() is None
            &&& pushed.redo() == pushed
            &&& forall|canvas: GridView| pushed.redo_canvas(canvas) == canvas
            &&& pushed.cursor == pushed.entries.len()
            &&& pushed.entries == h.entries.take(h.undo().cursor as int).push(
                EntryView { snapshot, action },
            )
        }),
{
}

} // verus!
