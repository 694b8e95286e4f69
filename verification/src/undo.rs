//! Linear undo/redo history over a canvas.
//!
//! The history keeps one entry per user action: a snapshot of the canvas and
//! the action itself. The caller decides when the snapshot is taken. A
//! `Paint` is pushed after the stroke has been applied, so its snapshot is
//! the state after it; `Resize` and `Clear` are pushed before the canvas is
//! changed, so their snapshots are the state before. Undo and redo are written
//! against that convention and do not check it.

use vstd::prelude::*;
use vstd::string::*;
use crate::grid::{Grid, GridView, size_fits};

verus! {

/// Something the user did to the canvas.
pub enum Action {
    /// One stroke: the cells it touched, in order, and its colour.
    Paint(Vec<(usize, usize)>, [u8; 4]),
    /// A resize to the given width and height.
    Resize(usize, usize),
    Clear,
}

/// The decimal digit for a value below 10.
pub open spec fn decimal_digit(d: int) -> char {
    ('0' as int + d) as char
}

/// A number in decimal, without leading zeros.
pub open spec fn decimal(n: nat) -> Seq<char>
    decreases n,
{
    if n < 10 {
        seq![decimal_digit(n as int)]
    } else {
        decimal(n / 10).push(decimal_digit(n as int % 10))
    }
}

/// Mathematical model of an action.
pub enum ActionView {
    Paint(Seq<(usize, usize)>, [u8; 4]),
    Resize(nat, nat),
    Clear,
}

impl ActionView {
    /// A resize has to name a size that memory holds.
    pub open spec fn wf(self) -> bool {
        match self {
            ActionView::Resize(width, height) => size_fits(width, height),
            _ => true,
        }
    }

    /// The canvas after the action is carried out on `canvas`.
    pub open spec fn apply(self, canvas: GridView) -> GridView {
        match self {
            ActionView::Paint(coords, color) => paint_all(canvas, coords, color),
            ActionView::Resize(width, height) => canvas.resize(width, height),
            ActionView::Clear => canvas.clear(),
        }
    }

    /// The action in words, as shown to the user.
    pub open spec fn description(self) -> Seq<char> {
        match self {
            ActionView::Paint(coords, _) => "paint "@ + decimal(coords.len()) + " cells"@,
            ActionView::Resize(width, height) => "resize to "@ + decimal(width) + "x"@ + decimal(
                height,
            ),
            ActionView::Clear => "clear"@,
        }
    }
}

impl View for Action {
    type V = ActionView;

    open spec fn view(&self) -> ActionView {
        match self {
            Action::Paint(coords, color) => ActionView::Paint(coords@, *color),
            Action::Resize(width, height) => ActionView::Resize(*width as nat, *height as nat),
            Action::Clear => ActionView::Clear,
        }
    }
}

fn decimal_digit_str(d: usize) -> (s: &'static str)
    requires
        d < 10,
    ensures
        s@ == seq![decimal_digit(d as int)],
{
    proof {
        reveal_strlit("0");
        reveal_strlit("1");
        reveal_strlit("2");
        reveal_strlit("3");
        reveal_strlit("4");
        reveal_strlit("5");
        reveal_strlit("6");
        reveal_strlit("7");
        reveal_strlit("8");
        reveal_strlit("9");
    }
    let s = match d {
        0 => "0",
        1 => "1",
        2 => "2",
        3 => "3",
        4 => "4",
        5 => "5",
        6 => "6",
        7 => "7",
        8 => "8",
        _ => "9",
    };
    assert(s@ =~= seq![decimal_digit(d as int)]);
    s
}

fn push_decimal(out: &mut String, n: usize)
    ensures
        final(out)@ == old(out)@ + decimal(n as nat),
    decreases n,
{
    if n >= 10 {
        push_decimal(out, n / 10);
    }
    out.append(decimal_digit_str(n % 10));
    assert(out@ =~= old(out)@ + decimal(n as nat));
}

impl Action {
    pub open spec fn wf(&self) -> bool {
        self@.wf()
    }

    /// Whether the action can be recorded: a resize has to name a size
    /// that memory holds.
    pub fn is_wf(&self) -> (ok: bool)
        ensures
            ok == self.wf(),
    {
        match self {
            Action::Resize(width, height) => Grid::can_hold(*width, *height),
            _ => true,
        }
    }

    /// The action in words: `paint 3 cells`, `resize to 8x8`, `clear`.
    pub fn describe(&self) -> (text: String)
        ensures
            text@ == self@.description(),
    {
        let mut out = String::new();
        match self {
            Action::Paint(coords, _) => {
                out.append("paint ");
                push_decimal(&mut out, coords.len());
                out.append(" cells");
                assert(out@ =~= self@.description());
            },
            Action::Resize(width, height) => {
                out.append("resize to ");
                push_decimal(&mut out, *width);
                out.append("x");
                push_decimal(&mut out, *height);
                assert(out@ =~= self@.description());
            },
            Action::Clear => {
                out.append("clear");
                assert(out@ =~= self@.description());
            },
        }
        out
    }
}

/// The canvas after `color` has been painted at each of `coords` in turn.
pub open spec fn paint_all(canvas: GridView, coords: Seq<(usize, usize)>, color: [u8; 4]) -> GridView
    decreases coords.len(),
{
    if coords.len() == 0 {
        canvas
    } else {
        let last = coords.last();
        paint_all(canvas, coords.drop_last(), color).set(last.0 as int, last.1 as int, color)
    }
}

/// The canvas after each of `coords` that lies inside it has been erased.
pub open spec fn erase_all(canvas: GridView, coords: Seq<(usize, usize)>) -> GridView
    decreases coords.len(),
{
    if coords.len() == 0 {
        canvas
    } else {
        let last = coords.last();
        let before = erase_all(canvas, coords.drop_last());
        if before.in_bounds(last.0 as int, last.1 as int) {
            before.erase(last.0 as int, last.1 as int)
        } else {
            before
        }
    }
}

/// Painting keeps the size and the invariant of a canvas.
pub proof fn lemma_paint_all_wf(canvas: GridView, coords: Seq<(usize, usize)>, color: [u8; 4])
    requires
        canvas.wf(),
    ensures
        paint_all(canvas, coords, color).wf(),
        paint_all(canvas, coords, color).width == canvas.width,
        paint_all(canvas, coords, color).height == canvas.height,
    decreases coords.len(),
{
    if coords.len() > 0 {
        lemma_paint_all_wf(canvas, coords.drop_last(), color);
        let before = paint_all(canvas, coords.drop_last(), color);
        let last = coords.last();
        if before.in_bounds(last.0 as int, last.1 as int) {
            crate::grid::lemma_offset_in_range(
                before.width,
                before.height,
                last.0 as int,
                last.1 as int,
            );
        }
    }
}

/// Erasing keeps the size and the invariant of a canvas.
pub proof fn lemma_erase_all_wf(canvas: GridView, coords: Seq<(usize, usize)>)
    requires
        canvas.wf(),
    ensures
        erase_all(canvas, coords).wf(),
        erase_all(canvas, coords).width == canvas.width,
        erase_all(canvas, coords).height == canvas.height,
    decreases coords.len(),
{
    if coords.len() > 0 {
        lemma_erase_all_wf(canvas, coords.drop_last());
        let before = erase_all(canvas, coords.drop_last());
        let last = coords.last();
        if before.in_bounds(last.0 as int, last.1 as int) {
            crate::grid::lemma_offset_in_range(
                before.width,
                before.height,
                last.0 as int,
                last.1 as int,
            );
        }
    }
}

/// One entry of the history.
pub struct EntryView {
    pub snapshot: GridView,
    pub action: ActionView,
}

/// Mathematical model of the history: its entries, oldest first, and the
/// number of them that are currently applied.
pub struct UndoView {
    pub entries: Seq<EntryView>,
    pub cursor: nat,
}

impl UndoView {
    pub open spec fn wf(self) -> bool {
        &&& self.cursor <= self.entries.len()
        &&& forall|i: int|
            0 <= i < self.entries.len() ==> (#[trigger] self.entries[i]).snapshot.wf()
                && self.entries[i].snapshot.fits() && self.entries[i].action.wf()
    }

    pub open spec fn empty() -> UndoView {
        UndoView { entries: Seq::empty(), cursor: 0 }
    }

    /// The history after `action` is recorded with `snapshot`: the entries
    /// past the cursor are dropped and the new one is appended.
    pub open spec fn push(self, action: ActionView, snapshot: GridView) -> UndoView {
        UndoView {
            entries: self.entries.take(self.cursor as int).push(EntryView { snapshot, action }),
            cursor: self.cursor + 1,
        }
    }

    /// The history after one undo.
    pub open spec fn undo(self) -> UndoView {
        if self.cursor == 0 {
            self
        } else {
            UndoView { cursor: (self.cursor - 1) as nat, ..self }
        }
    }

    /// The canvas after one undo.
    ///
    /// A paint or a clear is undone by going back to the snapshot of the
    /// entry before it. A paint that is the first entry has no such snapshot
    /// and is undone by erasing its cells; a clear that is the first entry
    /// leaves the canvas alone. A resize is undone by resizing to the size
    /// of its own snapshot.
    pub open spec fn undo_canvas(self, canvas: GridView) -> GridView {
        if self.cursor == 0 {
            canvas
        } else {
            let at = self.cursor - 1;
            match self.entries[at].action {
                ActionView::Paint(coords, _) => if at > 0 {
                    self.entries[at - 1].snapshot
                } else {
                    erase_all(canvas, coords)
                },
                ActionView::Resize(_, _) => canvas.resize(
                    self.entries[at].snapshot.width,
                    self.entries[at].snapshot.height,
                ),
                ActionView::Clear => if at > 0 {
                    self.entries[at - 1].snapshot
                } else {
                    canvas
                },
            }
        }
    }

    /// The action that one undo reports: the entry stepped back over,
    /// except that nothing is reported at the start of the history, nor for
    /// a clear that is the first entry.
    pub open spec fn undone(self) -> Option<ActionView> {
        if self.cursor == 0 {
            None
        } else if self.cursor == 1 && self.entries[0].action is Clear {
            None
        } else {
            Some(self.entries[self.cursor - 1].action)
        }
    }

    /// The history after one redo.
    pub open spec fn redo(self) -> UndoView {
        if self.cursor >= self.entries.len() {
            self
        } else {
            UndoView { cursor: self.cursor + 1, ..self }
        }
    }

    /// The canvas after one redo: the next entry's action carried out on it.
    pub open spec fn redo_canvas(self, canvas: GridView) -> GridView {
        if self.cursor >= self.entries.len() {
            canvas
        } else {
            self.entries[self.cursor as int].action.apply(canvas)
        }
    }

    /// The action that one redo reports.
    pub open spec fn redone(self) -> Option<ActionView> {
        if self.cursor >= self.entries.len() {
            None
        } else {
            Some(self.entries[self.cursor as int].action)
        }
    }
}

/// The undo/redo history.
pub struct Undo {
    stack: Vec<(Grid, Action)>,
    pointer: usize,
}

impl View for Undo {
    type V = UndoView;

    closed spec fn view(&self) -> UndoView {
        UndoView {
            entries: Seq::new(
                self.stack@.len(),
                |i: int| EntryView { snapshot: self.stack@[i].0@, action: self.stack@[i].1@ },
            ),
            cursor: self.pointer as nat,
        }
    }
}

impl Default for Undo {
    fn default() -> (res: Self)
        ensures
            res.wf(),
            res@ == UndoView::empty(),
    {
        let res = Undo { stack: Vec::new(), pointer: 0 };
        assert(res@.entries =~= Seq::empty());
        res
    }
}

impl Undo {
    /// The invariant of a history: the cursor lies within the entries, and
    /// every entry holds a valid snapshot and a valid action.
    pub open spec fn wf(&self) -> bool {
        self@.wf()
    }

    /// An empty history.
    pub fn new() -> (res: Self)
        ensures
            res.wf(),
            res@ == UndoView::empty(),
    {
        Undo::default()
    }

    /// Record `act` together with a copy of `grid`.
    ///
    /// Entries that were undone and not redone are discarded first.
    pub fn push(&mut self, act: Action, grid: &Grid)
        requires
            old(self).wf(),
            act.wf(),
            grid.wf(),
        ensures
            final(self).wf(),
            final(self)@ == old(self)@.push(act@, grid@),
            final(self)@.cursor == final(self)@.entries.len(),
            final(self)@.cursor == old(self)@.cursor + 1,
    {
        if self.pointer != self.stack.len() {
            self.stack.truncate(self.pointer);
        }
        self.stack.push((grid.clone(), act));
        assert(self.stack@.len() == self.stack.len());
        self.pointer += 1;
        proof {
            assert(self@.entries =~= old(self)@.push(act@, grid@).entries);
        }
    }

    /// Step back over the latest applied entry and restore `grid`.
    ///
    /// Returns the action that was undone, or `None` where there was nothing
    /// to undo. A clear that is the first entry is stepped over without
    /// touching the canvas, and `None` is returned for it too. Cells of a
    /// first-entry paint that lie outside the canvas are skipped.
    pub fn undo(&mut self, grid: &mut Grid) -> (r: Option<&Action>)
        requires
            old(self).wf(),
            old(grid).wf(),
        ensures
            final(self).wf(),
            final(grid).wf(),
            final(self)@ == old(self)@.undo(),
            final(grid)@ == old(self)@.undo_canvas(old(grid)@),
            match r {
                Some(act) => old(self)@.undone() == Some(act@),
                None => old(self)@.undone() is None,
            },
            old(self)@.cursor == 0 ==> r is None && final(self)@ == old(self)@ && final(grid)@
                == old(grid)@,
    {
        if self.pointer == 0 {
            return None;
        }
        self.pointer -= 1;
        let at = self.pointer;
        assert(self@.entries =~= old(self)@.entries);
        assert(self@.entries[at as int].snapshot.wf());
        let entry = &self.stack[at];
        match &entry.1 {
            Action::Paint(coords, _) => {
                if at > 0 {
                    assert(self@.entries[at - 1].snapshot.wf());
                    grid.replace(&self.stack[at - 1].0);
                } else {
                    let mut i: usize = 0;
                    while i < coords.len()
                        invariant
                            i <= coords@.len(),
                            grid.wf(),
                            grid@ == erase_all(old(grid)@, coords@.take(i as int)),
                        decreases coords@.len() - i,
                    {
                        let (x, y) = coords[i];
                        proof {
                            assert(coords@.take(i + 1).drop_last() =~= coords@.take(i as int));
                            assert(coords@.take(i + 1).last() == coords@[i as int]);
                        }
                        if x < grid.width && y < grid.height {
                            grid.erase(x, y);
                        }
                        i += 1;
                    }
                    assert(coords@.take(i as int) =~= coords@);
                }
            },
            Action::Resize(_, _) => {
                assert(entry.0.cells@.len() == entry.0.cells.len());
                grid.resize(entry.0.width, entry.0.height);
            },
            Action::Clear => {
                if at == 0 {
                    return None;
                }
                assert(self@.entries[at - 1].snapshot.wf());
                grid.replace(&self.stack[at - 1].0);
            },
        }
        Some(&entry.1)
    }

    /// Carry out the next entry's action on `grid` again.
    ///
    /// Returns the action that was redone, or `None` where every entry is
    /// applied already.
    pub fn redo(&mut self, grid: &mut Grid) -> (r: Option<&Action>)
        requires
            old(self).wf(),
            old(grid).wf(),
        ensures
            final(self).wf(),
            final(grid).wf(),
            final(self)@ == old(self)@.redo(),
            final(grid)@ == old(self)@.redo_canvas(old(grid)@),
            match r {
                Some(act) => old(self)@.redone() == Some(act@),
                None => old(self)@.redone() is None,
            },
            old(self)@.cursor == old(self)@.entries.len() ==> r is None && final(self)@ == old(
                self,
            )@ && final(grid)@ == old(grid)@,
    {
        if self.pointer == self.stack.len() {
            return None;
        }
        self.pointer += 1;
        let at = self.pointer - 1;
        assert(self@.entries =~= old(self)@.entries);
        assert(self@.entries[at as int].action.wf());
        let entry = &self.stack[at];
        match &entry.1 {
            Action::Paint(coords, color) => {
                let mut i: usize = 0;
                while i < coords.len()
                    invariant
                        i <= coords@.len(),
                        grid.wf(),
                        grid@ == paint_all(old(grid)@, coords@.take(i as int), *color),
                    decreases coords@.len() - i,
                {
                    let (x, y) = coords[i];
                    proof {
                        assert(coords@.take(i + 1).drop_last() =~= coords@.take(i as int));
                        assert(coords@.take(i + 1).last() == coords@[i as int]);
                    }
                    grid.set(x, y, *color);
                    i += 1;
                }
                assert(coords@.take(i as int) =~= coords@);
            },
            Action::Resize(w, h) => {
                grid.resize(*w, *h);
            },
            Action::Clear => {
                grid.clear();
            },
        }
        Some(&entry.1)
    }

    /// Forget every entry.
    pub fn clear(&mut self)
        ensures
            final(self).wf(),
            final(self)@ == UndoView::empty(),
    {
        *self = Undo::default();
    }
}

} // verus!
