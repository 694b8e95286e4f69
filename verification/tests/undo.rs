use cysprite::grid::Grid;
use cysprite::undo::{Action, Undo};

const NONE: [u8; 4] = [0, 0, 0, 0];
const RED: [u8; 4] = [255, 0, 0, 255];
const BLUE: [u8; 4] = [0, 0, 255, 255];
const HAZE: [u8; 4] = [200, 200, 200, 128];

/// Paints a stroke on the canvas and records it afterwards, as the
/// history expects of a paint.
fn stroke(history: &mut Undo, grid: &mut Grid, cells: &[(usize, usize)], color: [u8; 4]) {
    for &(x, y) in cells {
        grid.set(x, y, color);
    }
    history.push(Action::Paint(cells.to_vec(), color), grid);
}

/// Records a clear first and carries it out afterwards.
fn wipe(history: &mut Undo, grid: &mut Grid) {
    history.push(Action::Clear, grid);
    grid.clear();
}

/// Records a resize first and carries it out afterwards.
fn scale(history: &mut Undo, grid: &mut Grid, width: usize, height: usize) {
    history.push(Action::Resize(width, height), grid);
    grid.resize(width, height);
}

fn same(a: &Grid, b: &Grid) -> bool {
    a.width == b.width && a.height == b.height && a.cells == b.cells
}

#[test]
fn undo_on_empty_history_does_nothing() {
    let mut history = Undo::new();
    let mut grid = Grid::new(2, 2);
    grid.set(1, 1, RED);
    let before = grid.clone();
    assert!(history.undo(&mut grid).is_none());
    assert!(same(&grid, &before));
    assert!(history.redo(&mut grid).is_none());
    assert!(same(&grid, &before));
}

#[test]
fn redo_with_nothing_undone_does_nothing() {
    let mut history = Undo::new();
    let mut grid = Grid::new(2, 2);
    stroke(&mut history, &mut grid, &[(0, 0)], RED);
    let before = grid.clone();
    assert!(history.redo(&mut grid).is_none());
    assert!(same(&grid, &before));
    // the entry is still there to undo
    assert!(matches!(history.undo(&mut grid), Some(Action::Paint(_, _))));
}

#[test]
fn undo_reports_the_action() {
    let mut history = Undo::new();
    let mut grid = Grid::new(4, 4);
    stroke(&mut history, &mut grid, &[(0, 0), (1, 0)], RED);
    scale(&mut history, &mut grid, 5, 6);
    match history.undo(&mut grid) {
        Some(Action::Resize(w, h)) => assert_eq!((*w, *h), (5, 6)),
        _ => panic!("the resize was the latest entry"),
    }
    match history.undo(&mut grid) {
        Some(Action::Paint(cells, color)) => {
            assert_eq!(cells, &vec![(0, 0), (1, 0)]);
            assert_eq!(*color, RED);
        }
        _ => panic!("the paint was the entry before"),
    }
    assert!(history.undo(&mut grid).is_none());
    match history.redo(&mut grid) {
        Some(Action::Paint(cells, _)) => assert_eq!(cells.len(), 2),
        _ => panic!("the paint is the first to redo"),
    }
    assert!(matches!(history.redo(&mut grid), Some(Action::Resize(5, 6))));
    assert!(history.redo(&mut grid).is_none());
}

#[test]
fn strokes_round_trip() {
    let mut history = Undo::new();
    let mut grid = Grid::new(4, 4);
    stroke(&mut history, &mut grid, &[(0, 0), (1, 0)], RED);
    let after_first = grid.clone();
    stroke(&mut history, &mut grid, &[(1, 0), (2, 2)], HAZE);
    let after_second = grid.clone();
    stroke(&mut history, &mut grid, &[(3, 3)], BLUE);
    let after_third = grid.clone();

    for n in 0..=3 {
        for _ in 0..n {
            assert!(history.undo(&mut grid).is_some());
        }
        let expected = match n {
            0 => &after_third,
            1 => &after_second,
            2 => &after_first,
            _ => &Grid::new(4, 4),
        };
        assert!(same(&grid, expected));
        for _ in 0..n {
            assert!(history.redo(&mut grid).is_some());
        }
        assert!(same(&grid, &after_third));
    }
    // blended exactly as the first time
    assert_eq!(after_second.get(1, 0), [227, 100, 100, 255]);
    assert_eq!(after_second.get(2, 2), [100, 100, 100, 128]);
}

#[test]
fn first_paint_is_undone_by_erasing_its_cells() {
    let mut history = Undo::new();
    let mut grid = Grid::new(3, 1);
    grid.set(0, 0, BLUE);
    grid.set(2, 0, BLUE);
    stroke(&mut history, &mut grid, &[(0, 0), (1, 0)], RED);
    assert!(history.undo(&mut grid).is_some());
    // what lay under the stroke is not brought back
    assert_eq!(grid.cells, vec![NONE, NONE, BLUE]);
    assert!(history.redo(&mut grid).is_some());
    assert_eq!(grid.cells, vec![RED, RED, BLUE]);
}

#[test]
fn cells_outside_the_canvas_are_skipped() {
    let mut history = Undo::new();
    let mut grid = Grid::new(2, 2);
    stroke(&mut history, &mut grid, &[(1, 1), (2, 0), (0, 2), (9, 9)], RED);
    assert_eq!(grid.cells, vec![NONE, NONE, NONE, RED]);
    assert!(history.undo(&mut grid).is_some());
    assert_eq!(grid.cells, vec![NONE; 4]);
    assert!(history.redo(&mut grid).is_some());
    assert_eq!(grid.cells, vec![NONE, NONE, NONE, RED]);
}

#[test]
fn later_paint_is_undone_by_the_snapshot_before() {
    let mut history = Undo::new();
    let mut grid = Grid::new(2, 1);
    stroke(&mut history, &mut grid, &[(0, 0)], RED);
    stroke(&mut history, &mut grid, &[(0, 0), (1, 0)], BLUE);
    // the canvas is replaced as a whole, whatever happened to it since
    grid.resize(5, 5);
    assert!(history.undo(&mut grid).is_some());
    assert_eq!((grid.width, grid.height), (2, 1));
    assert_eq!(grid.cells, vec![RED, NONE]);
}

#[test]
fn first_clear_is_stepped_over_in_silence() {
    let mut history = Undo::new();
    let mut grid = Grid::new(2, 1);
    grid.set(0, 0, RED);
    wipe(&mut history, &mut grid);
    assert!(history.undo(&mut grid).is_none());
    assert_eq!(grid.cells, vec![NONE, NONE]);
    // the cursor has moved all the same: the clear can be redone
    assert!(matches!(history.redo(&mut grid), Some(Action::Clear)));
    assert_eq!(grid.cells, vec![NONE, NONE]);
    assert!(history.redo(&mut grid).is_none());
}

#[test]
fn clear_is_undone_by_the_snapshot_before_not_its_own() {
    let mut history = Undo::new();
    let mut grid = Grid::new(2, 1);
    stroke(&mut history, &mut grid, &[(0, 0)], RED);
    // painted without a record, so the clear's own snapshot differs
    grid.set(1, 0, BLUE);
    wipe(&mut history, &mut grid);
    assert!(matches!(history.undo(&mut grid), Some(Action::Clear)));
    assert_eq!(grid.cells, vec![RED, NONE]);
    assert!(matches!(history.redo(&mut grid), Some(Action::Clear)));
    assert_eq!(grid.cells, vec![NONE, NONE]);
}

#[test]
fn paint_after_clear_is_undone_to_the_state_before_the_clear() {
    let mut history = Undo::new();
    let mut grid = Grid::new(2, 1);
    stroke(&mut history, &mut grid, &[(0, 0)], RED);
    wipe(&mut history, &mut grid);
    stroke(&mut history, &mut grid, &[(1, 0)], BLUE);
    assert_eq!(grid.cells, vec![NONE, BLUE]);
    assert!(history.undo(&mut grid).is_some());
    // the entry before is the clear, whose snapshot was taken before it
    assert_eq!(grid.cells, vec![RED, NONE]);
    assert!(history.redo(&mut grid).is_some());
    assert_eq!(grid.cells, vec![RED, BLUE]);
}

#[test]
fn resize_is_undone_to_the_size_of_its_snapshot() {
    let mut history = Undo::new();
    let mut grid = Grid::new(4, 4);
    for y in 0..4 {
        for x in 0..4 {
            grid.set(x, y, if (x + y) % 2 == 0 { RED } else { BLUE });
        }
    }
    scale(&mut history, &mut grid, 2, 2);
    assert_eq!(grid.cells, vec![RED, BLUE, BLUE, RED]);
    assert!(matches!(history.undo(&mut grid), Some(Action::Resize(2, 2))));
    assert_eq!((grid.width, grid.height), (4, 4));
    for y in 0..4 {
        for x in 0..4 {
            let kept = x < 2 && y < 2;
            let expected = if !kept { NONE } else if (x + y) % 2 == 0 { RED } else { BLUE };
            assert_eq!(grid.get(x, y), expected);
        }
    }
    assert!(matches!(history.redo(&mut grid), Some(Action::Resize(2, 2))));
    assert_eq!((grid.width, grid.height), (2, 2));
    assert_eq!(grid.cells, vec![RED, BLUE, BLUE, RED]);
}

#[test]
fn growing_resize_round_trips_with_strokes() {
    let mut history = Undo::new();
    let mut grid = Grid::new(2, 2);
    stroke(&mut history, &mut grid, &[(0, 0), (1, 1)], RED);
    stroke(&mut history, &mut grid, &[(1, 0)], HAZE);
    let before_resize = grid.clone();
    scale(&mut history, &mut grid, 3, 4);
    let last = grid.clone();
    assert!(history.undo(&mut grid).is_some());
    assert!(same(&grid, &before_resize));
    assert!(history.undo(&mut grid).is_some());
    assert!(history.undo(&mut grid).is_some());
    assert!(same(&grid, &Grid::new(2, 2)));
    assert!(history.undo(&mut grid).is_none());
    for _ in 0..3 {
        assert!(history.redo(&mut grid).is_some());
    }
    assert!(same(&grid, &last));
}

#[test]
fn push_after_undo_discards_what_was_undone() {
    let mut history = Undo::new();
    let mut grid = Grid::new(2, 2);
    stroke(&mut history, &mut grid, &[(0, 0)], RED);
    stroke(&mut history, &mut grid, &[(1, 0)], RED);
    assert!(history.undo(&mut grid).is_some());
    stroke(&mut history, &mut grid, &[(1, 1)], BLUE);
    let branched = grid.clone();
    assert!(history.redo(&mut grid).is_none());
    assert!(same(&grid, &branched));
    // two entries are left: the first stroke and the new one
    assert!(matches!(history.undo(&mut grid), Some(Action::Paint(_, BLUE))));
    assert!(matches!(history.undo(&mut grid), Some(Action::Paint(_, RED))));
    assert!(history.undo(&mut grid).is_none());
}

#[test]
fn snapshots_are_copies() {
    let mut history = Undo::new();
    let mut grid = Grid::new(1, 1);
    stroke(&mut history, &mut grid, &[(0, 0)], RED);
    stroke(&mut history, &mut grid, &[(0, 0)], BLUE);
    // a change to the live canvas must not reach the stored snapshot
    grid.set(0, 0, [1, 2, 3, 255]);
    assert!(history.undo(&mut grid).is_some());
    assert_eq!(grid.cells, vec![RED]);
}

#[test]
fn clear_forgets_every_entry() {
    let mut history = Undo::new();
    let mut grid = Grid::new(1, 1);
    stroke(&mut history, &mut grid, &[(0, 0)], RED);
    stroke(&mut history, &mut grid, &[(0, 0)], BLUE);
    assert!(history.undo(&mut grid).is_some());
    history.clear();
    let before = grid.clone();
    assert!(history.undo(&mut grid).is_none());
    assert!(history.redo(&mut grid).is_none());
    assert!(same(&grid, &before));
}

#[test]
fn default_history_is_empty() {
    let mut history = Undo::default();
    let mut grid = Grid::new(1, 1);
    assert!(history.undo(&mut grid).is_none());
    assert!(history.redo(&mut grid).is_none());
}

#[test]
fn actions_are_described_in_words() {
    assert_eq!(Action::Paint(vec![(0, 0), (1, 0), (2, 0)], RED).describe(), "paint 3 cells");
    assert_eq!(Action::Paint(vec![], RED).describe(), "paint 0 cells");
    assert_eq!(Action::Paint(vec![(0, 0); 120], RED).describe(), "paint 120 cells");
    assert_eq!(Action::Resize(16, 8).describe(), "resize to 16x8");
    assert_eq!(Action::Resize(0, 1024).describe(), "resize to 0x1024");
    assert_eq!(Action::Clear.describe(), "clear");
}

#[test]
fn undo_past_a_clear_onto_a_stroke_round_trips() {
    let mut history = Undo::new();
    let mut grid = Grid::new(2, 2);
    stroke(&mut history, &mut grid, &[(0, 0), (1, 0)], HAZE);
    stroke(&mut history, &mut grid, &[(1, 0), (1, 1)], RED);
    wipe(&mut history, &mut grid);
    stroke(&mut history, &mut grid, &[(0, 1)], HAZE);
    let last = grid.clone();
    // (0 * 127 + 200 * 128) / 255 = 100
    assert_eq!(last.cells, vec![NONE, NONE, [100, 100, 100, 128], NONE]);

    // the undos end on a stroke's snapshot, so the redos start from the
    // state the strokes were painted on
    for n in 2..=4 {
        for _ in 0..n {
            history.undo(&mut grid);
        }
        for _ in 0..n {
            assert!(history.redo(&mut grid).is_some());
        }
        assert!(same(&grid, &last));
        assert!(history.redo(&mut grid).is_none());
    }

    // one undo alone ends on the clear's snapshot, taken before the clear
    assert!(history.undo(&mut grid).is_some());
    assert!(history.redo(&mut grid).is_some());
    assert!(!same(&grid, &last));
    assert_eq!(grid.get(0, 1), [100, 100, 100, 128]);
    assert_eq!(grid.get(1, 1), RED);
}

#[test]
fn stroke_and_shrink_round_trip_together() {
    let mut history = Undo::new();
    let mut grid = Grid::new(3, 3);
    stroke(&mut history, &mut grid, &[(0, 0), (2, 2)], HAZE);
    scale(&mut history, &mut grid, 2, 2);
    scale(&mut history, &mut grid, 1, 4);
    let last = grid.clone();
    assert_eq!(last.cells, vec![[100, 100, 100, 128], NONE, NONE, NONE]);
    for n in 1..=3 {
        for _ in 0..n {
            assert!(history.undo(&mut grid).is_some());
        }
        for _ in 0..n {
            assert!(history.redo(&mut grid).is_some());
        }
        assert!(same(&grid, &last));
    }
    // the undo of the shrink does not bring back what it dropped
    assert!(history.undo(&mut grid).is_some());
    assert!(history.undo(&mut grid).is_some());
    assert_eq!((grid.width, grid.height), (3, 3));
    assert_eq!(grid.get(0, 0), [100, 100, 100, 128]);
    assert_eq!(grid.get(2, 2), NONE);
}

#[test]
fn stroke_is_undone_with_the_resize_under_it() {
    let mut history = Undo::new();
    let mut grid = Grid::new(3, 3);
    grid.set(2, 2, RED);
    let first = grid.clone();
    scale(&mut history, &mut grid, 2, 2);
    stroke(&mut history, &mut grid, &[(1, 1)], BLUE);
    let last = grid.clone();
    assert!(history.undo(&mut grid).is_some());
    assert!(history.undo(&mut grid).is_some());
    // the stroke's undo loads the canvas as it was before the resize
    assert!(same(&grid, &first));
    assert!(history.redo(&mut grid).is_some());
    assert!(history.redo(&mut grid).is_some());
    assert!(same(&grid, &last));
}

#[test]
fn stroke_is_undone_with_the_first_clear_under_it() {
    let mut history = Undo::new();
    let mut grid = Grid::new(2, 1);
    grid.set(0, 0, RED);
    let first = grid.clone();
    wipe(&mut history, &mut grid);
    stroke(&mut history, &mut grid, &[(1, 0)], BLUE);
    let last = grid.clone();
    assert!(history.undo(&mut grid).is_some());
    assert!(history.undo(&mut grid).is_none());
    assert!(same(&grid, &first));
    assert!(history.redo(&mut grid).is_some());
    assert!(history.redo(&mut grid).is_some());
    assert!(same(&grid, &last));
}

#[test]
fn actions_tell_whether_they_can_be_recorded() {
    assert!(Action::Clear.is_wf());
    assert!(Action::Paint(vec![(usize::MAX, usize::MAX)], RED).is_wf());
    assert!(Action::Resize(0, usize::MAX).is_wf());
    assert!(Action::Resize(1 << 16, 1 << 15).is_wf());
    assert!(Action::Resize(isize::MAX as usize / 4, 1).is_wf());
    assert!(!Action::Resize(isize::MAX as usize / 4 + 1, 1).is_wf());
    assert!(!Action::Resize(usize::MAX, 1).is_wf());
    assert!(!Action::Resize(usize::MAX, 2).is_wf());
    assert!(!Action::Resize(usize::MAX, usize::MAX).is_wf());
}
