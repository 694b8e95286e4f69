use cysprite::brush::record_cell;
use cysprite::grid::Grid;

const INK: [u8; 4] = [10, 20, 30, 255];
const MIST: [u8; 4] = [255, 255, 255, 51];

fn painted(grid: &Grid) -> Vec<(usize, usize)> {
    let mut cells = Vec::new();
    for y in 0..grid.height {
        for x in 0..grid.width {
            if grid.get(x, y) != [0, 0, 0, 0] {
                cells.push((x, y));
            }
        }
    }
    cells
}

#[test]
fn single_cell_inside_is_painted() {
    let mut g = Grid::new(3, 3);
    g.paint_single(2, 1, INK);
    assert_eq!(painted(&g), vec![(2, 1)]);
    assert_eq!(g.get(2, 1), INK);
}

#[test]
fn single_cell_outside_is_ignored() {
    let mut g = Grid::new(3, 3);
    g.paint_single(-1, 0, INK);
    g.paint_single(0, -1, INK);
    g.paint_single(3, 0, INK);
    g.paint_single(0, 3, INK);
    g.paint_single(i32::MIN, i32::MAX, INK);
    assert!(painted(&g).is_empty());
}

#[test]
fn rect_covers_its_columns_and_rows() {
    let mut g = Grid::new(5, 4);
    g.paint_rect(1, 2, 3, 1, INK);
    assert_eq!(painted(&g), vec![(1, 2), (2, 2), (3, 2)]);
    g.clear();
    g.paint_rect(3, 0, 1, 2, INK);
    assert_eq!(painted(&g), vec![(3, 0), (3, 1)]);
}

#[test]
fn rect_is_cut_at_the_edges() {
    let mut g = Grid::new(3, 3);
    g.paint_rect(-2, -2, 4, 3, INK);
    assert_eq!(painted(&g), vec![(0, 0), (1, 0)]);
    g.clear();
    g.paint_rect(2, 2, 100, 100, INK);
    assert_eq!(painted(&g), vec![(2, 2)]);
    g.clear();
    g.paint_rect(i32::MAX, i32::MAX, i32::MAX, i32::MAX, INK);
    g.paint_rect(i32::MIN, 0, 5, 5, INK);
    assert!(painted(&g).is_empty());
}

#[test]
fn rect_without_area_paints_nothing() {
    let mut g = Grid::new(3, 3);
    g.paint_rect(1, 1, 0, 2, INK);
    g.paint_rect(1, 1, 2, 0, INK);
    g.paint_rect(1, 1, -1, 2, INK);
    g.paint_rect(1, 1, 2, -3, INK);
    assert!(painted(&g).is_empty());
}

#[test]
fn rect_blends_each_cell_once() {
    let mut g = Grid::new(2, 2);
    g.set(0, 0, [0, 0, 0, 255]);
    g.paint_rect(0, 0, 2, 1, MIST);
    // (0 * 204 + 255 * 51) / 255 = 51 on black, the same on transparent
    assert_eq!(g.get(0, 0), [51, 51, 51, 255]);
    assert_eq!(g.get(1, 0), [51, 51, 51, 51]);
    assert_eq!(g.get(0, 1), [0, 0, 0, 0]);
}

#[test]
fn square_of_one_is_the_cell() {
    let mut g = Grid::new(5, 5);
    g.paint_square(2, 3, 1, INK);
    assert_eq!(painted(&g), vec![(2, 3)]);
}

#[test]
fn even_square_is_centred() {
    let mut g = Grid::new(6, 6);
    g.paint_square(2, 2, 2, INK);
    assert_eq!(painted(&g), vec![(1, 1), (2, 1), (1, 2), (2, 2)]);
    g.clear();
    g.paint_square(3, 3, 4, INK);
    let cells = painted(&g);
    assert_eq!(cells.len(), 16);
    assert_eq!(cells[0], (1, 1));
    assert_eq!(cells[15], (4, 4));
}

#[test]
fn odd_square_covers_one_more_than_its_size() {
    let mut g = Grid::new(8, 8);
    g.paint_square(3, 3, 3, INK);
    let cells = painted(&g);
    assert_eq!(cells.len(), 16);
    assert_eq!(cells[0], (2, 2));
    assert_eq!(cells[15], (5, 5));
}

#[test]
fn square_without_size_paints_nothing() {
    let mut g = Grid::new(4, 4);
    g.paint_square(1, 1, 0, INK);
    g.paint_square(1, 1, -1, INK);
    g.paint_square(1, 1, -4, INK);
    g.paint_square(1, 1, i32::MIN, INK);
    assert!(painted(&g).is_empty());
}

#[test]
fn largest_square_covers_the_canvas() {
    let mut g = Grid::new(2, 2);
    g.paint_square(0, 0, i32::MAX, INK);
    assert_eq!(painted(&g).len(), 4);
}

#[test]
fn stroke_keeps_each_cell_once() {
    let mut cells = Vec::new();
    assert!(record_cell(&mut cells, 1, 2));
    assert!(record_cell(&mut cells, 2, 1));
    assert!(!record_cell(&mut cells, 1, 2));
    assert!(record_cell(&mut cells, 1, 1));
    assert!(!record_cell(&mut cells, 2, 1));
    assert_eq!(cells, vec![(1, 2), (2, 1), (1, 1)]);
}
