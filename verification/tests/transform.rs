use upaint::canvas::CanvasCell;
use upaint::rect::CanvasIndex;
use upaint::style::{Axis, RotationDirection};
use upaint::transform::{
    map_from_swap_pairs, mirror_cells, mirror_index, rotate_cells, rotate_index, CharacterSwapMap,
};

fn cells(v: &[(CanvasIndex, char)]) -> Vec<(CanvasIndex, CanvasCell)> {
    v.iter().map(|(i, c)| (*i, CanvasCell::from_char(*c))).collect()
}

#[test]
fn swap_pairs_go_both_ways() {
    let map = map_from_swap_pairs(&vec![('/', '\\'), ('(', ')')]);
    assert_eq!(map.swapped('/'), '\\');
    assert_eq!(map.swapped('\\'), '/');
    assert_eq!(map.swapped(')'), '(');
    assert_eq!(map.swapped('a'), 'a');
}

#[test]
fn later_pairs_override() {
    let map = map_from_swap_pairs(&vec![('a', 'b'), ('a', 'c')]);
    assert_eq!(map.swapped('a'), 'c');
    assert_eq!(map.swapped('c'), 'a');
    assert_eq!(map.swapped('b'), 'a');
}

#[test]
fn deserialized_pairs_keep_the_first() {
    let map = CharacterSwapMap::from_pairs_keep_first(&vec![('a', 'b'), ('a', 'c')]);
    assert_eq!(map.swapped('a'), 'b');
    assert_eq!(map.swapped('b'), 'a');
    assert_eq!(map.swapped('c'), 'a');
}

#[test]
fn mirror_index_reflects() {
    assert_eq!(mirror_index(3, 0), -3);
    assert_eq!(mirror_index(3, 5), 7);
    assert_eq!(mirror_index(-2, 1), 4);
}

#[test]
fn rotate_index_turns() {
    assert_eq!(rotate_index((1, 2), (0, 0), RotationDirection::Clockwise), (2, -1));
    assert_eq!(rotate_index((1, 2), (0, 0), RotationDirection::Counterclockwise), (-2, 1));
    assert_eq!(rotate_index((1, 2), (10, 20), RotationDirection::Clockwise), (12, 19));
}

#[test]
fn mirror_moves_and_swaps() {
    let swaps = map_from_swap_pairs(&vec![('/', '\\')]);
    let mut c = cells(&[((0, 0), '/'), ((0, 1), '/')]);
    mirror_cells(&mut c, Axis::X, 0, &swaps);
    assert_eq!(c, cells(&[((0, -1), '\\'), ((0, 0), '\\')]));
}

#[test]
fn mirror_pair_swaps_the_first_only() {
    let swaps = map_from_swap_pairs(&vec![('/', '\\')]);
    let mut c = cells(&[((0, -1), '/'), ((0, 1), '/')]);
    mirror_cells(&mut c, Axis::X, 0, &swaps);
    assert_eq!(c, cells(&[((0, -1), '/'), ((0, 1), '\\')]));
}

#[test]
fn mirror_rows() {
    let swaps = map_from_swap_pairs(&vec![]);
    let mut c = cells(&[((2, 0), 'a')]);
    mirror_cells(&mut c, Axis::Y, 0, &swaps);
    assert_eq!(c, cells(&[((-2, 0), 'a')]));
}

#[test]
fn rotate_moves_cells_a_quarter_turn() {
    let swaps = map_from_swap_pairs(&vec![('-', '|')]);
    let mut c = cells(&[((0, 1), '-'), ((0, 2), 'x')]);
    rotate_cells(&mut c, (0, 0), RotationDirection::Clockwise, &swaps);
    assert_eq!(c, cells(&[((1, 0), '|'), ((2, 0), 'x')]));
}

#[test]
fn rotate_cycles_four_cells() {
    let swaps = map_from_swap_pairs(&vec![]);
    let mut c = cells(&[((-1, 0), 'd'), ((0, -1), 'c'), ((0, 1), 'a'), ((1, 0), 'b')]);
    rotate_cells(&mut c, (0, 0), RotationDirection::Clockwise, &swaps);
    // (0, 1) -> (1, 0) -> (0, -1) -> (-1, 0) -> (0, 1); the first cell seen is (-1, 0).
    assert_eq!(c, cells(&[((-1, 0), 'c'), ((0, -1), 'b'), ((0, 1), 'd'), ((1, 0), 'a')]));
}

#[test]
fn rotate_center_cell_is_lost() {
    let swaps = map_from_swap_pairs(&vec![]);
    let mut c = cells(&[((0, 0), 'o')]);
    rotate_cells(&mut c, (0, 0), RotationDirection::Clockwise, &swaps);
    assert_eq!(c, cells(&[]));
}
