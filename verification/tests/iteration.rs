use upaint::canvas::Canvas;
use upaint::iter::{CanvasIndexIterator, StopCondition, StopConditionContent, WordBoundaryType};
use upaint::rect::CanvasIndex;
use upaint::style::{Direction, DirectionFree};

/// Runs an iteration along a straight line of unit steps, which is what the tracer yields for
/// the four axis directions, and gives back the last cell it hands out.
fn last_cell(txt: &str, start: CanvasIndex, direction: Direction, stop: StopCondition, stop_count: u32) -> Option<CanvasIndex> {
    let canvas = Canvas::from_txt(txt.to_string()).unwrap();
    let d = DirectionFree::from_direction(direction);
    let at = |k: i32| -> CanvasIndex {
        (start.0 + (d.rows as i32 * k) as i16, start.1 + (d.columns as i32 * k) as i16)
    };
    let mut it = CanvasIndexIterator::new(d, stop, stop_count);
    it.begin(at(0), at(1), &canvas);
    let mut k = 1;
    while !it.step(at(k), at(k + 1), &canvas) {
        k += 1;
    }
    let mut last = None;
    while let Some(index) = it.pop() {
        last = Some(index);
    }
    last
}

#[test]
fn test_canvas_index_iterator() {
    let txt = "    4567    abcd";
    let any = StopCondition::Content(StopConditionContent::WordBoundary(WordBoundaryType::any()));
    let start = StopCondition::Content(StopConditionContent::WordBoundary(WordBoundaryType::start()));
    let end = StopCondition::Content(StopConditionContent::WordBoundary(WordBoundaryType::end()));
    let change = StopCondition::Content(StopConditionContent::CharacterChange);
    assert_eq!(last_cell(txt, (0, 0), Direction::Right, StopCondition::Always, 1), Some((0, 1)));
    assert_eq!(last_cell(txt, (1, 1), Direction::Right, StopCondition::Always, 3), Some((1, 4)));
    assert_eq!(last_cell(txt, (0, 0), Direction::Right, any, 1), Some((0, 4)));
    assert_eq!(last_cell(txt, (0, 4), Direction::Right, any, 1), Some((0, 7)));
    assert_eq!(last_cell(txt, (0, 6), Direction::Right, any, 1), Some((0, 7)));
    assert_eq!(last_cell(txt, (0, 7), Direction::Right, any, 1), Some((0, 12)));
    assert_eq!(last_cell(txt, (0, 9), Direction::Left, any, 1), Some((0, 7)));
    assert_eq!(last_cell(txt, (0, 0), Direction::Left, any, 1), Some((0, 0)));
    assert_eq!(last_cell(txt, (0, 6), Direction::Up, any, 1), Some((0, 6)));
    assert_eq!(last_cell(txt, (-3, 6), Direction::Up, any, 1), Some((-3, 6)));
    assert_eq!(last_cell(txt, (-3, 6), Direction::Down, any, 1), Some((0, 6)));
    assert_eq!(last_cell(txt, (-3, 3), Direction::Down, any, 1), Some((-3, 3)));
    assert_eq!(last_cell(txt, (0, 0), Direction::Right, start, 1), Some((0, 4)));
    assert_eq!(last_cell(txt, (0, 4), Direction::Right, start, 1), Some((0, 12)));
    assert_eq!(last_cell(txt, (0, 12), Direction::Right, start, 1), Some((0, 12)));
    assert_eq!(last_cell(txt, (0, 0), Direction::Right, end, 1), Some((0, 7)));
    assert_eq!(last_cell(txt, (0, 4), Direction::Right, end, 1), Some((0, 7)));
    assert_eq!(last_cell(txt, (0, 12), Direction::Right, end, 1), Some((0, 15)));
    assert_eq!(last_cell(txt, (0, 4), Direction::Right, change, 1), Some((0, 5)));
    assert_eq!(last_cell(txt, (0, 7), Direction::Right, change, 1), Some((0, 8)));
    assert_eq!(last_cell(txt, (0, 8), Direction::Right, change, 1), Some((0, 12)));
    assert_eq!(last_cell(txt, (0, 6), Direction::Up, change, 1), Some((-1, 6)));
    assert_eq!(last_cell(txt, (-3, 6), Direction::Up, change, 1), Some((-3, 6)));
    assert_eq!(last_cell(txt, (-3, 6), Direction::Down, change, 1), Some((0, 6)));
    assert_eq!(last_cell(txt, (-3, 3), Direction::Down, change, 1), Some((-3, 3)));
    assert_eq!(
        last_cell(txt, (0, 1), Direction::Right, StopCondition::Content(StopConditionContent::CharacterMatch('6')), 1),
        Some((0, 6))
    );
    assert_eq!(last_cell("0  34 678   abcd", (0, 9), Direction::Left, start, 2), Some((0, 4)));
}

#[test]
fn stop_at_index() {
    assert_eq!(last_cell("abc", (0, 0), Direction::Right, StopCondition::Index((0, 2)), 1), Some((0, 2)));
}
