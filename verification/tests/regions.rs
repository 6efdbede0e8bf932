use upaint::canvas::Canvas;
use upaint::continuous_region::{find_continuous_region, MatchCellSame};
use upaint::rect::CanvasIndex;

const ART: &str = "
   SSSSS
  S    SS
SSS SS S
SS   S S
";

fn marked(expected: &str) -> Vec<CanvasIndex> {
    let mut r = Vec::new();
    for (row, line) in expected.split('\n').enumerate() {
        for (column, c) in line.chars().enumerate() {
            if c == '#' {
                r.push((row as i16, column as i16));
            }
        }
    }
    r
}

fn region(start: CanvasIndex, diagonals_allowed: bool) -> Vec<CanvasIndex> {
    let canvas = Canvas::from_ansi(ART.to_string()).unwrap();
    let m = MatchCellSame { ch: Some('S'), fg: None, bg: None, modifier: None };
    find_continuous_region(&canvas, start, &m, diagonals_allowed).to_vec()
}

#[test]
fn test_find_continuous_region() {
    assert_eq!(
        region((3, 5), false),
        marked("
   SSSSS
  S    SS
SSS ## S
SS   # S
")
    );
    assert_eq!(region((3, 6), false), marked(ART));
    assert_eq!(
        region((3, 7), false),
        marked("
   #####
  S    ##
SSS SS #
SS   S #
")
    );
    assert_eq!(
        region((3, 7), true),
        marked("
   #####
  #    ##
### SS #
##   S #
")
    );
}

#[test]
fn cells_matching_selects_matching_cells() {
    let canvas = Canvas::from_ansi("ab\nba\n".to_string()).unwrap();
    let m = MatchCellSame { ch: Some('a'), fg: None, bg: None, modifier: None };
    let selection = canvas.cells_matching(&m);
    let indices: Vec<_> = selection.indices.iter().map(|(i, _)| *i).collect();
    assert_eq!(indices, vec![(0, 0), (1, 1)]);
}
