use hitomezashi::Bounds;
use hitomezashi::horizontal_sweep;
use hitomezashi::vertical_sweep;

#[test]
fn test_horizontal_sweep_ten_lines_cycling_phase() {
    let bounds = Bounds { left: 0, right: 100, top: 100, bottom: 0 };
    let selectors = vec![true, false, true, true, false];
    let lines = horizontal_sweep(&bounds, 10, &selectors);
    assert_eq!(lines.len(), 10);
    let expected_phase = [true, false, true, true, false, true, false, true, true, false];
    for (k, line) in lines.iter().enumerate() {
        assert_eq!(line.pos, 100 - 10 * k as i32);
        assert!(!line.spans.is_empty());
        assert_eq!(line.spans[0].drawn, expected_phase[k]);
        assert_eq!(line.spans.last().unwrap().hi, 100);
    }
}

#[test]
fn test_vertical_sweep_positions() {
    let bounds = Bounds { left: -50, right: 50, top: 30, bottom: -30 };
    let selectors = vec![false, true];
    let lines = vertical_sweep(&bounds, 20, &selectors);
    assert_eq!(lines.len(), 5);
    for (k, line) in lines.iter().enumerate() {
        assert_eq!(line.pos, -50 + 20 * k as i32);
        assert_eq!(line.spans[0].drawn, k % 2 == 1);
        assert_eq!(line.spans.last().unwrap().hi, 60);
    }
}

#[test]
fn test_segments_of_horizontal_line() {
    let bounds = Bounds { left: 0, right: 25, top: 10, bottom: 0 };
    let selectors = vec![true];
    let lines = horizontal_sweep(&bounds, 10, &selectors);
    let segs = lines[0].segments_horizontal(bounds.left);
    assert_eq!(segs.len(), 3);
    assert_eq!((segs[0].x0, segs[0].x1, segs[0].y0, segs[0].drawn), (0, 10, 10, true));
    assert_eq!((segs[1].x0, segs[1].x1, segs[1].drawn), (10, 20, false));
    assert_eq!((segs[2].x0, segs[2].x1, segs[2].drawn), (20, 25, true));
}

#[test]
fn test_segments_of_vertical_line() {
    let bounds = Bounds { left: 0, right: 25, top: 10, bottom: -10 };
    let selectors = vec![false];
    let lines = vertical_sweep(&bounds, 10, &selectors);
    let segs = lines[0].segments_vertical(bounds.top);
    assert_eq!(segs.len(), 2);
    assert_eq!((segs[0].x0, segs[0].y0, segs[0].y1, segs[0].drawn), (0, 10, 0, false));
    assert_eq!((segs[1].y0, segs[1].y1, segs[1].drawn), (0, -10, true));
}

#[test]
fn test_vertical_grid_lines() {
    let bounds = Bounds { left: 0, right: 100, top: 50, bottom: -50 };
    let lines = hitomezashi::vertical_grid_lines(&bounds, 25);
    assert_eq!(lines.len(), 3);
    for (k, line) in lines.iter().enumerate() {
        assert_eq!(line.x0, 25 * (k as i32 + 1));
        assert_eq!(line.x1, line.x0);
        assert_eq!((line.y0, line.y1), (50, -50));
        assert!(line.drawn);
    }
}

#[test]
fn test_horizontal_grid_lines() {
    let bounds = Bounds { left: -10, right: 10, top: 100, bottom: 0 };
    let lines = hitomezashi::horizontal_grid_lines(&bounds, 40);
    // the walk starts one spacing above the top edge and keeps the row on
    // the top edge itself
    assert_eq!(lines.len(), 4);
    let rows: Vec<i32> = lines.iter().map(|l| l.y0).collect();
    assert_eq!(rows, vec![140, 100, 60, 20]);
    assert_eq!((lines[0].x0, lines[0].x1), (-10, 10));
}
