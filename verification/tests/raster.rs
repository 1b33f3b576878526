use hitomezashi::RectSettings;
use hitomezashi::draw_pattern_to_image;
use hitomezashi::render_raster;

fn rgb_at(buf: &[u8], width: u32, x: u32, y: u32) -> (u8, u8, u8, u8) {
    let i = ((y * width + x) * 4) as usize;
    (buf[i], buf[i + 1], buf[i + 2], buf[i + 3])
}

#[test]
fn test_render_all_white_when_nothing_drawn() {
    let settings = RectSettings {
        spacing_tenths: 500,
        horz_selectors: vec![false; 5],
        vert_selectors: vec![false; 5],
        horz_seed: 0,
        vert_seed: 0,
    };
    let buf = render_raster(50, 50, &settings);
    assert_eq!(buf.len(), 50 * 50 * 4);
    assert!(buf.iter().all(|&b| b == 255));
}

#[test]
fn test_render_pattern_pixels_exact() {
    let settings = RectSettings {
        spacing_tenths: 100,
        horz_selectors: vec![true],
        vert_selectors: vec![true],
        horz_seed: 0,
        vert_seed: 0,
    };
    let buf = render_raster(40, 40, &settings);
    // first dash of the top row and of the left column is drawn
    assert_eq!(rgb_at(&buf, 40, 0, 0), (0, 0, 0, 255));
    assert_eq!(rgb_at(&buf, 40, 5, 0), (0, 0, 0, 255));
    assert_eq!(rgb_at(&buf, 40, 0, 5), (0, 0, 0, 255));
    // off every sweep line: untouched white
    assert_eq!(rgb_at(&buf, 40, 5, 5), (255, 255, 255, 255));
    // second dash of a line is a gap
    assert_eq!(rgb_at(&buf, 40, 15, 0), (255, 255, 255, 255));
    assert_eq!(rgb_at(&buf, 40, 0, 15), (255, 255, 255, 255));
    // the gap dashes of row 10 and column 10 start drawn-off
    assert_eq!(rgb_at(&buf, 40, 10, 10), (255, 255, 255, 255));
    // row 10 cycles back to a drawn start at its first dash
    assert_eq!(rgb_at(&buf, 40, 0, 10), (0, 0, 0, 255));
}

#[test]
fn test_draw_pattern_keeps_alpha_and_background() {
    let width: u32 = 20;
    let height: u32 = 20;
    let mut buf = Vec::new();
    for _ in 0..(width * height) {
        buf.push(9);
        buf.push(8);
        buf.push(7);
        buf.push(77);
    }
    let settings = RectSettings {
        spacing_tenths: 100,
        horz_selectors: vec![true],
        vert_selectors: vec![false],
        horz_seed: 0,
        vert_seed: 0,
    };
    draw_pattern_to_image(&mut buf, width, height, &settings);
    // a drawn pixel turns black but keeps its alpha
    assert_eq!(rgb_at(&buf, width, 0, 0), (0, 0, 0, 77));
    // an untouched pixel keeps all four bytes
    assert_eq!(rgb_at(&buf, width, 5, 5), (9, 8, 7, 77));
}
