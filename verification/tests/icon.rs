use as_r11_ultra_battery_tray::device::BatteryReading;
use as_r11_ultra_battery_tray::icon::{
    digit_glyph, draw_number, icon_text, put_pixel, render_pixels, text_color, IconCache, IconKey,
    ThemeCache,
    CANVAS_BYTES, CHARGING_COLOR_DARK, CHARGING_COLOR_LIGHT, ICON_CACHE_MAX, TEXT_SIZE,
};

fn reading(percent: u8, charging: bool) -> BatteryReading {
    BatteryReading {
        percent,
        wired: charging,
        charging,
        voltage_mv: None,
        vendor_id: 0x3554,
        product_id: 0xFB44,
        product_string: String::new(),
    }
}

fn pixel(pixels: &[u8], x: usize, y: usize) -> [u8; 4] {
    let i = (y * TEXT_SIZE + x) * 4;
    [pixels[i], pixels[i + 1], pixels[i + 2], pixels[i + 3]]
}

#[test]
fn charging_color_constants_in_range() {
    for rgb in [CHARGING_COLOR_LIGHT, CHARGING_COLOR_DARK] {
        assert!(rgb.iter().all(|&c| c <= 255));
    }
}

#[test]
fn text_colors_by_level() {
    assert_eq!(text_color(None, false, true), [70, 70, 70, 255]);
    assert_eq!(text_color(None, true, false), [170, 170, 170, 255]);
    assert_eq!(text_color(Some(10), true, true), [21, 101, 192, 255]);
    assert_eq!(text_color(Some(10), true, false), [52, 152, 219, 255]);
    assert_eq!(text_color(Some(50), false, true), [30, 140, 60, 255]);
    assert_eq!(text_color(Some(100), false, false), [46, 204, 113, 255]);
    assert_eq!(text_color(Some(49), false, true), [211, 84, 0, 255]);
    assert_eq!(text_color(Some(20), false, false), [230, 126, 34, 255]);
    assert_eq!(text_color(Some(19), false, true), [192, 57, 43, 255]);
    assert_eq!(text_color(Some(0), false, false), [231, 76, 60, 255]);
}

#[test]
fn glyphs() {
    assert_eq!(digit_glyph(0), [7, 5, 5, 5, 7]);
    assert_eq!(digit_glyph(1), [2, 6, 2, 2, 7]);
    assert_eq!(digit_glyph(8), [7, 5, 7, 5, 7]);
    assert_eq!(digit_glyph(15), [0; 5]);
}

#[test]
fn put_pixel_writes_one_pixel() {
    let mut pixels = vec![0u8; CANVAS_BYTES];
    put_pixel(&mut pixels, 3, 2, [1, 2, 3, 4]);
    assert_eq!(pixel(&pixels, 3, 2), [1, 2, 3, 4]);
    assert_eq!(pixels.iter().filter(|b| **b != 0).count(), 4);
    put_pixel(&mut pixels, 32, 0, [9, 9, 9, 9]);
    put_pixel(&mut pixels, 0, 40, [9, 9, 9, 9]);
    assert_eq!(pixels.iter().filter(|b| **b != 0).count(), 4);
}

#[test]
fn icon_generation_works() {
    let (text, color) = icon_text(None, true);
    assert_eq!(text, b"??".to_vec());
    assert_eq!(render_pixels(&text, color).len(), CANVAS_BYTES);
    let full = reading(100, false);
    let (text, color) = icon_text(Some(&full), false);
    assert_eq!(text, b"100".to_vec());
    assert_eq!(color, [46, 204, 113, 255]);
    assert_eq!(render_pixels(&text, color).len(), CANVAS_BYTES);
    let charging = reading(95, true);
    let (text, color) = icon_text(Some(&charging), false);
    assert_eq!(text, b"95".to_vec());
    assert_eq!(color, [52, 152, 219, 255]);
}

#[test]
fn single_digit_layout() {
    // One glyph: 3 units wide, scale 6, drawn from (7, 1) to (25, 31).
    let color = [200, 100, 50, 255];
    let pixels = render_pixels(b"8", color);
    assert_eq!(pixel(&pixels, 7, 1), color);
    assert_eq!(pixel(&pixels, 24, 30), color);
    assert_eq!(pixel(&pixels, 13, 7), [25, 25, 25, 235]);
    assert_eq!(pixel(&pixels, 6, 1), [25, 25, 25, 235]);
    assert_eq!(pixel(&pixels, 25, 31), [25, 25, 25, 235]);
    assert_eq!(pixel(&pixels, 5, 5), [0, 0, 0, 0]);
    assert_eq!(pixel(&pixels, 0, 0), [0, 0, 0, 0]);
    assert_eq!(pixel(&pixels, 16, 10), [0, 0, 0, 0]);
}

#[test]
fn three_digit_layout() {
    // "100": 11 units, scale 2, drawn from x = 5, y = 11.
    let color = [1, 2, 3, 255];
    let pixels = render_pixels(b"100", color);
    // top row of the "1" glyph is 0b010: only the middle column.
    assert_eq!(pixel(&pixels, 5, 11), [0, 0, 0, 0]);
    assert_eq!(pixel(&pixels, 6, 11), [25, 25, 25, 235]);
    assert_eq!(pixel(&pixels, 7, 11), color);
    assert_eq!(pixel(&pixels, 8, 12), color);
    // second glyph starts at x = 5 + 8 = 13, top row full.
    assert_eq!(pixel(&pixels, 13, 11), color);
    assert_eq!(pixel(&pixels, 18, 12), color);
    // inside of the "0" is hollow but next to the strokes.
    assert_eq!(pixel(&pixels, 15, 14), [25, 25, 25, 235]);
    assert_eq!(pixel(&pixels, 0, 0), [0, 0, 0, 0]);
}

#[test]
fn question_marks_draw_nothing() {
    let pixels = render_pixels(b"??", [9, 9, 9, 255]);
    assert!(pixels.iter().all(|b| *b == 0));
    let mut canvas = vec![7u8; CANVAS_BYTES + 8];
    draw_number(&mut canvas, b"", [1, 1, 1, 1]);
    assert!(canvas.iter().all(|b| *b == 7));
}

#[test]
fn draw_keeps_background_and_tail() {
    let mut canvas = vec![7u8; CANVAS_BYTES + 4];
    draw_number(&mut canvas, b"1", [1, 1, 1, 1]);
    assert_eq!(&canvas[CANVAS_BYTES..], &[7, 7, 7, 7]);
    assert_eq!(pixel(&canvas, 0, 0), [7, 7, 7, 7]);
}

#[test]
fn cache_returns_fresh_rendering_and_stays_bounded() {
    let mut cache = IconCache::new();
    let color = [46, 204, 113, 255];
    let first = cache.pixels(b"42", color);
    assert_eq!(first, render_pixels(b"42", color));
    assert_eq!(cache.len(), 1);
    let again = cache.pixels(b"42", color);
    assert_eq!(again, first);
    assert_eq!(cache.len(), 1);
    for p in 0..100u64 {
        let text = p.to_string();
        let pixels = cache.pixels(text.as_bytes(), color);
        assert_eq!(pixels, render_pixels(text.as_bytes(), color));
        assert!(cache.len() <= ICON_CACHE_MAX);
    }
}

#[test]
fn icon_keys() {
    let k = IconKey::new(b"12345", [1, 2, 3, 4]);
    assert_eq!(k.text, *b"1234");
    assert_eq!(k.text_len, 4);
    let short = IconKey::new(b"7", [1, 2, 3, 4]);
    assert_eq!(short.text, [b'7', 0, 0, 0]);
    assert_eq!(short.text_len, 1);
    assert_ne!(short, k);
}

#[test]
fn theme_is_reused_for_five_seconds() {
    let mut cache = ThemeCache::new();
    assert_eq!(cache.cached(0), None);
    cache.store(1_000, true);
    assert_eq!(cache.cached(1_000), Some(true));
    assert_eq!(cache.cached(1_000 + 4_999_999_999), Some(true));
    assert_eq!(cache.cached(1_000 + 5_000_000_000), None);
    assert_eq!(cache.cached(10), Some(true));
}
