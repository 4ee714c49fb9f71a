//! Tray icons: colored percent text drawn with pixel glyphs on a transparent
//! square canvas.

use vstd::prelude::*;
use vstd::arithmetic::div_mod::{lemma_fundamental_div_mod, lemma_fundamental_div_mod_converse};
use crate::device::BatteryReading;
use crate::text::{decimal_digits, spec_decimal};

verus! {

/// Side of the square icon canvas, in pixels.
pub const TEXT_SIZE: usize = 32;

/// Bytes of one RGBA canvas.
pub const CANVAS_BYTES: usize = 4096;

// Charging percent color as RGB (light/dark taskbar themes).
pub const CHARGING_COLOR_LIGHT: [u8; 3] = [21, 101, 192];
pub const CHARGING_COLOR_DARK: [u8; 3] = [52, 152, 219];

/// The RGBA text color for a reading: grey without a reading, blue while
/// charging, green from 50 %, orange from 20 %, red below; each in a darker
/// shade for a light taskbar.
pub open spec fn spec_text_color(percent: Option<u8>, charging: bool, light: bool) -> Seq<u8> {
    match percent {
        None => if light { seq![70u8, 70u8, 70u8, 255u8] } else { seq![170u8, 170u8, 170u8, 255u8] },
        Some(p) => if charging {
            if light { seq![21u8, 101u8, 192u8, 255u8] } else { seq![52u8, 152u8, 219u8, 255u8] }
        } else if p >= 50 {
            if light { seq![30u8, 140u8, 60u8, 255u8] } else { seq![46u8, 204u8, 113u8, 255u8] }
        } else if p >= 20 {
            if light { seq![211u8, 84u8, 0u8, 255u8] } else { seq![230u8, 126u8, 34u8, 255u8] }
        } else {
            if light { seq![192u8, 57u8, 43u8, 255u8] } else { seq![231u8, 76u8, 60u8, 255u8] }
        },
    }
}

pub fn text_color(percent: Option<u8>, charging: bool, light: bool) -> (c: [u8; 4])
    ensures
        c@ == spec_text_color(percent, charging, light),
{
    let rgb: [u8; 3] = match percent {
        None => {
            if light {
                [70, 70, 70]
            } else {
                [170, 170, 170]
            }
        },
        Some(p) => {
            if charging {
                if light {
                    CHARGING_COLOR_LIGHT
                } else {
                    CHARGING_COLOR_DARK
                }
            } else if p >= 50 {
                if light {
                    [30, 140, 60]
                } else {
                    [46, 204, 113]
                }
            } else if p >= 20 {
                if light {
                    [211, 84, 0]
                } else {
                    [230, 126, 34]
                }
            } else {
                if light {
                    [192, 57, 43]
                } else {
                    [231, 76, 60]
                }
            }
        },
    };
    let c: [u8; 4] = [rgb[0], rgb[1], rgb[2], 255];
    assert(c@ =~= spec_text_color(percent, charging, light));
    c
}

/// The five rows of the 3x5 glyph of digit `d`, bit 2 being the left column;
/// blank for anything but a digit.
pub open spec fn spec_glyph(d: u8) -> Seq<u8> {
    if d == 0 {
        seq![7u8, 5u8, 5u8, 5u8, 7u8]
    } else if d == 1 {
        seq![2u8, 6u8, 2u8, 2u8, 7u8]
    } else if d == 2 {
        seq![7u8, 1u8, 7u8, 4u8, 7u8]
    } else if d == 3 {
        seq![7u8, 1u8, 7u8, 1u8, 7u8]
    } else if d == 4 {
        seq![5u8, 5u8, 7u8, 1u8, 1u8]
    } else if d == 5 {
        seq![7u8, 4u8, 7u8, 1u8, 7u8]
    } else if d == 6 {
        seq![7u8, 4u8, 7u8, 5u8, 7u8]
    } else if d == 7 {
        seq![7u8, 1u8, 1u8, 1u8, 1u8]
    } else if d == 8 {
        seq![7u8, 5u8, 7u8, 5u8, 7u8]
    } else if d == 9 {
        seq![7u8, 5u8, 7u8, 1u8, 7u8]
    } else {
        seq![0u8, 0u8, 0u8, 0u8, 0u8]
    }
}

pub fn digit_glyph(d: u8) -> (g: [u8; 5])
    ensures
        g@ == spec_glyph(d),
{
    let g: [u8; 5] = match d {
        0 => [0b111, 0b101, 0b101, 0b101, 0b111],
        1 => [0b010, 0b110, 0b010, 0b010, 0b111],
        2 => [0b111, 0b001, 0b111, 0b100, 0b111],
        3 => [0b111, 0b001, 0b111, 0b001, 0b111],
        4 => [0b101, 0b101, 0b111, 0b001, 0b001],
        5 => [0b111, 0b100, 0b111, 0b001, 0b111],
        6 => [0b111, 0b100, 0b111, 0b101, 0b111],
        7 => [0b111, 0b001, 0b001, 0b001, 0b001],
        8 => [0b111, 0b101, 0b111, 0b101, 0b111],
        9 => [0b111, 0b101, 0b111, 0b001, 0b111],
        _ => [0; 5],
    };
    assert(g@ =~= spec_glyph(d));
    g
}

/// Byte offset of pixel (x, y) in an RGBA canvas.
pub open spec fn pixel_offset(x: int, y: int) -> int {
    (y * TEXT_SIZE + x) * 4
}

/// Writes `rgba` at pixel (x, y) of the canvas; a pixel off the canvas is
/// ignored.
pub fn put_pixel(pixels: &mut Vec<u8>, x: usize, y: usize, rgba: [u8; 4])
    requires
        x < TEXT_SIZE && y < TEXT_SIZE ==> pixel_offset(x as int, y as int) + 4 <= old(pixels)@.len(),
    ensures
        final(pixels)@.len() == old(pixels)@.len(),
        forall|i: int|
            0 <= i < old(pixels)@.len() ==> #[trigger] final(pixels)@[i] == if x < TEXT_SIZE && y
                < TEXT_SIZE && pixel_offset(x as int, y as int) <= i < pixel_offset(x as int, y as int)
                + 4 {
                rgba[i - pixel_offset(x as int, y as int)]
            } else {
                old(pixels)@[i]
            },
{
    if x >= TEXT_SIZE || y >= TEXT_SIZE {
        return;
    }
    let idx = (y * TEXT_SIZE + x) * 4;
    pixels.set(idx, rgba[0]);
    pixels.set(idx + 1, rgba[1]);
    pixels.set(idx + 2, rgba[2]);
    pixels.set(idx + 3, rgba[3]);
}

/// Width of a label of `n` glyphs in glyph units: three per glyph and one
/// between neighbours.
pub open spec fn units_wide(n: int) -> int {
    3 * n + if n > 0 { n - 1 } else { 0 }
}

/// Pixels per glyph unit: as large as fits in the canvas less a one-pixel
/// margin, at least 1 and at most what fits five rows high.
pub open spec fn glyph_scale(n: int) -> int {
    let s = (TEXT_SIZE - 2) / units_wide(n);
    if s < 1 {
        1
    } else if s > (TEXT_SIZE - 2) / 5 {
        (TEXT_SIZE - 2) / 5
    } else {
        s
    }
}

/// Left edge of the centred label.
pub open spec fn origin_x(n: int) -> int {
    (TEXT_SIZE - units_wide(n) * glyph_scale(n)) / 2
}

/// Top edge of the centred label.
pub open spec fn origin_y(n: int) -> int {
    (TEXT_SIZE - 5 * glyph_scale(n)) / 2
}

/// The glyph index of a label byte: its distance from '0', wrapping.
pub open spec fn glyph_code(b: u8) -> u8 {
    if b >= 48 {
        (b - 48) as u8
    } else {
        (b + 208) as u8
    }
}

/// Whether column `col` (0 = left) of a glyph row is set.
pub open spec fn glyph_bit(row: u8, col: int) -> bool {
    row & (4u8 >> (col as u8)) != 0
}

/// Whether pixel (x, y) of the canvas belongs to a glyph of `label`: the
/// pixel falls in glyph unit (u, v) of the centred, scaled label, u selects
/// glyph u / 4 and its column u % 4 (column 3 being the gap), and that cell
/// of the glyph is set.
pub open spec fn lit(label: Seq<u8>, x: int, y: int) -> bool {
    let n = label.len() as int;
    let s = glyph_scale(n);
    let x0 = origin_x(n);
    let y0 = origin_y(n);
    &&& 0 <= x < TEXT_SIZE
    &&& 0 <= y < TEXT_SIZE
    &&& n > 0
    &&& x >= x0
    &&& y >= y0
    &&& {
        let u = (x - x0) / s;
        let v = (y - y0) / s;
        let gi = u / 4;
        let col = u % 4;
        &&& gi < n
        &&& col < 3
        &&& v < 5
        &&& glyph_bit(spec_glyph(glyph_code(label[gi]))[v], col)
    }
}

/// Pixel (x, y) lies in the block that draws cell (row, col) of glyph `gi`:
/// the cell is set and the block is `glyph_scale` pixels square, placed at
/// glyph unit (4 * gi + col, row) of the centred label.
pub open spec fn in_glyph_block(
    label: Seq<u8>,
    gi: int,
    row: int,
    col: int,
    dx: int,
    dy: int,
    x: int,
    y: int,
) -> bool {
    let n = label.len() as int;
    let s = glyph_scale(n);
    &&& 0 <= gi < n
    &&& 0 <= row < 5
    &&& 0 <= col < 3
    &&& 0 <= dx < s
    &&& 0 <= dy < s
    &&& glyph_bit(spec_glyph(glyph_code(label[gi]))[row], col)
    &&& x == origin_x(n) + (4 * gi + col) * s + dx
    &&& y == origin_y(n) + row * s + dy
}

/// A canvas pixel is lit exactly when it lies in the block of a set glyph
/// cell: each digit is drawn cell by cell as scaled blocks, four units apart.
pub proof fn lemma_lit_is_glyph_blocks(label: Seq<u8>, x: int, y: int)
    requires
        0 <= x < TEXT_SIZE,
        0 <= y < TEXT_SIZE,
    ensures
        lit(label, x, y) <==> exists|gi: int, row: int, col: int, dx: int, dy: int|
            #[trigger] in_glyph_block(label, gi, row, col, dx, dy, x, y),
{
    let n = label.len() as int;
    let s = glyph_scale(n);
    let x0 = origin_x(n);
    let y0 = origin_y(n);
    assert(s >= 1);
    if lit(label, x, y) {
        let u = (x - x0) / s;
        let v = (y - y0) / s;
        lemma_fundamental_div_mod(x - x0, s);
        lemma_fundamental_div_mod(y - y0, s);
        lemma_fundamental_div_mod(u, 4);
        let gi = u / 4;
        let col = u % 4;
        let dx = (x - x0) % s;
        let dy = (y - y0) % s;
        assert(x - x0 == s * u + dx);
        assert(u == 4 * gi + col);
        assert((4 * gi + col) * s == s * u) by (nonlinear_arith)
            requires
                u == 4 * gi + col,
        ;
        assert(in_glyph_block(label, gi, v, col, dx, dy, x, y));
    }
    if exists|gi: int, row: int, col: int, dx: int, dy: int|
        #[trigger] in_glyph_block(label, gi, row, col, dx, dy, x, y) {
        let (gi, row, col, dx, dy) = choose|gi: int, row: int, col: int, dx: int, dy: int|
            #[trigger] in_glyph_block(label, gi, row, col, dx, dy, x, y);
        let u = 4 * gi + col;
        assert(u >= 0 && row >= 0);
        assert(u * s >= 0 && row * s >= 0) by (nonlinear_arith)
            requires
                u >= 0,
                row >= 0,
                s >= 1,
        ;
        lemma_fundamental_div_mod_converse(x - x0, s, u, dx);
        lemma_fundamental_div_mod_converse(y - y0, s, row, dy);
        lemma_fundamental_div_mod_converse(u, 4, gi, col);
        assert(x >= x0 && y >= y0);
        assert((x - x0) / s == u);
        assert((y - y0) / s == row);
    }
}

/// Whether one of the eight neighbours of (x, y) belongs to a glyph.
pub open spec fn touches(label: Seq<u8>, x: int, y: int) -> bool {
    lit(label, x - 1, y - 1) || lit(label, x, y - 1) || lit(label, x + 1, y - 1) || lit(
        label,
        x - 1,
        y,
    ) || lit(label, x + 1, y) || lit(label, x - 1, y + 1) || lit(label, x, y + 1) || lit(
        label,
        x + 1,
        y + 1,
    )
}

/// The dark, nearly opaque outline around the glyphs.
pub open spec fn outline_color() -> Seq<u8> {
    seq![25u8, 25u8, 25u8, 235u8]
}

/// Byte `i` of a canvas holding `before` once `label` is drawn on it in
/// `color`: glyph pixels take the color, pixels next to a glyph take the
/// outline, all others keep their value.
pub open spec fn spec_drawn_byte(label: Seq<u8>, color: Seq<u8>, before: Seq<u8>, i: int) -> u8 {
    if 0 <= i < CANVAS_BYTES {
        let x = (i / 4) % (TEXT_SIZE as int);
        let y = (i / 4) / (TEXT_SIZE as int);
        if lit(label, x, y) {
            color[i % 4]
        } else if touches(label, x, y) {
            outline_color()[i % 4]
        } else {
            before[i]
        }
    } else {
        before[i]
    }
}

/// The glyph layout of a label of `n` bytes: scale and top-left corner.
fn layout(n: usize) -> (r: (usize, usize, usize))
    requires
        1 <= n <= 8,
    ensures
        r.0 == glyph_scale(n as int),
        r.1 == origin_x(n as int),
        r.2 == origin_y(n as int),
        1 <= r.0 <= 6,
        units_wide(n as int) * r.0 <= TEXT_SIZE,
{
    let units_w = 3 * n + (n - 1);
    let q = (TEXT_SIZE - 2) / units_w;
    let mut scale = q;
    if scale < 1 {
        scale = 1;
    } else if scale > (TEXT_SIZE - 2) / 5 {
        scale = (TEXT_SIZE - 2) / 5;
    }
    assert(units_w * q <= 30) by (nonlinear_arith)
        requires
            units_w > 0,
            q == 30usize / units_w,
    ;
    assert(units_w * scale <= TEXT_SIZE) by (nonlinear_arith)
        requires
            units_w <= 31,
            units_w * q <= 30,
            scale == 1 || scale <= q,
            scale >= 1,
    ;
    let total_w = units_w * scale;
    let total_h = 5 * scale;
    (scale, (TEXT_SIZE - total_w) / 2, (TEXT_SIZE - total_h) / 2)
}

/// Whether pixel (x, y) belongs to a glyph of `label`.
fn lit_pixel(label: &[u8], x: usize, y: usize) -> (r: bool)
    requires
        1 <= label@.len() <= 8,
        x < TEXT_SIZE,
        y < TEXT_SIZE,
    ensures
        r == lit(label@, x as int, y as int),
{
    let n = label.len();
    let (scale, x0, y0) = layout(n);
    if x < x0 || y < y0 {
        return false;
    }
    let u = (x - x0) / scale;
    let v = (y - y0) / scale;
    let gi = u / 4;
    let col = u % 4;
    if gi >= n || col >= 3 || v >= 5 {
        return false;
    }
    let b = label[gi];
    let code: u8 = if b >= 48 {
        b - 48
    } else {
        b + 208
    };
    let glyph = digit_glyph(code);
    let row = glyph[v];
    row & (0b100u8 >> (col as u8)) != 0
}

/// Which canvas pixels belong to a glyph of `label`, row by row.
fn glyph_mask(label: &[u8]) -> (mask: Vec<bool>)
    requires
        1 <= label@.len() <= 8,
    ensures
        mask@.len() == TEXT_SIZE * TEXT_SIZE,
        forall|p: int|
            0 <= p < TEXT_SIZE * TEXT_SIZE ==> #[trigger] mask@[p] == lit(
                label@,
                p % (TEXT_SIZE as int),
                p / (TEXT_SIZE as int),
            ),
{
    let mut mask: Vec<bool> = Vec::new();
    let mut p: usize = 0;
    while p < TEXT_SIZE * TEXT_SIZE
        invariant
            1 <= label@.len() <= 8,
            p <= TEXT_SIZE * TEXT_SIZE,
            mask@.len() == p,
            forall|q: int|
                0 <= q < p ==> #[trigger] mask@[q] == lit(
                    label@,
                    q % (TEXT_SIZE as int),
                    q / (TEXT_SIZE as int),
                ),
        decreases TEXT_SIZE * TEXT_SIZE - p,
    {
        let lit_here = lit_pixel(label, p % TEXT_SIZE, p / TEXT_SIZE);
        mask.push(lit_here);
        p = p + 1;
    }
    mask
}

/// Whether the pixel at signed position (x, y) lies on the canvas and belongs
/// to a glyph, read from the glyph mask.
fn mask_at(mask: &Vec<bool>, label: Ghost<Seq<u8>>, x: i32, y: i32) -> (r: bool)
    requires
        mask@.len() == TEXT_SIZE * TEXT_SIZE,
        forall|p: int|
            0 <= p < TEXT_SIZE * TEXT_SIZE ==> #[trigger] mask@[p] == lit(
                label@,
                p % (TEXT_SIZE as int),
                p / (TEXT_SIZE as int),
            ),
    ensures
        r == lit(label@, x as int, y as int),
{
    if x >= 0 && y >= 0 && (x as usize) < TEXT_SIZE && (y as usize) < TEXT_SIZE {
        let p = y as usize * TEXT_SIZE + x as usize;
        assert(p as int % (TEXT_SIZE as int) == x && p as int / (TEXT_SIZE as int) == y);
        mask[p]
    } else {
        false
    }
}

/// Byte `i` of the canvas after the outline pass: pixels next to a glyph but
/// not on one take the outline color.
pub open spec fn spec_outlined_byte(label: Seq<u8>, before: Seq<u8>, i: int) -> u8 {
    if 0 <= i < CANVAS_BYTES {
        let x = (i / 4) % (TEXT_SIZE as int);
        let y = (i / 4) / (TEXT_SIZE as int);
        if !lit(label, x, y) && touches(label, x, y) {
            outline_color()[i % 4]
        } else {
            before[i]
        }
    } else {
        before[i]
    }
}

proof fn lemma_pixel_bytes(p: int, i: int)
    requires
        0 <= p < TEXT_SIZE * TEXT_SIZE,
        4 * p <= i < 4 * p + 4,
    ensures
        i / 4 == p,
        i % 4 == i - 4 * p,
        0 <= i < CANVAS_BYTES,
{
}

/// Draws `label` centred on the canvas in `color`, with a one-pixel outline
/// around the glyphs; every other byte keeps its value.
pub fn draw_number(pixels: &mut Vec<u8>, label: &[u8], color: [u8; 4])
    requires
        old(pixels)@.len() >= CANVAS_BYTES,
        label@.len() <= 8,
    ensures
        final(pixels)@.len() == old(pixels)@.len(),
        forall|i: int|
            0 <= i < old(pixels)@.len() ==> #[trigger] final(pixels)@[i] == spec_drawn_byte(
                label@,
                color@,
                old(pixels)@,
                i,
            ),
{
    let outline: [u8; 4] = [25, 25, 25, 235];
    assert(outline@ =~= outline_color());
    let n = label.len();
    if n == 0 {
        return;
    }
    let mask = glyph_mask(label);
    let ghost before = pixels@;
    let ghost lab = label@;
    let mut p: usize = 0;
    while p < TEXT_SIZE * TEXT_SIZE
        invariant
            1 <= lab.len() <= 8,
            lab == label@,
            outline@ == outline_color(),
            before.len() >= CANVAS_BYTES,
            p <= TEXT_SIZE * TEXT_SIZE,
            pixels@.len() == before.len(),
            mask@.len() == TEXT_SIZE * TEXT_SIZE,
            forall|q: int|
                0 <= q < TEXT_SIZE * TEXT_SIZE ==> #[trigger] mask@[q] == lit(
                    lab,
                    q % (TEXT_SIZE as int),
                    q / (TEXT_SIZE as int),
                ),
            forall|i: int|
                0 <= i < before.len() ==> #[trigger] pixels@[i] == if i < 4 * p {
                    spec_outlined_byte(lab, before, i)
                } else {
                    before[i]
                },
        decreases TEXT_SIZE * TEXT_SIZE - p,
    {
        let x = p % TEXT_SIZE;
        let y = p / TEXT_SIZE;
        if !mask[p] {
            let xi = x as i32;
            let yi = y as i32;
            let g = Ghost(lab);
            let touches_here = mask_at(&mask, g, xi - 1, yi - 1) || mask_at(&mask, g, xi, yi - 1)
                || mask_at(&mask, g, xi + 1, yi - 1) || mask_at(&mask, g, xi - 1, yi) || mask_at(
                &mask,
                g,
                xi + 1,
                yi,
            ) || mask_at(&mask, g, xi - 1, yi + 1) || mask_at(&mask, g, xi, yi + 1) || mask_at(
                &mask,
                g,
                xi + 1,
                yi + 1,
            );
            if touches_here {
                let ghost mid = pixels@;
                put_pixel(pixels, x, y, outline);
                proof {
                    assert(pixel_offset(x as int, y as int) == 4 * p);
                    assert forall|i: int| 0 <= i < before.len() implies #[trigger] pixels@[i] == if i
                        < 4 * (p + 1) {
                        spec_outlined_byte(lab, before, i)
                    } else {
                        before[i]
                    } by {
                        if 4 * p <= i < 4 * p + 4 {
                            lemma_pixel_bytes(p as int, i);
                        } else {
                            assert(pixels@[i] == mid[i]);
                        }
                    }
                }
            } else {
                proof {
                    assert forall|i: int| 4 * p <= i < 4 * p + 4 implies #[trigger] pixels@[i]
                        == spec_outlined_byte(lab, before, i) by {
                        lemma_pixel_bytes(p as int, i);
                    }
                }
            }
        } else {
            proof {
                assert forall|i: int| 4 * p <= i < 4 * p + 4 implies #[trigger] pixels@[i]
                    == spec_outlined_byte(lab, before, i) by {
                    lemma_pixel_bytes(p as int, i);
                }
            }
        }
        p = p + 1;
    }
    let ghost outlined = pixels@;
    let mut p: usize = 0;
    while p < TEXT_SIZE * TEXT_SIZE
        invariant
            1 <= lab.len() <= 8,
            lab == label@,
            before.len() >= CANVAS_BYTES,
            p <= TEXT_SIZE * TEXT_SIZE,
            pixels@.len() == before.len(),
            outlined.len() == before.len(),
            mask@.len() == TEXT_SIZE * TEXT_SIZE,
            forall|q: int|
                0 <= q < TEXT_SIZE * TEXT_SIZE ==> #[trigger] mask@[q] == lit(
                    lab,
                    q % (TEXT_SIZE as int),
                    q / (TEXT_SIZE as int),
                ),
            forall|i: int|
                0 <= i < before.len() ==> #[trigger] outlined[i] == spec_outlined_byte(
                    lab,
                    before,
                    i,
                ),
            forall|i: int|
                0 <= i < before.len() ==> #[trigger] pixels@[i] == if i < 4 * p {
                    spec_drawn_byte(lab, color@, before, i)
                } else {
                    outlined[i]
                },
        decreases TEXT_SIZE * TEXT_SIZE - p,
    {
        let x = p % TEXT_SIZE;
        let y = p / TEXT_SIZE;
        if mask[p] {
            let ghost mid = pixels@;
            put_pixel(pixels, x, y, color);
            proof {
                assert(pixel_offset(x as int, y as int) == 4 * p);
                assert forall|i: int| 0 <= i < before.len() implies #[trigger] pixels@[i] == if i < 4
                    * (p + 1) {
                    spec_drawn_byte(lab, color@, before, i)
                } else {
                    outlined[i]
                } by {
                    if 4 * p <= i < 4 * p + 4 {
                        lemma_pixel_bytes(p as int, i);
                    } else {
                        assert(pixels@[i] == mid[i]);
                    }
                }
            }
        } else {
            proof {
                assert forall|i: int| 4 * p <= i < 4 * p + 4 implies #[trigger] pixels@[i]
                    == spec_drawn_byte(lab, color@, before, i) by {
                    lemma_pixel_bytes(p as int, i);
                }
            }
        }
        p = p + 1;
    }
    proof {
        assert forall|i: int| 0 <= i < before.len() implies #[trigger] pixels@[i] == spec_drawn_byte(
            lab,
            color@,
            before,
            i,
        ) by {
            if i >= CANVAS_BYTES {
                assert(pixels@[i] == outlined[i]);
            }
        }
    }
}

/// A blank (fully transparent) canvas.
pub open spec fn blank_canvas() -> Seq<u8> {
    Seq::new(CANVAS_BYTES as nat, |i: int| 0u8)
}

/// The canvas holding `label` drawn in `color` on a blank background.
pub open spec fn spec_render(label: Seq<u8>, color: Seq<u8>) -> Seq<u8> {
    Seq::new(CANVAS_BYTES as nat, |i: int| spec_drawn_byte(label, color, blank_canvas(), i))
}

/// A fresh canvas with `text` drawn on it in `color`.
pub fn render_pixels(text: &[u8], color: [u8; 4]) -> (pixels: Vec<u8>)
    requires
        text@.len() <= 8,
    ensures
        pixels@ == spec_render(text@, color@),
{
    let mut pixels: Vec<u8> = vec![0u8; CANVAS_BYTES];
    proof {
        assert(pixels@ =~= blank_canvas());
    }
    draw_number(&mut pixels, text, color);
    assert(pixels@ =~= spec_render(text@, color@));
    pixels
}

/// The text of the icon: the percentage in decimal, or "??" without a reading.
pub open spec fn spec_icon_label(percent: Option<u8>) -> Seq<u8> {
    match percent {
        Some(p) => spec_decimal(p as nat),
        None => seq![63u8, 63u8],
    }
}

pub open spec fn reading_percent(reading: Option<&BatteryReading>) -> Option<u8> {
    match reading {
        Some(r) => Some(r.percent),
        None => None,
    }
}

pub open spec fn reading_charging(reading: Option<&BatteryReading>) -> bool {
    match reading {
        Some(r) => r.charging,
        None => false,
    }
}

/// The 3x5 digit font, row by row from the top, bit 2 being the left column:
/// 0 is a closed box, 1 a stem with a flag and a foot, 2 opens right then
/// left, 3 opens left twice, 4 has two open arms, 5 opens right then left
/// the other way round, 6 closes its lower half, 7 a bar and a stem on the
/// right, 8 two closed boxes, 9 closes its upper half; anything else is blank.
pub proof fn lemma_digit_font()
    ensures
        spec_glyph(0) == seq![0b111u8, 0b101u8, 0b101u8, 0b101u8, 0b111u8],
        spec_glyph(1) == seq![0b010u8, 0b110u8, 0b010u8, 0b010u8, 0b111u8],
        spec_glyph(2) == seq![0b111u8, 0b001u8, 0b111u8, 0b100u8, 0b111u8],
        spec_glyph(3) == seq![0b111u8, 0b001u8, 0b111u8, 0b001u8, 0b111u8],
        spec_glyph(4) == seq![0b101u8, 0b101u8, 0b111u8, 0b001u8, 0b001u8],
        spec_glyph(5) == seq![0b111u8, 0b100u8, 0b111u8, 0b001u8, 0b111u8],
        spec_glyph(6) == seq![0b111u8, 0b100u8, 0b111u8, 0b101u8, 0b111u8],
        spec_glyph(7) == seq![0b111u8, 0b001u8, 0b001u8, 0b001u8, 0b001u8],
        spec_glyph(8) == seq![0b111u8, 0b101u8, 0b111u8, 0b101u8, 0b111u8],
        spec_glyph(9) == seq![0b111u8, 0b101u8, 0b111u8, 0b001u8, 0b111u8],
        forall|d: u8| d >= 10 ==> #[trigger] spec_glyph(d) == seq![0u8, 0u8, 0u8, 0u8, 0u8],
{
}

/// No two digits share a glyph, so every digit reads as itself.
pub proof fn lemma_digit_glyphs_distinct(d1: u8, d2: u8)
    requires
        d1 < 10,
        d2 < 10,
        d1 != d2,
    ensures
        spec_glyph(d1) != spec_glyph(d2),
{
    lemma_digit_font();
    if spec_glyph(d1) == spec_glyph(d2) {
        assert(spec_glyph(d1)[0] == spec_glyph(d2)[0]);
        assert(spec_glyph(d1)[1] == spec_glyph(d2)[1]);
        assert(spec_glyph(d1)[2] == spec_glyph(d2)[2]);
        assert(spec_glyph(d1)[3] == spec_glyph(d2)[3]);
        assert(spec_glyph(d1)[4] == spec_glyph(d2)[4]);
    }
}

/// The icon color of a reading: the charging blue exactly while the reading
/// says charging, otherwise green from 50 %, orange from 20 % and red below,
/// each in a darker shade for a light taskbar; always opaque; whether the
/// mouse is on its cable plays no part beyond the charging flag. Without a
/// reading the icon is grey.
pub proof fn lemma_icon_color(r: BatteryReading, light: bool)
    ensures
        ({
            let c = spec_text_color(reading_percent(Some(&r)), reading_charging(Some(&r)), light);
            &&& c.len() == 4
            &&& c[3] == 255
            &&& (r.charging && light) ==> c == seq![21u8, 101u8, 192u8, 255u8]
            &&& (r.charging && !light) ==> c == seq![52u8, 152u8, 219u8, 255u8]
            &&& (!r.charging && r.percent >= 50 && light) ==> c == seq![30u8, 140u8, 60u8, 255u8]
            &&& (!r.charging && r.percent >= 50 && !light) ==> c == seq![46u8, 204u8, 113u8, 255u8]
            &&& (!r.charging && 20 <= r.percent < 50 && light) ==> c == seq![211u8, 84u8, 0u8, 255u8]
            &&& (!r.charging && 20 <= r.percent < 50 && !light) ==> c == seq![230u8, 126u8, 34u8, 255u8]
            &&& (!r.charging && r.percent < 20 && light) ==> c == seq![192u8, 57u8, 43u8, 255u8]
            &&& (!r.charging && r.percent < 20 && !light) ==> c == seq![231u8, 76u8, 60u8, 255u8]
        }),
        spec_text_color(reading_percent(None), reading_charging(None), light) == if light {
            seq![70u8, 70u8, 70u8, 255u8]
        } else {
            seq![170u8, 170u8, 170u8, 255u8]
        },
{
}

/// Two readings that differ only in the cable flag, the voltage or the
/// device get the same icon text and color.
pub proof fn lemma_icon_ignores_cable(r1: BatteryReading, r2: BatteryReading, light: bool)
    requires
        r1.percent == r2.percent,
        r1.charging == r2.charging,
    ensures
        spec_icon_label(reading_percent(Some(&r1))) == spec_icon_label(reading_percent(Some(&r2))),
        spec_text_color(reading_percent(Some(&r1)), reading_charging(Some(&r1)), light)
            == spec_text_color(reading_percent(Some(&r2)), reading_charging(Some(&r2)), light),
{
}

/// The icon text of a reading is its percentage in decimal digits, which
/// read back as the percentage; without a reading it is "??".
pub proof fn lemma_icon_label(r: BatteryReading)
    ensures
        crate::text::digits_value(spec_icon_label(reading_percent(Some(&r)))) == r.percent,
        forall|i: int|
            0 <= i < spec_icon_label(reading_percent(Some(&r))).len() ==> crate::text::is_ascii_digit(
                #[trigger] spec_icon_label(reading_percent(Some(&r)))[i],
            ),
        spec_icon_label(reading_percent(None)) == seq![0x3Fu8, 0x3Fu8],
{
    crate::text::lemma_decimal_reads_back(r.percent as nat);
}

/// Drawing gives a glyph pixel the text color, a pixel next to a glyph the
/// dark, nearly opaque outline (25, 25, 25, 235), and leaves the rest alone.
pub proof fn lemma_drawn_pixel(label: Seq<u8>, color: Seq<u8>, before: Seq<u8>, x: int, y: int, k: int)
    requires
        0 <= x < TEXT_SIZE,
        0 <= y < TEXT_SIZE,
        0 <= k < 4,
    ensures
        ({
            let i = (y * TEXT_SIZE + x) * 4 + k;
            let b = spec_drawn_byte(label, color, before, i);
            &&& lit(label, x, y) ==> b == color[k]
            &&& (!lit(label, x, y) && touches(label, x, y)) ==> b == seq![25u8, 25u8, 25u8, 235u8][k]
            &&& (!lit(label, x, y) && !touches(label, x, y)) ==> b == before[i]
        }),
{
    let i = (y * TEXT_SIZE + x) * 4 + k;
    let p = y * TEXT_SIZE + x;
    assert(0 <= p < 1024);
    assert(i / 4 == p && i % 4 == k);
    assert(p % 32 == x && p / 32 == y);
}

/// The label is centred: its left and right margins differ by at most one
/// pixel, as do its top and bottom margins, and it fits on the canvas.
pub proof fn lemma_label_centred(n: int)
    requires
        1 <= n <= 8,
    ensures
        ({
            let w = units_wide(n) * glyph_scale(n);
            let h = 5 * glyph_scale(n);
            &&& 1 <= glyph_scale(n) <= 6
            &&& w <= TEXT_SIZE
            &&& 0 <= (TEXT_SIZE - w - origin_x(n)) - origin_x(n) <= 1
            &&& 0 <= (TEXT_SIZE - h - origin_y(n)) - origin_y(n) <= 1
        }),
{
    let u = units_wide(n);
    let q = 30int / u;
    let s = glyph_scale(n);
    assert(u * q <= 30) by (nonlinear_arith)
        requires
            u > 0,
            q == 30int / u,
    ;
    assert(u * s <= TEXT_SIZE) by (nonlinear_arith)
        requires
            u <= 31,
            u * q <= 30,
            s == 1 || s <= q,
            s >= 1,
    ;
}

/// The text and the color of the icon for a reading (or none) on a light or
/// dark taskbar.
pub fn icon_text(reading: Option<&BatteryReading>, light: bool) -> (r: (Vec<u8>, [u8; 4]))
    ensures
        r.0@ == spec_icon_label(reading_percent(reading)),
        r.0@.len() <= 3,
        r.1@ == spec_text_color(
            reading_percent(reading),
            reading_charging(reading),
            light,
        ),
{
    match reading {
        None => {
            let mut text: Vec<u8> = Vec::new();
            text.push(63);
            text.push(63);
            assert(text@ =~= seq![63u8, 63u8]);
            (text, text_color(None, false, light))
        },
        Some(r) => {
            let text = decimal_digits(r.percent as u64);
            proof {
                reveal_with_fuel(spec_decimal, 3);
                assert(r.percent < 10 ==> text@.len() == 1);
                assert(r.percent < 100 ==> text@.len() <= 2);
            }
            (text, text_color(Some(r.percent), r.charging, light))
        },
    }
}

/// How long a looked-up taskbar theme is trusted, in seconds.
pub const THEME_TTL_SEC: u64 = 5;

/// The last looked-up taskbar theme (light or not) and when it was looked up,
/// in nanoseconds on a monotonic clock.
pub struct ThemeCache {
    pub entry: Option<(u64, bool)>,
}

/// The theme still trusted at `now`: one looked up less than `THEME_TTL_SEC`
/// earlier (a clock that went back counts as no time).
pub open spec fn spec_cached_theme(entry: Option<(u64, bool)>, now: u64) -> Option<bool> {
    match entry {
        Some((at, light)) => if (if now >= at { now - at } else { 0 }) < THEME_TTL_SEC
            * 1_000_000_000 {
            Some(light)
        } else {
            None
        },
        None => None,
    }
}

impl ThemeCache {
    pub fn new() -> (c: Self)
        ensures
            c.entry is None,
    {
        ThemeCache { entry: None }
    }

    pub fn cached(&self, now: u64) -> (light: Option<bool>)
        ensures
            light == spec_cached_theme(self.entry, now),
    {
        match self.entry {
            Some((at, light)) => {
                let age: u64 = if now >= at {
                    now - at
                } else {
                    0
                };
                if age < THEME_TTL_SEC * 1_000_000_000 {
                    Some(light)
                } else {
                    None
                }
            },
            None => None,
        }
    }

    /// Records the theme looked up at `now`.
    pub fn store(&mut self, now: u64, light: bool)
        ensures
            final(self).entry == Some((now, light)),
    {
        self.entry = Some((now, light));
    }
}

/// A looked-up theme is reused for `THEME_TTL_SEC` and looked up again after.
pub proof fn lemma_theme_ttl(at: u64, light: bool, now: u64)
    requires
        at <= now,
    ensures
        now - at < THEME_TTL_SEC * 1_000_000_000 ==> spec_cached_theme(Some((at, light)), now)
            == Some(light),
        now - at >= THEME_TTL_SEC * 1_000_000_000 ==> spec_cached_theme(Some((at, light)), now)
            is None,
{
}

/// Entries an icon cache holds before it starts over.
pub const ICON_CACHE_MAX: usize = 48;

/// What a rendered icon is looked up by: up to four bytes of text and the
/// color.
#[derive(Debug, Clone, Copy, PartialEq, Eq, Hash)]
pub struct IconKey {
    pub text: [u8; 4],
    pub text_len: u8,
    pub rgba: [u8; 4],
}

/// `k` is the key of `text` in color `rgba`: the first (at most four) bytes of
/// the text, zero padding, their count and the color.
pub open spec fn is_key_of(k: IconKey, text: Seq<u8>, rgba: [u8; 4]) -> bool {
    &&& k.text_len == if text.len() < 4 { text.len() } else { 4 }
    &&& forall|i: int| 0 <= i < k.text_len ==> #[trigger] k.text[i] == text[i]
    &&& forall|i: int| k.text_len <= i < 4 ==> #[trigger] k.text[i] == 0
    &&& k.rgba == rgba
}

/// The text a key stands for.
pub open spec fn key_text(k: IconKey) -> Seq<u8> {
    k.text@.take(k.text_len as int)
}

impl IconKey {
    pub fn new(text: &[u8], rgba: [u8; 4]) -> (k: Self)
        ensures
            is_key_of(k, text@, rgba),
    {
        let mut buf: [u8; 4] = [0; 4];
        let len: usize = if text.len() < 4 {
            text.len()
        } else {
            4
        };
        let mut i: usize = 0;
        while i < len
            invariant
                len <= 4,
                len <= text@.len(),
                i <= len,
                forall|j: int| 0 <= j < i ==> #[trigger] buf[j] == text@[j],
                forall|j: int| i <= j < 4 ==> #[trigger] buf[j] == 0,
            decreases len - i,
        {
            buf[i] = text[i];
            i = i + 1;
        }
        IconKey { text: buf, text_len: len as u8, rgba }
    }
}

fn same_key(a: &IconKey, b: &IconKey) -> (same: bool)
    ensures
        same == (*a == *b),
{
    let mut i: usize = 0;
    while i < 4
        invariant
            i <= 4,
            forall|j: int| 0 <= j < i ==> a.text[j] == b.text[j] && a.rgba[j] == b.rgba[j],
        decreases 4 - i,
    {
        if a.text[i] != b.text[i] || a.rgba[i] != b.rgba[i] {
            return false;
        }
        i = i + 1;
    }
    assert(a.text =~= b.text);
    assert(a.rgba =~= b.rgba);
    a.text_len == b.text_len
}

/// Rendered icons by key, so that a repeated reading is not drawn again.
///
/// The entries are kept in a vector and looked up by comparing keys field by
/// field: the cache never holds more than `ICON_CACHE_MAX` of them, and a key
/// is a struct of byte arrays, for which vstd's hash map specifications (which
/// model integer keys) say nothing, so a `HashMap` keyed by `IconKey` would
/// leave every lookup unspecified.
pub struct IconCache {
    entries: Vec<(IconKey, Vec<u8>)>,
}

impl IconCache {
    /// The keys held, oldest first.
    pub closed spec fn keys(&self) -> Seq<IconKey> {
        self.entries@.map_values(|e: (IconKey, Vec<u8>)| e.0)
    }

    /// Each entry holds the rendering of its key, no key occurs twice, and
    /// the cache never holds more than `ICON_CACHE_MAX` entries.
    pub closed spec fn wf(&self) -> bool {
        &&& self.entries@.len() <= ICON_CACHE_MAX
        &&& forall|i: int|
            0 <= i < self.entries@.len() ==> {
                let e = #[trigger] self.entries@[i];
                &&& e.0.text_len <= 4
                &&& e.1@ == spec_render(key_text(e.0), e.0.rgba@)
            }
        &&& forall|i: int, j: int|
            0 <= i < j < self.entries@.len() ==> #[trigger] self.entries@[i].0
                != #[trigger] self.entries@[j].0
    }

    /// Whether a rendering of `text` in `rgba` is held.
    pub open spec fn holds(&self, text: Seq<u8>, rgba: [u8; 4]) -> bool {
        exists|i: int| 0 <= i < self.keys().len() && is_key_of(#[trigger] self.keys()[i], text, rgba)
    }

    pub fn new() -> (c: Self)
        ensures
            c.wf(),
            c.keys().len() == 0,
    {
        IconCache { entries: Vec::new() }
    }

    pub fn len(&self) -> (n: usize)
        ensures
            n == self.keys().len(),
    {
        self.entries.len()
    }

    /// The canvas for `text` in `color`: the held one when the key is cached,
    /// otherwise a fresh rendering, which is then kept (after emptying a full
    /// cache).
    pub fn pixels(&mut self, text: &[u8], color: [u8; 4]) -> (pixels: Vec<u8>)
        requires
            old(self).wf(),
            text@.len() <= 4,
        ensures
            final(self).wf(),
            pixels@ == spec_render(text@, color@),
            final(self).holds(text@, color),
            final(self).keys().len() <= ICON_CACHE_MAX,
            old(self).holds(text@, color) ==> final(self).keys() == old(self).keys(),
            !old(self).holds(text@, color) ==> {
                let kept = if old(self).keys().len() >= ICON_CACHE_MAX {
                    Seq::<IconKey>::empty()
                } else {
                    old(self).keys()
                };
                &&& final(self).keys().len() == kept.len() + 1
                &&& final(self).keys().drop_last() == kept
                &&& is_key_of(final(self).keys().last(), text@, color)
            },
    {
        let key = IconKey::new(text, color);
        proof {
            assert(key_text(key) =~= text@);
        }
        let mut i: usize = 0;
        while i < self.entries.len()
            invariant
                self.wf(),
                is_key_of(key, text@, color),
                key_text(key) == text@,
                i <= self.entries@.len(),
                forall|j: int| 0 <= j < i ==> self.entries@[j].0 != key,
            decreases self.entries@.len() - i,
        {
            if same_key(&self.entries[i].0, &key) {
                let cached = self.entries[i].1.clone();
                proof {
                    assert(cached@ =~= self.entries@[i as int].1@);
                    assert(self.keys()[i as int] == key);
                }
                return cached;
            }
            i = i + 1;
        }
        proof {
            assert forall|j: int| 0 <= j < self.keys().len() implies !is_key_of(
                #[trigger] self.keys()[j],
                text@,
                color,
            ) by {
                let k = self.keys()[j];
                assert(k == self.entries@[j].0);
                if is_key_of(k, text@, color) {
                    assert(k.text =~= key.text);
                    assert(k.rgba =~= key.rgba);
                }
            }
        }
        let pixels = render_pixels(text, color);
        if self.entries.len() >= ICON_CACHE_MAX {
            self.entries.clear();
        }
        let ghost kept = self.keys();
        let stored = pixels.clone();
        proof {
            assert(stored@ =~= pixels@);
        }
        self.entries.push((key, stored));
        proof {
            assert(self.keys() =~= kept.push(key));
            assert(self.keys().drop_last() =~= kept);
            assert(self.keys()[self.keys().len() - 1] == key);
        }
        pixels
    }
}

} // verus!
