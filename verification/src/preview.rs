//! Layout of the icon preview sheets: every state at every size on a dark and a
//! light taskbar background, and the small sizes enlarged six times on grey.
//!
//! The icons themselves are rendered by the caller; `icons[st * 6 + k]` is the
//! RGBA image of state `st` (live, muted, unknown) at size `icon_size(k)`.

use vstd::prelude::*;
use crate::png::{Canvas, blit_channel, opaque_channel};

verus! {

/// The preview sizes, in pixels.
pub open spec fn icon_size(k: int) -> int {
    if k == 0 {
        16
    } else if k == 1 {
        20
    } else if k == 2 {
        24
    } else if k == 3 {
        32
    } else if k == 4 {
        48
    } else {
        96
    }
}

/// Left edge of size `k` on the 1:1 sheet (8 pixels of padding around each icon).
pub open spec fn sheet_x(k: int) -> int {
    if k == 0 {
        8
    } else if k == 1 {
        32
    } else if k == 2 {
        60
    } else if k == 3 {
        92
    } else if k == 4 {
        132
    } else {
        188
    }
}

/// Left edge of size `k` on the enlarged sheet.
pub open spec fn zoom_x(k: int) -> int {
    if k == 0 {
        8
    } else if k == 1 {
        112
    } else if k == 2 {
        240
    } else {
        392
    }
}

/// Background of row `r` of the 1:1 sheet: rows 0..3 dark taskbar, rows 3..6 light.
pub open spec fn row_background(r: int) -> (u8, u8, u8) {
    if r < 3 {
        (0x1F, 0x1F, 0x1F)
    } else {
        (0xF3, 0xF3, 0xF3)
    }
}

/// Background of the enlarged sheet.
pub open spec fn zoom_background() -> (u8, u8, u8) {
    (0x60, 0x60, 0x60)
}

/// The icons are 18 RGBA images, `icons[st * 6 + k]` being `icon_size(k)` pixels square.
pub open spec fn icons_ok(icons: Seq<Vec<u8>>) -> bool {
    &&& icons.len() == 18
    &&& forall|i: int|
        0 <= i < 18 ==> (#[trigger] icons[i])@.len() == icon_size(i % 6) * icon_size(i % 6) * 4
}

/// Channel `(x, y, c)` of the 1:1 sheet after drawing step `n` over the value `d`.
/// Each of the 6 rows takes 7 steps: the row background, then the 6 sizes, each
/// centred vertically in a 96-pixel band.
pub open spec fn sheet_step(icons: Seq<Vec<u8>>, n: int, x: int, y: int, c: int, d: u8) -> u8 {
    let r = n / 7;
    let m = n % 7;
    if m == 0 {
        if 0 <= x < 292 && r * 104 <= y < r * 104 + 104 {
            opaque_channel(row_background(r), c)
        } else {
            d
        }
    } else {
        let k = m - 1;
        let s = icon_size(k);
        blit_channel(icons[(r % 3) * 6 + k]@, s, s, sheet_x(k), r * 104 + (96 - s) / 2, 1, x, y, c, d)
    }
}

/// Channel `(x, y, c)` of the 1:1 sheet after its first `n` drawing steps.
pub open spec fn sheet_value(icons: Seq<Vec<u8>>, n: nat, x: int, y: int, c: int) -> u8
    decreases n,
{
    if n == 0 {
        opaque_channel(row_background(0), c)
    } else {
        sheet_step(icons, n - 1, x, y, c, sheet_value(icons, (n - 1) as nat, x, y, c))
    }
}

/// Channel `(x, y, c)` of the enlarged sheet after drawing step `n` over `d`: row `i` (one
/// per state) shows sizes 16, 20, 24, 32 at six times, bottom-aligned in a 192-pixel cell.
pub open spec fn zoom_step(icons: Seq<Vec<u8>>, n: int, x: int, y: int, c: int, d: u8) -> u8 {
    let i = n / 4;
    let k = n % 4;
    let s = icon_size(k);
    blit_channel(icons[i * 6 + k]@, s, s, zoom_x(k), 8 + i * 200 + 192 - s * 6, 6, x, y, c, d)
}

/// Channel `(x, y, c)` of the enlarged sheet after its first `n` drawing steps.
pub open spec fn zoom_value(icons: Seq<Vec<u8>>, n: nat, x: int, y: int, c: int) -> u8
    decreases n,
{
    if n == 0 {
        opaque_channel(zoom_background(), c)
    } else {
        zoom_step(icons, n - 1, x, y, c, zoom_value(icons, (n - 1) as nat, x, y, c))
    }
}

fn size_at(k: usize) -> (s: u32)
    requires
        k < 6,
    ensures
        s == icon_size(k as int),
{
    let sizes: [u32; 6] = [16, 20, 24, 32, 48, 96];
    sizes[k]
}

fn sheet_x_at(k: usize) -> (x: i32)
    requires
        k < 6,
    ensures
        x == sheet_x(k as int),
{
    let xs: [i32; 6] = [8, 32, 60, 92, 132, 188];
    xs[k]
}

fn zoom_x_at(k: usize) -> (x: i32)
    requires
        k < 4,
    ensures
        x == zoom_x(k as int),
{
    let xs: [i32; 4] = [8, 112, 240, 392];
    xs[k]
}

/// The 1:1 preview sheet (292 × 624): three rows of states on the dark taskbar color, then
/// three on the light one.
pub fn preview_sheet(icons: &Vec<Vec<u8>>) -> (sheet: Canvas)
    requires
        icons_ok(icons@),
    ensures
        sheet.w == 292,
        sheet.h == 624,
        sheet.wf(),
        forall|x: int, y: int, c: int|
            0 <= x < 292 && 0 <= y < 624 && 0 <= c < 4 ==> #[trigger] sheet.at(x, y, c)
                == sheet_value(icons@, 42, x, y, c),
{
    let mut sheet = Canvas::new(292, 624, (0x1F, 0x1F, 0x1F));
    let mut n: usize = 0;
    while n < 42
        invariant
            icons_ok(icons@),
            sheet.w == 292,
            sheet.h == 624,
            sheet.wf(),
            n <= 42,
            forall|x: int, y: int, c: int|
                0 <= x < 292 && 0 <= y < 624 && 0 <= c < 4 ==> #[trigger] sheet.at(x, y, c)
                    == sheet_value(icons@, n as nat, x, y, c),
        decreases 42 - n,
    {
        let r = n / 7;
        let m = n % 7;
        if m == 0 {
            let bg: (u8, u8, u8) = if r < 3 { (0x1F, 0x1F, 0x1F) } else { (0xF3, 0xF3, 0xF3) };
            sheet.fill_rect(0, (r * 104) as i32, 292, 104, bg);
        } else {
            let k = m - 1;
            let s = size_at(k);
            let idx = (r % 3) * 6 + k;
            assert(icons@[idx as int]@.len() == s * s * 4);
            sheet.blit(icons[idx].as_slice(), s, s, sheet_x_at(k), (r * 104) as i32 + ((96 - s) / 2) as i32);
        }
        n = n + 1;
    }
    sheet
}

/// The enlarged preview sheet (592 × 608): sizes 16 to 32 of each state, six times larger.
pub fn zoom_sheet(icons: &Vec<Vec<u8>>) -> (sheet: Canvas)
    requires
        icons_ok(icons@),
    ensures
        sheet.w == 592,
        sheet.h == 608,
        sheet.wf(),
        forall|x: int, y: int, c: int|
            0 <= x < 592 && 0 <= y < 608 && 0 <= c < 4 ==> #[trigger] sheet.at(x, y, c)
                == zoom_value(icons@, 12, x, y, c),
{
    let mut sheet = Canvas::new(592, 608, (0x60, 0x60, 0x60));
    let mut n: usize = 0;
    while n < 12
        invariant
            icons_ok(icons@),
            sheet.w == 592,
            sheet.h == 608,
            sheet.wf(),
            n <= 12,
            forall|x: int, y: int, c: int|
                0 <= x < 592 && 0 <= y < 608 && 0 <= c < 4 ==> #[trigger] sheet.at(x, y, c)
                    == zoom_value(icons@, n as nat, x, y, c),
        decreases 12 - n,
    {
        let i = n / 4;
        let k = n % 4;
        let s = size_at(k);
        let idx = i * 6 + k;
        assert(icons@[idx as int]@.len() == s * s * 4);
        let top: i32 = (8 + i * 200 + 192) as i32 - (s * 6) as i32;
        sheet.blit_zoom(icons[idx].as_slice(), s, s, zoom_x_at(k), top, 6);
        n = n + 1;
    }
    sheet
}

} // verus!
