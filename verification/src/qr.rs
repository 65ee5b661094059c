//! The pairing QR: the `qrcode` crate encodes the URL; here it is drawn as
//! text for the terminal, as SVG for the desktop front, and as RGBA pixels
//! (with the quiet zone and an integer scale) for the host's window.
use vstd::prelude::*;

verus! {

/// The modules of the QR code `qrcode` makes for `data` (medium error
/// correction, smallest version): its width, and the modules row by row,
/// `true` for dark. `None` where the data does not fit.
pub uninterp spec fn qr_modules(data: Seq<char>) -> Option<(usize, Seq<bool>)>;

/// Trusted: `qrcode::QrCode::new(data.as_bytes())`, read back with `width`
/// and `to_colors` (each module `true` when `Color::Dark`); its error turned
/// into `None`. The result is named. The crate's source also shows that the
/// code it picks is a normal QR of version 1 to 40, so `width` is between
/// 21 and 177, and that it holds `width * width` modules.
#[verifier::external_body]
fn qr_matrix(data: &str) -> (r: Option<(usize, Vec<bool>)>)
    ensures
        match qr_modules(data@) {
            Some((w, m)) => r matches Some((rw, rm)) && rw == w && rm@ == m,
            None => r is None,
        },
        r matches Some((w, m)) ==> 21 <= w <= 177 && m@.len() == w * w,
{
    match qrcode::QrCode::new(data.as_bytes()) {
        Ok(code) => Some((code.width(), code.to_colors().into_iter().map(|c| c == qrcode::Color::Dark).collect())),
        Err(_) => None,
    }
}

/// The QR code of `data` drawn by `qrcode`'s `unicode::Dense1x2` renderer
/// (two modules per character, top and bottom) with the given quiet zone
/// and module size. `None` where the data does not fit.
pub uninterp spec fn qr_unicode_text(data: Seq<char>, quiet_zone: bool, module_w: u32, module_h: u32) -> Option<
    Seq<char>,
>;

/// Trusted: `qrcode::QrCode::new(data.as_bytes())`, then
/// `render::<unicode::Dense1x2>()` with `quiet_zone` and
/// `module_dimensions`, and `build`; its error turned into `None`. The
/// result is named. The module size is kept small: `build` multiplies it by
/// the code's width in `u32` (at most 185 modules with the quiet zone), which
/// must not overflow.
#[verifier::external_body]
fn qr_unicode(data: &str, quiet_zone: bool, module_w: u32, module_h: u32) -> (r: Option<String>)
    requires
        1 <= module_w <= 64,
        1 <= module_h <= 64,
    ensures
        match qr_unicode_text(data@, quiet_zone, module_w, module_h) {
            Some(t) => r matches Some(s) && s@ == t,
            None => r is None,
        },
{
    match qrcode::QrCode::new(data.as_bytes()) {
        Ok(code) => Some(
            code.render::<qrcode::render::unicode::Dense1x2>().quiet_zone(quiet_zone).module_dimensions(
                module_w,
                module_h,
            ).build(),
        ),
        Err(_) => None,
    }
}

/// The QR code of `data` drawn as SVG by `qrcode`'s renderer, at least
/// `min_side` pixels a side, with a quiet zone, in the two given colours.
/// `None` where the data does not fit.
pub uninterp spec fn qr_svg_text(data: Seq<char>, min_side: u32, dark: Seq<char>, light: Seq<char>) -> Option<
    Seq<char>,
>;

/// Trusted: `qrcode::QrCode::new(data.as_bytes())`, then
/// `render::<svg::Color>()` with `min_dimensions(min_side, min_side)`,
/// `quiet_zone(true)`, `dark_color` and `light_color`, and `build`; its
/// error turned into `None`. The result is named. The side is kept small:
/// `min_dimensions` adds the code's width to it in `u32`, and `build`
/// multiplies the module size it derives by that width.
#[verifier::external_body]
fn qr_svg_render(data: &str, min_side: u32, dark: &str, light: &str) -> (r: Option<String>)
    requires
        min_side <= 4096,
    ensures
        match qr_svg_text(data@, min_side, dark@, light@) {
            Some(t) => r matches Some(s) && s@ == t,
            None => r is None,
        },
{
    match qrcode::QrCode::new(data.as_bytes()) {
        Ok(code) => Some(
            code.render::<qrcode::render::svg::Color<'_>>().min_dimensions(min_side, min_side).quiet_zone(
                true,
            ).dark_color(qrcode::render::svg::Color(dark)).light_color(qrcode::render::svg::Color(light)).build(),
        ),
        Err(_) => None,
    }
}

/// The QR for the terminal: unicode blocks, with the quiet zone, one
/// character column per module. When the URL is too long for a QR code, a
/// line that points to the URL printed below it.
pub fn qr_ascii(data: &str) -> (s: String)
    ensures
        match qr_unicode_text(data@, true, 1, 1) {
            Some(t) => s@ == t,
            None => s@ == "(QR grande demais para o terminal \u{2014} use a URL abaixo)"@,
        },
{
    match qr_unicode(data, true, 1, 1) {
        Some(t) => t,
        None => "(QR grande demais para o terminal \u{2014} use a URL abaixo)".to_owned(),
    }
}

/// The QR for the desktop front: SVG of at least 232 pixels a side, near
/// black on white; empty when the URL does not fit in a QR code.
pub fn qr_svg(data: &str) -> (s: String)
    ensures
        match qr_svg_text(data@, 232, "#0b0b0f"@, "#ffffff"@) {
            Some(t) => s@ == t,
            None => s@.len() == 0,
        },
{
    match qr_svg_render(data, 232, "#0b0b0f", "#ffffff") {
        Some(t) => t,
        None => String::new(),
    }
}

// ---------------------------------------------------------------------------
// Pixels
// ---------------------------------------------------------------------------

/// Modules of quiet zone around the code.
pub const QUIET: usize = 4;

/// Pixels a side the picture aims at.
pub const TARGET_SIDE: usize = 460;

/// Pixels per module: as many whole pixels as fit the target with the quiet
/// zone, and at least one.
pub open spec fn qr_scale(w: nat) -> nat {
    let m: nat = w + 2 * (QUIET as nat);
    if (TARGET_SIDE as nat) / m >= 1 {
        (TARGET_SIDE as nat) / m
    } else {
        1
    }
}

/// Pixels a side of the picture of a code `w` modules wide.
pub open spec fn qr_side(w: nat) -> nat {
    (w + 2 * (QUIET as nat)) * qr_scale(w)
}

/// Whether module `(mx, my)` of the picture, quiet zone included, is dark.
pub open spec fn module_dark(w: nat, dark: Seq<bool>, mx: int, my: int) -> bool {
    &&& QUIET <= mx < QUIET + w
    &&& QUIET <= my < QUIET + w
    &&& dark[(my - QUIET) * w + (mx - QUIET)]
}

/// Byte `i` of the RGBA picture, row after row: black (opaque) where the
/// pixel falls in a dark module, white elsewhere.
pub open spec fn raster_byte(w: nat, dark: Seq<bool>, i: int) -> u8 {
    let side = qr_side(w);
    let scale = qr_scale(w);
    let p = i / 4;
    let c = i % 4;
    let y = p / side as int;
    let x = p % side as int;
    if module_dark(w, dark, x / scale as int, y / scale as int) && c < 3 {
        0
    } else {
        255
    }
}

/// A QR code as RGBA pixels, `side` × `side`.
#[derive(Debug, Clone)]
pub struct QrPixels {
    pub side: usize,
    pub rgba: Vec<u8>,
}

/// Draws a code `w` modules wide (`dark`, row by row) with its quiet zone,
/// each module a square of whole pixels.
pub fn raster(w: usize, dark: &Vec<bool>) -> (q: QrPixels)
    requires
        0 < w <= 177,
        dark@.len() == w * w,
    ensures
        q.side == qr_side(w as nat),
        q.rgba@.len() == q.side * q.side * 4,
        forall|i: int| 0 <= i < q.rgba@.len() ==> q.rgba@[i] == raster_byte(w as nat, dark@, i),
{
    let m = w + 2 * QUIET;
    assert(TARGET_SIDE / m >= 2) by (nonlinear_arith)
        requires
            0 < m <= 185,
    ;
    let scale: usize = if TARGET_SIDE / m >= 1 { TARGET_SIDE / m } else { 1 };
    assert(m * (TARGET_SIDE / m) <= TARGET_SIDE) by (nonlinear_arith)
        requires
            m > 0,
    ;
    let side = m * scale;
    assert(side > 0) by (nonlinear_arith)
        requires
            side == m * scale,
            m > 0,
            scale > 0,
    ;
    assert(side * side <= TARGET_SIDE * TARGET_SIDE) by (nonlinear_arith)
        requires
            side <= TARGET_SIDE,
    ;
    let total = side * side * 4;
    let mut rgba: Vec<u8> = Vec::new();
    let mut i: usize = 0;
    while i < total
        invariant
            0 < w <= 177,
            dark@.len() == w * w,
            m == w + 2 * QUIET,
            scale == qr_scale(w as nat),
            scale > 0,
            side == qr_side(w as nat),
            side > 0,
            total == side * side * 4,
            i <= total,
            rgba@.len() == i,
            forall|j: int| 0 <= j < i ==> rgba@[j] == raster_byte(w as nat, dark@, j),
        decreases total - i,
    {
        let p = i / 4;
        let c = i % 4;
        let y = p / side;
        let x = p % side;
        let mx = x / scale;
        let my = y / scale;
        let d = if mx >= QUIET && my >= QUIET && mx < QUIET + w && my < QUIET + w {
            let row = my - QUIET;
            let col = mx - QUIET;
            assert(row * w + col < w * w && w * w <= 177 * 177) by (nonlinear_arith)
                requires
                    row < w,
                    col < w,
                    w <= 177,
            ;
            dark[row * w + col]
        } else {
            false
        };
        let b: u8 = if d && c < 3 {
            0
        } else {
            255
        };
        assert(b == raster_byte(w as nat, dark@, i as int));
        rgba.push(b);
        i += 1;
    }
    QrPixels { side, rgba }
}

impl QrPixels {
    /// The pairing URL as pixels for the host's window; a single black
    /// pixel when it does not fit in a QR code.
    pub fn build(data: &str) -> (q: QrPixels)
        ensures
            match qr_modules(data@) {
                Some((w, dark)) => {
                    &&& q.side == qr_side(w as nat)
                    &&& q.rgba@.len() == q.side * q.side * 4
                    &&& forall|i: int| 0 <= i < q.rgba@.len() ==> q.rgba@[i] == raster_byte(w as nat, dark, i)
                },
                None => q.side == 1 && q.rgba@ == seq![0u8, 0u8, 0u8, 255u8],
            },
    {
        match qr_matrix(data) {
            Some((w, dark)) => raster(w, &dark),
            None => {
                let rgba: Vec<u8> = vec![0, 0, 0, 255];
                assert(rgba@ =~= seq![0u8, 0u8, 0u8, 255u8]);
                QrPixels { side: 1, rgba }
            },
        }
    }
}

} // verus!
