//! The pairing QR code as pixels.

use qrcode::QrCode;
use vstd::prelude::*;

verus! {

/// Pixels on each side of a QR module: large enough for phone cameras.
pub const SCALE: usize = 6;

/// The QR code of some bytes at medium error correction: its width in modules,
/// and for each module, row by row, whether it is dark. `None` if the bytes do
/// not fit into a QR code.
pub uninterp spec fn qr_code(data: Seq<u8>) -> Option<(nat, Seq<bool>)>;

/// `QrCode::new`, with its `width` and `to_colors`. The contract names the
/// result, a function of the bytes, and says what every result of it is: a
/// square of modules whose side is that of one of the 40 QR versions.
#[verifier::external_body]
fn qr_modules(data: &[u8]) -> (r: Option<(usize, Vec<bool>)>)
    ensures
        match r {
            Some((width, dark)) => qr_code(data@) == Some((width as nat, dark@)) && 21 <= width
                <= 177 && dark@.len() == width * width,
            None => qr_code(data@) is None,
        },
{
    match QrCode::new(data) {
        Ok(code) => {
            let dark = code.to_colors().iter().map(|c| *c == qrcode::Color::Dark).collect();
            Some((code.width(), dark))
        }
        Err(_) => None,
    }
}

/// The color of pixel number `p` of a picture that is `width` modules wide:
/// whether the module it lies in is dark.
pub open spec fn pixel_dark(width: int, dark: Seq<bool>, p: int) -> bool {
    let dim = width * SCALE;
    let y = p / dim;
    let x = p % dim;
    dark[y / (SCALE as int) * width + x / (SCALE as int)]
}

/// The picture of a QR code, four bytes per pixel: opaque black or white.
pub open spec fn picture(width: int, dark: Seq<bool>) -> Seq<u8> {
    let dim = width * SCALE;
    Seq::new(
        (dim * dim * 4) as nat,
        |k: int|
            if k % 4 == 3 || !pixel_dark(width, dark, k / 4) {
                255u8
            } else {
                0u8
            },
    )
}

/// The module of a pixel is one of the code's.
proof fn lemma_module_in_range(width: int, p: int)
    requires
        0 < width,
        0 <= p < width * SCALE * (width * SCALE),
    ensures
        ({
            let dim = width * SCALE;
            let i = p / dim / (SCALE as int) * width + p % dim / (SCALE as int);
            &&& 0 <= p / dim < dim
            &&& 0 <= p % dim < dim
            &&& 0 <= p / dim / (SCALE as int) < width
            &&& 0 <= p % dim / (SCALE as int) < width
            &&& 0 <= i < width * width
        }),
{
    let dim = width * SCALE;
    let y = p / dim;
    let x = p % dim;
    assert(0 <= y < dim) by (nonlinear_arith)
        requires
            y == p / dim,
            0 <= p < dim * dim,
            dim > 0,
    ;
    assert(0 <= x < dim) by (nonlinear_arith)
        requires
            x == p % dim,
            dim > 0,
    ;
    let r = y / (SCALE as int);
    let c = x / (SCALE as int);
    assert(0 <= r < width);
    assert(0 <= c < width);
    assert(0 <= r * width + c < width * width) by (nonlinear_arith)
        requires
            0 <= r < width,
            0 <= c < width,
    ;
}

/// Paints a QR code: each module becomes a square of pixels.
pub fn paint(width: usize, dark: &[bool]) -> (pixels: Vec<u8>)
    requires
        0 < width,
        dark@.len() == width * width,
        (width * SCALE) * (width * SCALE) * 4 <= usize::MAX,
    ensures
        pixels@ == picture(width as int, dark@),
{
    assert(width * SCALE <= (width * SCALE) * (width * SCALE)) by (nonlinear_arith)
        requires
            0 < width,
    ;
    let dim: usize = width * SCALE;
    let total: usize = dim * dim;
    let modules: usize = dark.len();
    let mut pixels: Vec<u8> = Vec::new();
    let mut p: usize = 0;
    while p < total
        invariant
            0 < width,
            dim == width * SCALE,
            total == dim * dim,
            dark@.len() == width * width,
            p <= total,
            total * 4 <= usize::MAX,
            modules == dark@.len(),
            pixels@.len() == 4 * p,
            forall|k: int| 0 <= k < 4 * p ==> #[trigger] pixels@[k] == picture(width as int, dark@)[k],
        decreases total - p,
    {
        proof {
            lemma_module_in_range(width as int, p as int);
        }
        let ghost before = pixels@;
        let y: usize = p / dim;
        let x: usize = p % dim;
        let row: usize = y / SCALE;
        let col: usize = x / SCALE;
        assert(0 <= row * width) by (nonlinear_arith)
            requires
                0 <= row,
                0 <= width,
        ;
        let shade: u8 = if dark[row * width + col] {
            0
        } else {
            255
        };
        pixels.push(shade);
        pixels.push(shade);
        pixels.push(shade);
        pixels.push(255);
        assert forall|k: int| 0 <= k < 4 * (p + 1) implies #[trigger] pixels@[k] == picture(
            width as int,
            dark@,
        )[k] by {
            if k < 4 * p {
                assert(pixels@[k] == before[k]);
            } else {
                assert(k / 4 == p);
            }
        }
        p += 1;
    }
    assert(pixels@ =~= picture(width as int, dark@));
    pixels
}

/// A picture, four bytes per pixel.
#[derive(Debug)]
pub struct QrImage {
    /// Pixels on each side.
    pub dim: usize,
    pub pixels: Vec<u8>,
}

/// The text does not fit into a QR code.
#[derive(Clone, Copy, Debug, PartialEq, Eq, Structural)]
pub struct QrTooLong;

/// Renders a payload as the picture of its QR code.
pub fn qr_image(payload: &str) -> (r: Result<QrImage, QrTooLong>)
    ensures
        ({
            let code = qr_code(vstd::utf8::encode_utf8(payload@));
            match r {
                Ok(image) => code is Some && image.dim == 6 * code->Some_0.0 && image.dim
                    == code->Some_0.0 * SCALE && image.pixels@
                    == picture(code->Some_0.0 as int, code->Some_0.1),
                Err(_) => code is None,
            }
        }),
        r matches Ok(image) ==> image.pixels@.len() == 4 * (image.dim * image.dim) && image.dim
            % 6 == 0,
{
    match qr_modules(payload.as_bytes()) {
        Some((width, dark)) => {
            assert((width * SCALE) * (width * SCALE) * 4 <= 1062 * 1062 * 4) by (nonlinear_arith)
                requires
                    21 <= width <= 177,
            ;
            Ok(QrImage { dim: width * SCALE, pixels: paint(width, dark.as_slice()) })
        },
        None => Err(QrTooLong),
    }
}

/// All pixels of one module have its color, and every pixel is opaque.
pub proof fn lemma_module_is_uniform(width: int, dark: Seq<bool>, row: int, col: int, dy: int, dx: int)
    requires
        0 < width,
        0 <= row < width,
        0 <= col < width,
        0 <= dy < SCALE,
        0 <= dx < SCALE,
    ensures
        ({
            let dim = width * SCALE;
            let p = (row * SCALE + dy) * dim + (col * SCALE + dx);
            &&& pixel_dark(width, dark, p) == dark[row * width + col]
            &&& 0 <= p < dim * dim
            &&& picture(width, dark)[4 * p] == (if dark[row * width + col] {
                0u8
            } else {
                255u8
            })
            &&& picture(width, dark)[4 * p + 3] == 255u8
        }),
{
    let dim = width * SCALE;
    let y = row * SCALE + dy;
    let x = col * SCALE + dx;
    let p = y * dim + x;
    assert(0 <= y < dim);
    assert(0 <= x < dim);
    assert(p / dim == y && p % dim == x) by (nonlinear_arith)
        requires
            p == y * dim + x,
            0 <= x < dim,
    ;
    assert(0 <= p < dim * dim) by (nonlinear_arith)
        requires
            p == y * dim + x,
            0 <= x < dim,
            0 <= y < dim,
    ;
    assert(y / (SCALE as int) == row);
    assert(x / (SCALE as int) == col);
    assert((4 * p) / 4 == p && (4 * p) % 4 == 0 && (4 * p + 3) % 4 == 3);
}

/// The picture of a code: six by six pixels per module, four bytes per pixel. The
/// three colors of a pixel are 0 where its module is dark and 255 where it is
/// not; the fourth byte is always 255.
pub proof fn lemma_picture(width: int, dark: Seq<bool>, row: int, col: int, dy: int, dx: int)
    requires
        0 < width,
        0 <= row < width,
        0 <= col < width,
        0 <= dy < 6,
        0 <= dx < 6,
    ensures
        ({
            let p = (6 * row + dy) * (6 * width) + (6 * col + dx);
            let shade = if dark[row * width + col] {
                0u8
            } else {
                255u8
            };
            &&& picture(width, dark).len() == 4 * ((6 * width) * (6 * width))
            &&& 0 <= p < (6 * width) * (6 * width)
            &&& picture(width, dark)[4 * p] == shade
            &&& picture(width, dark)[4 * p + 1] == shade
            &&& picture(width, dark)[4 * p + 2] == shade
            &&& picture(width, dark)[4 * p + 3] == 255u8
        }),
{
    lemma_module_is_uniform(width, dark, row, col, dy, dx);
    let dim = width * SCALE;
    let p = (row * SCALE + dy) * dim + (col * SCALE + dx);
    assert(dim == 6 * width);
    assert(row * SCALE + dy == 6 * row + dy);
    assert(col * SCALE + dx == 6 * col + dx);
    assert(dim * dim * 4 == 4 * ((6 * width) * (6 * width))) by (nonlinear_arith)
        requires
            dim == 6 * width,
    ;
    assert(0 <= dim * dim) by (nonlinear_arith);
    assert((4 * p + 1) / 4 == p && (4 * p + 1) % 4 == 1);
    assert((4 * p + 2) / 4 == p && (4 * p + 2) % 4 == 2);
}

} // verus!
