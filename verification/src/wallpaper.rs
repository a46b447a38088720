//! The desktop wallpaper: the picture is fitted to the screen once, on the
//! processor, when it is loaded, rather than on every frame. Pictures and
//! canvases are rows of pixels, four bytes (red, green, blue, alpha) a pixel.
//!
//! Where the picture goes (its scale and its top left corner) is worked out in
//! floating point next to the compositor; what is done here with those whole
//! numbers is exact.

use vstd::prelude::*;

verus! {

/// A canvas of `width` × `height` pixels, all of the given colour.
pub fn solid_canvas(width: u32, height: u32, pixel: [u8; 4]) -> (r: Vec<u8>)
    requires
        width * height * 4 <= u32::MAX,
    ensures
        r@.len() == width * height * 4,
        forall|i: int| 0 <= i < r@.len() ==> #[trigger] r@[i] == pixel@[i % 4],
{
    let count: u32 = width * height;
    let mut canvas: Vec<u8> = Vec::new();
    let mut k: u32 = 0;
    while k < count
        invariant
            k <= count == width * height,
            canvas@.len() == k * 4,
            forall|i: int| 0 <= i < canvas@.len() ==> #[trigger] canvas@[i] == pixel@[i % 4],
        decreases count - k,
    {
        let ghost base = canvas@.len() as int;
        canvas.push(pixel[0]);
        canvas.push(pixel[1]);
        canvas.push(pixel[2]);
        canvas.push(pixel[3]);
        proof {
            assert forall|i: int| 0 <= i < canvas@.len() implies #[trigger] canvas@[i] == pixel@[i % 4] by {
                if i >= base {
                    vstd::arithmetic::div_mod::lemma_fundamental_div_mod_converse(i, 4, k as int, i - base);
                }
            }
        }
        k = k + 1;
    }
    canvas
}

/// Which pixel of a picture laid with its top left corner at `(left, top)`
/// covers pixel `p` of a canvas `width` pixels wide, if any.
pub open spec fn source_pixel(p: int, width: int, left: int, top: int, picture_width: int, picture_height: int) -> Option<int> {
    let x = p % width - left;
    let y = p / width - top;
    if 0 <= x < picture_width && 0 <= y < picture_height {
        Some(y * picture_width + x)
    } else {
        None
    }
}

/// Byte `i` of a canvas `width` pixels wide once a picture of
/// `picture_width` × `picture_height` pixels is laid on it with its top left
/// corner at `(left, top)`: the picture's where it covers the canvas, the
/// canvas's own elsewhere. What lies beyond the canvas is cut off.
pub open spec fn laid_byte(
    canvas: Seq<u8>,
    width: int,
    picture: Seq<u8>,
    picture_width: int,
    picture_height: int,
    left: int,
    top: int,
    i: int,
) -> u8 {
    match source_pixel(i / 4, width, left, top, picture_width, picture_height) {
        Some(q) => picture[q * 4 + i % 4],
        None => canvas[i],
    }
}

/// Has the pixel of the picture at `(x, y)` been copied yet, when the rows
/// above `rows` and the first `columns` pixels of row `rows` have.
spec fn copied(x: int, y: int, rows: int, columns: int) -> bool {
    y < rows || (y == rows && x < columns)
}

/// Byte `i` of the canvas while the picture is being laid, row after row.
spec fn partly_laid_byte(
    canvas: Seq<u8>,
    width: int,
    picture: Seq<u8>,
    picture_width: int,
    picture_height: int,
    left: int,
    top: int,
    i: int,
    rows: int,
    columns: int,
) -> u8 {
    let p = i / 4;
    let x = p % width - left;
    let y = p / width - top;
    if 0 <= x < picture_width && 0 <= y < picture_height && copied(x, y, rows, columns) {
        picture[(y * picture_width + x) * 4 + i % 4]
    } else {
        canvas[i]
    }
}

proof fn lemma_pixel_of_byte(i: int, width: int, tx: int, ty: int, c: int)
    requires
        width > 0,
        0 <= tx < width,
        0 <= ty,
        0 <= c < 4,
        i == (ty * width + tx) * 4 + c,
    ensures
        i / 4 == ty * width + tx,
        i % 4 == c,
        (i / 4) % width == tx,
        (i / 4) / width == ty,
{
    vstd::arithmetic::div_mod::lemma_fundamental_div_mod_converse(i, 4, ty * width + tx, c);
    vstd::arithmetic::div_mod::lemma_fundamental_div_mod_converse(ty * width + tx, width, ty, tx);
}

/// Lays a picture of `picture_width` × `picture_height` pixels on a canvas of
/// `width` × `height` pixels, its top left corner at `(left, top)` (which may
/// lie off the canvas: what falls outside is cut off).
pub fn lay_picture(
    canvas: &mut Vec<u8>,
    width: u32,
    height: u32,
    picture: &Vec<u8>,
    picture_width: u32,
    picture_height: u32,
    left: i64,
    top: i64,
)
    requires
        old(canvas)@.len() == width * height * 4,
        width * height * 4 <= i64::MAX,
        picture@.len() == picture_width * picture_height * 4,
        left + picture_width <= i64::MAX,
        top + picture_height <= i64::MAX,
    ensures
        final(canvas)@.len() == old(canvas)@.len(),
        forall|i: int| 0 <= i < final(canvas)@.len() ==> #[trigger] final(canvas)@[i] == laid_byte(
            old(canvas)@,
            width as int,
            picture@,
            picture_width as int,
            picture_height as int,
            left as int,
            top as int,
            i,
        ),
{
    let ghost start = canvas@;
    let ghost w = width as int;
    let ghost pw = picture_width as int;
    let ghost ph = picture_height as int;
    if width == 0 {
        assert forall|i: int| 0 <= i < canvas@.len() implies #[trigger] canvas@[i] == laid_byte(
            start, w, picture@, pw, ph, left as int, top as int, i) by {
            assert(canvas@.len() == 0) by (nonlinear_arith)
                requires
                    canvas@.len() == w * height * 4,
                    w == 0,
            ;
        }
        return;
    }
    let mut y: u32 = 0;
    while y < picture_height
        invariant
            y <= picture_height,
            w == width as int && w > 0,
            pw == picture_width as int,
            ph == picture_height as int,
            canvas@.len() == start.len() == width * height * 4,
            width * height * 4 <= i64::MAX,
            picture@.len() == pw * ph * 4,
            left + picture_width <= i64::MAX,
            top + picture_height <= i64::MAX,
            forall|i: int| 0 <= i < canvas@.len() ==> #[trigger] canvas@[i] == partly_laid_byte(
                start, w, picture@, pw, ph, left as int, top as int, i, y as int, 0),
        decreases picture_height - y,
    {
        let target_y: i64 = y as i64 + top;
        if 0 <= target_y && target_y < height as i64 {
            let mut x: u32 = 0;
            while x < picture_width
                invariant
                    x <= picture_width,
                    y < picture_height,
                    target_y == y + top,
                    0 <= target_y < height,
                    w == width as int && w > 0,
                    pw == picture_width as int,
                    ph == picture_height as int,
                    canvas@.len() == start.len() == width * height * 4,
                    width * height * 4 <= i64::MAX,
                    picture@.len() == pw * ph * 4,
                    left + picture_width <= i64::MAX,
                    forall|i: int| 0 <= i < canvas@.len() ==> #[trigger] canvas@[i] == partly_laid_byte(
                        start, w, picture@, pw, ph, left as int, top as int, i, y as int, x as int),
                decreases picture_width - x,
            {
                let target_x: i64 = x as i64 + left;
                if 0 <= target_x && target_x < width as i64 {
                    assert((target_y * w + target_x) * 4 + 4 <= w * height * 4) by (nonlinear_arith)
                        requires
                            0 <= target_x < w,
                            0 <= target_y < height,
                    ;
                    assert((y * pw + x) * 4 + 4 <= pw * ph * 4) by (nonlinear_arith)
                        requires
                            0 <= x < pw,
                            0 <= y < ph,
                    ;
                    let canvas_len: usize = canvas.len();
                    let at: i64 = (target_y * width as i64 + target_x) * 4;
                    let index: usize = at as usize;
                    assert(index == at);
                    let picture_len: usize = picture.len();
                    assert(y * pw + x <= y * pw + x + 1 <= pw * ph) by (nonlinear_arith)
                        requires
                            0 <= x < pw,
                            0 <= y < ph,
                    ;
                    assert(y * pw <= y * pw + x);
                    let source: usize = ((y as usize) * (picture_width as usize) + (x as usize)) * 4;
                    let ghost before = canvas@;
                    canvas.set(index, picture[source]);
                    canvas.set(index + 1, picture[source + 1]);
                    canvas.set(index + 2, picture[source + 2]);
                    canvas.set(index + 3, picture[source + 3]);
                    proof {
                        assert forall|i: int| 0 <= i < canvas@.len() implies #[trigger] canvas@[i] == partly_laid_byte(
                            start, w, picture@, pw, ph, left as int, top as int, i, y as int, x + 1) by {
                            let p = i / 4;
                            let tx = p % w;
                            let ty = p / w;
                            assert(0 <= p);
                            assert(0 <= tx < w) by {
                                vstd::arithmetic::div_mod::lemma_mod_bound(p, w);
                            }
                            assert(p == ty * w + tx) by {
                                vstd::arithmetic::div_mod::lemma_fundamental_div_mod(p, w);
                            }
                            assert(i == p * 4 + i % 4) by {
                                vstd::arithmetic::div_mod::lemma_fundamental_div_mod(i, 4);
                            }
                            if index <= i < index + 4 {
                                lemma_pixel_of_byte(i, w, target_x as int, target_y as int, i - index);
                                assert(tx == target_x && ty == target_y);
                            } else {
                                assert(canvas@[i] == before[i]);
                                if tx - left == x && ty - top == y {
                                    lemma_pixel_of_byte(index as int, w, target_x as int, target_y as int, 0);
                                    assert(p == index as int / 4);
                                    assert(i / 4 == index as int / 4);
                                    assert(index as int <= i < index as int + 4) by {
                                        vstd::arithmetic::div_mod::lemma_fundamental_div_mod(i, 4);
                                    }
                                }
                            }
                        }
                    }
                } else {
                    proof {
                        assert forall|i: int| 0 <= i < canvas@.len() implies #[trigger] canvas@[i] == partly_laid_byte(
                            start, w, picture@, pw, ph, left as int, top as int, i, y as int, x + 1) by {
                            let p = i / 4;
                            let tx = p % w;
                            assert(0 <= tx < w) by {
                                vstd::arithmetic::div_mod::lemma_mod_bound(p, w);
                            }
                        }
                    }
                }
                x = x + 1;
            }
            proof {
                assert forall|i: int| 0 <= i < canvas@.len() implies #[trigger] canvas@[i] == partly_laid_byte(
                    start, w, picture@, pw, ph, left as int, top as int, i, y + 1, 0) by {
                    assert(partly_laid_byte(start, w, picture@, pw, ph, left as int, top as int, i, y as int, pw)
                        == partly_laid_byte(start, w, picture@, pw, ph, left as int, top as int, i, y + 1, 0));
                }
            }
        } else {
            proof {
                assert forall|i: int| 0 <= i < canvas@.len() implies #[trigger] canvas@[i] == partly_laid_byte(
                    start, w, picture@, pw, ph, left as int, top as int, i, y + 1, 0) by {
                    let p = i / 4;
                    let ty = p / w;
                    assert(0 <= p);
                    assert(0 <= ty);
                    assert(ty < height) by {
                        vstd::arithmetic::div_mod::lemma_fundamental_div_mod(i, 4);
                        vstd::arithmetic::div_mod::lemma_fundamental_div_mod(p, w);
                        vstd::arithmetic::div_mod::lemma_mod_bound(p, w);
                        vstd::arithmetic::div_mod::lemma_mod_bound(i, 4);
                        assert(p < w * height) by (nonlinear_arith)
                            requires
                                i == p * 4 + i % 4,
                                0 <= i % 4,
                                i < w * height * 4,
                        ;
                        assert(ty < height) by (nonlinear_arith)
                            requires
                                p == w * ty + p % w,
                                0 <= p % w,
                                p < w * height,
                                w > 0,
                        ;
                    }
                }
            }
        }
        y = y + 1;
    }
    assert forall|i: int| 0 <= i < canvas@.len() implies #[trigger] canvas@[i] == laid_byte(
        start, w, picture@, pw, ph, left as int, top as int, i) by {
        assert(partly_laid_byte(start, w, picture@, pw, ph, left as int, top as int, i, ph, 0) == laid_byte(
            start, w, picture@, pw, ph, left as int, top as int, i));
    }
}


/// `image::imageops::resize` with the Lanczos3 filter, on an RGBA picture
/// handed over as its bytes. Trusted: the result is a picture of the new size,
/// four bytes a pixel, and a picture without pixels (a side of zero) gives
/// one of zeros. Its other bytes are left unsaid: they come out of
/// floating-point filtering whose sines are the platform's.
#[verifier::external_body]
fn resize_lanczos(picture: &Vec<u8>, width: u32, height: u32, new_width: u32, new_height: u32) -> (r: Vec<u8>)
    requires
        picture@.len() == width * height * 4,
        new_width > 0,
        new_height > 0,
        width * new_height * 16 <= isize::MAX,
        new_width * new_height * 4 <= isize::MAX,
    ensures
        r@.len() == new_width * new_height * 4,
        width == 0 || height == 0 ==> forall|i: int| 0 <= i < r@.len() ==> #[trigger] r@[i] == 0,
{
    match image::RgbaImage::from_raw(width, height, picture.clone()) {
        Some(source) => image::imageops::resize(
            &source,
            new_width,
            new_height,
            image::imageops::FilterType::Lanczos3,
        ).into_raw(),
        None => Vec::new(),
    }
}

/// The picture at the size it is shown at: itself where that size is its
/// own, all zeros where it has no pixels, and otherwise resampled (Lanczos,
/// which looks clearly cleaner on photographs and is done once).
pub fn scaled_picture(
    picture: &Vec<u8>,
    width: u32,
    height: u32,
    scaled_width: u32,
    scaled_height: u32,
) -> (r: Vec<u8>)
    requires
        picture@.len() == width * height * 4,
        scaled_width > 0,
        scaled_height > 0,
        scaled_width != width || scaled_height != height ==> width * scaled_height * 16 <= isize::MAX
            && scaled_width * scaled_height * 4 <= isize::MAX,
    ensures
        r@.len() == scaled_width * scaled_height * 4,
        scaled_width == width && scaled_height == height ==> r@ == picture@,
        width == 0 || height == 0 ==> forall|i: int| 0 <= i < r@.len() ==> #[trigger] r@[i] == 0,
{
    if scaled_width == width && scaled_height == height {
        let r = picture.clone();
        assert(r@ =~= picture@);
        r
    } else {
        resize_lanczos(picture, width, height, scaled_width, scaled_height)
    }
}

/// A picture of `scaled_width` × `scaled_height` pixels that can show the
/// given one at that size: the same bytes where the size is the picture's
/// own.
pub open spec fn shows_picture(
    shown: Seq<u8>,
    picture: Seq<u8>,
    width: u32,
    height: u32,
    scaled_width: u32,
    scaled_height: u32,
) -> bool {
    &&& shown.len() == scaled_width * scaled_height * 4
    &&& (scaled_width == width && scaled_height == height ==> shown == picture)
}

/// Draws a picture of `picture_width` × `picture_height` pixels on a canvas
/// of `width` × `height` pixels, brought to `scaled_width` ×
/// `scaled_height` and laid with its top left corner at `(left, top)`: what
/// falls outside the canvas is cut off. Returns the picture as it was laid,
/// at the shown size.
pub fn draw_picture(
    canvas: &mut Vec<u8>,
    width: u32,
    height: u32,
    picture: &Vec<u8>,
    picture_width: u32,
    picture_height: u32,
    scaled_width: u32,
    scaled_height: u32,
    left: i64,
    top: i64,
) -> (shown: Vec<u8>)
    requires
        old(canvas)@.len() == width * height * 4,
        width * height * 4 <= i64::MAX,
        picture@.len() == picture_width * picture_height * 4,
        scaled_width > 0,
        scaled_height > 0,
        scaled_width != picture_width || scaled_height != picture_height ==> picture_width * scaled_height
            * 16 <= isize::MAX && scaled_width * scaled_height * 4 <= isize::MAX,
        left + scaled_width <= i64::MAX,
        top + scaled_height <= i64::MAX,
    ensures
        shows_picture(shown@, picture@, picture_width, picture_height, scaled_width, scaled_height),
        final(canvas)@.len() == old(canvas)@.len(),
        forall|i: int| 0 <= i < final(canvas)@.len() ==> #[trigger] final(canvas)@[i] == laid_byte(
            old(canvas)@,
            width as int,
            shown@,
            scaled_width as int,
            scaled_height as int,
            left as int,
            top as int,
            i,
        ),
{
    let scaled = scaled_picture(picture, picture_width, picture_height, scaled_width, scaled_height);
    lay_picture(canvas, width, height, &scaled, scaled_width, scaled_height, left, top);
    scaled
}

} // verus!
