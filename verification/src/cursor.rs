//! The pointer: which frame of a cursor theme to show at a given moment,
//! and the built-in arrow drawn when no theme is found (being left without a
//! pointer is worse than showing the wrong one).
//!
//! Finding a theme on disk and handing frames to the renderer happen next to
//! the compositor; here the bytes of a cursor file become frames, and the
//! choice of a frame works on their numbers.

use vstd::prelude::*;

use crate::text::chars_of;

verus! {

/// What the choice of a frame reads of one frame of a cursor theme.
#[derive(Debug, Clone, Copy, PartialEq, Eq)]
pub struct FrameInfo {
    /// The nominal size the frame was drawn for.
    pub size: u32,
    pub width: u32,
    pub height: u32,
    /// How long the frame stays, in milliseconds.
    pub delay: u32,
}

/// How far a frame's size is from the wanted one, as the sizes compare when
/// taken as `i32`.
pub open spec fn distance(size: u32, frame_size: u32) -> int {
    let d = (size as i32) as int - (frame_size as i32) as int;
    if d < 0 { -d } else { d }
}

/// Comparing the sizes stays within `i32`: the difference and its absolute
/// value fit.
pub open spec fn sizes_comparable(size: u32, frames: Seq<FrameInfo>) -> bool {
    forall|j: int| 0 <= j < frames.len() ==> {
        let d = (size as i32) as int - ((#[trigger] frames[j]).size as i32) as int;
        i32::MIN < d && d <= i32::MAX
    }
}

/// The first frame whose size is nearest to the wanted one.
pub open spec fn nearest_index(size: u32, frames: Seq<FrameInfo>) -> int
    decreases frames.len(),
{
    if frames.len() <= 1 {
        0
    } else {
        let n = nearest_index(size, frames.drop_last());
        if distance(size, frames.last().size) < distance(size, frames[n].size) {
            frames.len() - 1
        } else {
            n
        }
    }
}

/// The indices of the frames of the given dimensions, in order.
pub open spec fn shape_indices(frames: Seq<FrameInfo>, width: u32, height: u32) -> Seq<int>
    decreases frames.len(),
{
    if frames.len() == 0 {
        Seq::empty()
    } else {
        let r = shape_indices(frames.drop_last(), width, height);
        if frames.last().width == width && frames.last().height == height {
            r.push(frames.len() - 1)
        } else {
            r
        }
    }
}

/// The frames of one size, the one nearest to the wanted: those with the
/// dimensions of the first nearest frame.
pub open spec fn candidates(size: u32, frames: Seq<FrameInfo>) -> Seq<int> {
    let n = nearest_index(size, frames);
    shape_indices(frames, frames[n].width, frames[n].height)
}

proof fn lemma_nearest_in_range(size: u32, frames: Seq<FrameInfo>)
    requires
        frames.len() > 0,
    ensures
        0 <= nearest_index(size, frames) < frames.len(),
    decreases frames.len(),
{
    if frames.len() > 1 {
        lemma_nearest_in_range(size, frames.drop_last());
    }
}

proof fn lemma_shape_indices_range(frames: Seq<FrameInfo>, width: u32, height: u32)
    ensures
        forall|k: int| 0 <= k < shape_indices(frames, width, height).len() ==> {
            let j = #[trigger] shape_indices(frames, width, height)[k];
            0 <= j < frames.len() && frames[j].width == width && frames[j].height == height
        },
        forall|j: int| 0 <= j < frames.len() && frames[j].width == width && frames[j].height == height
            ==> #[trigger] shape_indices(frames, width, height).contains(j),
    decreases frames.len(),
{
    if frames.len() > 0 {
        let pre = frames.drop_last();
        lemma_shape_indices_range(pre, width, height);
        let r = shape_indices(pre, width, height);
        assert forall|j: int| 0 <= j < frames.len() && frames[j].width == width && frames[j].height == height
            implies #[trigger] shape_indices(frames, width, height).contains(j) by {
            if j < frames.len() - 1 {
                assert(pre[j] == frames[j]);
                assert(r.contains(j));
                let k = choose|k: int| 0 <= k < r.len() && r[k] == j;
                if frames.last().width == width && frames.last().height == height {
                    assert(r.push(frames.len() - 1)[k] == j);
                }
            } else {
                assert(shape_indices(frames, width, height).last() == j);
            }
        }
    }
}

/// The candidates are frames of the list, and the nearest frame is one of
/// them.
proof fn lemma_candidates_shape(size: u32, frames: Seq<FrameInfo>)
    requires
        frames.len() > 0,
    ensures
        candidates(size, frames).len() > 0,
        forall|k: int| 0 <= k < candidates(size, frames).len() ==> 0 <= #[trigger] candidates(size, frames)[k] < frames.len(),
{
    let n = nearest_index(size, frames);
    lemma_nearest_in_range(size, frames);
    lemma_shape_indices_range(frames, frames[n].width, frames[n].height);
    assert(candidates(size, frames).contains(n));
}

/// Picks the frame under `elapsed` milliseconds into the cycle of the
/// candidates.
pub open spec fn pick(frames: Seq<FrameInfo>, cs: Seq<int>, elapsed: int) -> Option<int>
    decreases cs.len(),
{
    if cs.len() == 0 {
        None
    } else if elapsed < frames[cs[0]].delay {
        Some(cs[0])
    } else {
        pick(frames, cs.drop_first(), elapsed - frames[cs[0]].delay)
    }
}

/// The sum of the delays of the candidates.
pub open spec fn delay_total(frames: Seq<FrameInfo>, cs: Seq<int>) -> int
    decreases cs.len(),
{
    if cs.len() == 0 {
        0
    } else {
        delay_total(frames, cs.drop_last()) + frames[cs.last()].delay
    }
}

/// The frame to show `millis` milliseconds into the session: animated
/// cursors (such as "busy") change frames by the delays the theme gives,
/// round and round; a cursor whose delays are all zero stays on its first
/// frame.
pub open spec fn frame_at(size: u32, frames: Seq<FrameInfo>, millis: u128) -> int {
    let cs = candidates(size, frames);
    let total = delay_total(frames, cs);
    if total == 0 {
        cs[0]
    } else {
        match pick(frames, cs, ((millis as u32) as int) % total) {
            Some(i) => i,
            None => cs[0],
        }
    }
}

/// The frames of the size nearest to the wanted one, in order.
pub fn nearest_frames(size: u32, frames: &[FrameInfo]) -> (r: Vec<usize>)
    requires
        frames@.len() > 0,
        sizes_comparable(size, frames@),
    ensures
        r@.len() == candidates(size, frames@).len(),
        forall|k: int| 0 <= k < r@.len() ==> #[trigger] r@[k] as int == candidates(size, frames@)[k],
{
    let ghost fs = frames@;
    let mut n: usize = 0;
    let mut best: u32 = abs_diff(size, frames[0].size);
    let mut j: usize = 1;
    assert(fs.take(1).drop_last().len() == 0);
    while j < frames.len()
        invariant
            1 <= j <= fs.len(),
            fs == frames@,
            sizes_comparable(size, fs),
            n == nearest_index(size, fs.take(j as int)),
            0 <= n < j,
            best == distance(size, fs[n as int].size),
        decreases fs.len() - j,
    {
        assert(fs.take(j + 1).drop_last() =~= fs.take(j as int));
        assert(fs.take(j as int)[n as int] == fs[n as int]);
        let d = abs_diff(size, frames[j].size);
        if d < best {
            n = j;
            best = d;
        }
        j = j + 1;
    }
    assert(fs.take(fs.len() as int) =~= fs);
    let width = frames[n].width;
    let height = frames[n].height;
    let mut r: Vec<usize> = Vec::new();
    let mut i: usize = 0;
    while i < frames.len()
        invariant
            i <= fs.len(),
            fs == frames@,
            width == fs[nearest_index(size, fs)].width,
            height == fs[nearest_index(size, fs)].height,
            r@.len() == shape_indices(fs.take(i as int), width, height).len(),
            forall|k: int| 0 <= k < r@.len() ==> #[trigger] r@[k] as int == shape_indices(fs.take(i as int), width, height)[k],
        decreases fs.len() - i,
    {
        assert(fs.take(i + 1).drop_last() =~= fs.take(i as int));
        assert(fs.take(i + 1).last() == fs[i as int]);
        if frames[i].width == width && frames[i].height == height {
            r.push(i);
        }
        i = i + 1;
    }
    assert(fs.take(fs.len() as int) =~= fs);
    r
}

/// How far apart two sizes are, compared as `i32`.
fn abs_diff(size: u32, frame_size: u32) -> (r: u32)
    requires
        i32::MIN < (size as i32) as int - (frame_size as i32) as int <= i32::MAX,
    ensures
        r == distance(size, frame_size),
{
    let a = size as i32;
    let b = frame_size as i32;
    let d = a - b;
    if d < 0 { (-d) as u32 } else { d as u32 }
}

/// Which frame to show `millis` milliseconds into the session.
pub fn frame_index(size: u32, frames: &[FrameInfo], millis: u128) -> (r: usize)
    requires
        frames@.len() > 0,
        sizes_comparable(size, frames@),
        delay_total(frames@, candidates(size, frames@)) <= u32::MAX,
    ensures
        r == frame_at(size, frames@, millis),
        r < frames@.len(),
{
    let ghost fs = frames@;
    let cs = nearest_frames(size, frames);
    let ghost cv = candidates(size, fs);
    proof {
        lemma_candidates_shape(size, fs);
        assert(cs@[0] as int == cv[0]);
    }
    let mut total: u32 = 0;
    let mut k: usize = 0;
    while k < cs.len()
        invariant
            k <= cs@.len() == cv.len(),
            fs == frames@,
            cv == candidates(size, fs),
            forall|m: int| 0 <= m < cs@.len() ==> #[trigger] cs@[m] as int == cv[m],
            forall|m: int| 0 <= m < cv.len() ==> 0 <= #[trigger] cv[m] < fs.len(),
            total == delay_total(fs, cv.take(k as int)),
            delay_total(fs, cv) <= u32::MAX,
        decreases cs@.len() - k,
    {
        assert(cv.take(k + 1).drop_last() =~= cv.take(k as int));
        assert(cv.take(k + 1).last() == cv[k as int]);
        proof {
            lemma_delay_total_prefix(fs, cv, k + 1);
        }
        total = total + frames[cs[k]].delay;
        k = k + 1;
    }
    assert(cv.take(cv.len() as int) =~= cv);
    if total == 0 {
        return cs[0];
    }
    let mut elapsed: u32 = (millis as u32) % total;
    let mut m: usize = 0;
    assert(cv.skip(0) =~= cv);
    while m < cs.len()
        invariant
            m <= cs@.len() == cv.len(),
            fs == frames@,
            cv == candidates(size, fs),
            forall|q: int| 0 <= q < cs@.len() ==> #[trigger] cs@[q] as int == cv[q],
            forall|q: int| 0 <= q < cv.len() ==> 0 <= #[trigger] cv[q] < fs.len(),
            total > 0,
            total == delay_total(fs, cv),
            pick(fs, cv, ((millis as u32) as int) % (total as int)) == pick(fs, cv.skip(m as int), elapsed as int),
        decreases cs@.len() - m,
    {
        let index = cs[m];
        let ghost rest = cv.skip(m as int);
        assert(rest[0] == cv[m as int]);
        assert(rest.drop_first() =~= cv.skip(m + 1));
        if elapsed < frames[index].delay {
            return index;
        }
        elapsed = elapsed - frames[index].delay;
        m = m + 1;
    }
    assert(cv.skip(cv.len() as int).len() == 0);
    cs[0]
}

proof fn lemma_delay_total_prefix(frames: Seq<FrameInfo>, cs: Seq<int>, k: int)
    requires
        0 <= k <= cs.len(),
    ensures
        delay_total(frames, cs.take(k)) <= delay_total(frames, cs),
    decreases cs.len(),
{
    if k < cs.len() {
        lemma_delay_total_prefix(frames, cs.drop_last(), k);
        assert(cs.drop_last().take(k) =~= cs.take(k));
    } else {
        assert(cs.take(k) =~= cs);
    }
}

proof fn lemma_delay_total_nonneg(frames: Seq<FrameInfo>, cs: Seq<int>)
    ensures
        delay_total(frames, cs) >= 0,
    decreases cs.len(),
{
    if cs.len() > 0 {
        lemma_delay_total_nonneg(frames, cs.drop_last());
    }
}

/// A cursor whose frames have no delays shows the same frame at every
/// moment.
pub proof fn law_still_cursor_keeps_its_frame(size: u32, frames: Seq<FrameInfo>, t1: u128, t2: u128)
    requires
        delay_total(frames, candidates(size, frames)) == 0,
    ensures
        frame_at(size, frames, t1) == frame_at(size, frames, t2),
{
}

/// An animated cursor starts over after a full round of its delays.
pub proof fn law_frames_cycle(size: u32, frames: Seq<FrameInfo>, t: u128)
    requires
        (t as u32) + delay_total(frames, candidates(size, frames)) <= u32::MAX,
        t + delay_total(frames, candidates(size, frames)) <= u128::MAX,
    ensures
        frame_at(size, frames, (t + delay_total(frames, candidates(size, frames))) as u128) == frame_at(size, frames, t),
{
    let total = delay_total(frames, candidates(size, frames));
    lemma_delay_total_nonneg(frames, candidates(size, frames));
    if total > 0 {
        let tt: u128 = total as u128;
        let later: u128 = (t + total) as u128;
        assert(later == t + tt);
        assert((t as u32) + tt <= 0xffff_ffffu128);
        assert(((later as u32) as u128) == (t as u32) as u128 + tt) by (bit_vector)
            requires
                later == t + tt,
                (t as u32) + tt <= 0xffff_ffffu128,
                tt <= 0xffff_ffffu128,
        ;
        assert((later as u32) as int == (t as u32) as int + total);
        vstd::arithmetic::div_mod::lemma_mod_add_multiples_vanish((t as u32) as int, total);
        assert(((later as u32) as int) % total == ((t as u32) as int) % total);
        let cs = candidates(size, frames);
        assert(frame_at(size, frames, later) == match pick(frames, cs, ((later as u32) as int) % total) {
            Some(i) => i,
            None => cs[0],
        });
        assert(frame_at(size, frames, t) == match pick(frames, cs, ((t as u32) as int) % total) {
            Some(i) => i,
            None => cs[0],
        });
        assert(later == (t + delay_total(frames, candidates(size, frames))) as u128);
    }
}


/// The built-in arrow as a map of symbols: `#` is the black outline, `.` the
/// white fill, a space is transparent. The shape can be read and mended right
/// here, without an image editor.
pub open spec fn arrow_rows() -> Seq<Seq<char>> {
    seq![
        "#                       "@,
        "##                      "@,
        "#.#                     "@,
        "#..#                    "@,
        "#...#                   "@,
        "#....#                  "@,
        "#.....#                 "@,
        "#......#                "@,
        "#.......#               "@,
        "#........#              "@,
        "#.........#             "@,
        "#..........#            "@,
        "#...........#           "@,
        "#............#          "@,
        "#.....########          "@,
        "#..#..#                 "@,
        "#.# #..#                "@,
        "##  #..#                "@,
        "#    #..#               "@,
        "     #..#               "@,
        "      #.#               "@,
        "      ###               "@,
        "                        "@,
        "                        "@,
    ]
}

fn arrow_row_list() -> (r: Vec<&'static str>)
    ensures
        r@.len() == arrow_rows().len(),
        forall|i: int| 0 <= i < r@.len() ==> #[trigger] r@[i]@ == arrow_rows()[i],
{
    let r: Vec<&'static str> = vec![
        "#                       ",
        "##                      ",
        "#.#                     ",
        "#..#                    ",
        "#...#                   ",
        "#....#                  ",
        "#.....#                 ",
        "#......#                ",
        "#.......#               ",
        "#........#              ",
        "#.........#             ",
        "#..........#            ",
        "#...........#           ",
        "#............#          ",
        "#.....########          ",
        "#..#..#                 ",
        "#.# #..#                ",
        "##  #..#                ",
        "#    #..#               ",
        "     #..#               ",
        "      #.#               ",
        "      ###               ",
        "                        ",
        "                        ",
    ];
    r
}

/// Every row of the arrow is as wide as the arrow is tall.
proof fn lemma_arrow_is_square()
    ensures
        arrow_rows().len() == 24,
        forall|i: int| 0 <= i < 24 ==> (#[trigger] arrow_rows()[i]).len() == 24,
{
    reveal_strlit("#                       ");
    reveal_strlit("##                      ");
    reveal_strlit("#.#                     ");
    reveal_strlit("#..#                    ");
    reveal_strlit("#...#                   ");
    reveal_strlit("#....#                  ");
    reveal_strlit("#.....#                 ");
    reveal_strlit("#......#                ");
    reveal_strlit("#.......#               ");
    reveal_strlit("#........#              ");
    reveal_strlit("#.........#             ");
    reveal_strlit("#..........#            ");
    reveal_strlit("#...........#           ");
    reveal_strlit("#............#          ");
    reveal_strlit("#.....########          ");
    reveal_strlit("#..#..#                 ");
    reveal_strlit("#.# #..#                ");
    reveal_strlit("##  #..#                ");
    reveal_strlit("#    #..#               ");
    reveal_strlit("     #..#               ");
    reveal_strlit("      #.#               ");
    reveal_strlit("      ###               ");
    reveal_strlit("                        ");
    reveal_strlit("                        ");
}

/// The arrow is enlarged by a whole factor rather than smoothed: it has no
/// half-tones, and sharp edges look better than blurred ones. The factor is
/// the wanted size over the arrow's own, at least one.
pub open spec fn arrow_scale(size: u32) -> int {
    if size / 24 >= 1 {
        (size / 24) as int
    } else {
        1
    }
}

/// A channel of a pixel of a symbol: black, white, or transparent.
pub open spec fn symbol_channel(symbol: char, channel: int) -> u8 {
    if symbol == '#' {
        if channel == 3 { 255 } else { 0 }
    } else if symbol == '.' {
        255
    } else {
        0
    }
}

/// Byte `i` of the arrow drawn at the given scale and width, four bytes
/// (red, green, blue, alpha) per pixel, row after row.
pub open spec fn arrow_byte(scale: int, width: int, i: int) -> u8 {
    let p = i / 4;
    let y = p / width;
    let x = p % width;
    symbol_channel(arrow_rows()[y / scale][x / scale], i % 4)
}

/// The built-in arrow drawn for the wanted size: its tip, the top left
/// corner, is the point of the pointer, and it stays put.
pub open spec fn is_arrow(image: CursorImageView, size: u32) -> bool {
    &&& image.size == size
    &&& image.width == 24 * arrow_scale(size)
    &&& image.height == 24 * arrow_scale(size)
    &&& image.xhot == 0 && image.yhot == 0 && image.delay == 0
    &&& image.pixels_rgba.len() == image.width * image.height * 4
    &&& forall|i: int| 0 <= i < image.pixels_rgba.len() ==>
            #[trigger] image.pixels_rgba[i] == arrow_byte(arrow_scale(size), image.width as int, i)
}

/// A cursor image as the renderer takes it.
#[derive(Debug, Clone, PartialEq, Eq)]
pub struct CursorImage {
    pub size: u32,
    pub width: u32,
    pub height: u32,
    pub xhot: u32,
    pub yhot: u32,
    pub delay: u32,
    pub pixels_rgba: Vec<u8>,
}

/// Draws the built-in arrow for the wanted size; its tip, the top left
/// corner, is the point of the pointer.
pub fn fallback_image(size: u32) -> (r: CursorImage)
    requires
        2304 * arrow_scale(size) * arrow_scale(size) <= u32::MAX,
    ensures
        is_arrow(r@, size),
{
    proof {
        lemma_arrow_is_square();
    }
    let rows = arrow_row_list();
    let mut table: Vec<Vec<char>> = Vec::new();
    let mut k: usize = 0;
    while k < rows.len()
        invariant
            k <= rows@.len() == 24,
            table@.len() == k,
            forall|i: int| 0 <= i < rows@.len() ==> #[trigger] rows@[i]@ == arrow_rows()[i],
            forall|i: int| 0 <= i < k ==> #[trigger] table@[i]@ == arrow_rows()[i],
        decreases rows@.len() - k,
    {
        table.push(chars_of(rows[k]));
        k = k + 1;
    }
    let scale: u32 = if size / 24 >= 1 { size / 24 } else { 1 };
    assert(scale == arrow_scale(size));
    assert(24 * scale <= 0xffff_ffffint) by (nonlinear_arith)
        requires
            scale >= 1,
            2304 * scale * scale <= u32::MAX,
    ;
    let width: u32 = 24 * scale;
    let height: u32 = 24 * scale;
    let ghost w = width as int;
    let mut pixels: Vec<u8> = Vec::new();
    let mut y: u32 = 0;
    while y < height
        invariant
            y <= height == width == 24 * scale,
            w == width as int,
            scale >= 1,
            scale == arrow_scale(size),
            table@.len() == 24,
            forall|i: int| 0 <= i < 24 ==> #[trigger] table@[i]@ == arrow_rows()[i],
            forall|i: int| 0 <= i < 24 ==> (#[trigger] arrow_rows()[i]).len() == 24,
            pixels@.len() == y * w * 4,
            forall|i: int| 0 <= i < pixels@.len() ==> #[trigger] pixels@[i] == arrow_byte(scale as int, w, i),
        decreases height - y,
    {
        assert(y / scale < 24) by (nonlinear_arith)
            requires
                y < 24 * scale,
                scale >= 1,
        ;
        let row = &table[(y / scale) as usize];
        assert(row@ == arrow_rows()[(y / scale) as int]);
        let mut x: u32 = 0;
        while x < width
            invariant
                x <= width == 24 * scale,
                y < height == width,
                w == width as int,
                scale >= 1,
                row@ == arrow_rows()[(y / scale) as int],
                row@.len() == 24,
                pixels@.len() == (y * w + x) * 4,
                forall|i: int| 0 <= i < pixels@.len() ==> #[trigger] pixels@[i] == arrow_byte(scale as int, w, i),
            decreases width - x,
        {
            assert(x / scale < 24) by (nonlinear_arith)
                requires
                    x < 24 * scale,
                    scale >= 1,
            ;
            let symbol = row[(x / scale) as usize];
            let (red, green, blue, alpha): (u8, u8, u8, u8) = if symbol == '#' {
                (0, 0, 0, 255)
            } else if symbol == '.' {
                (255, 255, 255, 255)
            } else {
                (0, 0, 0, 0)
            };
            let ghost p = y * w + x;
            let ghost base = pixels@.len() as int;
            proof {
                vstd::arithmetic::div_mod::lemma_fundamental_div_mod_converse(p, w, y as int, x as int);
                assert forall|c: int| 0 <= c < 4 implies #[trigger] arrow_byte(scale as int, w, base + c) == symbol_channel(symbol, c) by {
                    vstd::arithmetic::div_mod::lemma_fundamental_div_mod_converse(base + c, 4, p, c);
                }
            }
            pixels.push(red);
            pixels.push(green);
            pixels.push(blue);
            pixels.push(alpha);
            proof {
                assert forall|i: int| 0 <= i < pixels@.len() implies #[trigger] pixels@[i] == arrow_byte(scale as int, w, i) by {
                    if i >= base {
                        assert(arrow_byte(scale as int, w, i) == symbol_channel(symbol, i - base));
                    }
                }
                assert(pixels@.len() == (y * w + x + 1) * 4) by (nonlinear_arith)
                    requires
                        pixels@.len() == base + 4,
                        base == (y * w + x) * 4,
                ;
            }
            x = x + 1;
        }
        assert(pixels@.len() == (y + 1) * w * 4) by (nonlinear_arith)
            requires
                pixels@.len() == (y * w + w) * 4,
        ;
        y = y + 1;
    }
    assert(pixels@.len() == w * w * 4);
    CursorImage { size, width, height, xhot: 0, yhot: 0, delay: 0, pixels_rgba: pixels }
}


/// What the contracts read of a cursor image.
pub struct CursorImageView {
    pub size: u32,
    pub width: u32,
    pub height: u32,
    pub xhot: u32,
    pub yhot: u32,
    pub delay: u32,
    pub pixels_rgba: Seq<u8>,
}

impl View for CursorImage {
    type V = CursorImageView;

    open spec fn view(&self) -> CursorImageView {
        CursorImageView {
            size: self.size,
            width: self.width,
            height: self.height,
            xhot: self.xhot,
            yhot: self.yhot,
            delay: self.delay,
            pixels_rgba: self.pixels_rgba@,
        }
    }
}

/// The images of a list, each by its view.
pub open spec fn image_views(images: Seq<CursorImage>) -> Seq<CursorImageView> {
    images.map_values(|image: CursorImage| image@)
}

/// A list of images that may be missing, each by its view.
pub open spec fn images_view(images: Option<Vec<CursorImage>>) -> Option<Seq<CursorImageView>> {
    match images {
        Some(v) => Some(image_views(v@)),
        None => None,
    }
}

/// An image as a cursor file may hold it: at most `0x7fff` pixels each way
/// and at least one, the point of the pointer inside, four bytes a pixel.
pub open spec fn is_sound_image(image: CursorImageView) -> bool {
    &&& 0 < image.width <= 0x7fff
    &&& 0 < image.height <= 0x7fff
    &&& image.xhot <= image.width
    &&& image.yhot <= image.height
    &&& image.pixels_rgba.len() == 4 * image.width * image.height
}

/// The images that the cursor-file parser reads from these bytes, or `None`
/// where it refuses them.
pub uninterp spec fn xcursor_images(data: Seq<u8>) -> Option<Seq<CursorImageView>>;

/// `xcursor::parser::parse_xcursor`, with each image handed out as a
/// `CursorImage` (the ARGB copy of the pixels is left behind). Trusted: the
/// result is the parser's reading of these bytes, and every image it returns
/// has passed the parser's own checks on its size, its point and the number
/// of its pixel bytes.
#[verifier::external_body]
fn parse_xcursor(data: &[u8]) -> (r: Option<Vec<CursorImage>>)
    ensures
        images_view(r) == xcursor_images(data@),
        r matches Some(images) ==> forall|i: int| 0 <= i < images@.len() ==> is_sound_image(#[trigger] images@[i]@),
{
    xcursor::parser::parse_xcursor(data).map(|images| images.into_iter().map(|image| CursorImage {
        size: image.size,
        width: image.width,
        height: image.height,
        xhot: image.xhot,
        yhot: image.yhot,
        delay: image.delay,
        pixels_rgba: image.pixels_rgba,
    }).collect())
}

/// What a theme offers of a parsed cursor file: its images, if it holds one
/// at least.
pub open spec fn kept_frames(parsed: Option<Seq<CursorImageView>>) -> Option<Seq<CursorImageView>> {
    match parsed {
        Some(images) => if images.len() > 0 { Some(images) } else { None },
        None => None,
    }
}

/// Keeps what the parser returned if it holds an image at least: a file
/// without images is as good as no file.
pub fn usable_frames(parsed: Option<Vec<CursorImage>>) -> (r: Option<Vec<CursorImage>>)
    ensures
        r == (match parsed {
            Some(images) => if images@.len() > 0 { Some(images) } else { None },
            None => None,
        }),
        images_view(r) == kept_frames(images_view(parsed)),
{
    match parsed {
        Some(images) => {
            if images.len() > 0 {
                Some(images)
            } else {
                None
            }
        },
        None => None,
    }
}

/// The frames of a cursor file, read from its bytes: `None` where the bytes
/// are not a cursor file or hold no image.
pub fn theme_frames(data: &[u8]) -> (r: Option<Vec<CursorImage>>)
    ensures
        images_view(r) == kept_frames(xcursor_images(data@)),
        r matches Some(images) ==> images@.len() > 0 && forall|i: int|
            0 <= i < images@.len() ==> is_sound_image(#[trigger] images@[i]@),
{
    usable_frames(parse_xcursor(data))
}

/// What choosing a frame reads of an image.
pub open spec fn info_of(image: CursorImage) -> FrameInfo {
    FrameInfo { size: image.size, width: image.width, height: image.height, delay: image.delay }
}

/// A loaded pointer: the frames of its theme, or the built-in arrow, and the
/// size it is shown at.
pub struct Cursor {
    pub frames: Vec<CursorImage>,
    pub size: u32,
}

impl Cursor {
    /// What choosing a frame reads of the frames.
    pub open spec fn infos(&self) -> Seq<FrameInfo> {
        Seq::new(self.frames@.len(), |i: int| info_of(self.frames@[i]))
    }

    /// A frame can be chosen: there is one at least, the sizes compare as
    /// `i32`, and the delays of the frames of one size add up within `u32`.
    pub open spec fn is_showable(&self) -> bool {
        &&& self.frames@.len() > 0
        &&& sizes_comparable(self.size, self.infos())
        &&& delay_total(self.infos(), candidates(self.size, self.infos())) <= u32::MAX
    }

    /// The pointer at the wanted size (one pixel at least): the frames the
    /// theme offered, or the built-in arrow where it offered none.
    pub fn from_theme(theme: Option<Vec<CursorImage>>, size: u32) -> (r: Cursor)
        requires
            theme is None ==> 2304 * arrow_scale(size) * arrow_scale(size) <= u32::MAX,
        ensures
            r.size == (if size == 0 { 1 } else { size }),
            theme matches Some(images) ==> r.frames@ == images@,
            theme is None ==> r.frames@.len() == 1 && is_arrow(r.frames@[0]@, r.size),
            theme is None ==> r.is_showable(),
    {
        let size: u32 = if size == 0 { 1 } else { size };
        let frames = match theme {
            Some(images) => images,
            None => {
                let mut arrow: Vec<CursorImage> = Vec::new();
                arrow.push(fallback_image(size));
                arrow
            },
        };
        let r = Cursor { frames, size };
        proof {
            if theme is None {
                // One still frame: it is its own only candidate, with no delay.
                let infos = r.infos();
                assert(infos.drop_last().len() == 0);
                assert(shape_indices(infos.drop_last(), infos[0].width, infos[0].height).len() == 0);
                assert(candidates(size, infos) =~= seq![0int]);
                assert(seq![0int].drop_last().len() == 0);
                assert(delay_total(infos, seq![0int].drop_last()) == 0);
                assert(infos[0].delay == 0);
                assert(delay_total(infos, seq![0int]) == 0);
                assert(sizes_comparable(size, infos));
            }
        }
        r
    }

    fn infos_vec(&self) -> (r: Vec<FrameInfo>)
        ensures
            r@ == self.infos(),
    {
        let mut r: Vec<FrameInfo> = Vec::new();
        let mut i: usize = 0;
        while i < self.frames.len()
            invariant
                i <= self.frames@.len(),
                r@ =~= self.infos().take(i as int),
            decreases self.frames@.len() - i,
        {
            let image = &self.frames[i];
            r.push(FrameInfo { size: image.size, width: image.width, height: image.height, delay: image.delay });
            i = i + 1;
        }
        assert(self.infos().take(i as int) =~= self.infos());
        r
    }

    /// The frame to show `millis` milliseconds into the session.
    pub fn frame(&self, millis: u128) -> (r: &CursorImage)
        requires
            self.is_showable(),
        ensures
            *r == self.frames@[frame_at(self.size, self.infos(), millis)],
    {
        let infos = self.infos_vec();
        let index = frame_index(self.size, infos.as_slice(), millis);
        &self.frames[index]
    }
}

} // verus!
