//! Pictures as rows of pixels: decoding them, cutting them, and the size of avatars.

use vstd::prelude::*;

verus! {

/// A picture with four bytes a pixel, the last of which says how opaque it is.
pub struct Picture {
    pub rgba: Vec<u8>,
    pub width: u32,
    pub height: u32,
}

/// A picture as mathematical data.
#[verifier::ext_equal]
pub struct PictureData {
    pub rgba: Seq<u8>,
    pub width: u32,
    pub height: u32,
}

impl View for Picture {
    type V = PictureData;

    open spec fn view(&self) -> PictureData {
        PictureData { rgba: self.rgba@, width: self.width, height: self.height }
    }
}

impl PictureData {
    /// There are four bytes for each pixel.
    pub open spec fn wf(self) -> bool {
        self.rgba.len() == 4 * (self.width * self.height)
    }

    /// Where the pixel in a column and row begins.
    pub open spec fn offset(self, x: int, y: int) -> int {
        4 * (y * self.width + x)
    }

    /// Whether a pixel can be seen.
    pub open spec fn visible(self, x: int, y: int) -> bool {
        &&& 0 <= x < self.width
        &&& 0 <= y < self.height
        &&& self.rgba[self.offset(x, y) + 3] > 0
    }
}

proof fn offset_in_range(p: PictureData, x: int, y: int)
    requires
        p.wf(),
        0 <= x < p.width,
        0 <= y < p.height,
    ensures
        0 <= p.offset(x, y),
        p.offset(x, y) + 4 <= p.rgba.len(),
{
    assert(0 <= y * p.width && y * p.width + x + 1 <= p.width * p.height) by (nonlinear_arith)
        requires
            0 <= x < p.width,
            0 <= y < p.height,
    ;
}

/// A rectangle of pixels, with its last column and row.
pub struct Area {
    pub left: u32,
    pub top: u32,
    pub right: u32,
    pub bottom: u32,
}

/// Whether an area is the smallest that holds every visible pixel, of which there is one.
pub open spec fn bounds(p: PictureData, a: Area) -> bool {
    &&& forall|x: int, y: int| #[trigger]
        p.visible(x, y) ==> a.left <= x <= a.right && a.top <= y <= a.bottom
    &&& exists|y: int| #[trigger] p.visible(a.left as int, y)
    &&& exists|y: int| #[trigger] p.visible(a.right as int, y)
    &&& exists|x: int| #[trigger] p.visible(x, a.top as int)
    &&& exists|x: int| #[trigger] p.visible(x, a.bottom as int)
}

/// There is only one such area.
pub proof fn bounds_are_unique(p: PictureData, a: Area, b: Area)
    requires
        bounds(p, a),
        bounds(p, b),
    ensures
        a == b,
{
}

/// Whether no pixel can be seen.
pub open spec fn blank(p: PictureData) -> bool {
    forall|x: int, y: int| !#[trigger] p.visible(x, y)
}

/// The part of a row that lies in an area.
pub open spec fn row_of(p: PictureData, a: Area, y: int) -> Seq<u8> {
    p.rgba.subrange(p.offset(a.left as int, y), p.offset(a.right as int, y) + 4)
}

/// The first `n` rows of an area, one after the other.
pub open spec fn rows_of(p: PictureData, a: Area, n: int) -> Seq<u8>
    decreases n,
{
    if n <= 0 {
        seq![]
    } else {
        rows_of(p, a, n - 1) + row_of(p, a, a.top + n - 1)
    }
}

/// The part of a picture that lies in an area.
pub open spec fn cut_to(p: PictureData, a: Area) -> PictureData {
    PictureData {
        rgba: rows_of(p, a, a.bottom - a.top + 1),
        width: (a.right - a.left + 1) as u32,
        height: (a.bottom - a.top + 1) as u32,
    }
}

/// A picture without its transparent border. One on which nothing can be seen stays whole.
pub open spec fn without_border(p: PictureData, r: PictureData) -> bool {
    if blank(p) {
        r == p
    } else {
        exists|a: Area| #[trigger] bounds(p, a) && r == cut_to(p, a)
    }
}

fn opacity(p: &Picture, x: u32, y: u32) -> (r: u8)
    requires
        p@.wf(),
        x < p.width,
        y < p.height,
    ensures
        r == p@.rgba[p@.offset(x as int, y as int) + 3],
{
    proof {
        offset_in_range(p@, x as int, y as int);
        assert(0 <= y * p.width <= y * p.width + x) by (nonlinear_arith)
            requires
                0 <= x,
                0 <= y,
                0 <= p.width,
        ;
    }
    let n: usize = p.rgba.len();
    assert(p@.offset(x as int, y as int) + 4 <= n);
    let row: usize = y as usize * p.width as usize;
    p.rgba[(row + x as usize) * 4 + 3]
}

/// Whether a pixel comes before another, row by row.
spec fn passed(u: int, v: int, x: int, y: int) -> bool {
    v < y || (v == y && u < x)
}

/// What is known of the pixels before one: `seen` says whether one was visible, and the
/// area holds all that were.
spec fn bounds_so_far(p: PictureData, a: Area, seen: bool, x: int, y: int) -> bool {
    &&& forall|u: int, v: int| #[trigger]
        p.visible(u, v) && passed(u, v, x, y) ==> seen && a.left <= u <= a.right && a.top <= v
            <= a.bottom
    &&& seen ==> exists|v: int| #[trigger] p.visible(a.left as int, v)
    &&& seen ==> exists|v: int| #[trigger] p.visible(a.right as int, v)
    &&& seen ==> exists|u: int| #[trigger] p.visible(u, a.top as int)
    &&& seen ==> exists|u: int| #[trigger] p.visible(u, a.bottom as int)
}

/// The area grown to hold one more pixel; the first pixel makes an area of its own.
fn grown(a: &Area, seen: bool, x: u32, y: u32) -> (r: Area)
    ensures
        r.left == (if seen && a.left < x {
            a.left
        } else {
            x
        }),
        r.right == (if seen && a.right > x {
            a.right
        } else {
            x
        }),
        r.top == (if seen && a.top < y {
            a.top
        } else {
            y
        }),
        r.bottom == (if seen && a.bottom > y {
            a.bottom
        } else {
            y
        }),
{
    Area {
        left: if seen && a.left < x {
            a.left
        } else {
            x
        },
        right: if seen && a.right > x {
            a.right
        } else {
            x
        },
        top: if seen && a.top < y {
            a.top
        } else {
            y
        },
        bottom: if seen && a.bottom > y {
            a.bottom
        } else {
            y
        },
    }
}

/// The smallest area that holds every visible pixel, if one can be seen.
pub fn find_bounds(p: &Picture) -> (r: Option<Area>)
    requires
        p@.wf(),
    ensures
        r is None <==> blank(p@),
        r matches Some(a) ==> bounds(p@, a),
{
    let mut area = Area { left: 0, top: 0, right: 0, bottom: 0 };
    let mut seen = false;
    let mut y: u32 = 0;
    while y < p.height
        invariant
            p@.wf(),
            y <= p.height,
            bounds_so_far(p@, area, seen, 0, y as int),
        decreases p.height - y,
    {
        let mut x: u32 = 0;
        while x < p.width
            invariant
                p@.wf(),
                x <= p.width,
                y < p.height,
                bounds_so_far(p@, area, seen, x as int, y as int),
            decreases p.width - x,
        {
            let ghost old_area = area;
            let ghost old_seen = seen;
            if opacity(p, x, y) > 0 {
                assert(p@.visible(x as int, y as int));
                area = grown(&area, seen, x, y);
                seen = true;
            }
            proof {
                assert forall|u: int, v: int| #[trigger]
                    p@.visible(u, v) && passed(u, v, x + 1, y as int) implies seen && area.left <= u
                    <= area.right && area.top <= v <= area.bottom by {
                    if !(u == x && v == y) {
                        assert(passed(u, v, x as int, y as int));
                    }
                }
            }
            x = x + 1;
        }
        proof {
            assert forall|u: int, v: int| #[trigger]
                p@.visible(u, v) && passed(u, v, 0, y + 1) implies seen && area.left <= u
                <= area.right && area.top <= v <= area.bottom by {
                assert(passed(u, v, x as int, y as int));
            }
        }
        y = y + 1;
    }
    proof {
        assert forall|u: int, v: int| #[trigger] p@.visible(u, v) implies passed(u, v, 0, y as int) by {
        }
        if !seen {
            assert(blank(p@));
        } else {
            let v = choose|v: int| #[trigger] p@.visible(area.left as int, v);
            assert(p@.visible(area.left as int, v));
        }
    }
    if seen {
        Some(area)
    } else {
        None
    }
}

fn push_row(p: &Picture, a: &Area, y: u32, out: &mut Vec<u8>)
    requires
        p@.wf(),
        a.left <= a.right < p.width,
        y < p.height,
    ensures
        final(out)@ == old(out)@ + row_of(p@, *a, y as int),
{
    proof {
        offset_in_range(p@, a.left as int, y as int);
        offset_in_range(p@, a.right as int, y as int);
        assert(0 <= y * p.width) by (nonlinear_arith)
            requires
                0 <= y,
                0 <= p.width,
        ;
    }
    let n: usize = p.rgba.len();
    assert(p@.offset(a.right as int, y as int) + 4 <= n);
    let row: usize = y as usize * p.width as usize;
    let from: usize = (row + a.left as usize) * 4;
    let to: usize = (row + a.right as usize) * 4 + 4;
    let ghost start = out@;
    let ghost whole = row_of(p@, *a, y as int);
    let mut i: usize = from;
    assert(start + whole.take(0) =~= start);
    while i < to
        invariant
            from <= i <= to <= p.rgba@.len(),
            whole == p.rgba@.subrange(from as int, to as int),
            out@ == start + whole.take(i - from),
        decreases to - i,
    {
        out.push(p.rgba[i]);
        i = i + 1;
        assert(out@ =~= start + whole.take(i - from));
    }
    assert(whole.take(i - from) =~= whole);
}

proof fn rows_len(p: PictureData, a: Area, n: int)
    requires
        p.wf(),
        a.left <= a.right < p.width,
        a.top <= a.bottom < p.height,
        0 <= n <= a.bottom - a.top + 1,
    ensures
        rows_of(p, a, n).len() == n * (4 * (a.right - a.left + 1)),
    decreases n,
{
    if n > 0 {
        rows_len(p, a, n - 1);
        offset_in_range(p, a.left as int, a.top + n - 1);
        offset_in_range(p, a.right as int, a.top + n - 1);
        let w = 4 * (a.right - a.left + 1);
        assert(row_of(p, a, a.top + n - 1).len() == w);
        assert((n - 1) * w + w == n * w) by (nonlinear_arith);
    } else {
        assert(0 * (4 * (a.right - a.left + 1)) == 0);
    }
}

/// The part that lies in an area has four bytes for each of its pixels.
proof fn cut_has_every_pixel(p: PictureData, a: Area)
    requires
        p.wf(),
        a.left <= a.right < p.width,
        a.top <= a.bottom < p.height,
    ensures
        cut_to(p, a).wf(),
{
    let n = a.bottom - a.top + 1;
    let cols = a.right - a.left + 1;
    rows_len(p, a, n);
    assert(n * (4 * cols) == 4 * (cols * n)) by (nonlinear_arith);
}

/// Cuts a picture to an area inside it.
pub fn crop(p: &Picture, a: &Area) -> (r: Picture)
    requires
        p@.wf(),
        a.left <= a.right < p.width,
        a.top <= a.bottom < p.height,
    ensures
        r@ == cut_to(p@, *a),
        r@.wf(),
{
    let mut out: Vec<u8> = Vec::new();
    let height: u32 = a.bottom - a.top + 1;
    let mut k: u32 = 0;
    while k < height
        invariant
            p@.wf(),
            a.left <= a.right < p.width,
            a.top <= a.bottom < p.height,
            height == a.bottom - a.top + 1,
            k <= height,
            out@ == rows_of(p@, *a, k as int),
        decreases height - k,
    {
        push_row(p, a, a.top + k, &mut out);
        k = k + 1;
    }
    proof {
        cut_has_every_pixel(p@, *a);
    }
    Picture { rgba: out, width: a.right - a.left + 1, height }
}

proof fn bounds_fit(p: PictureData, a: Area)
    requires
        bounds(p, a),
    ensures
        a.left <= a.right < p.width,
        a.top <= a.bottom < p.height,
{
    let y = choose|y: int| #[trigger] p.visible(a.left as int, y);
    let z = choose|y: int| #[trigger] p.visible(a.right as int, y);
    let x = choose|x: int| #[trigger] p.visible(x, a.top as int);
    let w = choose|x: int| #[trigger] p.visible(x, a.bottom as int);
    assert(p.visible(a.left as int, y) && p.visible(a.right as int, z));
    assert(p.visible(x, a.top as int) && p.visible(w, a.bottom as int));
}

/// Cuts the transparent border off a picture.
pub fn crop_transparent(p: Picture) -> (r: Picture)
    requires
        p@.wf(),
    ensures
        without_border(p@, r@),
        r@.wf(),
{
    match find_bounds(&p) {
        Some(a) => {
            proof {
                bounds_fit(p@, a);
            }
            let r = crop(&p, &a);
            assert(bounds(p@, a) && r@ == cut_to(p@, a));
            r
        },
        None => p,
    }
}

proof fn rows_hold(p: PictureData, a: Area, n: int, x: int, k: int, c: int)
    requires
        p.wf(),
        a.left <= a.right < p.width,
        a.top <= a.bottom < p.height,
        0 <= k < n <= a.bottom - a.top + 1,
        0 <= x <= a.right - a.left,
        0 <= c < 4,
    ensures
        0 <= k * (4 * (a.right - a.left + 1)) + 4 * x + c < rows_of(p, a, n).len(),
        rows_of(p, a, n)[k * (4 * (a.right - a.left + 1)) + 4 * x + c] == p.rgba[p.offset(
            a.left + x,
            a.top + k,
        ) + c],
    decreases n,
{
    let w = 4 * (a.right - a.left + 1);
    rows_len(p, a, n);
    rows_len(p, a, n - 1);
    assert(0 <= k * w && k * w + w <= n * w) by (nonlinear_arith)
        requires
            0 <= k < n,
            0 <= w,
    ;
    if k < n - 1 {
        rows_hold(p, a, n - 1, x, k, c);
    } else {
        offset_in_range(p, a.left as int, a.top + k);
        offset_in_range(p, a.right as int, a.top + k);
        assert(row_of(p, a, a.top + k)[4 * x + c] == p.rgba[p.offset(a.left as int, a.top + k) + 4 * x
            + c]);
    }
}

/// No visible pixel is lost, and none is changed: each stands in the cut picture, moved by
/// the border that was cut off, and the cut picture has four bytes for each of its pixels.
pub proof fn cropping_keeps_what_is_visible(p: PictureData, a: Area, x: int, y: int, c: int)
    requires
        p.wf(),
        bounds(p, a),
        p.visible(x, y),
        0 <= c < 4,
    ensures
        cut_to(p, a).wf(),
        0 <= x - a.left < cut_to(p, a).width,
        0 <= y - a.top < cut_to(p, a).height,
        cut_to(p, a).rgba[cut_to(p, a).offset(x - a.left, y - a.top) + c] == p.rgba[p.offset(x, y)
            + c],
{
    bounds_fit(p, a);
    let r = cut_to(p, a);
    let n = a.bottom - a.top + 1;
    let cols = a.right - a.left + 1;
    cut_has_every_pixel(p, a);
    rows_hold(p, a, n, x - a.left, y - a.top, c);
    let k = y - a.top;
    assert(k * (4 * cols) + 4 * (x - a.left) == 4 * (k * cols + (x - a.left))) by (nonlinear_arith);
}

/// What decoding a picture file gives, as four bytes a pixel, width and height, if the
/// file holds a picture.
pub uninterp spec fn decoded(file: Seq<u8>) -> Option<(Seq<u8>, u32, u32)>;

/// Calls `image::load_from_memory`, which guesses the format and decodes, and turns the
/// result into four bytes a pixel with `to_rgba8`. What comes out depends on the bytes of
/// the file alone, and has four bytes for each pixel. Which files decode, and to what, is
/// left to the decoder.
#[verifier::external_body]
fn decode(file: &[u8]) -> (r: Option<Picture>)
    ensures
        r matches Some(p) ==> decoded(file@) == Some((p@.rgba, p@.width, p@.height)) && p@.wf(),
        r is None ==> decoded(file@) is None,
{
    let rgba = image::load_from_memory(file).ok()?.to_rgba8();
    let (width, height) = (rgba.width(), rgba.height());
    Some(Picture { rgba: rgba.into_raw(), width, height })
}

/// The picture that a file decodes to.
pub open spec fn decoded_picture(file: Seq<u8>) -> PictureData
    recommends
        decoded(file) is Some,
{
    let d = decoded(file).unwrap();
    PictureData { rgba: d.0, width: d.1, height: d.2 }
}

/// Decodes a picture file that holds a picture, and cuts off its transparent border. The
/// answer is the bytes of the pixels, the width and the height.
pub fn load_png_cropped(file: &[u8]) -> (r: (Vec<u8>, u32, u32))
    requires
        decoded(file@) is Some,
    ensures
        without_border(
            decoded_picture(file@),
            PictureData { rgba: r.0@, width: r.1, height: r.2 },
        ),
        decoded_picture(file@).wf(),
        r.0@.len() == 4 * (r.1 * r.2),
{
    let p = crop_transparent(decode(file).unwrap());
    (p.rgba, p.width, p.height)
}

/// Does the same with any file; there is no answer where it holds no picture.
pub fn try_load_png_cropped(file: &[u8]) -> (r: Option<(Vec<u8>, u32, u32)>)
    ensures
        r is Some <==> decoded(file@) is Some,
        r matches Some(p) ==> {
            &&& without_border(
                decoded_picture(file@),
                PictureData { rgba: p.0@, width: p.1, height: p.2 },
            )
            &&& decoded_picture(file@).wf()
            &&& p.0@.len() == 4 * (p.1 * p.2)
        },
{
    if decode(file).is_some() {
        Some(load_png_cropped(file))
    } else {
        None
    }
}

/// Decodes a picture file; there is no answer where it holds no picture.
pub fn open_picture(file: &[u8]) -> (r: Option<Picture>)
    ensures
        r is Some <==> decoded(file@) is Some,
        r matches Some(p) ==> p@ == decoded_picture(file@) && p@.wf(),
{
    decode(file)
}

/// The side of the square that an avatar is scaled to: twice the size it is shown at, but
/// no more than the picture has, and at least one pixel.
pub open spec fn avatar_side(display_size: u32, width: u32, height: u32) -> int {
    let fit = if width <= height {
        width
    } else {
        height
    };
    let want = if display_size * 2 <= fit {
        display_size * 2
    } else {
        fit as int
    };
    if want >= 1 {
        want
    } else {
        1
    }
}

/// Computes the side of the square that an avatar is scaled to.
pub fn avatar_texture_size(display_size: u32, width: u32, height: u32) -> (r: u32)
    requires
        display_size * 2 <= u32::MAX,
    ensures
        r == avatar_side(display_size, width, height),
{
    let mut r: u32 = display_size * 2;
    if width < r {
        r = width;
    }
    if height < r {
        r = height;
    }
    if r < 1 {
        r = 1;
    }
    r
}

/// Decodes the file of an avatar, and says to which side it is to be scaled; there is no
/// answer where the file holds no picture.
pub fn avatar_picture(file: &[u8], display_size: u32) -> (r: Option<(Picture, u32)>)
    requires
        display_size * 2 <= u32::MAX,
    ensures
        r is Some <==> decoded(file@) is Some,
        r matches Some(p) ==> {
            &&& p.0@ == decoded_picture(file@)
            &&& p.0@.wf()
            &&& p.1 == avatar_side(display_size, p.0@.width, p.0@.height)
        },
{
    match open_picture(file) {
        Some(p) => {
            let side: u32 = avatar_texture_size(display_size, p.width, p.height);
            Some((p, side))
        },
        None => None,
    }
}

/// A picture has four bytes for each pixel, row by row, and a pixel can be seen exactly if it
/// is in the picture and its last byte is not zero.
pub proof fn pixels_stand_row_by_row(p: PictureData, x: int, y: int)
    ensures
        p.wf() <==> p.rgba.len() == 4 * (p.width * p.height),
        p.offset(x, y) == 4 * (y * p.width + x),
        p.offset(x + 1, y) == p.offset(x, y) + 4,
        p.visible(x, y) ==> 0 <= x < p.width && 0 <= y < p.height,
        0 <= x < p.width && 0 <= y < p.height ==> (p.visible(x, y) <==> p.rgba[p.offset(x, y) + 3]
            != 0),
{
}

/// The part cut out of a picture is as large as the area, and each of its pixels is the one
/// that stood there, whether it can be seen or not.
pub proof fn cutting_keeps_every_pixel(p: PictureData, a: Area, x: int, y: int, c: int)
    requires
        p.wf(),
        a.left <= a.right < p.width,
        a.top <= a.bottom < p.height,
        a.left <= x <= a.right,
        a.top <= y <= a.bottom,
        0 <= c < 4,
    ensures
        cut_to(p, a).wf(),
        cut_to(p, a).width == a.right - a.left + 1,
        cut_to(p, a).height == a.bottom - a.top + 1,
        cut_to(p, a).rgba[cut_to(p, a).offset(x - a.left, y - a.top) + c] == p.rgba[p.offset(x, y)
            + c],
{
    let n = a.bottom - a.top + 1;
    let cols = a.right - a.left + 1;
    cut_has_every_pixel(p, a);
    rows_hold(p, a, n, x - a.left, y - a.top, c);
    let k = y - a.top;
    assert(k * (4 * cols) + 4 * (x - a.left) == 4 * (k * cols + (x - a.left))) by (nonlinear_arith);
}

/// Without its border a picture is as large as the area of what can be seen, which reaches
/// each of its edges. One on which nothing can be seen stays as it is.
pub proof fn borders_are_cut_to_what_is_visible(p: PictureData, r: PictureData, x: int, y: int)
    requires
        without_border(p, r),
    ensures
        (forall|u: int, v: int| !#[trigger] p.visible(u, v)) ==> r == p,
        p.visible(x, y) ==> exists|a: Area| #[trigger]
            cut_to(p, a) == r && a.left <= x <= a.right && a.top <= y <= a.bottom && (exists|v: int|
             #[trigger]
                p.visible(a.left as int, v)) && (exists|v: int| #[trigger]
                p.visible(a.right as int, v)) && (exists|u: int| #[trigger]
                p.visible(u, a.top as int)) && (exists|u: int| #[trigger]
                p.visible(u, a.bottom as int)),
{
    if p.visible(x, y) {
        let a = choose|a: Area| #[trigger] bounds(p, a) && r == cut_to(p, a);
        assert(cut_to(p, a) == r);
    }
}

/// The picture of a file has the bytes, the width and the height that decoding gives.
pub proof fn pictures_are_what_was_decoded(file: Seq<u8>)
    requires
        decoded(file) is Some,
    ensures
        decoded_picture(file).rgba == decoded(file).unwrap().0,
        decoded_picture(file).width == decoded(file).unwrap().1,
        decoded_picture(file).height == decoded(file).unwrap().2,
{
}

/// An avatar is scaled to twice the size it is shown at where the picture is as large, else to
/// the lesser side of the picture, and never to less than one pixel.
pub proof fn avatars_are_not_scaled_up(display_size: u32, width: u32, height: u32)
    ensures
        ({
            let side = avatar_side(display_size, width, height);
            &&& side >= 1
            &&& width > 0 && height > 0 ==> side <= width && side <= height
            &&& display_size > 0 ==> side <= 2 * display_size
            &&& display_size > 0 && 2 * display_size <= width && 2 * display_size <= height ==> side
                == 2 * display_size
            &&& 0 < width <= height && width < 2 * display_size ==> side == width
            &&& 0 < height <= width && height < 2 * display_size ==> side == height
            &&& display_size == 0 || width == 0 || height == 0 ==> side == 1
        }),
{
}

} // verus!
