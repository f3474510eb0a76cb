//! Face-aware choice of the crop rectangle for an aspect ratio.
use vstd::prelude::*;

use crate::aspect_ratio::AspectRatio;
use crate::geometry::{bounds_of, fits_in, Geometry};

verus! {

/// The axis along which a crop slides: `X` when the crop spans the full
/// image height, `Y` when it spans the full width.
#[derive(Debug, Clone, Copy, PartialEq, Eq, Structural)]
pub enum Direction {
    X,
    Y,
}

/// The faces detected in an image, and the image's size.
pub struct Cropper {
    pub faces: Vec<Geometry>,
    pub width: u32,
    pub height: u32,
}

pub open spec fn min_int(a: int, b: int) -> int {
    if a <= b {
        a
    } else {
        b
    }
}

/// A face whose coordinates, doubled and added to the image size, still fit
/// a `u32`, and whose area fits a `u32`: the arithmetic of the crop stays in
/// range.
pub open spec fn face_in_range(f: Geometry, width: u32, height: u32) -> bool {
    &&& 2 * f.x + f.w + width <= u32::MAX
    &&& 2 * f.y + f.h + height <= u32::MAX
    &&& f.w * f.h <= u32::MAX
}

pub open spec fn faces_in_range(faces: Seq<Geometry>, width: u32, height: u32) -> bool {
    forall|i: int| 0 <= i < faces.len() ==> face_in_range(#[trigger] faces[i], width, height)
}

/// A ratio with a non-zero width and height whose products with the image
/// size fit a `u32`.
pub open spec fn ratio_in_range(ratio: AspectRatio, width: u32, height: u32) -> bool {
    &&& ratio.w > 0
    &&& ratio.h > 0
    &&& height * ratio.w <= u32::MAX
    &&& width * ratio.h <= u32::MAX
}

/// The largest rectangle of the ratio that the image holds, and the
/// direction in which it can slide.
pub open spec fn crop_rect_spec(width: u32, height: u32, ratio: AspectRatio) -> (u32, u32, Direction) {
    let tw = ratio.w as int;
    let th = ratio.h as int;
    let cw0 = min_int(width as int, height * tw / th);
    let ch0 = min_int(height as int, width * th / tw);
    let cw = if cw0 * th > ch0 * tw {
        cw0
    } else {
        ch0 * tw / th
    };
    let ch = ch0;
    (cw as u32, ch as u32, if cw == width {
        Direction::Y
    } else {
        Direction::X
    })
}

/// The crop of `target_width` by `target_height` whose start along
/// `direction` is `start`, moved back inside the image when it would run past
/// the far edge.
pub open spec fn clamp_spec(
    width: u32,
    height: u32,
    start: int,
    direction: Direction,
    target_width: u32,
    target_height: u32,
) -> Geometry {
    match direction {
        Direction::X => Geometry {
            x: min_int(start, width - target_width) as u32,
            y: 0,
            w: target_width,
            h: target_height,
        },
        Direction::Y => Geometry {
            x: 0,
            y: min_int(start, height - target_height) as u32,
            w: target_width,
            h: target_height,
        },
    }
}

/// Where a crop around a single face starts: centred on the face along `X`;
/// along `Y`, 15% of the image height above the top of the face. Negative
/// starts become 0.
pub open spec fn single_face_start(face: Geometry, direction: Direction, height: u32, target_width: u32) -> int {
    match direction {
        Direction::X => if 2 * face.x + face.w >= target_width {
            (2 * face.x + face.w - target_width) / 2
        } else {
            0
        },
        Direction::Y => if 20 * face.y >= 3 * height {
            (20 * face.y - 3 * height) / 20
        } else {
            0
        },
    }
}

impl Cropper {
    pub open spec fn in_range(&self) -> bool {
        faces_in_range(self.faces@, self.width, self.height)
    }

    /// The crop that needs no search: the whole image when it already has
    /// the ratio, the middle of the image when there is no face, and the
    /// crop around the face when there is one; `None` for several faces.
    pub open spec fn trivial_spec(&self, direction: Direction, target_width: u32, target_height: u32) -> Option<Geometry> {
        if self.width == target_width && self.height == target_height {
            Some(Geometry { x: 0, y: 0, w: target_width, h: target_height })
        } else if self.faces@.len() == 0 {
            Some(
                match direction {
                    Direction::X => Geometry {
                        x: ((self.width - target_width) / 2) as u32,
                        y: 0,
                        w: target_width,
                        h: target_height,
                    },
                    Direction::Y => Geometry {
                        x: 0,
                        y: ((self.height - target_height) / 2) as u32,
                        w: target_width,
                        h: target_height,
                    },
                },
            )
        } else if self.faces@.len() == 1 {
            Some(
                clamp_spec(
                    self.width,
                    self.height,
                    single_face_start(self.faces@[0], direction, self.height, target_width),
                    direction,
                    target_width,
                    target_height,
                ),
            )
        } else {
            None
        }
    }

    pub fn new(faces: &Vec<Geometry>, width: u32, height: u32) -> (r: Cropper)
        ensures
            r.faces@ == faces@,
            r.width == width,
            r.height == height,
    {
        Cropper { faces: faces.clone(), width, height }
    }

    /// The largest rectangle with the ratio's proportions that fits the image,
    /// and the direction in which it can slide.
    pub fn crop_rect(&self, aspect_ratio: &AspectRatio) -> (r: (u32, u32, Direction))
        requires
            ratio_in_range(*aspect_ratio, self.width, self.height),
        ensures
            r == crop_rect_spec(self.width, self.height, *aspect_ratio),
            r.0 <= self.width,
            r.1 <= self.height,
    {
        let target_w = aspect_ratio.w;
        let target_h = aspect_ratio.h;
        let hw = self.height * target_w / target_h;
        let wh = self.width * target_h / target_w;
        let crop_w0 = if self.width <= hw {
            self.width
        } else {
            hw
        };
        let crop_h0 = if self.height <= wh {
            self.height
        } else {
            wh
        };
        proof {
            lemma_crop_rect_bounds(self.width, self.height, *aspect_ratio);
        }
        let (crop_w, crop_h) = if crop_w0 * target_h > crop_h0 * target_w {
            (crop_w0, crop_h0)
        } else {
            (crop_h0 * target_w / target_h, crop_h0)
        };
        (crop_w, crop_h, if crop_w == self.width {
            Direction::Y
        } else {
            Direction::X
        })
    }

    /// The crop of the target size starting at `val` along `direction`,
    /// clamped so that it stays inside the image.
    pub fn clamp(&self, val: u32, direction: Direction, target_width: u32, target_height: u32) -> (r: Geometry)
        requires
            direction == Direction::X ==> target_width <= self.width,
            direction == Direction::Y ==> target_height <= self.height,
        ensures
            r == clamp_spec(self.width, self.height, val as int, direction, target_width, target_height),
    {
        match direction {
            Direction::X => {
                let hi = self.width - target_width;
                Geometry { x: if val <= hi { val } else { hi }, y: 0, w: target_width, h: target_height }
            },
            Direction::Y => {
                let hi = self.height - target_height;
                Geometry { x: 0, y: if val <= hi { val } else { hi }, w: target_width, h: target_height }
            },
        }
    }

    /// The crop around the first face.
    pub fn crop_single_face(&self, direction: Direction, target_width: u32, target_height: u32) -> (r: Geometry)
        requires
            self.faces@.len() >= 1,
            self.in_range(),
            direction == Direction::X ==> target_width <= self.width,
            direction == Direction::Y ==> target_height <= self.height,
        ensures
            r == clamp_spec(
                self.width,
                self.height,
                single_face_start(self.faces@[0], direction, self.height, target_width),
                direction,
                target_width,
                target_height,
            ),
    {
        let face = &self.faces[0];
        assert(face_in_range(self.faces@[0], self.width, self.height));
        let start: u32 = match direction {
            Direction::X => {
                let twice_mid = face.x + face.xmax();
                if twice_mid >= target_width {
                    (twice_mid - target_width) / 2
                } else {
                    0
                }
            },
            Direction::Y => {
                let y20 = (face.y as u64) * 20;
                let h3 = (self.height as u64) * 3;
                if y20 >= h3 {
                    ((y20 - h3) / 20) as u32
                } else {
                    0
                }
            },
        };
        self.clamp(start, direction, target_width, target_height)
    }

    /// The crops that need no search (see `trivial_spec`).
    pub fn crop_trivial(&self, direction: Direction, target_width: u32, target_height: u32) -> (r: Option<Geometry>)
        requires
            self.in_range(),
            target_width <= self.width,
            target_height <= self.height,
        ensures
            r == self.trivial_spec(direction, target_width, target_height),
    {
        if self.width == target_width && self.height == target_height {
            return Some(Geometry { x: 0, y: 0, w: target_width, h: target_height });
        }
        if self.faces.len() == 0 {
            let g = match direction {
                Direction::X => Geometry {
                    x: (self.width - target_width) / 2,
                    y: 0,
                    w: target_width,
                    h: target_height,
                },
                Direction::Y => Geometry {
                    x: 0,
                    y: (self.height - target_height) / 2,
                    w: target_width,
                    h: target_height,
                },
            };
            return Some(g);
        }
        if self.faces.len() == 1 {
            return Some(self.crop_single_face(direction, target_width, target_height));
        }
        None
    }
}

proof fn lemma_crop_rect_bounds(width: u32, height: u32, ratio: AspectRatio)
    requires
        ratio_in_range(ratio, width, height),
    ensures
        ({
            let tw = ratio.w as int;
            let th = ratio.h as int;
            let cw0 = min_int(width as int, height * tw / th);
            let ch0 = min_int(height as int, width * th / tw);
            &&& cw0 * th <= height * tw
            &&& ch0 * tw <= width * th
            &&& 0 <= cw0 <= width
            &&& 0 <= ch0 <= height
            &&& ch0 * tw / th <= width
        }),
{
    let tw = ratio.w as int;
    let th = ratio.h as int;
    let hw = height * tw / th;
    let wh = width * th / tw;
    assert(hw * th <= height * tw && hw >= 0) by (nonlinear_arith)
        requires
            hw == height * tw / th,
            th > 0,
            tw > 0,
            height >= 0,
    ;
    assert(wh * tw <= width * th && wh >= 0) by (nonlinear_arith)
        requires
            wh == width * th / tw,
            th > 0,
            tw > 0,
            width >= 0,
    ;
    let cw0 = min_int(width as int, hw);
    let ch0 = min_int(height as int, wh);
    assert(cw0 * th <= height * tw) by (nonlinear_arith)
        requires
            cw0 <= hw,
            hw * th <= height * tw,
            th > 0,
    ;
    assert(ch0 * tw <= width * th) by (nonlinear_arith)
        requires
            ch0 <= wh,
            wh * tw <= width * th,
            tw > 0,
    ;
    assert(ch0 * tw / th <= width) by (nonlinear_arith)
        requires
            ch0 * tw <= width * th,
            th > 0,
            tw > 0,
            ch0 >= 0,
    ;
}

/// The rectangle chosen for a ratio always fits the image.
pub proof fn lemma_crop_rect_fits(width: u32, height: u32, ratio: AspectRatio)
    requires
        ratio_in_range(ratio, width, height),
    ensures
        crop_rect_spec(width, height, ratio).0 <= width,
        crop_rect_spec(width, height, ratio).1 <= height,
{
    lemma_crop_rect_bounds(width, height, ratio);
}

/// A clamped crop lies inside the image and has the target size.
pub proof fn lemma_clamp_fits(
    width: u32,
    height: u32,
    start: int,
    direction: Direction,
    target_width: u32,
    target_height: u32,
)
    requires
        start >= 0,
        target_width <= width,
        target_height <= height,
    ensures
        fits_in(clamp_spec(width, height, start, direction, target_width, target_height), width as int, height as int),
        clamp_spec(width, height, start, direction, target_width, target_height).w == target_width,
        clamp_spec(width, height, start, direction, target_width, target_height).h == target_height,
{
}


/// The start of a face along `direction`, by which faces are ordered.
pub open spec fn key_of(g: Geometry, direction: Direction) -> int {
    bounds_of(g, direction).0
}

/// The geometries are ordered by their start along `direction`.
pub open spec fn sorted_by_key(s: Seq<Geometry>, direction: Direction) -> bool {
    forall|i: int, j: int| 0 <= i < j < s.len() ==> key_of(s[i], direction) <= key_of(s[j], direction)
}

/// The index of the first face with the smallest start: the face that a
/// stable sort by start puts first.
pub open spec fn first_min_index(faces: Seq<Geometry>, direction: Direction) -> int
    decreases faces.len(),
{
    if faces.len() <= 1 {
        0
    } else {
        let i = first_min_index(faces.drop_last(), direction);
        if key_of(faces.last(), direction) < key_of(faces[i], direction) {
            faces.len() - 1
        } else {
            i
        }
    }
}

/// The index of the last face with the largest start: the face that a
/// stable sort by start puts last.
pub open spec fn last_max_index(faces: Seq<Geometry>, direction: Direction) -> int
    decreases faces.len(),
{
    if faces.len() <= 1 {
        0
    } else {
        let i = last_max_index(faces.drop_last(), direction);
        if key_of(faces.last(), direction) >= key_of(faces[i], direction) {
            faces.len() - 1
        } else {
            i
        }
    }
}

/// The size of the image along `direction`.
pub open spec fn extent(width: u32, height: u32, direction: Direction) -> int {
    match direction {
        Direction::X => width as int,
        Direction::Y => height as int,
    }
}

/// The first and the last start (both included) of the window of length
/// `target` that slides over the image: from half a window before the middle
/// of the first face to half a window after the middle of the last face,
/// never past the far edge of the image.
pub open spec fn window_range_spec(
    first: Geometry,
    last: Geometry,
    direction: Direction,
    target: int,
    img_max: int,
) -> (int, int) {
    let fmin = bounds_of(first, direction).0;
    let fmax = bounds_of(first, direction).1;
    let lmin = bounds_of(last, direction).0;
    let lmax = bounds_of(last, direction).1;
    let s = if fmin + fmax < target {
        0
    } else {
        (fmin + fmax - target) / 2
    };
    (min_int(s, img_max), min_int((lmin + lmax + target) / 2, img_max))
}

/// The length of a face along `direction`.
pub open spec fn face_length(f: Geometry, direction: Direction) -> int {
    match direction {
        Direction::X => f.w as int,
        Direction::Y => f.h as int,
    }
}

/// The side of a face across `direction`.
pub open spec fn face_side(f: Geometry, direction: Direction) -> int {
    match direction {
        Direction::X => f.h as int,
        Direction::Y => f.w as int,
    }
}

/// A face that starts inside the window and ends past the window's end
/// counts in part: the part inside the window, from the face's start to the
/// window's end, and the part past the window's end make up the face's
/// length; the face area it adds is the part inside times the face's other
/// side; and it adds to the shares and area of the faces after it.
pub proof fn lemma_cut_face_share(f: Geometry, rest: Seq<Geometry>, direction: Direction, rs: int, re: int)
    requires
        rs <= bounds_of(f, direction).0 <= re < bounds_of(f, direction).1,
    ensures
        ({
            let faces = seq![f] + rest;
            let shares = shares_spec(faces, direction, rs, re);
            &&& shares.len() == 1 + shares_spec(rest, direction, rs, re).len()
            &&& shares.skip(1) == shares_spec(rest, direction, rs, re)
            &&& shares[0] matches FaceShare::Part { covered, length } && {
                &&& covered + (bounds_of(f, direction).1 - re) == length
                &&& length == face_length(f, direction)
                &&& covered <= re - bounds_of(f, direction).0
                &&& covered_area_spec(faces, direction, rs, re) == covered * face_side(f, direction)
                    + covered_area_spec(rest, direction, rs, re)
            }
        }),
{
    let faces = seq![f] + rest;
    assert(faces[0] == f);
    assert(faces.skip(1) =~= rest);
    let shares = shares_spec(faces, direction, rs, re);
    assert(shares.skip(1) =~= shares_spec(rest, direction, rs, re));
}

/// Of two windows with the same start that both end inside a face that
/// starts in them, the one reaching further covers at least as much of the
/// face and counts at least as much of its area.
pub proof fn lemma_cut_face_monotone(
    f: Geometry,
    rest: Seq<Geometry>,
    direction: Direction,
    rs: int,
    re1: int,
    re2: int,
)
    requires
        rs <= bounds_of(f, direction).0 <= re1 <= re2 < bounds_of(f, direction).1,
    ensures
        shares_spec(seq![f] + rest, direction, rs, re1)[0] matches FaceShare::Part { covered: c1, .. }
            && shares_spec(seq![f] + rest, direction, rs, re2)[0] matches FaceShare::Part { covered: c2, .. }
            && c1 <= c2 && c1 * face_side(f, direction) <= c2 * face_side(f, direction),
{
    lemma_cut_face_share(f, rest, direction, rs, re1);
    lemma_cut_face_share(f, rest, direction, rs, re2);
    let faces = seq![f] + rest;
    if let FaceShare::Part { covered: c1, .. } = shares_spec(faces, direction, rs, re1)[0] {
        if let FaceShare::Part { covered: c2, .. } = shares_spec(faces, direction, rs, re2)[0] {
            let side = face_side(f, direction);
            assert(c1 * side <= c2 * side) by (nonlinear_arith)
                requires
                    c1 <= c2,
                    side >= 0,
            ;
        }
    }
}

/// The windows stay in the image: the first and last starts are at most
/// `img_max`, the last start of a window inside the image; and when the
/// first face's centre is not more than a window's length past the last
/// face's centre (as for faces sorted by start, the first ending no later
/// than the last), the first start is not past the last, so there is at
/// least one window.
pub proof fn lemma_window_range(first: Geometry, last: Geometry, direction: Direction, target: int, img_max: int)
    requires
        target >= 0,
        img_max >= 0,
    ensures
        ({
            let (start, end) = window_range_spec(first, last, direction, target, img_max);
            &&& 0 <= start <= img_max
            &&& 0 <= end <= img_max
            &&& start * 2 <= bounds_of(first, direction).0 + bounds_of(first, direction).1 - target
                || start == 0
            &&& start == img_max || start * 2 + 1 >= bounds_of(first, direction).0 + bounds_of(first, direction).1
                - target
            &&& end * 2 <= bounds_of(last, direction).0 + bounds_of(last, direction).1 + target
            &&& end == img_max || end * 2 + 1 >= bounds_of(last, direction).0 + bounds_of(last, direction).1
                + target
            &&& bounds_of(first, direction).0 + bounds_of(first, direction).1 <= bounds_of(last, direction).0
                + bounds_of(last, direction).1 + 2 * target ==> start <= end
        }),
{
    let fmin = bounds_of(first, direction).0;
    let fmax = bounds_of(first, direction).1;
    let lmin = bounds_of(last, direction).0;
    let lmax = bounds_of(last, direction).1;
    assert(fmin >= 0 && fmax >= 0 && lmin >= 0 && lmax >= 0);
    if fmin + fmax >= target {
        let a = fmin + fmax - target;
        let b = lmin + lmax + target;
        assert((a / 2) * 2 <= a) by (nonlinear_arith)
            requires
                a >= 0,
        ;
        assert(a / 2 >= 0) by (nonlinear_arith)
            requires
                a >= 0,
        ;
        if a <= b {
            assert(a / 2 <= b / 2) by (nonlinear_arith)
                requires
                    0 <= a <= b,
            ;
        }
    }
    let b = lmin + lmax + target;
    assert(b / 2 >= 0 && (b / 2) * 2 <= b && (b / 2) * 2 + 1 >= b) by (nonlinear_arith)
        requires
            b >= 0,
    ;
    if fmin + fmax >= target {
        let a = fmin + fmax - target;
        assert((a / 2) * 2 + 1 >= a) by (nonlinear_arith)
            requires
                a >= 0,
        ;
    }
}

/// What one face, followed by others, adds to a window from `rs` to `re`: a
/// face starting past the window's end ends the count; one ending before the
/// window's start, or sticking out only before it, adds nothing; one inside
/// the window counts whole, with its whole area; one reaching past the
/// window's end counts the part from its start to the window's end.
pub proof fn lemma_face_share_cases(f: Geometry, rest: Seq<Geometry>, direction: Direction, rs: int, re: int)
    requires
        rs <= re,
    ensures
        ({
            let faces = seq![f] + rest;
            let (mn, mx) = bounds_of(f, direction);
            let shares = shares_spec(faces, direction, rs, re);
            let area = covered_area_spec(faces, direction, rs, re);
            let rest_shares = shares_spec(rest, direction, rs, re);
            let rest_area = covered_area_spec(rest, direction, rs, re);
            &&& mn > re ==> shares.len() == 0 && area == 0
            &&& mn <= re && mx <= re && mn < rs ==> shares == rest_shares && area == rest_area
            &&& rs <= mn && mx <= re ==> shares == seq![FaceShare::Whole] + rest_shares && area == f.w * f.h
                + rest_area
            &&& mn <= re < mx ==> shares == seq![
                FaceShare::Part { covered: (re - mn) as u32, length: face_length(f, direction) as u32 },
            ] + rest_shares && area == (re - mn) * face_side(f, direction) + rest_area && 0 <= re - mn
                < face_length(f, direction)
        }),
{
    let faces = seq![f] + rest;
    assert(faces[0] == f);
    assert(faces.skip(1) =~= rest);
}


/// The face lies entirely inside the window from `rs` to `re`.
pub open spec fn is_full_in(f: Geometry, direction: Direction, rs: int, re: int) -> bool {
    bounds_of(f, direction).0 >= rs && bounds_of(f, direction).1 <= re
}

/// One `(area, window start)` entry for every face inside the window.
pub open spec fn window_entries(faces: Seq<Geometry>, direction: Direction, rs: int, re: int) -> Seq<(u32, u32)>
    decreases faces.len(),
{
    if faces.len() == 0 {
        Seq::empty()
    } else {
        let p = window_entries(faces.drop_last(), direction, rs, re);
        if is_full_in(faces.last(), direction, rs, re) {
            p.push(((faces.last().w * faces.last().h) as u32, rs as u32))
        } else {
            p
        }
    }
}

/// The entries of the first `n` windows starting at `start`.
pub open spec fn entries_upto(faces: Seq<Geometry>, direction: Direction, start: int, n: nat, target: int) -> Seq<(u32, u32)>
    decreases n,
{
    if n == 0 {
        Seq::empty()
    } else {
        entries_upto(faces, direction, start, (n - 1) as nat, target) + window_entries(
            faces,
            direction,
            start + n - 1,
            start + n - 1 + target,
        )
    }
}

/// The distinct areas of the entries, in order of first appearance.
pub open spec fn distinct_areas(fa: Seq<(u32, u32)>) -> Seq<u32>
    decreases fa.len(),
{
    if fa.len() == 0 {
        Seq::empty()
    } else {
        let d = distinct_areas(fa.drop_last());
        if d.contains(fa.last().0) {
            d
        } else {
            d.push(fa.last().0)
        }
    }
}

/// The window starts of the entries with area `a`, in order.
pub open spec fn starts_of(fa: Seq<(u32, u32)>, a: u32) -> Seq<u32>
    decreases fa.len(),
{
    if fa.len() == 0 {
        Seq::empty()
    } else {
        let s = starts_of(fa.drop_last(), a);
        if fa.last().0 == a {
            s.push(fa.last().1)
        } else {
            s
        }
    }
}

pub open spec fn window_count(s: int, e: int) -> nat {
    if e >= s {
        (e - s + 1) as nat
    } else {
        0
    }
}

impl Cropper {
    /// All `(area, window start)` entries of faces lying entirely in a window,
    /// over every position of the sliding window, for several faces.
    pub open spec fn candidate_entries(&self, direction: Direction, target_width: u32, target_height: u32) -> Seq<(u32, u32)> {
        let faces = self.faces@;
        let target = if direction == Direction::X {
            target_width as int
        } else {
            target_height as int
        };
        let img_max = extent(self.width, self.height, direction) - target;
        let range = window_range_spec(
            faces[first_min_index(faces, direction)],
            faces[last_max_index(faces, direction)],
            direction,
            target,
            img_max,
        );
        entries_upto(faces, direction, range.0, window_count(range.0, range.1), target)
    }

    /// The crop candidates before ordering: for every distinct face area, the
    /// crop at the middle one of the window starts that hold a face of that
    /// area.
    pub open spec fn candidates_unordered(&self, aspect_ratio: AspectRatio) -> Seq<Geometry> {
        let (tw, th, direction) = crop_rect_spec(self.width, self.height, aspect_ratio);
        match self.trivial_spec(direction, tw, th) {
            Some(g) => seq![g],
            None => self.candidates_from_entries(self.candidate_entries(direction, tw, th), direction, tw, th),
        }
    }

    /// For every distinct area among the entries, the crop at the middle one
    /// of the window starts of that area.
    pub open spec fn candidates_from_entries(
        &self,
        fa: Seq<(u32, u32)>,
        direction: Direction,
        tw: u32,
        th: u32,
    ) -> Seq<Geometry> {
        distinct_areas(fa).map_values(
            |a: u32|
                clamp_spec(
                    self.width,
                    self.height,
                    starts_of(fa, a)[(starts_of(fa, a).len() / 2) as int] as int,
                    direction,
                    tw,
                    th,
                ),
        )
    }
}

pub proof fn lemma_first_min_index(faces: Seq<Geometry>, direction: Direction)
    requires
        faces.len() >= 1,
    ensures
        0 <= first_min_index(faces, direction) < faces.len(),
        forall|j: int| 0 <= j < faces.len() ==> key_of(faces[first_min_index(faces, direction)], direction) <= key_of(#[trigger] faces[j], direction),
    decreases faces.len(),
{
    if faces.len() > 1 {
        lemma_first_min_index(faces.drop_last(), direction);
        let i = first_min_index(faces.drop_last(), direction);
        assert(faces.drop_last()[i] == faces[i]);
        assert forall|j: int| 0 <= j < faces.len() implies key_of(faces[first_min_index(faces, direction)], direction) <= key_of(#[trigger] faces[j], direction) by {
            if j < faces.len() - 1 {
                assert(faces.drop_last()[j] == faces[j]);
            }
        }
    }
}

pub proof fn lemma_last_max_index(faces: Seq<Geometry>, direction: Direction)
    requires
        faces.len() >= 1,
    ensures
        0 <= last_max_index(faces, direction) < faces.len(),
        forall|j: int| 0 <= j < faces.len() ==> key_of(#[trigger] faces[j], direction) <= key_of(faces[last_max_index(faces, direction)], direction),
    decreases faces.len(),
{
    if faces.len() > 1 {
        lemma_last_max_index(faces.drop_last(), direction);
        let i = last_max_index(faces.drop_last(), direction);
        assert(faces.drop_last()[i] == faces[i]);
        assert forall|j: int| 0 <= j < faces.len() implies key_of(#[trigger] faces[j], direction) <= key_of(faces[last_max_index(faces, direction)], direction) by {
            if j < faces.len() - 1 {
                assert(faces.drop_last()[j] == faces[j]);
            }
        }
    }
}

/// An area appears among the distinct areas exactly when some entry has it.
pub proof fn lemma_distinct_areas(fa: Seq<(u32, u32)>, a: u32)
    ensures
        distinct_areas(fa).contains(a) <==> starts_of(fa, a).len() > 0,
        distinct_areas(fa).no_duplicates(),
    decreases fa.len(),
{
    if fa.len() > 0 {
        lemma_distinct_areas(fa.drop_last(), a);
        lemma_distinct_areas(fa.drop_last(), fa.last().0);
        let d = distinct_areas(fa.drop_last());
        if !d.contains(fa.last().0) {
            assert forall|i: int, j: int| 0 <= i < j < d.push(fa.last().0).len() implies d.push(fa.last().0)[i] != d.push(fa.last().0)[j] by {
                if j == d.len() {
                    assert(d[i] == d.push(fa.last().0)[i]);
                }
            }
            if a != fa.last().0 {
                if d.push(fa.last().0).contains(a) {
                    let k = choose|k: int| 0 <= k < d.push(fa.last().0).len() && d.push(fa.last().0)[k] == a;
                    assert(d[k] == a);
                }
                if d.contains(a) {
                    let k = choose|k: int| 0 <= k < d.len() && d[k] == a;
                    assert(d.push(fa.last().0)[k] == a);
                }
            } else {
                assert(d.push(fa.last().0)[d.len() as int] == a);
            }
        }
    }
}

proof fn lemma_entries_upto_step(faces: Seq<Geometry>, direction: Direction, start: int, n: nat, target: int)
    ensures
        entries_upto(faces, direction, start, n + 1, target) == entries_upto(faces, direction, start, n, target)
            + window_entries(faces, direction, start + n, start + n + target),
{
}

proof fn lemma_window_entries_take(faces: Seq<Geometry>, direction: Direction, rs: int, re: int, j: int)
    requires
        0 <= j < faces.len(),
    ensures
        window_entries(faces.take(j + 1), direction, rs, re) == if is_full_in(faces[j], direction, rs, re) {
            window_entries(faces.take(j), direction, rs, re).push(((faces[j].w * faces[j].h) as u32, rs as u32))
        } else {
            window_entries(faces.take(j), direction, rs, re)
        },
{
    assert(faces.take(j + 1).drop_last() =~= faces.take(j));
}

proof fn lemma_distinct_step(fa: Seq<(u32, u32)>, i: int)
    requires
        0 <= i < fa.len(),
    ensures
        distinct_areas(fa.take(i + 1)) == if distinct_areas(fa.take(i)).contains(fa[i].0) {
            distinct_areas(fa.take(i))
        } else {
            distinct_areas(fa.take(i)).push(fa[i].0)
        },
        forall|a: u32| starts_of(fa.take(i + 1), a) == if fa[i].0 == a {
            starts_of(fa.take(i), a).push(fa[i].1)
        } else {
            starts_of(fa.take(i), a)
        },
{
    assert(fa.take(i + 1).drop_last() =~= fa.take(i));
}

pub(crate) proof fn lemma_insert_multiset<A>(s: Seq<A>, p: int, x: A)
    requires
        0 <= p <= s.len(),
    ensures
        s.insert(p, x).to_multiset() =~= s.to_multiset().insert(x),
{
    broadcast use vstd::seq_lib::group_to_multiset_ensures;
    broadcast use vstd::multiset::group_multiset_axioms;
    let t = s.insert(p, x);
    s.insert_ensures(p, x);
    assert(t.remove(p) =~= s);
    assert(t.to_multiset().remove(t[p]) =~= s.to_multiset());
    assert(t.contains(x));
    assert(t.to_multiset().count(x) > 0);
    assert(t.to_multiset() =~= t.to_multiset().remove(x).insert(x));
}

/// The key of a geometry along `direction`.
fn key_exec(g: &Geometry, direction: Direction) -> (r: u32)
    ensures
        r == key_of(*g, direction),
{
    match direction {
        Direction::X => g.x,
        Direction::Y => g.y,
    }
}

/// Geometries with the same start along `direction` keep their order.
pub open spec fn is_stable_by_key(out: Seq<Geometry>, idx: Seq<int>, direction: Direction) -> bool {
    forall|q1: int, q2: int|
        0 <= q1 < q2 < out.len() && key_of(out[q1], direction) == key_of(out[q2], direction) ==> idx[q1] < idx[q2]
}

/// `out` is `input` sorted stably by the start along `direction`.
pub open spec fn is_stable_sort_by_key(input: Seq<Geometry>, out: Seq<Geometry>, direction: Direction) -> bool {
    exists|idx: Seq<int>|
        #[trigger] crate::config::is_permutation_by(input, out, idx) && sorted_by_key(out, direction)
            && is_stable_by_key(out, idx, direction)
}

/// Sorts geometries by their start along `direction`, keeping the order of
/// geometries with the same start.
pub fn sort_faces_by_direction(faces: Vec<Geometry>, direction: Direction) -> (r: Vec<Geometry>)
    ensures
        is_stable_sort_by_key(faces@, r@, direction),
        sorted_by_key(r@, direction),
        r@.to_multiset() == faces@.to_multiset(),
        r@.len() == faces@.len(),
{
    broadcast use vstd::seq_lib::group_to_multiset_ensures;
    let mut out: Vec<Geometry> = Vec::new();
    let ghost mut idx: Seq<int> = Seq::empty();
    let n = faces.len();
    for i in 0..n
        invariant
            n == faces@.len(),
            sorted_by_key(out@, direction),
            out@.to_multiset() == faces@.take(i as int).to_multiset(),
            out@.len() == i,
            idx.len() == out@.len(),
            forall|q: int| 0 <= q < idx.len() ==> 0 <= #[trigger] idx[q] < i && out@[q] == faces@[idx[q]],
            forall|q1: int, q2: int| 0 <= q1 < idx.len() && 0 <= q2 < idx.len() && q1 != q2 ==> idx[q1] != idx[q2],
            is_stable_by_key(out@, idx, direction),
    {
        let g = faces[i];
        let k = key_exec(&g, direction);
        let mut p: usize = 0;
        while p < out.len() && key_exec(&out[p], direction) <= k
            invariant
                p <= out@.len(),
                forall|q: int| 0 <= q < p ==> key_of(#[trigger] out@[q], direction) <= k,
            decreases out@.len() - p,
        {
            p = p + 1;
        }
        let ghost before = out@;
        let ghost old_idx = idx;
        proof {
            lemma_insert_multiset(before, p as int, g);
            before.insert_ensures(p as int, g);
            old_idx.insert_ensures(p as int, i as int);
            idx = old_idx.insert(p as int, i as int);
        }
        out.insert(p, g);
        assert(faces@.take(i + 1) =~= faces@.take(i as int).push(g));
        proof {
            faces@.take(i as int).to_multiset_ensures();
        }
        proof {
            assert forall|q: int| 0 <= q < idx.len() implies 0 <= #[trigger] idx[q] < i + 1 && out@[q] == faces@[idx[q]] by {
                if q < p {
                    assert(idx[q] == old_idx[q]);
                } else if q > p {
                    assert(idx[q] == old_idx[q - 1]);
                }
            }
            assert forall|q1: int, q2: int| 0 <= q1 < idx.len() && 0 <= q2 < idx.len() && q1 != q2 implies idx[q1] != idx[q2] by {
                if q1 != p && q2 != p {
                    let a1 = if q1 < p { q1 } else { q1 - 1 };
                    let a2 = if q2 < p { q2 } else { q2 - 1 };
                    assert(idx[q1] == old_idx[a1]);
                    assert(idx[q2] == old_idx[a2]);
                } else if q1 == p {
                    let a2 = if q2 < p { q2 } else { q2 - 1 };
                    assert(idx[q2] == old_idx[a2]);
                } else {
                    let a1 = if q1 < p { q1 } else { q1 - 1 };
                    assert(idx[q1] == old_idx[a1]);
                }
            }
        }
        assert(sorted_by_key(out@, direction) && is_stable_by_key(out@, idx, direction)) by {
            assert forall|a: int, b: int| 0 <= a < b < out@.len() implies key_of(out@[a], direction) <= key_of(out@[b], direction)
                && (key_of(out@[a], direction) == key_of(out@[b], direction) ==> idx[a] < idx[b]) by {
                if p < before.len() {
                    assert(k < key_of(before[p as int], direction));
                }
                if a < p && b > p {
                    assert(out@[a] == before[a]);
                    assert(out@[b] == before[b - 1]);
                    assert(idx[a] == old_idx[a]);
                    assert(idx[b] == old_idx[b - 1]);
                } else if a < p && b == p {
                    assert(out@[a] == before[a]);
                    assert(idx[a] == old_idx[a]);
                } else if a == p {
                    assert(out@[b] == before[b - 1]);
                    assert(idx[b] == old_idx[b - 1]);
                    assert(key_of(before[p as int], direction) <= key_of(before[b - 1], direction));
                } else if b < p {
                    assert(out@[a] == before[a]);
                    assert(out@[b] == before[b]);
                    assert(idx[a] == old_idx[a]);
                    assert(idx[b] == old_idx[b]);
                } else {
                    assert(out@[a] == before[a - 1]);
                    assert(out@[b] == before[b - 1]);
                    assert(idx[a] == old_idx[a - 1]);
                    assert(idx[b] == old_idx[b - 1]);
                }
            }
        }
    }
    assert(faces@.take(n as int) =~= faces@);
    assert(crate::config::is_permutation_by(faces@, out@, idx));
    out
}

impl Cropper {
    /// The first and last start of the sliding window for faces sorted by
    /// their start along `direction`: the windows start at every point of
    /// `start..=end` and end `target` further.
    pub fn sliding_window_range(&self, faces: &Vec<Geometry>, direction: Direction, target: u32) -> (r: (u32, u32))
        requires
            faces@.len() >= 1,
            faces_in_range(faces@, self.width, self.height),
            target <= extent(self.width, self.height, direction),
        ensures
            (r.0 as int, r.1 as int) == window_range_spec(
                faces@[0],
                faces@[faces@.len() - 1],
                direction,
                target as int,
                extent(self.width, self.height, direction) - target,
            ),
    {
        self.window_range(&faces[0], &faces[faces.len() - 1], direction, target)
    }

    fn window_range(&self, first: &Geometry, last: &Geometry, direction: Direction, target: u32) -> (r: (u32, u32))
        requires
            face_in_range(*first, self.width, self.height),
            face_in_range(*last, self.width, self.height),
            target <= extent(self.width, self.height, direction),
        ensures
            (r.0 as int, r.1 as int) == window_range_spec(
                *first,
                *last,
                direction,
                target as int,
                extent(self.width, self.height, direction) - target,
            ),
    {
        let img_max = match direction {
            Direction::X => self.width - target,
            Direction::Y => self.height - target,
        };
        let (first_min, first_max) = first.direction_bounds(direction);
        let tmp = first_min + first_max;
        let start = if tmp < target {
            0
        } else {
            (tmp - target) / 2
        };
        let start = if start <= img_max {
            start
        } else {
            img_max
        };
        let (last_min, last_max) = last.direction_bounds(direction);
        let end0 = (last_min + last_max + target) / 2;
        let end = if end0 <= img_max {
            end0
        } else {
            img_max
        };
        (start, end)
    }

    /// The candidate crops for several faces: one per distinct area of the
    /// faces that fit entirely in some window, at the middle window start
    /// among those holding a face of that area; ordered by their start.
    pub fn crop_candidates(&self, aspect_ratio: &AspectRatio) -> (r: Vec<Geometry>)
        requires
            self.in_range(),
            ratio_in_range(*aspect_ratio, self.width, self.height),
        ensures
            sorted_by_key(r@, crop_rect_spec(self.width, self.height, *aspect_ratio).2),
            r@.to_multiset() == self.candidates_unordered(*aspect_ratio).to_multiset(),
            r@.len() == self.candidates_unordered(*aspect_ratio).len(),
            forall|i: int|
                0 <= i < r@.len() ==> fits_in(#[trigger] r@[i], self.width as int, self.height as int)
                    && r@[i].w == crop_rect_spec(self.width, self.height, *aspect_ratio).0
                    && r@[i].h == crop_rect_spec(self.width, self.height, *aspect_ratio).1,
    {
        broadcast use vstd::seq_lib::group_to_multiset_ensures;
        let (target_width, target_height, direction) = self.crop_rect(aspect_ratio);
        let target = match direction {
            Direction::X => target_width,
            Direction::Y => target_height,
        };
        proof {
            self.lemma_trivial_fits(direction, target_width, target_height);
        }
        if let Some(g) = self.crop_trivial(direction, target_width, target_height) {
            let mut v: Vec<Geometry> = Vec::new();
            v.push(g);
            return v;
        }
        let ghost faces = self.faces@;
        let fi = first_min_face(&self.faces, direction);
        let li = last_max_face(&self.faces, direction);
        assert(face_in_range(faces[fi as int], self.width, self.height));
        assert(face_in_range(faces[li as int], self.width, self.height));
        let (start, end) = self.window_range(&self.faces[fi], &self.faces[li], direction, target);
        let ghost img_max = extent(self.width, self.height, direction) - target;
        let fa = self.entries(direction, target, start, end);
        let areas = distinct_areas_exec(&fa);
        let mut out: Vec<Geometry> = Vec::new();
        let ghost cands = self.candidates_from_entries(fa@, direction, target_width, target_height);
        for k in 0..areas.len()
            invariant
                areas@ == distinct_areas(fa@),
                cands == self.candidates_from_entries(fa@, direction, target_width, target_height),
                out@ =~= cands.take(k as int),
                target_width <= self.width,
                target_height <= self.height,
        {
            let a = areas[k];
            let starts = starts_of_exec(&fa, a);
            proof {
                lemma_distinct_areas(fa@, a);
                assert(areas@[k as int] == a);
                assert(distinct_areas(fa@).contains(a));
            }
            let mid = starts[starts.len() / 2];
            let g = self.clamp(mid, direction, target_width, target_height);
            out.push(g);
            assert(cands[k as int] == g);
            assert(cands.take(k + 1) =~= cands.take(k as int).push(g));
        }
        assert(cands.take(areas@.len() as int) =~= cands);
        assert(out@ == cands);
        let r = sort_faces_by_direction(out, direction);
        assert forall|i: int| 0 <= i < r@.len() implies fits_in(#[trigger] r@[i], self.width as int, self.height as int)
            && r@[i].w == target_width && r@[i].h == target_height by {
            r@.to_multiset_ensures();
            cands.to_multiset_ensures();
            assert(r@.contains(r@[i]));
            assert(r@.to_multiset().count(r@[i]) > 0);
            assert(cands.to_multiset().count(r@[i]) > 0);
            assert(cands.contains(r@[i]));
            let j = choose|j: int| 0 <= j < cands.len() && cands[j] == r@[i];
            let a = distinct_areas(fa@)[j];
            lemma_clamp_fits(
                self.width,
                self.height,
                starts_of(fa@, a)[(starts_of(fa@, a).len() / 2) as int] as int,
                direction,
                target_width,
                target_height,
            );
        }
        r
    }

    /// A crop that needs no search lies inside the image and has the target
    /// size.
    pub proof fn lemma_trivial_fits(&self, direction: Direction, target_width: u32, target_height: u32)
        requires
            target_width <= self.width,
            target_height <= self.height,
        ensures
            self.trivial_spec(direction, target_width, target_height) matches Some(g) ==> fits_in(
                g,
                self.width as int,
                self.height as int,
            ) && g.w == target_width && g.h == target_height,
    {
        if self.faces@.len() == 1 && !(self.width == target_width && self.height == target_height) {
            lemma_clamp_fits(
                self.width,
                self.height,
                single_face_start(self.faces@[0], direction, self.height, target_width),
                direction,
                target_width,
                target_height,
            );
        }
    }

    /// Every `(area, window start)` entry over the windows `start..=end`.
    fn entries(&self, direction: Direction, target: u32, start: u32, end: u32) -> (r: Vec<(u32, u32)>)
        requires
            self.in_range(),
            end as int + target <= extent(self.width, self.height, direction),
        ensures
            r@ == entries_upto(self.faces@, direction, start as int, window_count(start as int, end as int), target as int),
    {
        let mut fa: Vec<(u32, u32)> = Vec::new();
        if start > end {
            return fa;
        }
        let count: u64 = (end - start) as u64 + 1;
        let mut k: u64 = 0;
        while k < count
            invariant
                self.in_range(),
                start <= end,
                count == end - start + 1,
                end as int + target <= extent(self.width, self.height, direction),
                k <= count,
                fa@ == entries_upto(self.faces@, direction, start as int, k as nat, target as int),
            decreases count - k,
        {
            let rs = start + (k as u32);
            let re = rs + target;
            let ghost prefix = fa@;
            for j in 0..self.faces.len()
                invariant
                    self.in_range(),
                    rs as int + target <= extent(self.width, self.height, direction),
                    re == rs + target,
                    fa@ == prefix + window_entries(self.faces@.take(j as int), direction, rs as int, re as int),
            {
                let f = self.faces[j];
                assert(face_in_range(self.faces@[j as int], self.width, self.height));
                let (mn, mx) = f.direction_bounds(direction);
                proof {
                    lemma_window_entries_take(self.faces@, direction, rs as int, re as int, j as int);
                }
                if mn >= rs && mx <= re {
                    let a = f.area();
                    fa.push((a, rs));
                    assert(fa@ =~= prefix + window_entries(self.faces@.take(j + 1), direction, rs as int, re as int));
                } else {
                    assert(fa@ =~= prefix + window_entries(self.faces@.take(j + 1), direction, rs as int, re as int));
                }
            }
            assert(self.faces@.take(self.faces@.len() as int) =~= self.faces@);
            proof {
                lemma_entries_upto_step(self.faces@, direction, start as int, k as nat, target as int);
            }
            k = k + 1;
        }
        fa
    }
}

fn first_min_face(faces: &Vec<Geometry>, direction: Direction) -> (r: usize)
    requires
        faces@.len() >= 2,
    ensures
        r == first_min_index(faces@, direction),
        r < faces@.len(),
{
    let mut best: usize = 0;
    let mut j: usize = 1;
    assert(faces@.take(1).len() == 1);
    while j < faces.len()
        invariant
            1 <= j <= faces@.len(),
            best < j,
            best == first_min_index(faces@.take(j as int), direction),
        decreases faces@.len() - j,
    {
        let ghost t = faces@.take(j + 1);
        assert(t.drop_last() =~= faces@.take(j as int));
        assert(t.last() == faces@[j as int]);
        assert(t[best as int] == faces@[best as int]);
        if key_exec(&faces[j], direction) < key_exec(&faces[best], direction) {
            best = j;
        }
        j = j + 1;
    }
    assert(faces@.take(j as int) =~= faces@);
    best
}

fn last_max_face(faces: &Vec<Geometry>, direction: Direction) -> (r: usize)
    requires
        faces@.len() >= 2,
    ensures
        r == last_max_index(faces@, direction),
        r < faces@.len(),
{
    let mut best: usize = 0;
    let mut j: usize = 1;
    assert(faces@.take(1).len() == 1);
    while j < faces.len()
        invariant
            1 <= j <= faces@.len(),
            best < j,
            best == last_max_index(faces@.take(j as int), direction),
        decreases faces@.len() - j,
    {
        let ghost t = faces@.take(j + 1);
        assert(t.drop_last() =~= faces@.take(j as int));
        assert(t.last() == faces@[j as int]);
        assert(t[best as int] == faces@[best as int]);
        if key_exec(&faces[j], direction) >= key_exec(&faces[best], direction) {
            best = j;
        }
        j = j + 1;
    }
    assert(faces@.take(j as int) =~= faces@);
    best
}

fn distinct_areas_exec(fa: &Vec<(u32, u32)>) -> (r: Vec<u32>)
    ensures
        r@ == distinct_areas(fa@),
{
    let mut areas: Vec<u32> = Vec::new();
    for i in 0..fa.len()
        invariant
            areas@ == distinct_areas(fa@.take(i as int)),
    {
        let a = fa[i].0;
        let mut found = false;
        for j in 0..areas.len()
            invariant
                found <==> (exists|q: int| 0 <= q < j && areas@[q] == a),
        {
            if areas[j] == a {
                found = true;
            }
        }
        proof {
            lemma_distinct_step(fa@, i as int);
        }
        if !found {
            areas.push(a);
        }
    }
    assert(fa@.take(fa@.len() as int) =~= fa@);
    areas
}

fn starts_of_exec(fa: &Vec<(u32, u32)>, a: u32) -> (r: Vec<u32>)
    ensures
        r@ == starts_of(fa@, a),
{
    let mut starts: Vec<u32> = Vec::new();
    for i in 0..fa.len()
        invariant
            starts@ == starts_of(fa@.take(i as int), a),
    {
        proof {
            lemma_distinct_step(fa@, i as int);
        }
        if fa[i].0 == a {
            starts.push(fa[i].1);
        }
    }
    assert(fa@.take(fa@.len() as int) =~= fa@);
    starts
}


/// What one face adds to the count of faces in a window: a whole face, or the
/// part of its length, `covered` out of `length`, that reaches into the window
/// past the window's start and ends beyond its end.
#[derive(Debug, Clone, Copy, PartialEq, Eq, Structural)]
pub enum FaceShare {
    Whole,
    Part { covered: u32, length: u32 },
}

/// The faces of a window: what each face adds to the window's face count, in
/// face order, and the face area inside the window.
pub struct WindowCoverage {
    pub shares: Vec<FaceShare>,
    pub faces_area: u32,
}

/// The shares of faces sorted by start in the window from `rs` to `re`: the
/// scan stops at the first face that starts after the window, skips faces
/// that end before it, counts faces inside it whole and faces that stick out
/// past its end in part; faces that stick out only before its start count
/// for nothing.
pub open spec fn shares_spec(faces: Seq<Geometry>, direction: Direction, rs: int, re: int) -> Seq<FaceShare>
    decreases faces.len(),
{
    if faces.len() == 0 {
        Seq::empty()
    } else {
        let f = faces[0];
        let mn = bounds_of(f, direction).0;
        let mx = bounds_of(f, direction).1;
        let rest = shares_spec(faces.skip(1), direction, rs, re);
        if mn > re {
            Seq::empty()
        } else if mx < rs {
            rest
        } else if mn >= rs && mx <= re {
            seq![FaceShare::Whole] + rest
        } else if mx > re {
            seq![FaceShare::Part { covered: (re - mn) as u32, length: (mx - mn) as u32 }] + rest
        } else {
            rest
        }
    }
}

/// The face area inside the window, counted as `shares_spec` counts faces: the
/// whole area of a face inside the window, and the covered length times the
/// face's other side for a face that sticks out past the end.
pub open spec fn covered_area_spec(faces: Seq<Geometry>, direction: Direction, rs: int, re: int) -> int
    decreases faces.len(),
{
    if faces.len() == 0 {
        0
    } else {
        let f = faces[0];
        let mn = bounds_of(f, direction).0;
        let mx = bounds_of(f, direction).1;
        let rest = covered_area_spec(faces.skip(1), direction, rs, re);
        let side = match direction {
            Direction::X => f.h as int,
            Direction::Y => f.w as int,
        };
        if mn > re {
            0
        } else if mx < rs {
            rest
        } else if mn >= rs && mx <= re {
            f.w * f.h + rest
        } else if mx > re {
            (re - mn) * side + rest
        } else {
            rest
        }
    }
}

/// The largest area among the entries.
pub open spec fn max_area(fa: Seq<(u32, u32)>) -> u32
    decreases fa.len(),
{
    if fa.len() == 0 {
        0
    } else {
        let m = max_area(fa.drop_last());
        if fa.len() == 1 || fa.last().0 > m {
            fa.last().0
        } else {
            m
        }
    }
}

pub open spec fn u32_le() -> spec_fn(u32, u32) -> bool {
    |a: u32, b: u32| a <= b
}

/// The window start chosen among the entries: the middle one, in ascending
/// order, of the starts of the entries with the largest area.
pub open spec fn middle_start(fa: Seq<(u32, u32)>) -> u32 {
    let s = starts_of(fa, max_area(fa)).sort_by(u32_le());
    s[(s.len() / 2) as int]
}

proof fn lemma_covered_area_nonneg(faces: Seq<Geometry>, direction: Direction, rs: int, re: int)
    requires
        0 <= rs <= re,
    ensures
        covered_area_spec(faces, direction, rs, re) >= 0,
    decreases faces.len(),
{
    if faces.len() > 0 {
        lemma_covered_area_nonneg(faces.skip(1), direction, rs, re);
        let f = faces[0];
        let mn = bounds_of(f, direction).0;
        let side = match direction {
            Direction::X => f.h as int,
            Direction::Y => f.w as int,
        };
        assert(f.w * f.h >= 0) by (nonlinear_arith);
        if mn <= re {
            assert((re - mn) * side >= 0) by (nonlinear_arith)
                requires
                    re - mn >= 0,
                    side >= 0,
            ;
        }
    }
}

pub proof fn lemma_max_area(fa: Seq<(u32, u32)>)
    requires
        fa.len() >= 1,
    ensures
        starts_of(fa, max_area(fa)).len() >= 1,
        forall|i: int| 0 <= i < fa.len() ==> (#[trigger] fa[i]).0 <= max_area(fa),
    decreases fa.len(),
{
    if fa.len() > 1 {
        lemma_max_area(fa.drop_last());
        let m = max_area(fa.drop_last());
        assert forall|i: int| 0 <= i < fa.len() implies (#[trigger] fa[i]).0 <= max_area(fa) by {
            if i < fa.len() - 1 {
                assert(fa.drop_last()[i] == fa[i]);
            }
        }
        if !(fa.last().0 > m) {
            lemma_starts_of_len_mono(fa, m);
        }
    }
}

proof fn lemma_starts_of_len_mono(fa: Seq<(u32, u32)>, a: u32)
    requires
        fa.len() >= 1,
    ensures
        starts_of(fa, a).len() >= starts_of(fa.drop_last(), a).len(),
{
}

proof fn lemma_u32_le_total()
    ensures
        vstd::relations::total_ordering(u32_le()),
{
    let leq = u32_le();
    assert(vstd::relations::reflexive(leq));
    assert(vstd::relations::antisymmetric(leq));
    assert(vstd::relations::transitive(leq));
    assert(vstd::relations::strongly_connected(leq));
}

/// Two ascending sequences with the same elements are equal.
proof fn lemma_sorted_unique(s1: Seq<u32>, s2: Seq<u32>)
    requires
        vstd::relations::sorted_by(s1, u32_le()),
        vstd::relations::sorted_by(s2, u32_le()),
        s1.to_multiset() == s2.to_multiset(),
    ensures
        s1 == s2,
    decreases s1.len(),
{
    broadcast use vstd::seq_lib::group_to_multiset_ensures;
    s1.to_multiset_ensures();
    s2.to_multiset_ensures();
    assert(s1.len() == s2.len());
    if s1.len() == 0 {
        assert(s1 =~= s2);
    } else {
        assert(s1.contains(s1[0]));
        assert(s2.to_multiset().count(s1[0]) > 0);
        assert(s2.contains(s1[0]));
        let j = choose|j: int| 0 <= j < s2.len() && s2[j] == s1[0];
        if j > 0 {
            assert(u32_le()(s2[0], s2[j]));
        }
        assert(s2.contains(s2[0]));
        assert(s1.to_multiset().count(s2[0]) > 0);
        assert(s1.contains(s2[0]));
        let k = choose|k: int| 0 <= k < s1.len() && s1[k] == s2[0];
        if k > 0 {
            assert(u32_le()(s1[0], s1[k]));
        }
        assert(s1[0] == s2[0]);
        assert(s1.remove(0) =~= s1.drop_first());
        assert(s2.remove(0) =~= s2.drop_first());
        assert(s1.drop_first().to_multiset() =~= s2.drop_first().to_multiset());
        assert(vstd::relations::sorted_by(s1.drop_first(), u32_le())) by {
            assert forall|a: int, b: int| 0 <= a < b < s1.drop_first().len() implies #[trigger] u32_le()(s1.drop_first()[a], s1.drop_first()[b]) by {
                assert(u32_le()(s1[a + 1], s1[b + 1]));
            }
        }
        assert(vstd::relations::sorted_by(s2.drop_first(), u32_le())) by {
            assert forall|a: int, b: int| 0 <= a < b < s2.drop_first().len() implies #[trigger] u32_le()(s2.drop_first()[a], s2.drop_first()[b]) by {
                assert(u32_le()(s2[a + 1], s2[b + 1]));
            }
        }
        lemma_sorted_unique(s1.drop_first(), s2.drop_first());
        assert(s1 =~= s2) by {
            assert forall|i: int| 0 <= i < s1.len() implies s1[i] == s2[i] by {
                if i > 0 {
                    assert(s1[i] == s1.drop_first()[i - 1]);
                    assert(s2[i] == s2.drop_first()[i - 1]);
                }
            }
        }
    }
}

/// Sorts numbers in ascending order.
fn sort_u32(v: Vec<u32>) -> (r: Vec<u32>)
    ensures
        r@ == v@.sort_by(u32_le()),
{
    broadcast use vstd::seq_lib::group_to_multiset_ensures;
    let mut out: Vec<u32> = Vec::new();
    let n = v.len();
    for i in 0..n
        invariant
            n == v@.len(),
            vstd::relations::sorted_by(out@, u32_le()),
            out@.to_multiset() == v@.take(i as int).to_multiset(),
    {
        let x = v[i];
        let mut p: usize = 0;
        while p < out.len() && out[p] <= x
            invariant
                p <= out@.len(),
                forall|q: int| 0 <= q < p ==> #[trigger] out@[q] <= x,
            decreases out@.len() - p,
        {
            p = p + 1;
        }
        let ghost before = out@;
        proof {
            lemma_insert_multiset(before, p as int, x);
            before.insert_ensures(p as int, x);
            v@.take(i as int).to_multiset_ensures();
        }
        out.insert(p, x);
        assert(v@.take(i + 1) =~= v@.take(i as int).push(x));
        assert(vstd::relations::sorted_by(out@, u32_le())) by {
            assert forall|a: int, b: int| 0 <= a < b < out@.len() implies #[trigger] u32_le()(out@[a], out@[b]) by {
                if p < before.len() {
                    assert(x < before[p as int]);
                }
                if a < p && b > p {
                    assert(u32_le()(before[a], before[b - 1]));
                } else if a == p && b > p {
                    if b - 1 > p {
                        assert(u32_le()(before[p as int], before[b - 1]));
                    }
                } else if b < p {
                    assert(u32_le()(before[a], before[b]));
                } else if a > p {
                    assert(u32_le()(before[a - 1], before[b - 1]));
                }
            }
        }
    }
    assert(v@.take(n as int) =~= v@);
    proof {
        lemma_u32_le_total();
        v@.lemma_sort_by_ensures(u32_le());
        lemma_sorted_unique(out@, v@.sort_by(u32_le()));
    }
    out
}

impl Cropper {
    /// The faces of the window from `rs` to `re`, for faces sorted by their
    /// start along `direction`.
    pub fn window_coverage(faces: &Vec<Geometry>, direction: Direction, rs: u32, re: u32) -> (r: WindowCoverage)
        requires
            rs <= re,
            forall|i: int| 0 <= i < faces@.len() ==> (#[trigger] faces@[i]).x + faces@[i].w <= u32::MAX
                && faces@[i].y + faces@[i].h <= u32::MAX && faces@[i].w * faces@[i].h <= u32::MAX,
            covered_area_spec(faces@, direction, rs as int, re as int) <= u32::MAX,
        ensures
            r.shares@ == shares_spec(faces@, direction, rs as int, re as int),
            r.faces_area == covered_area_spec(faces@, direction, rs as int, re as int),
    {
        let mut shares: Vec<FaceShare> = Vec::new();
        let mut faces_area: u32 = 0;
        let n = faces.len();
        let mut i: usize = 0;
        let mut done = false;
        proof {
            assert(faces@.skip(0) =~= faces@);
        }
        while i < n && !done
            invariant
                n == faces@.len(),
                i <= n,
                rs <= re,
                forall|k: int| 0 <= k < faces@.len() ==> (#[trigger] faces@[k]).x + faces@[k].w <= u32::MAX
                    && faces@[k].y + faces@[k].h <= u32::MAX && faces@[k].w * faces@[k].h <= u32::MAX,
                shares@ + shares_spec(faces@.skip(i as int), direction, rs as int, re as int)
                    == shares_spec(faces@, direction, rs as int, re as int),
                faces_area + covered_area_spec(faces@.skip(i as int), direction, rs as int, re as int)
                    == covered_area_spec(faces@, direction, rs as int, re as int),
                covered_area_spec(faces@, direction, rs as int, re as int) <= u32::MAX,
                done ==> shares_spec(faces@.skip(i as int), direction, rs as int, re as int) == Seq::<FaceShare>::empty(),
                done ==> covered_area_spec(faces@.skip(i as int), direction, rs as int, re as int) == 0,
            decreases n - i + (if done { 0int } else { 1int }),
        {
            let f = faces[i];
            let ghost rest = faces@.skip(i as int);
            let ghost tail = faces@.skip(i + 1);
            assert(rest[0] == f);
            assert(rest.skip(1) =~= tail);
            proof {
                lemma_covered_area_nonneg(tail, direction, rs as int, re as int);
            }
            let (mn, mx) = f.direction_bounds(direction);
            if mn > re {
                done = true;
            } else {
                if mx < rs {
                } else if mn >= rs && mx <= re {
                    let a = f.area();
                    faces_area = faces_area + a;
                    shares.push(FaceShare::Whole);
                } else if mx > re {
                    let side = match direction {
                        Direction::X => f.h,
                        Direction::Y => f.w,
                    };
                    assert((re - mn) * side <= f.w * f.h) by (nonlinear_arith)
                        requires
                            re - mn <= mx - mn,
                            mx - mn == (if direction == Direction::X { f.w } else { f.h }),
                            side == (if direction == Direction::X { f.h } else { f.w }),
                            mn <= re,
                    ;
                    let part = (re - mn) * side;
                    faces_area = faces_area + part;
                    shares.push(FaceShare::Part { covered: re - mn, length: mx - mn });
                }
                i = i + 1;
                assert(shares@ + shares_spec(faces@.skip(i as int), direction, rs as int, re as int)
                    =~= shares_spec(faces@, direction, rs as int, re as int));
            }
        }
        if !done {
            assert(faces@.skip(n as int) =~= Seq::<Geometry>::empty());
        }
        assert(shares@ =~= shares@ + shares_spec(faces@.skip(i as int), direction, rs as int, re as int));
        WindowCoverage { shares, faces_area }
    }

    /// The crop at the window chosen among the best-scoring windows: the
    /// middle one, by start, of the windows with the largest face area.
    pub fn crop_from_face_areas(
        &self,
        face_areas: &Vec<(u32, u32)>,
        direction: Direction,
        target_width: u32,
        target_height: u32,
    ) -> (r: Geometry)
        requires
            face_areas@.len() >= 1,
            direction == Direction::X ==> target_width <= self.width,
            direction == Direction::Y ==> target_height <= self.height,
        ensures
            r == clamp_spec(
                self.width,
                self.height,
                middle_start(face_areas@) as int,
                direction,
                target_width,
                target_height,
            ),
    {
        let mut m: u32 = face_areas[0].0;
        let mut i: usize = 1;
        assert(face_areas@.take(1).drop_last() =~= Seq::<(u32, u32)>::empty());
        while i < face_areas.len()
            invariant
                1 <= i <= face_areas@.len(),
                m == max_area(face_areas@.take(i as int)),
            decreases face_areas@.len() - i,
        {
            assert(face_areas@.take(i + 1).drop_last() =~= face_areas@.take(i as int));
            if face_areas[i].0 > m {
                m = face_areas[i].0;
            }
            i = i + 1;
        }
        assert(face_areas@.take(i as int) =~= face_areas@);
        let starts = starts_of_exec(face_areas, m);
        proof {
            lemma_max_area(face_areas@);
        }
        let sorted = sort_u32(starts);
        proof {
            lemma_u32_le_total();
            starts_of(face_areas@, m).lemma_sort_by_ensures(u32_le());
            starts_of(face_areas@, m).to_multiset_ensures();
            starts_of(face_areas@, m).sort_by(u32_le()).to_multiset_ensures();
        }
        assert(sorted@.len() == starts_of(face_areas@, m).len());
        let start = sorted[sorted.len() / 2];
        self.clamp(start, direction, target_width, target_height)
    }
}

/// What a face adds to the face area of the window from `rs` to `re`: all
/// of it when it lies inside; when it sticks out past the end, the length
/// from its start to the window's end times its other side; nothing when it
/// lies outside or sticks out only before the start.
pub open spec fn face_contribution(f: Geometry, direction: Direction, rs: int, re: int) -> int {
    let mn = bounds_of(f, direction).0;
    let mx = bounds_of(f, direction).1;
    let side = match direction {
        Direction::X => f.h as int,
        Direction::Y => f.w as int,
    };
    if mn > re || mx < rs {
        0
    } else if mn >= rs && mx <= re {
        f.w * f.h
    } else if mx > re {
        (re - mn) * side
    } else {
        0
    }
}

/// The face area of the window from `rs` to `re`.
pub open spec fn window_area(faces: Seq<Geometry>, direction: Direction, rs: int, re: int) -> int
    decreases faces.len(),
{
    if faces.len() == 0 {
        0
    } else {
        window_area(faces.drop_last(), direction, rs, re) + face_contribution(faces.last(), direction, rs, re)
    }
}

/// The face areas of the `n` windows from `start` on fit a `u32`.
pub open spec fn windows_fit(faces: Seq<Geometry>, direction: Direction, start: int, target: int, n: nat) -> bool {
    forall|k: int| 0 <= k < n ==> #[trigger] window_area(faces, direction, start + k, start + k + target) <= u32::MAX
}

/// The `(face area, start)` entries of the windows among the first `n`,
/// starting at `start`, that `best` selects.
pub open spec fn best_entries(
    faces: Seq<Geometry>,
    direction: Direction,
    start: int,
    n: nat,
    target: int,
    best: Seq<bool>,
) -> Seq<(u32, u32)>
    decreases n,
{
    if n == 0 {
        Seq::empty()
    } else {
        let before = best_entries(faces, direction, start, (n - 1) as nat, target, best);
        let rs = start + n - 1;
        if best[n - 1] {
            before.push((window_area(faces, direction, rs, rs + target) as u32, rs as u32))
        } else {
            before
        }
    }
}

proof fn lemma_contribution_bounds(f: Geometry, direction: Direction, rs: int, re: int)
    requires
        rs <= re,
    ensures
        0 <= face_contribution(f, direction, rs, re) <= f.w * f.h,
{
    let mn = bounds_of(f, direction).0;
    let mx = bounds_of(f, direction).1;
    let side = match direction {
        Direction::X => f.h as int,
        Direction::Y => f.w as int,
    };
    assert(f.w * f.h >= 0) by (nonlinear_arith);
    if !(mn > re || mx < rs) && !(mn >= rs && mx <= re) && mx > re {
        assert(0 <= (re - mn) * side <= f.w * f.h) by (nonlinear_arith)
            requires
                0 <= re - mn <= mx - mn,
                mx - mn == (if direction == Direction::X { f.w as int } else { f.h as int }),
                side == (if direction == Direction::X { f.h as int } else { f.w as int }),
                side >= 0,
        ;
    }
}

proof fn lemma_window_area_nonneg(faces: Seq<Geometry>, direction: Direction, rs: int, re: int)
    requires
        rs <= re,
    ensures
        window_area(faces, direction, rs, re) >= 0,
    decreases faces.len(),
{
    if faces.len() > 0 {
        lemma_window_area_nonneg(faces.drop_last(), direction, rs, re);
        lemma_contribution_bounds(faces.last(), direction, rs, re);
    }
}

impl Cropper {
    /// The face area of the window from `rs` to `re`.
    fn window_area_exec(&self, direction: Direction, rs: u32, re: u32) -> (r: u32)
        requires
            self.in_range(),
            rs <= re,
            window_area(self.faces@, direction, rs as int, re as int) <= u32::MAX,
        ensures
            r == window_area(self.faces@, direction, rs as int, re as int),
    {
        let mut total: u64 = 0;
        for j in 0..self.faces.len()
            invariant
                self.in_range(),
                rs <= re,
                window_area(self.faces@, direction, rs as int, re as int) <= u32::MAX,
                total == window_area(self.faces@.take(j as int), direction, rs as int, re as int),
                total <= u32::MAX,
        {
            let f = self.faces[j];
            assert(face_in_range(self.faces@[j as int], self.width, self.height));
            assert(self.faces@.take(j + 1).drop_last() =~= self.faces@.take(j as int));
            proof {
                lemma_contribution_bounds(f, direction, rs as int, re as int);
                lemma_window_area_prefix(self.faces@, direction, rs as int, re as int, j + 1);
                lemma_window_area_prefix_le(self.faces@, direction, rs as int, re as int, j + 1);
            }
            let (mn, mx) = f.direction_bounds(direction);
            let side = match direction {
                Direction::X => f.h,
                Direction::Y => f.w,
            };
            let c: u64 = if mn > re || mx < rs {
                0
            } else if mn >= rs && mx <= re {
                f.area() as u64
            } else if mx > re {
                assert((re - mn) * side <= f.w * f.h) by (nonlinear_arith)
                    requires
                        re - mn <= mx - mn,
                        mx - mn == (if direction == Direction::X { f.w } else { f.h }),
                        side == (if direction == Direction::X { f.h } else { f.w }),
                        mn <= re,
                ;
                ((re - mn) * side) as u64
            } else {
                0
            };
            total = total + c;
        }
        assert(self.faces@.take(self.faces@.len() as int) =~= self.faces@);
        total as u32
    }

    /// The crop for the ratio: the one that needs no search when there is
    /// one; otherwise, among the windows that `best_windows` selects (one
    /// flag per window position of the sliding window, in order), the window
    /// at the middle start of those with the largest face area.
    pub fn crop(&self, aspect_ratio: &AspectRatio, best_windows: &Vec<bool>) -> (r: Geometry)
        requires
            self.in_range(),
            ratio_in_range(*aspect_ratio, self.width, self.height),
            ({
                let (tw, th, direction) = crop_rect_spec(self.width, self.height, *aspect_ratio);
                self.trivial_spec(direction, tw, th) is None ==> {
                    let target = if direction == Direction::X {
                        tw as int
                    } else {
                        th as int
                    };
                    let range = self.crop_window_range(direction, tw, th);
                    &&& best_windows@.len() == window_count(range.0, range.1)
                    &&& exists|k: int| 0 <= k < best_windows@.len() && #[trigger] best_windows@[k]
                    &&& windows_fit(self.faces@, direction, range.0, target, best_windows@.len())
                }
            }),
        ensures
            r == self.crop_spec(*aspect_ratio, best_windows@),
    {
        let (target_width, target_height, direction) = self.crop_rect(aspect_ratio);
        let target = match direction {
            Direction::X => target_width,
            Direction::Y => target_height,
        };
        proof {
            self.lemma_trivial_fits(direction, target_width, target_height);
        }
        if let Some(g) = self.crop_trivial(direction, target_width, target_height) {
            return g;
        }
        let fi = first_min_face(&self.faces, direction);
        let li = last_max_face(&self.faces, direction);
        assert(face_in_range(self.faces@[fi as int], self.width, self.height));
        assert(face_in_range(self.faces@[li as int], self.width, self.height));
        let (start, end) = self.window_range(&self.faces[fi], &self.faces[li], direction, target);
        assert((start as int, end as int) == self.crop_window_range(direction, target_width, target_height));
        let ghost n = window_count(start as int, end as int);
        let mut fa: Vec<(u32, u32)> = Vec::new();
        let mut k: usize = 0;
        let mut picked = false;
        while k < best_windows.len()
            invariant
                self.in_range(),
                best_windows@.len() == n,
                n == window_count(start as int, end as int),
                start <= end ==> end as int + target <= extent(self.width, self.height, direction),
                k <= best_windows@.len(),
                fa@ == best_entries(self.faces@, direction, start as int, k as nat, target as int, best_windows@),
                picked == (exists|q: int| 0 <= q < k && #[trigger] best_windows@[q]),
                picked ==> fa@.len() >= 1,
                windows_fit(self.faces@, direction, start as int, target as int, best_windows@.len()),
            decreases best_windows@.len() - k,
        {
            let rs = start + k as u32;
            let re = rs + target;
            if best_windows[k] {
                assert(window_area(self.faces@, direction, start + k, start + k + target) <= u32::MAX);
                let a = self.window_area_exec(direction, rs, re);
                fa.push((a, rs));
                picked = true;
            }
            k = k + 1;
        }
        self.crop_from_face_areas(&fa, direction, target_width, target_height)
    }

    /// The first and last start of the sliding window for the faces.
    pub open spec fn crop_window_range(&self, direction: Direction, tw: u32, th: u32) -> (int, int) {
        let faces = self.faces@;
        let target = if direction == Direction::X {
            tw as int
        } else {
            th as int
        };
        window_range_spec(
            faces[first_min_index(faces, direction)],
            faces[last_max_index(faces, direction)],
            direction,
            target,
            extent(self.width, self.height, direction) - target,
        )
    }

    /// The crop that `crop` chooses.
    pub open spec fn crop_spec(&self, aspect_ratio: AspectRatio, best: Seq<bool>) -> Geometry {
        let (tw, th, direction) = crop_rect_spec(self.width, self.height, aspect_ratio);
        match self.trivial_spec(direction, tw, th) {
            Some(g) => g,
            None => {
                let target = if direction == Direction::X {
                    tw as int
                } else {
                    th as int
                };
                let range = self.crop_window_range(direction, tw, th);
                let fa = best_entries(self.faces@, direction, range.0, window_count(range.0, range.1), target, best);
                clamp_spec(self.width, self.height, middle_start(fa) as int, direction, tw, th)
            },
        }
    }
}

proof fn lemma_window_area_prefix_le(faces: Seq<Geometry>, direction: Direction, rs: int, re: int, j: int)
    requires
        0 <= j <= faces.len(),
        rs <= re,
    ensures
        window_area(faces.take(j), direction, rs, re) <= window_area(faces, direction, rs, re),
    decreases faces.len() - j,
{
    if j < faces.len() {
        lemma_window_area_prefix_le(faces, direction, rs, re, j + 1);
        lemma_window_area_prefix(faces, direction, rs, re, j + 1);
        lemma_contribution_bounds(faces[j], direction, rs, re);
    } else {
        assert(faces.take(j) =~= faces);
    }
}

proof fn lemma_window_area_prefix(faces: Seq<Geometry>, direction: Direction, rs: int, re: int, j: int)
    requires
        0 < j <= faces.len(),
    ensures
        window_area(faces.take(j), direction, rs, re) == window_area(faces.take(j - 1), direction, rs, re)
            + face_contribution(faces[j - 1], direction, rs, re),
{
    assert(faces.take(j).drop_last() =~= faces.take(j - 1));
}

impl Cropper {
    /// The crop chosen for a ratio lies inside the image and has the size of
    /// the largest rectangle of the ratio, whichever windows are chosen.
    pub proof fn lemma_crop_fits(&self, aspect_ratio: AspectRatio, best: Seq<bool>)
        requires
            ratio_in_range(aspect_ratio, self.width, self.height),
        ensures
            fits_in(self.crop_spec(aspect_ratio, best), self.width as int, self.height as int),
            self.crop_spec(aspect_ratio, best).w == crop_rect_spec(self.width, self.height, aspect_ratio).0,
            self.crop_spec(aspect_ratio, best).h == crop_rect_spec(self.width, self.height, aspect_ratio).1,
    {
        let (tw, th, direction) = crop_rect_spec(self.width, self.height, aspect_ratio);
        lemma_crop_rect_fits(self.width, self.height, aspect_ratio);
        self.lemma_trivial_fits(direction, tw, th);
        if self.trivial_spec(direction, tw, th) is None {
            let target = if direction == Direction::X {
                tw as int
            } else {
                th as int
            };
            let range = self.crop_window_range(direction, tw, th);
            let fa = best_entries(self.faces@, direction, range.0, window_count(range.0, range.1), target, best);
            lemma_clamp_fits(self.width, self.height, middle_start(fa) as int, direction, tw, th);
        }
    }
}

} // verus!
