//! Crop rectangles within an image, and their `WxH+X+Y` text form.
use vstd::prelude::*;
use std::cmp::Ordering;

use crate::cropper::Direction;
use crate::text::{
    chars_of, decimal, lemma_decimal_no_sep, lemma_parse_decimal, lemma_parsed_values_push,
    lemma_split_by_sep_then, lemma_split_by_single, parsed_values, push_literal, split_by,
    write_decimal,
};

verus! {

/// The text of a geometry did not hold four numbers.
#[derive(Debug, Clone, Copy, PartialEq, Eq, Structural)]
pub enum GeometryError {
    InvalidCoordinate,
}

/// A rectangle of `w` by `h` pixels whose top left corner is at (`x`, `y`).
#[derive(Debug, Default, Clone, Copy, PartialEq, Eq, Hash, Structural)]
pub struct Geometry {
    pub w: u32,
    pub h: u32,
    pub x: u32,
    pub y: u32,
}

/// The separators of the text form: `x` between width and height, `+` before
/// each coordinate.
pub open spec fn is_geometry_sep(c: char) -> bool {
    c == 'x' || c == '+'
}

/// The text form `WxH+X+Y`.
pub open spec fn geometry_text(g: Geometry) -> Seq<char> {
    decimal(g.w as nat).push('x') + decimal(g.h as nat)
        .push('+') + decimal(g.x as nat).push('+') + decimal(g.y as nat)
}

/// Reading a geometry: the text is split at every `x` and `+`, the pieces
/// that are `u32` numbers are kept, and exactly four of them must remain:
/// width, height, x and y in that order.
pub open spec fn parse_geometry(s: Seq<char>) -> Result<Geometry, GeometryError> {
    let v = parsed_values(split_by(s, |c: char| is_geometry_sep(c)));
    if v.len() == 4 {
        Ok(Geometry { w: v[0], h: v[1], x: v[2], y: v[3] })
    } else {
        Err(GeometryError::InvalidCoordinate)
    }
}

/// The start and end of a geometry along a direction.
pub open spec fn bounds_of(g: Geometry, direction: Direction) -> (int, int) {
    match direction {
        Direction::X => (g.x as int, g.x + g.w),
        Direction::Y => (g.y as int, g.y + g.h),
    }
}

/// `a` comes before `b` by position: by `x`, then by `y`.
pub open spec fn position_lt(a: Geometry, b: Geometry) -> bool {
    a.x < b.x || (a.x == b.x && a.y < b.y)
}

/// The geometry lies within an image of the given size.
pub open spec fn fits_in(g: Geometry, img_width: int, img_height: int) -> bool {
    g.x + g.w <= img_width && g.y + g.h <= img_height
}

impl Geometry {
    pub fn xmax(&self) -> (r: u32)
        requires
            self.x + self.w <= u32::MAX,
        ensures
            r == self.x + self.w,
    {
        self.x + self.w
    }

    pub fn ymax(&self) -> (r: u32)
        requires
            self.y + self.h <= u32::MAX,
        ensures
            r == self.y + self.h,
    {
        self.y + self.h
    }

    pub fn area(&self) -> (r: u32)
        requires
            self.w * self.h <= u32::MAX,
        ensures
            r == self.w * self.h,
    {
        self.w * self.h
    }

    /// The start and end of the geometry along `direction`.
    pub fn direction_bounds(&self, direction: Direction) -> (r: (u32, u32))
        requires
            direction == Direction::X ==> self.x + self.w <= u32::MAX,
            direction == Direction::Y ==> self.y + self.h <= u32::MAX,
        ensures
            (r.0 as int, r.1 as int) == bounds_of(*self, direction),
    {
        match direction {
            Direction::X => (self.x, self.xmax()),
            Direction::Y => (self.y, self.ymax()),
        }
    }

    /// Moves the geometry to the top left corner of the image.
    pub fn align_start(&self, _img_width: u32, _img_height: u32) -> (r: Geometry)
        ensures
            r == (Geometry { x: 0, y: 0, ..*self }),
    {
        Geometry { x: 0, y: 0, ..*self }
    }

    /// Centers the geometry: horizontally when it spans the full image height,
    /// vertically otherwise.
    pub fn align_center(&self, img_width: u32, img_height: u32) -> (r: Geometry)
        requires
            img_height == self.h ==> self.w <= img_width,
            img_height != self.h ==> self.h <= img_height,
        ensures
            img_height == self.h ==> r == (Geometry {
                x: ((img_width - self.w) / 2) as u32,
                y: 0,
                ..*self
            }),
            img_height != self.h ==> r == (Geometry {
                x: 0,
                y: ((img_height - self.h) / 2) as u32,
                ..*self
            }),
    {
        if img_height == self.h {
            Geometry { x: (img_width - self.w) / 2, y: 0, ..*self }
        } else {
            Geometry { x: 0, y: (img_height - self.h) / 2, ..*self }
        }
    }

    /// Moves the geometry to the right edge when it spans the full image
    /// height, to the bottom edge otherwise.
    pub fn align_end(&self, img_width: u32, img_height: u32) -> (r: Geometry)
        requires
            img_height == self.h ==> self.w <= img_width,
            img_height != self.h ==> self.h <= img_height,
        ensures
            img_height == self.h ==> r == (Geometry {
                x: (img_width - self.w) as u32,
                y: 0,
                ..*self
            }),
            img_height != self.h ==> r == (Geometry {
                x: 0,
                y: (img_height - self.h) as u32,
                ..*self
            }),
    {
        if img_height == self.h {
            Geometry { x: img_width - self.w, y: 0, ..*self }
        } else {
            Geometry { x: 0, y: img_height - self.h, ..*self }
        }
    }

    /// Orders geometries by their position: by `x`, then by `y`; the size
    /// plays no part.
    pub fn compare(&self, other: &Geometry) -> (r: Ordering)
        ensures
            (r == Ordering::Less) == position_lt(*self, *other),
            (r == Ordering::Greater) == position_lt(*other, *self),
            (r == Ordering::Equal) == (self.x == other.x && self.y == other.y),
    {
        if self.x < other.x {
            Ordering::Less
        } else if self.x > other.x {
            Ordering::Greater
        } else if self.y < other.y {
            Ordering::Less
        } else if self.y > other.y {
            Ordering::Greater
        } else {
            Ordering::Equal
        }
    }

    /// Reads the `WxH+X+Y` text form.
    pub fn try_from(s: &str) -> (r: Result<Geometry, GeometryError>)
        ensures
            r == parse_geometry(s@),
    {
        let chars = chars_of(s);
        let mut seps: Vec<char> = Vec::new();
        seps.push('x');
        seps.push('+');
        let ghost is_sep = |c: char| is_geometry_sep(c);
        assert forall|c: char| is_sep(c) <==> seps@.contains(c) by {
            if c == 'x' {
                assert(seps@[0] == c);
            }
            if c == '+' {
                assert(seps@[1] == c);
            }
        }
        let v = crate::text::split_parse_u32(&chars, &seps, Ghost(is_sep));
        if v.len() != 4 {
            return Err(GeometryError::InvalidCoordinate);
        }
        Ok(Geometry { w: v[0], h: v[1], x: v[2], y: v[3] })
    }

    /// The `WxH+X+Y` text form.
    pub fn to_string(&self) -> (r: String)
        ensures
            r@ == geometry_text(*self),
    {
        let mut out = String::new();
        write_decimal(&mut out, self.w as u64);
        proof {
            reveal_strlit("x");
            reveal_strlit("+");
        }
        push_literal(&mut out, "x");
        write_decimal(&mut out, self.h as u64);
        push_literal(&mut out, "+");
        write_decimal(&mut out, self.x as u64);
        push_literal(&mut out, "+");
        write_decimal(&mut out, self.y as u64);
        assert(out@ =~= geometry_text(*self));
        out
    }
}

/// Writing a geometry as text and reading the text back gives the same
/// geometry.
pub proof fn lemma_geometry_text_roundtrip(g: Geometry)
    ensures
        parse_geometry(geometry_text(g)) == Ok::<Geometry, GeometryError>(g),
{
    let is_sep = |c: char| is_geometry_sep(c);
    let dw = decimal(g.w as nat);
    let dh = decimal(g.h as nat);
    let dx = decimal(g.x as nat);
    let dy = decimal(g.y as nat);
    lemma_decimal_no_sep(g.w as nat, is_sep);
    lemma_decimal_no_sep(g.h as nat, is_sep);
    lemma_decimal_no_sep(g.x as nat, is_sep);
    lemma_decimal_no_sep(g.y as nat, is_sep);
    let t1 = dw;
    let t2 = t1.push('x') + dh;
    let t3 = t2.push('+') + dx;
    let t4 = t3.push('+') + dy;
    assert(t4 =~= geometry_text(g));
    lemma_split_by_single(t1, is_sep);
    lemma_split_by_sep_then(t1, 'x', dh, is_sep);
    lemma_split_by_sep_then(t2, '+', dx, is_sep);
    lemma_split_by_sep_then(t3, '+', dy, is_sep);
    let pieces = split_by(t4, is_sep);
    assert(pieces == seq![dw].push(dh).push(dx).push(dy));
    lemma_parse_decimal(g.w);
    lemma_parse_decimal(g.h);
    lemma_parse_decimal(g.x);
    lemma_parse_decimal(g.y);
    assert(seq![dw] =~= Seq::<Seq<char>>::empty().push(dw));
    lemma_parsed_values_push(Seq::<Seq<char>>::empty(), dw);
    lemma_parsed_values_push(seq![dw], dh);
    lemma_parsed_values_push(seq![dw].push(dh), dx);
    lemma_parsed_values_push(seq![dw].push(dh).push(dx), dy);
    let v = parsed_values(pieces);
    assert(v =~= seq![g.w, g.h, g.x, g.y]);
}

/// Every alignment keeps the size of the geometry and keeps a geometry that
/// fits the image inside the image.
pub proof fn lemma_alignments_fit(g: Geometry, img_width: u32, img_height: u32)
    requires
        g.w <= img_width,
        g.h <= img_height,
    ensures
        fits_in(Geometry { x: 0, y: 0, ..g }, img_width as int, img_height as int),
        img_height == g.h ==> fits_in(
            Geometry { x: ((img_width - g.w) / 2) as u32, y: 0, ..g },
            img_width as int,
            img_height as int,
        ),
        img_height != g.h ==> fits_in(
            Geometry { x: 0, y: ((img_height - g.h) / 2) as u32, ..g },
            img_width as int,
            img_height as int,
        ),
        img_height == g.h ==> fits_in(
            Geometry { x: (img_width - g.w) as u32, y: 0, ..g },
            img_width as int,
            img_height as int,
        ),
        img_height != g.h ==> fits_in(
            Geometry { x: 0, y: (img_height - g.h) as u32, ..g },
            img_width as int,
            img_height as int,
        ),
{
}

} // verus!
