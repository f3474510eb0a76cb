//! Adding a resolution to wallpapers that have crops already: the new crop
//! follows the crop chosen for the nearest existing ratio.
use vstd::prelude::*;

use crate::aspect_ratio::AspectRatio;
use crate::config::{closer, closer_exec};
use crate::cropper::{clamp_spec, Direction};
use crate::geometry::Geometry;
use crate::wallpapers::{crops_of, geometry_for, WallInfo};

verus! {

/// The first position, among the first `n`, of the ratio other than `t`
/// nearest to `t`, if there is such a ratio.
pub open spec fn nearest_other_index(rs: Seq<AspectRatio>, t: AspectRatio, n: int) -> Option<int>
    decreases n,
{
    if n <= 0 {
        None
    } else {
        let before = nearest_other_index(rs, t, n - 1);
        if rs[n - 1] == t {
            before
        } else {
            match before {
                None => Some(n - 1),
                Some(b) => if closer(rs[n - 1], rs[b], t) {
                    Some(n - 1)
                } else {
                    Some(b)
                },
            }
        }
    }
}

proof fn lemma_nearest_other_bounds(rs: Seq<AspectRatio>, t: AspectRatio, n: int)
    ensures
        nearest_other_index(rs, t, n) matches Some(b) ==> 0 <= b < n,
    decreases n,
{
    if n > 0 {
        lemma_nearest_other_bounds(rs, t, n - 1);
    }
}

/// The configured ratio nearest to `new_res` other than `new_res` itself,
/// the first of the nearest ones; distances are compared exactly.
pub fn closest_existing_resolution(resolutions: &Vec<AspectRatio>, new_res: &AspectRatio) -> (r: Option<AspectRatio>)
    ensures
        r == match nearest_other_index(resolutions@, *new_res, resolutions@.len() as int) {
            Some(i) => Some(resolutions@[i]),
            None => None,
        },
{
    let mut best: Option<usize> = None;
    for i in 0..resolutions.len()
        invariant
            best == match nearest_other_index(resolutions@, *new_res, i as int) {
                Some(b) => Some(b as usize),
                None => None::<usize>,
            },
            nearest_other_index(resolutions@, *new_res, i as int) matches Some(b) ==> 0 <= b < i,
    {
        proof {
            lemma_nearest_other_bounds(resolutions@, *new_res, i + 1);
        }
        let a = resolutions[i];
        if a != *new_res {
            match best {
                None => {
                    best = Some(i);
                },
                Some(b) => {
                    if closer_exec(&a, &resolutions[b], new_res) {
                        best = Some(i);
                    }
                },
            }
        }
    }
    match best {
        Some(b) => Some(resolutions[b]),
        None => None,
    }
}

/// Where the new crop starts: centred on the old crop along `X`, at the old
/// crop's start along `Y`; a start before the image's start is taken as 0.
pub open spec fn centred_start(closest: Geometry, new_crop: Geometry, direction: Direction) -> int {
    match direction {
        Direction::X => if 2 * closest.x + closest.w >= new_crop.w {
            (2 * closest.x + closest.w - new_crop.w) / 2
        } else {
            0
        },
        Direction::Y => closest.y as int,
    }
}

/// The new crop centred on the old one, kept in the image, and whether it
/// is worth reviewing: not when it was pushed against an edge.
pub open spec fn centred_crop(closest: Geometry, new_crop: Geometry, width: u32, height: u32) -> (Geometry, bool) {
    let direction = if height == closest.h {
        Direction::X
    } else {
        Direction::Y
    };
    let g = clamp_spec(
        width,
        height,
        centred_start(closest, new_crop, direction),
        direction,
        new_crop.w,
        new_crop.h,
    );
    let at_edge = match direction {
        Direction::X => g.x == 0 || g.x == width - g.w,
        Direction::Y => g.y == 0 || g.y == height - g.h,
    };
    (g, !at_edge)
}

/// Centres the new crop on the crop of the nearest ratio, and says whether
/// to review it.
pub fn center_new_crop(closest_crop: &Geometry, new_crop: &Geometry, info: &WallInfo) -> (r: (Geometry, bool))
    requires
        info.height == closest_crop.h ==> new_crop.w <= info.width,
        info.height != closest_crop.h ==> new_crop.h <= info.height,
    ensures
        r == centred_crop(*closest_crop, *new_crop, info.width, info.height),
{
    let direction = info.direction(closest_crop);
    let start: u32 = match direction {
        Direction::X => {
            let twice = 2 * (closest_crop.x as u64) + closest_crop.w as u64;
            if twice >= new_crop.w as u64 {
                let s = (twice - new_crop.w as u64) / 2;
                if s <= 0xffff_ffffu64 {
                    s as u32
                } else {
                    0xffff_ffffu32
                }
            } else {
                0
            }
        },
        Direction::Y => closest_crop.y,
    };
    let cropper = info.cropper();
    let geom = cropper.clamp(start, direction, new_crop.w, new_crop.h);
    let mut should_preview = true;
    match direction {
        Direction::X => {
            if geom.x == 0 || geom.x == info.width - geom.w {
                should_preview = false;
            }
        },
        Direction::Y => {
            if geom.y == 0 || geom.y == info.height - geom.h {
                should_preview = false;
            }
        },
    }
    (geom, should_preview)
}

/// The crop for a new ratio, and whether to review it, given the crop the
/// cropper chooses for the new ratio and, when there is a nearest existing
/// ratio, the one it chooses for that ratio: with no nearest ratio, or when
/// the nearest ratio keeps its default crop, the new default crop, not
/// reviewed; when the two crops slide in different directions, the new
/// default crop, reviewed; otherwise the new crop centred on the nearest
/// ratio's crop.
pub open spec fn new_resolution_spec(
    info: WallInfo,
    closest: Option<AspectRatio>,
    new_default_crop: Geometry,
    closest_default_crop: Geometry,
) -> (Geometry, bool) {
    match closest {
        None => (new_default_crop, false),
        Some(c) => {
            let closest_crop = geometry_for(crops_of(info.geometries), c, closest_default_crop);
            if (info.height == new_default_crop.h) != (info.height == closest_crop.h) {
                (new_default_crop, true)
            } else if closest_crop == closest_default_crop {
                (new_default_crop, false)
            } else {
                centred_crop(closest_crop, new_default_crop, info.width, info.height)
            }
        },
    }
}

/// The crop for a new ratio of a wallpaper, and whether to review it (see
/// `new_resolution_spec`).
pub fn new_resolution_crop(
    info: &WallInfo,
    closest: Option<AspectRatio>,
    new_default_crop: Geometry,
    closest_default_crop: Geometry,
) -> (r: (Geometry, bool))
    requires
        new_default_crop.w <= info.width,
        new_default_crop.h <= info.height,
    ensures
        r == new_resolution_spec(*info, closest, new_default_crop, closest_default_crop),
{
    match closest {
        None => (new_default_crop, false),
        Some(c) => {
            let closest_crop = info.get_geometry(&c, closest_default_crop);
            if info.direction(&new_default_crop) != info.direction(&closest_crop) {
                return (new_default_crop, true);
            }
            if closest_crop == closest_default_crop {
                return (new_default_crop, false);
            }
            center_new_crop(&closest_crop, &new_default_crop, info)
        },
    }
}

/// When the new ratio's default crop and the nearest ratio's crop slide in
/// different directions (one spans the full image height and the other does
/// not), the new ratio gets its default crop and the wallpaper is reviewed,
/// whatever crop is stored for the nearest ratio. With no nearest ratio the
/// new default crop is taken without review; otherwise, when both slide the
/// same way and the nearest ratio keeps its default crop, too.
pub proof fn lemma_new_resolution_review(
    info: WallInfo,
    closest: Option<AspectRatio>,
    new_default_crop: Geometry,
    closest_default_crop: Geometry,
)
    ensures
        closest is None ==> new_resolution_spec(info, closest, new_default_crop, closest_default_crop) == (
            new_default_crop,
            false,
        ),
        closest matches Some(c) && {
            let stored = geometry_for(crops_of(info.geometries), c, closest_default_crop);
            (info.height == new_default_crop.h) != (info.height == stored.h)
        } ==> new_resolution_spec(info, closest, new_default_crop, closest_default_crop) == (new_default_crop, true),
        closest matches Some(c) && {
            let stored = geometry_for(crops_of(info.geometries), c, closest_default_crop);
            (info.height == new_default_crop.h) == (info.height == stored.h) && stored == closest_default_crop
        } ==> new_resolution_spec(info, closest, new_default_crop, closest_default_crop) == (new_default_crop, false),
{
}

/// The nearest other ratio is one of the configured ratios, is not the new
/// one, and no configured ratio other than the new one is strictly nearer.
pub proof fn lemma_nearest_other(rs: Seq<AspectRatio>, t: AspectRatio, n: int)
    requires
        0 <= n <= rs.len(),
        forall|i: int| 0 <= i < rs.len() ==> (#[trigger] rs[i]).h > 0,
    ensures
        nearest_other_index(rs, t, n) matches Some(b) ==> {
            &&& 0 <= b < n
            &&& rs[b] != t
            &&& forall|k: int| 0 <= k < n && rs[k] != t ==> !closer(#[trigger] rs[k], rs[b], t)
        },
        nearest_other_index(rs, t, n) is None ==> forall|k: int| 0 <= k < n ==> #[trigger] rs[k] == t,
    decreases n,
{
    if n > 0 {
        lemma_nearest_other(rs, t, n - 1);
        let before = nearest_other_index(rs, t, n - 1);
        if rs[n - 1] != t {
            if let Some(b) = before {
                if closer(rs[n - 1], rs[b], t) {
                    assert forall|k: int| 0 <= k < n && rs[k] != t implies !closer(#[trigger] rs[k], rs[n - 1], t) by {
                        if k < n - 1 {
                            lemma_closer_trans(rs[k], rs[b], rs[n - 1], t);
                        }
                    }
                }
            }
        }
    }
}

/// Being strictly nearer is a strict order on ratios with non-zero
/// heights: what is not nearer than `b` is not nearer than what is nearer
/// than `b`.
proof fn lemma_closer_trans(a: AspectRatio, b: AspectRatio, c: AspectRatio, t: AspectRatio)
    requires
        a.h > 0,
        b.h > 0,
        c.h > 0,
        !closer(a, b, t),
        closer(c, b, t),
    ensures
        !closer(a, c, t),
{
    let ga = crate::config::gap(a, t);
    let gb = crate::config::gap(b, t);
    let gc = crate::config::gap(c, t);
    let ah = a.h as int;
    let bh = b.h as int;
    let ch = c.h as int;
    assert(ga * ch >= gc * ah) by (nonlinear_arith)
        requires
            ga * bh >= gb * ah,
            gc * bh < gb * ch,
            ah > 0,
            bh > 0,
            ch > 0,
    ;
}

/// The centred crop lies inside the image and has the new crop's size.
pub proof fn lemma_centred_crop_fits(closest: Geometry, new_crop: Geometry, width: u32, height: u32)
    requires
        new_crop.w <= width,
        new_crop.h <= height,
    ensures
        crate::geometry::fits_in(centred_crop(closest, new_crop, width, height).0, width as int, height as int),
        centred_crop(closest, new_crop, width, height).0.w == new_crop.w,
        centred_crop(closest, new_crop, width, height).0.h == new_crop.h,
{
    let direction = if height == closest.h {
        Direction::X
    } else {
        Direction::Y
    };
    crate::cropper::lemma_clamp_fits(
        width,
        height,
        centred_start(closest, new_crop, direction),
        direction,
        new_crop.w,
        new_crop.h,
    );
}

/// `WallpaperConfig::closest_resolution` picks a ratio that no configured
/// ratio is strictly nearer to, where ratios equal to the new one count as
/// infinitely far.
pub proof fn lemma_nearest_index(rs: Seq<AspectRatio>, t: AspectRatio, n: int)
    requires
        1 <= n <= rs.len(),
        forall|i: int| 0 <= i < rs.len() ==> (#[trigger] rs[i]).h > 0,
    ensures
        0 <= crate::config::nearest_index(rs, t, n) < n,
        forall|k: int|
            0 <= k < n ==> !crate::config::nearer_other(#[trigger] rs[k], rs[crate::config::nearest_index(rs, t, n)], t),
    decreases n,
{
    if n == 1 {
        let g = crate::config::gap(rs[0], t);
        let h = rs[0].h as int;
        assert(g * h >= g * h);
    } else {
        lemma_nearest_index(rs, t, n - 1);
        let b = crate::config::nearest_index(rs, t, n - 1);
        let x = rs[n - 1];
        if crate::config::nearer_other(x, rs[b], t) {
            assert forall|k: int| 0 <= k < n implies !crate::config::nearer_other(#[trigger] rs[k], x, t) by {
                if k < n - 1 {
                    if crate::config::gap(rs[k], t) != 0 && crate::config::gap(rs[b], t) != 0 {
                        lemma_closer_trans(rs[k], rs[b], x, t);
                    }
                } else {
                    let g = crate::config::gap(x, t);
                    let h = x.h as int;
                    assert(g * h >= g * h);
                }
            }
        } else {
            assert(!crate::config::nearer_other(rs[n - 1], rs[b], t));
        }
    }
}

} // verus!
