//! What is known of one wallpaper: its size, its faces, and the crop chosen
//! for each resolution.
use vstd::prelude::*;
use vstd::string::*;
use indexmap::IndexMap;

use crate::aspect_ratio::{ratio_parts, ratio_text_ok, reduced, AspectRatio};
use crate::geometry::parse_geometry;
use crate::text::parse_u32_spec;
use crate::cropper::{faces_in_range, Cropper, Direction};
use crate::geometry::Geometry;

verus! {

#[verifier::external_type_specification]
#[verifier::external_body]
#[verifier::reject_recursive_types(K)]
#[verifier::reject_recursive_types(V)]
#[verifier::reject_recursive_types(S)]
pub struct ExIndexMap<K, V, S>(IndexMap<K, V, S>);

/// The crops of a wallpaper by the `(w, h)` of their ratio, in the order in
/// which their ratios were first stored.
pub type CropMap = IndexMap<(u32, u32), Geometry>;

/// The crops held by an `IndexMap` from a ratio's `(w, h)` to its crop.
pub uninterp spec fn crops_of(m: CropMap) -> Map<(u32, u32), Geometry>;

/// The keys held by an `IndexMap` from a ratio's `(w, h)` to its crop, in
/// the map's order.
pub uninterp spec fn crop_order(m: CropMap) -> Seq<(u32, u32)>;

/// The order of the keys after storing a crop under `key` in a map holding
/// `crops`: an old key keeps its place, a new one comes last.
pub open spec fn order_with(order: Seq<(u32, u32)>, crops: Map<(u32, u32), Geometry>, key: (u32, u32)) -> Seq<
    (u32, u32),
> {
    if crops.contains_key(key) {
        order
    } else {
        order.push(key)
    }
}

/// No crops at all.
pub open spec fn no_crops() -> Map<(u32, u32), Geometry> {
    Map::empty()
}

/// `IndexMap::new`: a map with no entries.
#[verifier::external_body]
fn crops_new() -> (r: CropMap)
    ensures
        crops_of(r) == no_crops(),
        crop_order(r) == Seq::<(u32, u32)>::empty(),
{
    IndexMap::new()
}

/// `IndexMap::get`: the crop stored for the key, if any.
#[verifier::external_body]
fn crops_get(m: &CropMap, key: (u32, u32)) -> (r: Option<Geometry>)
    ensures
        r == (if crops_of(*m).contains_key(key) {
            Some(crops_of(*m)[key])
        } else {
            None::<Geometry>
        }),
{
    m.get(&key).copied()
}

/// `IndexMap::insert`: stores the crop for the key, replacing the one stored
/// before (which is returned); the other entries stay. A key already there
/// keeps its place in the order, a new one goes last.
#[verifier::external_body]
fn crops_insert(m: &mut CropMap, key: (u32, u32), value: Geometry) -> (r: Option<Geometry>)
    ensures
        crops_of(*final(m)) == crops_of(*old(m)).insert(key, value),
        crop_order(*final(m)) == order_with(crop_order(*old(m)), crops_of(*old(m)), key),
        r == (if crops_of(*old(m)).contains_key(key) {
            Some(crops_of(*old(m))[key])
        } else {
            None::<Geometry>
        }),
{
    m.insert(key, value)
}

/// `IndexMap::clone`: a map with the same entries in the same order.
#[verifier::external_body]
fn crops_clone(m: &CropMap) -> (r: CropMap)
    ensures
        crops_of(r) == crops_of(*m),
        crop_order(r) == crop_order(*m),
{
    m.clone()
}

/// The map built by storing the entries in order.
pub open spec fn entries_map(s: Seq<((u32, u32), Geometry)>) -> Map<(u32, u32), Geometry>
    decreases s.len(),
{
    if s.len() == 0 {
        Map::empty()
    } else {
        entries_map(s.drop_last()).insert(s.last().0, s.last().1)
    }
}

/// No key occurs twice among the entries.
pub open spec fn distinct_keys(s: Seq<((u32, u32), Geometry)>) -> bool {
    forall|i: int, j: int| 0 <= i < j < s.len() ==> (#[trigger] s[i]).0 != (#[trigger] s[j]).0
}

/// The keys of the entries, in order.
pub open spec fn entry_keys(s: Seq<((u32, u32), Geometry)>) -> Seq<(u32, u32)> {
    s.map_values(|e: ((u32, u32), Geometry)| e.0)
}

/// `IndexMap::iter`: the entries in the map's order, each key once; storing
/// them in order gives the map back.
#[verifier::external_body]
fn crops_entries(m: &CropMap) -> (r: Vec<((u32, u32), Geometry)>)
    ensures
        entries_map(r@) == crops_of(*m),
        distinct_keys(r@),
        entry_keys(r@) == crop_order(*m),
{
    m.iter().map(|(k, v)| (*k, *v)).collect()
}

/// The key under which the crop for a ratio is stored.
pub open spec fn ratio_key(r: AspectRatio) -> (u32, u32) {
    (r.w, r.h)
}

/// The crop for a ratio: the stored one, else the default crop.
pub open spec fn geometry_for(crops: Map<(u32, u32), Geometry>, ratio: AspectRatio, default_crop: Geometry) -> Geometry {
    if crops.contains_key(ratio_key(ratio)) {
        crops[ratio_key(ratio)]
    } else {
        default_crop
    }
}

/// Whether scaling the image by `s` brings it to at least the minimum size.
pub open spec fn scales_to_min(width: u32, height: u32, min_width: u32, min_height: u32, s: int) -> bool {
    width * s >= min_width && height * s >= min_height
}

/// The smallest factor from 1 to 4 that scales the image up to at least the
/// minimum size.
pub open spec fn target_scale(width: u32, height: u32, min_width: u32, min_height: u32) -> Option<u32> {
    if scales_to_min(width, height, min_width, min_height, 1) {
        Some(1)
    } else if scales_to_min(width, height, min_width, min_height, 2) {
        Some(2)
    } else if scales_to_min(width, height, min_width, min_height, 3) {
        Some(3)
    } else if scales_to_min(width, height, min_width, min_height, 4) {
        Some(4)
    } else {
        None
    }
}

/// The first factor from `s` to 4 that scales the image up to at least the
/// minimum size.
spec fn scale_from(width: u32, height: u32, min_width: u32, min_height: u32, s: int) -> Option<u32>
    decreases 5 - s,
{
    if s > 4 || s < 1 {
        None
    } else if scales_to_min(width, height, min_width, min_height, s) {
        Some(s as u32)
    } else {
        scale_from(width, height, min_width, min_height, s + 1)
    }
}

/// A wallpaper: its path, size, detected faces, upscaling factor and the crop
/// chosen for each ratio.
pub struct WallInfo {
    pub path: String,
    pub width: u32,
    pub height: u32,
    pub faces: Vec<Geometry>,
    pub scale: Option<u32>,
    pub geometries: CropMap,
}

/// Two wallpapers hold the same information.
pub open spec fn same_info(a: WallInfo, b: WallInfo) -> bool {
    &&& a.path@ == b.path@
    &&& a.width == b.width
    &&& a.height == b.height
    &&& a.faces@ == b.faces@
    &&& a.scale == b.scale
    &&& crops_of(a.geometries) == crops_of(b.geometries)
    &&& crop_order(a.geometries) == crop_order(b.geometries)
}

/// A wallpaper known only by its path: no size, faces, scale or crops.
pub open spec fn bare_info(a: WallInfo, path: Seq<char>) -> bool {
    &&& a.path@ == path
    &&& a.width == 0
    &&& a.height == 0
    &&& a.faces@.len() == 0
    &&& a.scale is None
    &&& crops_of(a.geometries) == no_crops()
    &&& crop_order(a.geometries) == Seq::<(u32, u32)>::empty()
}

impl Clone for WallInfo {
    fn clone(&self) -> (r: WallInfo)
        ensures
            same_info(r, *self),
    {
        WallInfo {
            path: self.path.clone(),
            width: self.width,
            height: self.height,
            faces: self.faces.clone(),
            scale: self.scale,
            geometries: crops_clone(&self.geometries),
        }
    }
}

impl WallInfo {
    /// The cropper for the wallpaper's faces and size.
    pub open spec fn cropper_spec(&self) -> Cropper {
        Cropper { faces: self.faces, width: self.width, height: self.height }
    }

    /// The faces stay within the range in which the cropper's arithmetic
    /// works.
    pub open spec fn cropper_in_range(&self) -> bool {
        faces_in_range(self.faces@, self.width, self.height)
    }

    /// A wallpaper with no stored crops.
    pub fn new(path: String, width: u32, height: u32, faces: Vec<Geometry>, scale: Option<u32>) -> (r: WallInfo)
        ensures
            r.path == path,
            r.width == width,
            r.height == height,
            r.faces@ == faces@,
            r.scale == scale,
            crops_of(r.geometries) == no_crops(),
            crop_order(r.geometries) == Seq::<(u32, u32)>::empty(),
    {
        WallInfo { path, width, height, faces, scale, geometries: crops_new() }
    }

    /// The smallest factor from 1 to 4 that brings the image to the minimum
    /// size, if any.
    pub fn get_target_scale(&self, min_width: u32, min_height: u32) -> (r: Option<u32>)
        ensures
            r == target_scale(self.width, self.height, min_width, min_height),
    {
        let mut scale: u64 = 1;
        proof {
            reveal_with_fuel(scale_from, 5);
        }
        while scale <= 4
            invariant
                1 <= scale <= 5,
                target_scale(self.width, self.height, min_width, min_height) == scale_from(
                    self.width,
                    self.height,
                    min_width,
                    min_height,
                    scale as int,
                ),
            decreases 5 - scale,
        {
            let w: u64 = self.width as u64;
            let h: u64 = self.height as u64;
            assert(w * scale <= 4 * 0xffff_ffffu64) by (nonlinear_arith)
                requires
                    scale <= 4,
                    w <= 0xffff_ffffu64,
            ;
            assert(h * scale <= 4 * 0xffff_ffffu64) by (nonlinear_arith)
                requires
                    scale <= 4,
                    h <= 0xffff_ffffu64,
            ;
            if w * scale >= min_width as u64 && h * scale >= min_height as u64 {
                return Some(scale as u32);
            }
            scale = scale + 1;
        }
        None
    }

    /// `X` when the crop spans the full image height, `Y` otherwise.
    pub fn direction(&self, g: &Geometry) -> (r: Direction)
        ensures
            r == (if self.height == g.h {
                Direction::X
            } else {
                Direction::Y
            }),
    {
        if self.height == g.h {
            Direction::X
        } else {
            Direction::Y
        }
    }

    /// The cropper for the wallpaper's faces and size.
    pub fn cropper(&self) -> (r: Cropper)
        ensures
            r.faces@ == self.faces@,
            r.width == self.width,
            r.height == self.height,
    {
        Cropper::new(&self.faces, self.width, self.height)
    }

    /// The crop stored for the ratio, if any.
    pub fn stored_geometry(&self, ratio: &AspectRatio) -> (r: Option<Geometry>)
        ensures
            r == (if crops_of(self.geometries).contains_key(ratio_key(*ratio)) {
                Some(crops_of(self.geometries)[ratio_key(*ratio)])
            } else {
                None::<Geometry>
            }),
    {
        crops_get(&self.geometries, (ratio.w, ratio.h))
    }

    /// The crop for the ratio: the stored one, else `default_crop`, the crop
    /// the cropper chooses for the ratio.
    pub fn get_geometry(&self, ratio: &AspectRatio, default_crop: Geometry) -> (r: Geometry)
        ensures
            r == geometry_for(crops_of(self.geometries), *ratio, default_crop),
    {
        match self.stored_geometry(ratio) {
            Some(g) => g,
            None => default_crop,
        }
    }

    /// Stores the crop for the ratio.
    pub fn set_geometry(&mut self, ratio: &AspectRatio, new_geom: &Geometry)
        ensures
            crops_of(final(self).geometries) == crops_of(old(self).geometries).insert(ratio_key(*ratio), *new_geom),
            crop_order(final(self).geometries) == order_with(
                crop_order(old(self).geometries),
                crops_of(old(self).geometries),
                ratio_key(*ratio),
            ),
            final(self).path == old(self).path,
            final(self).width == old(self).width,
            final(self).height == old(self).height,
            final(self).faces@ == old(self).faces@,
            final(self).scale == old(self).scale,
    {
        crops_insert(&mut self.geometries, (ratio.w, ratio.h), *new_geom);
    }

    /// Whether every resolution still uses its default crop;
    /// `default_crops[i]` is the crop the cropper chooses for
    /// `resolutions[i]`.
    pub fn is_default_crops(&self, resolutions: &Vec<AspectRatio>, default_crops: &Vec<Geometry>) -> (r: bool)
        requires
            resolutions@.len() == default_crops@.len(),
        ensures
            r == (forall|i: int|
                0 <= i < resolutions@.len() ==> geometry_for(
                    crops_of(self.geometries),
                    #[trigger] resolutions@[i],
                    default_crops@[i],
                ) == default_crops@[i]),
    {
        for i in 0..resolutions.len()
            invariant
                resolutions@.len() == default_crops@.len(),
                forall|j: int|
                    0 <= j < i ==> geometry_for(crops_of(self.geometries), #[trigger] resolutions@[j], default_crops@[j])
                        == default_crops@[j],
        {
            let g = self.get_geometry(&resolutions[i], default_crops[i]);
            if g != default_crops[i] {
                return false;
            }
        }
        true
    }
}

/// The position of the wallpaper named `name` among `infos`: the last one
/// with that path, if any.
pub open spec fn lookup(infos: Seq<WallInfo>, name: Seq<char>) -> Option<int>
    decreases infos.len(),
{
    if infos.len() == 0 {
        None
    } else if infos.last().path@ == name {
        Some(infos.len() - 1)
    } else {
        lookup(infos.drop_last(), name)
    }
}

/// The wallpapers stored after storing `info`: it replaces the wallpaper of
/// the same path, or joins the others at the end.
pub open spec fn stored(infos: Seq<WallInfo>, info: WallInfo) -> Seq<WallInfo> {
    match lookup(infos, info.path@) {
        Some(i) => infos.update(i, info),
        None => infos.push(info),
    }
}

proof fn lemma_lookup_bounds(infos: Seq<WallInfo>, name: Seq<char>)
    ensures
        lookup(infos, name) matches Some(i) ==> 0 <= i < infos.len() && infos[i].path@ == name,
        lookup(infos, name) is None ==> forall|j: int| 0 <= j < infos.len() ==> (#[trigger] infos[j]).path@ != name,
    decreases infos.len(),
{
    if infos.len() > 0 {
        lemma_lookup_bounds(infos.drop_last(), name);
        if infos.last().path@ != name {
            assert forall|j: int| 0 <= j < infos.len() - 1 implies #[trigger] infos[j] == infos.drop_last()[j] by {}
        }
    }
}

/// The known wallpapers, each with its information, found by path.
pub struct WallpapersCsv {
    pub infos: Vec<WallInfo>,
}

impl WallpapersCsv {
    /// No wallpapers.
    pub fn new() -> (r: WallpapersCsv)
        ensures
            r.infos@.len() == 0,
    {
        WallpapersCsv { infos: Vec::new() }
    }

    /// The wallpaper stored under the path, if any.
    pub fn get(&self, fname: &str) -> (r: Option<&WallInfo>)
        ensures
            r == (match lookup(self.infos@, fname@) {
                Some(i) => Some(&self.infos@[i]),
                None => None::<&WallInfo>,
            }),
    {
        let name = fname.to_string();
        let mut i = self.infos.len();
        assert(self.infos@.take(i as int) =~= self.infos@);
        while i > 0
            invariant
                i <= self.infos@.len(),
                name@ == fname@,
                lookup(self.infos@, fname@) == lookup(self.infos@.take(i as int), fname@),
            decreases i,
        {
            let ghost pre = self.infos@.take(i as int);
            assert(pre.drop_last() =~= self.infos@.take(i - 1));
            assert(pre.last() == self.infos@[i - 1]);
            if self.infos[i - 1].path == name {
                return Some(&self.infos[i - 1]);
            }
            i = i - 1;
        }
        None
    }

    /// Stores the wallpaper under its path, replacing the one stored there.
    pub fn insert(&mut self, info: WallInfo)
        ensures
            final(self).infos@ == stored(old(self).infos@, info),
    {
        let name = info.path.clone();
        let mut i = self.infos.len();
        let ghost infos = self.infos@;
        assert(infos.take(i as int) =~= infos);
        while i > 0
            invariant
                i <= self.infos@.len(),
                self.infos@ == infos,
                infos == old(self).infos@,
                name@ == info.path@,
                lookup(infos, info.path@) == lookup(infos.take(i as int), info.path@),
            decreases i,
        {
            let ghost pre = infos.take(i as int);
            assert(pre.drop_last() =~= infos.take(i - 1));
            assert(pre.last() == infos[i - 1]);
            if self.infos[i - 1].path == name {
                assert(lookup(infos, info.path@) == Some((i - 1) as int));
                self.infos.set(i - 1, info);
                return;
            }
            i = i - 1;
        }
        self.infos.push(info);
    }
}

/// A geometry with every coordinate and side multiplied by `s`.
pub open spec fn scale_geometry(g: Geometry, s: u32) -> Geometry {
    Geometry { x: (g.x * s) as u32, y: (g.y * s) as u32, w: (g.w * s) as u32, h: (g.h * s) as u32 }
}

pub open spec fn geometry_scales(g: Geometry, s: u32) -> bool {
    g.x * s <= u32::MAX && g.y * s <= u32::MAX && g.w * s <= u32::MAX && g.h * s <= u32::MAX
}

/// Every pixel value of the wallpaper, multiplied by `s`, fits a `u32`.
pub open spec fn info_scales(info: WallInfo, s: u32) -> bool {
    &&& info.width * s <= u32::MAX
    &&& info.height * s <= u32::MAX
    &&& forall|i: int| 0 <= i < info.faces@.len() ==> geometry_scales(#[trigger] info.faces@[i], s)
    &&& forall|k: (u32, u32)| #[trigger] crops_of(info.geometries).contains_key(k) ==> geometry_scales(
        crops_of(info.geometries)[k],
        s,
    )
}

fn scale_geometry_exec(g: &Geometry, s: u32) -> (r: Geometry)
    requires
        geometry_scales(*g, s),
    ensures
        r == scale_geometry(*g, s),
{
    Geometry { x: g.x * s, y: g.y * s, w: g.w * s, h: g.h * s }
}

proof fn lemma_entries_map_dom(s: Seq<((u32, u32), Geometry)>, i: int)
    requires
        0 <= i < s.len(),
        distinct_keys(s),
    ensures
        entries_map(s).contains_key(s[i].0),
        entries_map(s)[s[i].0] == s[i].1,
    decreases s.len(),
{
    if i < s.len() - 1 {
        lemma_entries_map_dom(s.drop_last(), i);
        assert(s.drop_last()[i] == s[i]);
        assert(s[i].0 != s.last().0);
    }
}

proof fn lemma_entries_map_keys(s: Seq<((u32, u32), Geometry)>, k: (u32, u32))
    requires
        entries_map(s).contains_key(k),
    ensures
        exists|j: int| 0 <= j < s.len() && (#[trigger] s[j]).0 == k,
    decreases s.len(),
{
    if s.last().0 != k {
        lemma_entries_map_keys(s.drop_last(), k);
        let j = choose|j: int| 0 <= j < s.drop_last().len() && (#[trigger] s.drop_last()[j]).0 == k;
        assert(s[j] == s.drop_last()[j]);
    }
}

impl WallInfo {
    /// The wallpaper after upscaling its image by `scale`: the size, the faces
    /// and the crops are multiplied by it, and the scale is recorded.
    pub fn scaled(&self, scale: u32) -> (r: WallInfo)
        requires
            info_scales(*self, scale),
        ensures
            r.path@ == self.path@,
            r.width == self.width * scale,
            r.height == self.height * scale,
            r.faces@ == self.faces@.map_values(|g: Geometry| scale_geometry(g, scale)),
            r.scale == Some(scale),
            crops_of(r.geometries) == crops_of(self.geometries).map_values(|g: Geometry| scale_geometry(g, scale)),
            crop_order(r.geometries) == crop_order(self.geometries),
    {
        let mut faces: Vec<Geometry> = Vec::new();
        for i in 0..self.faces.len()
            invariant
                info_scales(*self, scale),
                faces@ == self.faces@.take(i as int).map_values(|g: Geometry| scale_geometry(g, scale)),
        {
            assert(geometry_scales(self.faces@[i as int], scale));
            faces.push(scale_geometry_exec(&self.faces[i], scale));
            assert(faces@ =~= self.faces@.take(i + 1).map_values(|g: Geometry| scale_geometry(g, scale)));
        }
        assert(self.faces@.take(self.faces@.len() as int) =~= self.faces@);
        let entries = crops_entries(&self.geometries);
        let mut geometries = crops_new();
        for i in 0..entries.len()
            invariant
                info_scales(*self, scale),
                entries_map(entries@) == crops_of(self.geometries),
                distinct_keys(entries@),
                entry_keys(entries@) == crop_order(self.geometries),
                crops_of(geometries) == entries_map(entries@.take(i as int)).map_values(
                    |g: Geometry| scale_geometry(g, scale),
                ),
                crop_order(geometries) == entry_keys(entries@.take(i as int)),
        {
            let (k, g) = entries[i];
            proof {
                lemma_entries_map_dom(entries@, i as int);
                if entries_map(entries@.take(i as int)).contains_key(k) {
                    lemma_entries_map_keys(entries@.take(i as int), k);
                    let j = choose|j: int| 0 <= j < i && (#[trigger] entries@.take(i as int)[j]).0 == k;
                    assert(entries@[j].0 == entries@[i as int].0);
                }
            }
            assert(geometry_scales(g, scale));
            let sg = scale_geometry_exec(&g, scale);
            crops_insert(&mut geometries, k, sg);
            assert(entries@.take(i + 1).drop_last() =~= entries@.take(i as int));
            assert(crops_of(geometries) =~= entries_map(entries@.take(i + 1)).map_values(
                |g: Geometry| scale_geometry(g, scale),
            ));
            assert(crop_order(geometries) =~= entry_keys(entries@.take(i + 1)));
        }
        assert(entries@.take(entries@.len() as int) =~= entries@);
        WallInfo {
            path: self.path.clone(),
            width: self.width * scale,
            height: self.height * scale,
            faces,
            scale: Some(scale),
            geometries,
        }
    }
}

/// The metadata of a wallpaper could not be read.
#[derive(Debug, Clone, Copy, PartialEq, Eq, Structural)]
pub enum MetadataError {
    /// A face is not in the `WxH+X+Y` form.
    InvalidFace,
    /// The name of a crop does not start with this tool's namespace.
    MissingPrefix,
    /// The name of a crop is not a ratio other than `0x0`.
    InvalidRatio,
    /// A crop is not in the `WxH+X+Y` form.
    InvalidCrop,
}

/// The start of the name of every crop: this tool's namespace and a `:`.
pub open spec fn crop_key_prefix() -> Seq<char> {
    "http://example.com/wallfacer/:"@
}

/// This tool's namespace followed by `:`.
pub fn crop_key_prefix_exec() -> (r: &'static str)
    ensures
        r@ == crop_key_prefix(),
{
    "http://example.com/wallfacer/:"
}

/// Some face is not in the `WxH+X+Y` form.
pub open spec fn has_bad_face(faces: Seq<Seq<char>>) -> bool {
    exists|i: int| 0 <= i < faces.len() && (#[trigger] parse_geometry(faces[i])) is Err
}

pub open spec fn face_of(f: Seq<char>) -> Geometry {
    match parse_geometry(f) {
        Ok(g) => g,
        Err(_) => Geometry { w: 0, h: 0, x: 0, y: 0 },
    }
}

/// What is wrong with a crop entry, checked in order: its name's prefix,
/// its ratio, its crop.
pub open spec fn crop_entry_error(key: Seq<char>, value: Seq<char>) -> Option<MetadataError> {
    if !crop_key_prefix().is_prefix_of(key) {
        Some(MetadataError::MissingPrefix)
    } else if !ratio_text_ok(key.skip(crop_key_prefix().len() as int)) {
        Some(MetadataError::InvalidRatio)
    } else if parse_geometry(value) is Err {
        Some(MetadataError::InvalidCrop)
    } else {
        None
    }
}

/// What is wrong with the first faulty crop entry, if any.
pub open spec fn crops_error(entries: Seq<(Seq<char>, Seq<char>)>) -> Option<MetadataError>
    decreases entries.len(),
{
    if entries.len() == 0 {
        None
    } else {
        match crops_error(entries.drop_last()) {
            Some(e) => Some(e),
            None => crop_entry_error(entries.last().0, entries.last().1),
        }
    }
}

/// The key of the ratio that a crop entry names.
pub open spec fn entry_key(key: Seq<char>) -> (u32, u32) {
    let parts = ratio_parts(key.skip(crop_key_prefix().len() as int));
    let r = reduced(parts[0] as nat, parts[1] as nat);
    (r.w, r.h)
}

/// The crops that the entries store, in order.
pub open spec fn entries_crops(entries: Seq<(Seq<char>, Seq<char>)>) -> Map<(u32, u32), Geometry>
    decreases entries.len(),
{
    if entries.len() == 0 {
        Map::empty()
    } else {
        entries_crops(entries.drop_last()).insert(entry_key(entries.last().0), face_of(entries.last().1))
    }
}

/// The order in which storing the entries leaves the keys.
pub open spec fn entries_order(entries: Seq<(Seq<char>, Seq<char>)>) -> Seq<(u32, u32)>
    decreases entries.len(),
{
    if entries.len() == 0 {
        Seq::empty()
    } else {
        order_with(
            entries_order(entries.drop_last()),
            entries_crops(entries.drop_last()),
            entry_key(entries.last().0),
        )
    }
}

pub open spec fn pairs_view(v: Seq<(String, String)>) -> Seq<(Seq<char>, Seq<char>)> {
    v.map_values(|e: (String, String)| (e.0@, e.1@))
}

pub open spec fn texts_view(v: Seq<String>) -> Seq<Seq<char>> {
    v.map_values(|s: String| s@)
}

/// The scale as text reads as a `u32`, else there is none.
pub open spec fn scale_of(scale: Option<Seq<char>>) -> Option<u32> {
    match scale {
        Some(s) => parse_u32_spec(s),
        None => None,
    }
}

fn starts_with_prefix(key: &str) -> (r: bool)
    ensures
        r == crop_key_prefix().is_prefix_of(key@),
{
    let prefix = crop_key_prefix_exec();
    let pl = prefix.unicode_len();
    let kl = key.unicode_len();
    if pl > kl {
        return false;
    }
    let mut i: usize = 0;
    while i < pl
        invariant
            pl == prefix@.len(),
            kl == key@.len(),
            pl <= kl,
            i <= pl,
            prefix@ == crop_key_prefix(),
            forall|k: int| 0 <= k < i ==> prefix@[k] == key@[k],
        decreases pl - i,
    {
        if prefix.get_char(i) != key.get_char(i) {
            return false;
        }
        i = i + 1;
    }
    true
}

impl WallInfo {
    /// The wallpaper at `path`, of the given size, from its metadata: the
    /// scale, when it reads as a number; the faces, each `WxH+X+Y`; and the
    /// crops, each named by this tool's namespace, `:` and a ratio, and
    /// given as `WxH+X+Y`. The first face or crop that cannot be read is
    /// reported.
    pub fn from_metadata(
        path: String,
        width: u32,
        height: u32,
        scale: Option<String>,
        faces: Option<Vec<String>>,
        crops: Option<Vec<(String, String)>>,
    ) -> (r: Result<WallInfo, MetadataError>)
        ensures
            ({
                let face_texts = match faces {
                    Some(f) => texts_view(f@),
                    None => Seq::<Seq<char>>::empty(),
                };
                let entries = match crops {
                    Some(c) => pairs_view(c@),
                    None => Seq::<(Seq<char>, Seq<char>)>::empty(),
                };
                if has_bad_face(face_texts) {
                    r == Err::<WallInfo, MetadataError>(MetadataError::InvalidFace)
                } else if crops_error(entries) is Some {
                    r == Err::<WallInfo, MetadataError>(crops_error(entries).unwrap())
                } else {
                    r matches Ok(info) && {
                        &&& info.path@ == path@
                        &&& info.width == width
                        &&& info.height == height
                        &&& info.scale == scale_of(
                            match scale {
                                Some(s) => Some(s@),
                                None => None,
                            },
                        )
                        &&& info.faces@ == face_texts.map_values(|f: Seq<char>| face_of(f))
                        &&& crops_of(info.geometries) == entries_crops(entries)
                        &&& crop_order(info.geometries) == entries_order(entries)
                    }
                }
            }),
    {
        let ghost faces_g = faces;
        let ghost crops_g = crops;
        let parsed_scale = match &scale {
            Some(s) => {
                let chars = crate::text::chars_of(s.as_str());
                crate::text::parse_u32(&chars)
            },
            None => None,
        };
        let face_texts: Vec<String> = match faces {
            Some(f) => f,
            None => Vec::new(),
        };
        assert(texts_view(face_texts@) == match faces_g {
            Some(f) => texts_view(f@),
            None => Seq::<Seq<char>>::empty(),
        });
        let mut face_list: Vec<Geometry> = Vec::new();
        for i in 0..face_texts.len()
            invariant
                faces_g == faces,
                texts_view(face_texts@) == match faces_g {
                    Some(f) => texts_view(f@),
                    None => Seq::<Seq<char>>::empty(),
                },
                !has_bad_face(texts_view(face_texts@.take(i as int))),
                face_list@ == texts_view(face_texts@.take(i as int)).map_values(|f: Seq<char>| face_of(f)),
        {
            assert(texts_view(face_texts@.take(i + 1)) =~= texts_view(face_texts@.take(i as int)).push(face_texts@[i as int]@));
            match Geometry::try_from(face_texts[i].as_str()) {
                Ok(g) => {
                    face_list.push(g);
                    assert(face_list@ =~= texts_view(face_texts@.take(i + 1)).map_values(|f: Seq<char>| face_of(f)));
                    assert(!has_bad_face(texts_view(face_texts@.take(i + 1)))) by {
                        let t = texts_view(face_texts@.take(i + 1));
                        assert forall|k: int| 0 <= k < t.len() implies !(#[trigger] parse_geometry(t[k]) is Err) by {
                            if k < i {
                                assert(t[k] == texts_view(face_texts@.take(i as int))[k]);
                            }
                        }
                    }
                },
                Err(_) => {
                    proof {
                        let t = texts_view(face_texts@.take(i + 1));
                        assert(parse_geometry(t[i as int]) is Err);
                        let all = texts_view(face_texts@);
                        assert(all[i as int] == t[i as int]);
                        assert(has_bad_face(all));
                    }
                    return Err(MetadataError::InvalidFace);
                },
            }
        }
        assert(face_texts@.take(face_texts@.len() as int) =~= face_texts@);
        assert(!has_bad_face(texts_view(face_texts@)));
        let entries: Vec<(String, String)> = match crops {
            Some(c) => c,
            None => Vec::new(),
        };
        assert(pairs_view(entries@) == match crops_g {
            Some(c) => pairs_view(c@),
            None => Seq::<(Seq<char>, Seq<char>)>::empty(),
        });
        let prefix = crop_key_prefix_exec();
        let pl = prefix.unicode_len();
        let mut geometries = crops_new();
        for i in 0..entries.len()
            invariant
                pl == crop_key_prefix().len(),
                faces_g == faces,
                crops_g == crops,
                pairs_view(entries@) == match crops_g {
                    Some(c) => pairs_view(c@),
                    None => Seq::<(Seq<char>, Seq<char>)>::empty(),
                },
                texts_view(face_texts@) == match faces_g {
                    Some(f) => texts_view(f@),
                    None => Seq::<Seq<char>>::empty(),
                },
                !has_bad_face(texts_view(face_texts@)),
                face_list@ == texts_view(face_texts@).map_values(|f: Seq<char>| face_of(f)),
                crops_error(pairs_view(entries@.take(i as int))) is None,
                crops_of(geometries) == entries_crops(pairs_view(entries@.take(i as int))),
                crop_order(geometries) == entries_order(pairs_view(entries@.take(i as int))),
        {
            let ghost pv = pairs_view(entries@.take(i + 1));
            assert(pv.drop_last() =~= pairs_view(entries@.take(i as int)));
            assert(pv.last() == (entries@[i as int].0@, entries@[i as int].1@));
            let key = entries[i].0.as_str();
            if !starts_with_prefix(key) {
                proof {
                    assert(pairs_view(entries@).take(i + 1) =~= pv);
                    lemma_crops_error_prefix(pairs_view(entries@), i + 1);
                }
                return Err(MetadataError::MissingPrefix);
            }
            let kl = key.unicode_len();
            let rest = key.substring_char(pl, kl);
            assert(rest@ =~= key@.skip(crop_key_prefix().len() as int));
            let ratio = match AspectRatio::try_from_nonzero(rest) {
                Some(r) => r,
                None => {
                    proof {
                        assert(pairs_view(entries@).take(i + 1) =~= pv);
                        lemma_crops_error_prefix(pairs_view(entries@), i + 1);
                    }
                    return Err(MetadataError::InvalidRatio);
                },
            };
            let geom = match Geometry::try_from(entries[i].1.as_str()) {
                Ok(g) => g,
                Err(_) => {
                    proof {
                        assert(pairs_view(entries@).take(i + 1) =~= pv);
                        lemma_crops_error_prefix(pairs_view(entries@), i + 1);
                    }
                    return Err(MetadataError::InvalidCrop);
                },
            };
            crops_insert(&mut geometries, (ratio.w, ratio.h), geom);
        }
        assert(entries@.take(entries@.len() as int) =~= entries@);
        assert(face_list@ == texts_view(face_texts@).map_values(|f: Seq<char>| face_of(f)));
        Ok(WallInfo { path, width, height, faces: face_list, scale: parsed_scale, geometries })
    }
}

/// The first faulty entry among the first `k` is the first faulty entry of
/// all of them.
proof fn lemma_crops_error_prefix(entries: Seq<(Seq<char>, Seq<char>)>, k: int)
    requires
        0 <= k <= entries.len(),
        crops_error(entries.take(k)) is Some,
    ensures
        crops_error(entries) == crops_error(entries.take(k)),
    decreases entries.len() - k,
{
    if k < entries.len() {
        assert(entries.drop_last().take(k) =~= entries.take(k));
        lemma_crops_error_prefix(entries.drop_last(), k);
    } else {
        assert(entries.take(k) =~= entries);
    }
}

/// Reading the crop of a ratio gives back the crop last stored for it, and
/// storing a crop leaves the crops of other ratios as they were.
pub proof fn lemma_geometry_read_after_write(
    crops: Map<(u32, u32), Geometry>,
    ratio: AspectRatio,
    g: Geometry,
    other: AspectRatio,
    default_crop: Geometry,
)
    ensures
        geometry_for(crops.insert(ratio_key(ratio), g), ratio, default_crop) == g,
        ratio_key(other) != ratio_key(ratio) ==> geometry_for(crops.insert(ratio_key(ratio), g), other, default_crop)
            == geometry_for(crops, other, default_crop),
{
}

/// Storing the default crop of a ratio keeps a wallpaper on its default crop
/// for that ratio.
pub proof fn lemma_storing_default_keeps_default(
    crops: Map<(u32, u32), Geometry>,
    ratio: AspectRatio,
    default_crop: Geometry,
)
    ensures
        geometry_for(crops.insert(ratio_key(ratio), default_crop), ratio, default_crop) == default_crop,
{
}

/// The scale chosen brings the image to the minimum size, and no smaller
/// factor does; when no factor up to 4 does, there is none.
pub proof fn lemma_target_scale(width: u32, height: u32, min_width: u32, min_height: u32)
    ensures
        target_scale(width, height, min_width, min_height) matches Some(s) ==> {
            &&& 1 <= s <= 4
            &&& scales_to_min(width, height, min_width, min_height, s as int)
            &&& forall|t: int| 1 <= t < s ==> !#[trigger] scales_to_min(width, height, min_width, min_height, t)
        },
        target_scale(width, height, min_width, min_height) is None ==> forall|t: int|
            1 <= t <= 4 ==> !#[trigger] scales_to_min(width, height, min_width, min_height, t),
{
}

/// Reading the table under the path of a wallpaper just stored gives that
/// wallpaper back, and storing it changes nothing stored under other paths.
pub proof fn lemma_csv_read_after_write(infos: Seq<WallInfo>, info: WallInfo, other: Seq<char>)
    ensures
        lookup(stored(infos, info), info.path@) matches Some(i) && stored(infos, info)[i] == info,
        other != info.path@ ==> match lookup(infos, other) {
            Some(j) => lookup(stored(infos, info), other) == Some(j) && stored(infos, info)[j] == infos[j],
            None => lookup(stored(infos, info), other) is None,
        },
{
    lemma_lookup_bounds(infos, info.path@);
    lemma_lookup_bounds(infos, other);
    match lookup(infos, info.path@) {
        Some(i) => {
            lemma_lookup_update(infos, i, info, info.path@);
            if other != info.path@ {
                lemma_lookup_update(infos, i, info, other);
            }
        },
        None => {
            assert(infos.push(info).drop_last() =~= infos);
        },
    }
}

proof fn lemma_lookup_update(infos: Seq<WallInfo>, i: int, info: WallInfo, name: Seq<char>)
    requires
        0 <= i < infos.len(),
        infos[i].path@ == info.path@,
    ensures
        lookup(infos.update(i, info), name) == lookup(infos, name),
    decreases infos.len(),
{
    if infos.len() > 0 {
        if i < infos.len() - 1 {
            assert(infos.update(i, info).drop_last() =~= infos.drop_last().update(i, info));
            lemma_lookup_update(infos.drop_last(), i, info, name);
        } else {
            assert(infos.update(i, info).drop_last() =~= infos.drop_last());
        }
    }
}

} // verus!
