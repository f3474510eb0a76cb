//! The configuration: the wallpapers directory, the minimum size of a
//! wallpaper, and the resolutions to crop for, kept in order of their ratio.
use vstd::prelude::*;
use vstd::string::*;

use crate::aspect_ratio::{lemma_ratio_le_total_preorder, ratio_le, ratio_lt, AspectRatio};

verus! {

/// The configuration file could not be used.
#[derive(Debug, Clone, Copy, PartialEq, Eq, Structural)]
pub enum ConfigError {
    InvalidConfig,
}

/// A named resolution to crop wallpapers for.
#[derive(Debug, PartialEq, Eq)]
pub struct ConfigResolution {
    pub name: String,
    pub description: Option<String>,
    pub resolution: AspectRatio,
}

/// The settings of the wallpaper tools.
#[derive(Debug, PartialEq, Eq)]
pub struct Config {
    pub wallpapers_dir: String,
    pub min_width: u32,
    pub min_height: u32,
    pub show_faces: bool,
    pub resolutions: Vec<ConfigResolution>,
    pub wallpaper_command: Option<String>,
}

/// The settings of the older wallpaper tools: resolutions are name and
/// ratio pairs.
#[derive(Debug, PartialEq, Eq)]
pub struct WallpaperConfig {
    pub wallpapers_path: String,
    pub csv_path: String,
    pub min_width: u32,
    pub min_height: u32,
    pub resolutions: Vec<(String, AspectRatio)>,
}

impl Clone for ConfigResolution {
    fn clone(&self) -> (r: ConfigResolution)
        ensures
            r == *self,
    {
        ConfigResolution {
            name: self.name.clone(),
            description: match &self.description {
                Some(d) => Some(d.clone()),
                None => None,
            },
            resolution: self.resolution,
        }
    }
}

/// Two configurations with the same settings.
pub open spec fn same_config(a: Config, b: Config) -> bool {
    &&& a.wallpapers_dir == b.wallpapers_dir
    &&& a.min_width == b.min_width
    &&& a.min_height == b.min_height
    &&& a.show_faces == b.show_faces
    &&& a.resolutions@ == b.resolutions@
    &&& a.wallpaper_command == b.wallpaper_command
}

/// Two configurations with the same settings.
pub open spec fn same_wallpaper_config(a: WallpaperConfig, b: WallpaperConfig) -> bool {
    &&& a.wallpapers_path == b.wallpapers_path
    &&& a.csv_path == b.csv_path
    &&& a.min_width == b.min_width
    &&& a.min_height == b.min_height
    &&& a.resolutions@ == b.resolutions@
}

impl Clone for Config {
    fn clone(&self) -> (r: Config)
        ensures
            same_config(r, *self),
    {
        let resolutions = self.resolutions.clone();
        assert(resolutions@ =~= self.resolutions@);
        Config {
            wallpapers_dir: self.wallpapers_dir.clone(),
            min_width: self.min_width,
            min_height: self.min_height,
            show_faces: self.show_faces,
            resolutions,
            wallpaper_command: match &self.wallpaper_command {
                Some(c) => Some(c.clone()),
                None => None,
            },
        }
    }
}

impl Clone for WallpaperConfig {
    fn clone(&self) -> (r: WallpaperConfig)
        ensures
            same_wallpaper_config(r, *self),
    {
        let mut resolutions: Vec<(String, AspectRatio)> = Vec::new();
        for i in 0..self.resolutions.len()
            invariant
                resolutions@ == self.resolutions@.take(i as int),
        {
            resolutions.push((self.resolutions[i].0.clone(), self.resolutions[i].1));
            assert(resolutions@ =~= self.resolutions@.take(i + 1));
        }
        assert(resolutions@ =~= self.resolutions@);
        WallpaperConfig {
            wallpapers_path: self.wallpapers_path.clone(),
            csv_path: self.csv_path.clone(),
            min_width: self.min_width,
            min_height: self.min_height,
            resolutions,
        }
    }
}

/// Something ordered by an aspect ratio.
pub trait HasRatio {
    spec fn ratio_of(&self) -> AspectRatio;

    fn ratio(&self) -> (r: AspectRatio)
        ensures
            r == self.ratio_of(),
    ;
}

impl HasRatio for ConfigResolution {
    open spec fn ratio_of(&self) -> AspectRatio {
        self.resolution
    }

    fn ratio(&self) -> (r: AspectRatio) {
        self.resolution
    }
}

impl HasRatio for (String, AspectRatio) {
    open spec fn ratio_of(&self) -> AspectRatio {
        self.1
    }

    fn ratio(&self) -> (r: AspectRatio) {
        self.1
    }
}

pub open spec fn nonzero_ratio(r: AspectRatio) -> bool {
    !(r.w == 0 && r.h == 0)
}

pub open spec fn all_nonzero<T: HasRatio>(s: Seq<T>) -> bool {
    forall|i: int| 0 <= i < s.len() ==> nonzero_ratio(#[trigger] s[i].ratio_of())
}

pub open spec fn same_ratio(a: AspectRatio, b: AspectRatio) -> bool {
    ratio_le(a, b) && ratio_le(b, a)
}

/// Ascending by ratio.
pub open spec fn sorted_by_ratio<T: HasRatio>(s: Seq<T>) -> bool {
    forall|i: int, j: int| 0 <= i < j < s.len() ==> ratio_le(s[i].ratio_of(), s[j].ratio_of())
}

/// `idx` maps every position of `out` to a distinct position of `input`
/// holding the same element.
pub open spec fn is_permutation_by<T>(input: Seq<T>, out: Seq<T>, idx: Seq<int>) -> bool {
    &&& idx.len() == out.len()
    &&& out.len() == input.len()
    &&& forall|q: int| 0 <= q < idx.len() ==> 0 <= #[trigger] idx[q] < input.len() && out[q] == input[idx[q]]
    &&& forall|q1: int, q2: int| 0 <= q1 < idx.len() && 0 <= q2 < idx.len() && q1 != q2 ==> idx[q1] != idx[q2]
}

/// Elements with the same ratio keep their order.
pub open spec fn is_stable_by<T: HasRatio>(out: Seq<T>, idx: Seq<int>) -> bool {
    forall|q1: int, q2: int|
        0 <= q1 < q2 < out.len() && same_ratio(out[q1].ratio_of(), out[q2].ratio_of()) ==> idx[q1] < idx[q2]
}

/// `out` is `input` sorted by ratio, stably: what a stable sort by ratio
/// gives when no ratio is `0x0`; for any ratios, a rearrangement of `input`.
pub open spec fn is_stable_sort_by_ratio<T: HasRatio>(input: Seq<T>, out: Seq<T>) -> bool {
    exists|idx: Seq<int>|
        #[trigger] is_permutation_by(input, out, idx) && (all_nonzero(input) ==> sorted_by_ratio(out) && is_stable_by(
            out,
            idx,
        ))
}

/// Sorts stably by ratio.
pub fn sort_by_ratio<T: HasRatio>(v: Vec<T>) -> (r: Vec<T>)
    ensures
        is_stable_sort_by_ratio(v@, r@),
{
    let ghost input = v@;
    let n = v.len();
    let mut rest = v;
    let mut out: Vec<T> = Vec::new();
    let ghost mut idx: Seq<int> = Seq::empty();
    let mut k: usize = 0;
    while k < n
        invariant
            n == input.len(),
            k <= n,
            rest@ == input.skip(k as int),
            idx.len() == out@.len(),
            out@.len() == k,
            forall|q: int| 0 <= q < idx.len() ==> 0 <= #[trigger] idx[q] < k && out@[q] == input[idx[q]],
            forall|q1: int, q2: int| 0 <= q1 < idx.len() && 0 <= q2 < idx.len() && q1 != q2 ==> idx[q1] != idx[q2],
            all_nonzero(input) ==> sorted_by_ratio(out@) && is_stable_by(out@, idx),
        decreases n - k,
    {
        assert(rest@[0] == input[k as int]);
        let x = rest.remove(0);
        assert(rest@ =~= input.skip(k + 1));
        let xr = x.ratio();
        let mut p: usize = 0;
        while p < out.len() && out[p].ratio().le(&xr)
            invariant
                p <= out@.len(),
                xr == x.ratio_of(),
                forall|q: int| 0 <= q < p ==> ratio_le((#[trigger] out@[q]).ratio_of(), xr),
            decreases out@.len() - p,
        {
            p = p + 1;
        }
        let ghost before = out@;
        let ghost old_idx = idx;
        proof {
            before.insert_ensures(p as int, x);
            old_idx.insert_ensures(p as int, k as int);
            idx = old_idx.insert(p as int, k as int);
        }
        out.insert(p, x);
        proof {
            assert forall|q: int| 0 <= q < idx.len() implies 0 <= #[trigger] idx[q] < k + 1 && out@[q] == input[idx[q]] by {
                if q < p {
                    assert(idx[q] == old_idx[q]);
                } else if q > p {
                    assert(idx[q] == old_idx[q - 1]);
                }
            }
            assert forall|q1: int, q2: int| 0 <= q1 < idx.len() && 0 <= q2 < idx.len() && q1 != q2 implies idx[q1] != idx[q2] by {
                if q1 != p && q2 != p {
                    let a1 = if q1 < p { q1 } else { q1 - 1 };
                    let a2 = if q2 < p { q2 } else { q2 - 1 };
                    assert(idx[q1] == old_idx[a1]);
                    assert(idx[q2] == old_idx[a2]);
                } else if q1 == p {
                    let a2 = if q2 < p { q2 } else { q2 - 1 };
                    assert(idx[q2] == old_idx[a2]);
                } else {
                    let a1 = if q1 < p { q1 } else { q1 - 1 };
                    assert(idx[q1] == old_idx[a1]);
                }
            }
            if all_nonzero(input) {
                assert(nonzero_ratio(input[k as int].ratio_of()));
                assert forall|a: int, b: int| 0 <= a < b < out@.len() implies ratio_le(
                    out@[a].ratio_of(),
                    out@[b].ratio_of(),
                ) && (same_ratio(out@[a].ratio_of(), out@[b].ratio_of()) ==> idx[a] < idx[b]) by {
                    let ra = out@[a].ratio_of();
                    let rb = out@[b].ratio_of();
                    assert(nonzero_ratio(ra)) by {
                        assert(ra == input[idx[a]].ratio_of());
                    }
                    assert(nonzero_ratio(rb)) by {
                        assert(rb == input[idx[b]].ratio_of());
                    }
                    if p < before.len() {
                        let rp = before[p as int].ratio_of();
                        assert(nonzero_ratio(rp)) by {
                            assert(rp == input[old_idx[p as int]].ratio_of());
                        }
                        lemma_ratio_le_total_preorder(xr, rp, rb);
                        lemma_ratio_le_total_preorder(rp, rb, xr);
                        assert(ratio_lt(xr, rp));
                    }
                    if a < p && b > p {
                        assert(out@[a] == before[a]);
                        assert(out@[b] == before[b - 1]);
                        assert(idx[a] == old_idx[a]);
                        assert(idx[b] == old_idx[b - 1]);
                    } else if a < p && b == p {
                        assert(out@[a] == before[a]);
                        assert(idx[a] == old_idx[a]);
                    } else if a == p {
                        assert(out@[b] == before[b - 1]);
                        assert(idx[b] == old_idx[b - 1]);
                        let rp = before[p as int].ratio_of();
                        if b - 1 > p {
                            assert(ratio_le(rp, rb));
                        }
                        lemma_ratio_le_total_preorder(xr, rp, rb);
                        lemma_ratio_le_total_preorder(rb, xr, rp);
                    } else if b < p {
                        assert(out@[a] == before[a]);
                        assert(out@[b] == before[b]);
                        assert(idx[a] == old_idx[a]);
                        assert(idx[b] == old_idx[b]);
                    } else {
                        assert(out@[a] == before[a - 1]);
                        assert(out@[b] == before[b - 1]);
                        assert(idx[a] == old_idx[a - 1]);
                        assert(idx[b] == old_idx[b - 1]);
                    }
                }
            }
        }
        k = k + 1;
    }
    assert(is_permutation_by(input, out@, idx));
    assert(is_permutation_by(input, out@, idx) && (all_nonzero(input) ==> sorted_by_ratio(out@) && is_stable_by(out@, idx)));
    assert(is_stable_sort_by_ratio(input, out@));
    out
}

impl Config {
    /// The ratios of the configured resolutions, in their order.
    pub fn sorted_resolutions(&self) -> (r: Vec<AspectRatio>)
        ensures
            r@ == self.resolutions@.map_values(|c: ConfigResolution| c.resolution),
    {
        let mut out: Vec<AspectRatio> = Vec::new();
        for i in 0..self.resolutions.len()
            invariant
                out@ == self.resolutions@.take(i as int).map_values(|c: ConfigResolution| c.resolution),
        {
            out.push(self.resolutions[i].resolution);
            assert(out@ =~= self.resolutions@.take(i + 1).map_values(|c: ConfigResolution| c.resolution));
        }
        assert(self.resolutions@.take(self.resolutions@.len() as int) =~= self.resolutions@);
        out
    }

    /// Orders the resolutions by ratio, keeping the order of equal ratios.
    pub fn sort_resolutions(&mut self)
        ensures
            is_stable_sort_by_ratio(old(self).resolutions@, final(self).resolutions@),
            final(self).wallpapers_dir == old(self).wallpapers_dir,
            final(self).min_width == old(self).min_width,
            final(self).min_height == old(self).min_height,
            final(self).show_faces == old(self).show_faces,
            final(self).wallpaper_command == old(self).wallpaper_command,
    {
        let mut resolutions: Vec<ConfigResolution> = Vec::new();
        std::mem::swap(&mut resolutions, &mut self.resolutions);
        self.resolutions = sort_by_ratio(resolutions);
    }
}

impl WallpaperConfig {
    /// The ratios of the configured resolutions, in their order.
    pub fn sorted_resolutions(&self) -> (r: Vec<AspectRatio>)
        ensures
            r@ == self.resolutions@.map_values(|c: (String, AspectRatio)| c.1),
    {
        let mut out: Vec<AspectRatio> = Vec::new();
        for i in 0..self.resolutions.len()
            invariant
                out@ == self.resolutions@.take(i as int).map_values(|c: (String, AspectRatio)| c.1),
        {
            out.push(self.resolutions[i].1);
            assert(out@ =~= self.resolutions@.take(i + 1).map_values(|c: (String, AspectRatio)| c.1));
        }
        assert(self.resolutions@.take(self.resolutions@.len() as int) =~= self.resolutions@);
        out
    }

    /// Adds a resolution and keeps the resolutions in order of their ratio.
    pub fn add_resolution(&mut self, res_name: &str, res: AspectRatio)
        ensures
            exists|added: Seq<(String, AspectRatio)>|
                added.len() == old(self).resolutions@.len() + 1 && added.drop_last() == old(self).resolutions@
                    && added.last().0@ == res_name@ && added.last().1 == res && is_stable_sort_by_ratio(
                    added,
                    final(self).resolutions@,
                ),
            final(self).wallpapers_path == old(self).wallpapers_path,
            final(self).csv_path == old(self).csv_path,
            final(self).min_width == old(self).min_width,
            final(self).min_height == old(self).min_height,
    {
        let mut resolutions: Vec<(String, AspectRatio)> = Vec::new();
        std::mem::swap(&mut resolutions, &mut self.resolutions);
        let ghost before = resolutions@;
        resolutions.push((String::from_str(res_name), res));
        let ghost added = resolutions@;
        assert(added.drop_last() =~= before);
        self.resolutions = sort_by_ratio(resolutions);
    }
}

/// How far the ratio `a` is from `t`, up to the factor `a.h * t.h`:
/// `|a.w * t.h - t.w * a.h|`.
pub open spec fn gap(a: AspectRatio, t: AspectRatio) -> int {
    let d = a.w * t.h - t.w * a.h;
    if d < 0 {
        -d
    } else {
        d
    }
}

/// `a` is strictly closer to `t` than `b` is, comparing `|a - t|` and
/// `|b - t|` exactly by cross-multiplication.
pub open spec fn closer(a: AspectRatio, b: AspectRatio, t: AspectRatio) -> bool {
    gap(a, t) * b.h < gap(b, t) * a.h
}

/// The order by distance to `t` in which a ratio equal to `t` counts as
/// infinitely far: `a` comes strictly before `b`.
pub open spec fn nearer_other(a: AspectRatio, b: AspectRatio, t: AspectRatio) -> bool {
    if gap(a, t) == 0 {
        false
    } else if gap(b, t) == 0 {
        true
    } else {
        closer(a, b, t)
    }
}

/// The first position, among the first `n`, of the ratio nearest to `t`
/// by `nearer_other`.
pub open spec fn nearest_index(rs: Seq<AspectRatio>, t: AspectRatio, n: int) -> int
    decreases n,
{
    if n <= 1 {
        0
    } else {
        let b = nearest_index(rs, t, n - 1);
        if nearer_other(rs[n - 1], rs[b], t) {
            n - 1
        } else {
            b
        }
    }
}

proof fn lemma_nearest_index_bounds(rs: Seq<AspectRatio>, t: AspectRatio, n: int)
    requires
        1 <= n,
    ensures
        0 <= nearest_index(rs, t, n) < n,
    decreases n,
{
    if n > 1 {
        lemma_nearest_index_bounds(rs, t, n - 1);
    }
}

/// `gap(a, t)` computed.
pub(crate) fn gap_exec(a: &AspectRatio, t: &AspectRatio) -> (r: u64)
    ensures
        r == gap(*a, *t),
{
    assert(a.w * t.h <= 0xffff_ffffu64 * 0xffff_ffffu64) by (nonlinear_arith)
        requires
            a.w <= 0xffff_ffffu64,
            t.h <= 0xffff_ffffu64,
    ;
    assert(t.w * a.h <= 0xffff_ffffu64 * 0xffff_ffffu64) by (nonlinear_arith)
        requires
            t.w <= 0xffff_ffffu64,
            a.h <= 0xffff_ffffu64,
    ;
    let p = a.w as u64 * t.h as u64;
    let q = t.w as u64 * a.h as u64;
    if p >= q {
        p - q
    } else {
        q - p
    }
}

/// Whether `a` is strictly closer to `t` than `b` is.
pub(crate) fn closer_exec(a: &AspectRatio, b: &AspectRatio, t: &AspectRatio) -> (r: bool)
    ensures
        r == closer(*a, *b, *t),
{
    let ga = gap_exec(a, t);
    let gb = gap_exec(b, t);
    assert(ga * b.h <= 0xffff_ffff_ffff_ffffu128 * 0xffff_ffffu128) by (nonlinear_arith)
        requires
            ga <= 0xffff_ffff_ffff_ffffu128,
            b.h <= 0xffff_ffffu128,
    ;
    assert(gb * a.h <= 0xffff_ffff_ffff_ffffu128 * 0xffff_ffffu128) by (nonlinear_arith)
        requires
            gb <= 0xffff_ffff_ffff_ffffu128,
            a.h <= 0xffff_ffffu128,
    ;
    (ga as u128) * (b.h as u128) < (gb as u128) * (a.h as u128)
}

impl WallpaperConfig {
    /// The configured ratio nearest to `new_res`, the first of the nearest
    /// ones, where a ratio equal to `new_res` counts as infinitely far;
    /// `None` with no resolutions. Distances are compared exactly.
    pub fn closest_resolution(&self, new_res: &AspectRatio) -> (r: Option<AspectRatio>)
        ensures
            ({
                let rs = self.resolutions@.map_values(|c: (String, AspectRatio)| c.1);
                if rs.len() == 0 {
                    r is None
                } else {
                    r == Some(rs[nearest_index(rs, *new_res, rs.len() as int)])
                }
            }),
    {
        let ghost rs = self.resolutions@.map_values(|c: (String, AspectRatio)| c.1);
        if self.resolutions.len() == 0 {
            return None;
        }
        let mut best: usize = 0;
        for i in 1..self.resolutions.len()
            invariant
                rs == self.resolutions@.map_values(|c: (String, AspectRatio)| c.1),
                1 <= i <= rs.len(),
                best == nearest_index(rs, *new_res, i as int),
        {
            proof {
                lemma_nearest_index_bounds(rs, *new_res, i as int);
            }
            let a = self.resolutions[i].1;
            let b = self.resolutions[best].1;
            let ga = gap_exec(&a, new_res);
            let gb = gap_exec(&b, new_res);
            let nearer = if ga == 0 {
                false
            } else if gb == 0 {
                true
            } else {
                closer_exec(&a, &b, new_res)
            };
            if nearer {
                best = i;
            }
        }
        proof {
            lemma_nearest_index_bounds(rs, *new_res, rs.len() as int);
        }
        Some(self.resolutions[best].1)
    }
}

impl Config {
    /// The settings used when there is no configuration file, for the user
    /// whose home directory is `home`: wallpapers in `~/Pictures/Wallpapers`,
    /// at least 1920x1080, and the one resolution `HD`, 1920x1080.
    pub fn default_for(home: &str) -> (r: Config)
        ensures
            r.wallpapers_dir@ == crate::paths::full_path_spec("~/Pictures/Wallpapers"@, home@),
            r.min_width == 1920,
            r.min_height == 1080,
            !r.show_faces,
            r.resolutions@.len() == 1,
            r.resolutions@[0].name@ == "HD"@,
            r.resolutions@[0].description matches Some(d) && d@ == "Full HD (1920x1080)"@,
            r.resolutions@[0].resolution == crate::aspect_ratio::reduced(1920, 1080),
            r.wallpaper_command is None,
    {
        let mut resolutions: Vec<ConfigResolution> = Vec::new();
        resolutions.push(
            ConfigResolution {
                name: String::from_str("HD"),
                description: Some(String::from_str("Full HD (1920x1080)")),
                resolution: AspectRatio::new(1920, 1080),
            },
        );
        Config {
            wallpapers_dir: crate::paths::full_path("~/Pictures/Wallpapers", home),
            min_width: 1920,
            min_height: 1080,
            show_faces: false,
            resolutions,
            wallpaper_command: None,
        }
    }
}

impl WallpaperConfig {
    /// The settings used when there is no configuration file, for the user
    /// whose home directory is `home` and whose configuration directory is
    /// `config_dir`: wallpapers in `~/Pictures/Wallpapers`, the table in
    /// `wallpaper-ui/wallpapers.csv` of the configuration directory, at least
    /// 1920x1080, and the one resolution `HD`, 1920x1080.
    pub fn default_for(home: &str, config_dir: &str) -> (r: WallpaperConfig)
        ensures
            r.wallpapers_path@ == crate::paths::full_path_spec("~/Pictures/Wallpapers"@, home@),
            r.csv_path@ == crate::paths::join_spec(
                crate::paths::join_spec(config_dir@, "wallpaper-ui"@),
                "wallpapers.csv"@,
            ),
            r.min_width == 1920,
            r.min_height == 1080,
            r.resolutions@.len() == 1,
            r.resolutions@[0].0@ == "HD"@,
            r.resolutions@[0].1 == crate::aspect_ratio::reduced(1920, 1080),
    {
        let dir = crate::paths::join(config_dir, "wallpaper-ui");
        let csv_path = crate::paths::join(dir.as_str(), "wallpapers.csv");
        let mut resolutions: Vec<(String, AspectRatio)> = Vec::new();
        resolutions.push((String::from_str("HD"), AspectRatio::new(1920, 1080)));
        WallpaperConfig {
            wallpapers_path: crate::paths::full_path("~/Pictures/Wallpapers", home),
            csv_path,
            min_width: 1920,
            min_height: 1080,
            resolutions,
        }
    }
}

/// Every named resolution of the settings reads as a ratio other than
/// `0x0`.
pub open spec fn resolutions_ok(entries: Seq<(String, String)>) -> bool {
    forall|i: int| 0 <= i < entries.len() ==> crate::aspect_ratio::ratio_text_ok(#[trigger] entries[i].1@)
}

/// The named ratios of the settings, in order.
pub open spec fn named_ratios(entries: Seq<(String, String)>) -> Seq<(Seq<char>, AspectRatio)> {
    entries.map_values(
        |e: (String, String)|
            (
                e.0@,
                crate::aspect_ratio::reduced(
                    crate::aspect_ratio::ratio_parts(e.1@)[0] as nat,
                    crate::aspect_ratio::ratio_parts(e.1@)[1] as nat,
                ),
            ),
    )
}

/// `out` is the named ratios of the settings, ordered stably by ratio.
pub open spec fn sorted_from(entries: Seq<(String, String)>, out: Seq<(String, AspectRatio)>) -> bool {
    exists|given: Seq<(String, AspectRatio)>|
        pairs_of(given) == named_ratios(entries) && #[trigger] is_stable_sort_by_ratio(given, out)
}

pub open spec fn pairs_of(v: Seq<(String, AspectRatio)>) -> Seq<(Seq<char>, AspectRatio)> {
    v.map_values(|e: (String, AspectRatio)| (e.0@, e.1))
}

impl WallpaperConfig {
    /// The settings read from a configuration file, for the user whose home
    /// directory is `home` and whose configuration directory is
    /// `config_dir`: each setting that is given replaces its default (a path
    /// starting with `~/` is in the home directory); the minimum width and
    /// the minimum height are both read from `min_width`; the resolutions,
    /// when given, are read as ratios and ordered by ratio. A minimum width
    /// that is not a number, or a resolution that is not a ratio other than
    /// `0x0`, makes the settings invalid.
    pub fn from_settings(
        home: &str,
        config_dir: &str,
        wallpapers_path: Option<&str>,
        csv_path: Option<&str>,
        min_width: Option<&str>,
        resolutions: Option<&Vec<(String, String)>>,
    ) -> (r: Result<WallpaperConfig, ConfigError>)
        ensures
            match r {
                Ok(cfg) => {
                    &&& (min_width matches Some(m) ==> crate::text::parse_u32_spec(m@) is Some)
                    &&& (resolutions matches Some(rs) ==> resolutions_ok(rs@))
                    &&& cfg.wallpapers_path@ == match wallpapers_path {
                        Some(p) => crate::paths::full_path_spec(p@, home@),
                        None => crate::paths::full_path_spec("~/Pictures/Wallpapers"@, home@),
                    }
                    &&& cfg.csv_path@ == match csv_path {
                        Some(p) => crate::paths::full_path_spec(p@, home@),
                        None => crate::paths::join_spec(
                            crate::paths::join_spec(config_dir@, "wallpaper-ui"@),
                            "wallpapers.csv"@,
                        ),
                    }
                    &&& cfg.min_width == match min_width {
                        Some(m) => crate::text::parse_u32_spec(m@).unwrap(),
                        None => 1920,
                    }
                    &&& cfg.min_height == cfg.min_width
                    &&& match resolutions {
                        Some(rs) => sorted_from(rs@, cfg.resolutions@),
                        None => cfg.resolutions@.len() == 1 && cfg.resolutions@[0].0@ == "HD"@
                            && cfg.resolutions@[0].1 == crate::aspect_ratio::reduced(1920, 1080),
                    }
                },
                Err(_) => {
                    ||| (min_width matches Some(m) && crate::text::parse_u32_spec(m@) is None)
                    ||| (resolutions matches Some(rs) && !resolutions_ok(rs@))
                },
            },
    {
        let defaults = WallpaperConfig::default_for(home, config_dir);
        let ghost mut witness: Seq<(String, AspectRatio)> = Seq::empty();
        let parsed_resolutions = match resolutions {
            None => defaults.resolutions,
            Some(rs) => {
                let mut given: Vec<(String, AspectRatio)> = Vec::new();
                for i in 0..rs.len()
                    invariant
                        resolutions == Some(rs),
                        pairs_of(given@) == named_ratios(rs@.take(i as int)),
                        resolutions_ok(rs@.take(i as int)),
                {
                    assert(rs@.take(i + 1).drop_last() =~= rs@.take(i as int));
                    match AspectRatio::try_from_nonzero(rs[i].1.as_str()) {
                        Some(ratio) => {
                            assert(named_ratios(rs@.take(i + 1)) =~= named_ratios(rs@.take(i as int)).push(
                                (rs@[i as int].0@, ratio),
                            ));
                            let ghost before = given@;
                            given.push((rs[i].0.clone(), ratio));
                            assert(given@ == before.push(given@.last()));
                            assert(pairs_of(given@) =~= named_ratios(rs@.take(i + 1)));
                            assert(resolutions_ok(rs@.take(i + 1))) by {
                                assert forall|k: int| 0 <= k < i + 1 implies crate::aspect_ratio::ratio_text_ok(
                                    #[trigger] rs@.take(i + 1)[k].1@,
                                ) by {
                                    if k < i {
                                        assert(rs@.take(i + 1)[k] == rs@.take(i as int)[k]);
                                    }
                                }
                            }
                        },
                        None => {
                            assert(!crate::aspect_ratio::ratio_text_ok(rs@[i as int].1@));
                            return Err(ConfigError::InvalidConfig);
                        },
                    }
                }
                assert(rs@.take(rs@.len() as int) =~= rs@);
                let ghost g = given@;
                let sorted = sort_by_ratio(given);
                assert(pairs_of(g) == named_ratios(rs@) && is_stable_sort_by_ratio(g, sorted@));
                proof {
                    witness = g;
                }
                sorted
            },
        };
        let min_w: u32 = match min_width {
            None => 1920,
            Some(m) => {
                let chars = crate::text::chars_of(m);
                match crate::text::parse_u32(&chars) {
                    Some(v) => v,
                    None => {
                        return Err(ConfigError::InvalidConfig);
                    },
                }
            },
        };
        let wallpapers_path = match wallpapers_path {
            Some(p) => crate::paths::full_path(p, home),
            None => defaults.wallpapers_path,
        };
        let csv_path = match csv_path {
            Some(p) => crate::paths::full_path(p, home),
            None => defaults.csv_path,
        };
        let cfg = WallpaperConfig {
            wallpapers_path,
            csv_path,
            min_width: min_w,
            min_height: min_w,
            resolutions: parsed_resolutions,
        };
        proof {
            if let Some(rs) = resolutions {
                assert(pairs_of(witness) == named_ratios(rs@) && is_stable_sort_by_ratio(witness, cfg.resolutions@));
                assert(sorted_from(rs@, cfg.resolutions@));
            }
        }
        Ok(cfg)
    }
}

} // verus!
