//! Adding wallpapers in batches: each image waits in a queue for its next
//! step (upscaling, optimizing, face detection, review), and the known
//! wallpapers are kept in a table by file name.
use vstd::prelude::*;
use vstd::string::*;

use crate::aspect_ratio::AspectRatio;
use crate::config::WallpaperConfig;
use crate::geometry::Geometry;
use crate::paths::{all_named, file_name_spec, filename, join};
use crate::paths::strings_view;
use crate::pipeline::{
    format_ok, optimization_for, optimization_spec, placed_name, placed_name_of, placed_path,
    placed_path_of, uses_default_crops, Optimization,
};
use crate::text::{decimal, push_literal, write_decimal};
use crate::wallpapers::{crop_order, crops_of, lookup, stored, target_scale, WallInfo, WallpapersCsv};

verus! {

/// The factor from 1 to 4 that first brings an image of the given size to
/// the minimum size.
pub fn get_scale_factor(width: u32, height: u32, min_width: u32, min_height: u32) -> (r: u32)
    requires
        target_scale(width, height, min_width, min_height) is Some,
    ensures
        target_scale(width, height, min_width, min_height) == Some(r),
{
    let info = WallInfo::new(String::new(), width, height, Vec::new(), None);
    match info.get_target_scale(min_width, min_height) {
        Some(s) => s,
        None => 1,
    }
}

/// An image to upscale, and how it goes.
pub struct UpscaleJob {
    pub src: String,
    pub scale: u32,
    pub dest: String,
    pub progress: String,
}

/// An image to optimize, and how it goes.
pub struct OptimizeJob {
    pub src: String,
    pub dest: String,
    pub optimization: Optimization,
    pub progress: String,
}

/// The queues of the images being added, and the table of known wallpapers.
pub struct WallpaperPipeline {
    pub to_upscale: Vec<(String, u32)>,
    pub to_optimize: Vec<String>,
    pub to_detect: Vec<String>,
    pub to_preview: Vec<String>,
    pub format: Option<String>,
    pub min_width: u32,
    pub min_height: u32,
    pub wall_dir: String,
    pub resolutions: Vec<AspectRatio>,
    pub wallpapers_csv: WallpapersCsv,
}

/// The images whose file name the table does not know, in order.
pub open spec fn unknown_images(images: Seq<String>, infos: Seq<WallInfo>) -> Seq<Seq<char>>
    decreases images.len(),
{
    if images.len() == 0 {
        Seq::empty()
    } else {
        let rest = unknown_images(images.drop_last(), infos);
        if lookup(infos, file_name_spec(images.last()@).unwrap()) is None {
            rest.push(images.last()@)
        } else {
            rest
        }
    }
}

/// The progress label `[i/total]`.
pub open spec fn progress_label(i: nat, total: nat) -> Seq<char> {
    seq!['['] + decimal(i) + seq!['/'] + decimal(total) + seq![']']
}

/// The queue an image of the given size joins to be brought to the minimum
/// size: upscaling with its factor, or, when it is large enough already,
/// optimizing.
pub open spec fn queued_for_size(
    q: (Seq<(Seq<char>, u32)>, Seq<Seq<char>>),
    img: Seq<char>,
    scale: u32,
) -> (Seq<(Seq<char>, u32)>, Seq<Seq<char>>) {
    if scale == 1 {
        (q.0, q.1.push(img))
    } else {
        (q.0.push((img, scale)), q.1)
    }
}

pub open spec fn upscale_view(v: Seq<(String, u32)>) -> Seq<(Seq<char>, u32)> {
    v.map_values(|e: (String, u32)| (e.0@, e.1))
}

/// The queues of a pipeline: to upscale, to optimize, to detect, to review.
pub open spec fn queues(p: WallpaperPipeline) -> (
    Seq<(Seq<char>, u32)>,
    Seq<Seq<char>>,
    Seq<Seq<char>>,
    Seq<Seq<char>>,
) {
    (upscale_view(p.to_upscale@), strings_view(p.to_optimize@), strings_view(p.to_detect@), strings_view(p.to_preview@))
}

/// The queues after adding an image whose result, `out`, exists in the
/// wallpapers directory: when the table knows its file name, it is processed again if
/// its proportions changed and reviewed again if it does not have exactly
/// one face and still uses the default crops; when the table does not know
/// it, its faces are detected again.
pub open spec fn after_existing(
    q: (Seq<(Seq<char>, u32)>, Seq<Seq<char>>, Seq<Seq<char>>, Seq<Seq<char>>),
    img: Seq<char>,
    out: Seq<char>,
    width: u32,
    height: u32,
    scale: u32,
    known: Option<WallInfo>,
    ratios: Seq<AspectRatio>,
    default_crops: Seq<Geometry>,
) -> (Seq<(Seq<char>, u32)>, Seq<Seq<char>>, Seq<Seq<char>>, Seq<Seq<char>>) {
    match known {
        Some(info) => if info.width / width != info.height / height {
            let s = queued_for_size((q.0, q.1), img, scale);
            (s.0, s.1, q.2, q.3)
        } else if info.faces@.len() != 1 && uses_default_crops(info, ratios, default_crops) {
            (q.0, q.1, q.2, q.3.push(out))
        } else {
            q
        },
        None => (q.0, q.1, q.2.push(out), q.3),
    }
}

fn push_progress(i: usize, total: usize) -> (r: String)
    ensures
        r@ == progress_label(i as nat, total as nat),
{
    let mut out = String::new();
    proof {
        reveal_strlit("[");
        reveal_strlit("/");
        reveal_strlit("]");
    }
    push_literal(&mut out, "[");
    write_decimal(&mut out, i as u64);
    push_literal(&mut out, "/");
    write_decimal(&mut out, total as u64);
    push_literal(&mut out, "]");
    assert(out@ =~= progress_label(i as nat, total as nat));
    out
}

impl WallpaperPipeline {
    /// A pipeline for the configuration, with the table of known wallpapers
    /// and the images of the wallpapers directory: those the table does not
    /// know wait for face detection.
    pub fn new(
        cfg: &WallpaperConfig,
        min_width: u32,
        min_height: u32,
        format: Option<String>,
        wallpapers_csv: WallpapersCsv,
        images: &Vec<String>,
    ) -> (r: WallpaperPipeline)
        requires
            all_named(images@),
        ensures
            r.to_upscale@.len() == 0,
            r.to_optimize@.len() == 0,
            strings_view(r.to_detect@) == unknown_images(images@, wallpapers_csv.infos@),
            r.to_preview@.len() == 0,
            r.format == format,
            r.min_width == min_width,
            r.min_height == min_height,
            r.wall_dir == cfg.wallpapers_path,
            r.resolutions@ == cfg.resolutions@.map_values(|c: (String, AspectRatio)| c.1),
            r.wallpapers_csv.infos@ == wallpapers_csv.infos@,
    {
        let mut to_detect: Vec<String> = Vec::new();
        for i in 0..images.len()
            invariant
                all_named(images@),
                strings_view(to_detect@) == unknown_images(images@.take(i as int), wallpapers_csv.infos@),
        {
            assert(images@.take(i + 1).drop_last() =~= images@.take(i as int));
            assert(file_name_spec(images@[i as int]@).is_some());
            let name = filename(images[i].as_str());
            if wallpapers_csv.get(name.as_str()).is_none() {
                to_detect.push(images[i].clone());
            }
            assert(strings_view(to_detect@) =~= unknown_images(images@.take(i + 1), wallpapers_csv.infos@));
        }
        assert(images@.take(images@.len() as int) =~= images@);
        WallpaperPipeline {
            to_upscale: Vec::new(),
            to_optimize: Vec::new(),
            to_detect,
            to_preview: Vec::new(),
            format,
            min_width,
            min_height,
            wall_dir: cfg.wallpapers_path.clone(),
            resolutions: cfg.sorted_resolutions(),
            wallpapers_csv,
        }
    }

    fn queue_for_size(&mut self, img: &str, width: u32, height: u32)
        requires
            target_scale(width, height, old(self).min_width, old(self).min_height) is Some,
        ensures
            ({
                let s = queued_for_size(
                    (queues(*old(self)).0, queues(*old(self)).1),
                    img@,
                    target_scale(width, height, old(self).min_width, old(self).min_height).unwrap(),
                );
                queues(*final(self)) == (s.0, s.1, queues(*old(self)).2, queues(*old(self)).3)
            }),
            final(self).format == old(self).format,
            final(self).min_width == old(self).min_width,
            final(self).min_height == old(self).min_height,
            final(self).wall_dir == old(self).wall_dir,
            final(self).resolutions@ == old(self).resolutions@,
            final(self).wallpapers_csv.infos@ == old(self).wallpapers_csv.infos@,
    {
        let scale = get_scale_factor(width, height, self.min_width, self.min_height);
        if scale == 1 {
            self.to_optimize.push(img.to_string());
            assert(strings_view(self.to_optimize@) =~= strings_view(old(self).to_optimize@).push(img@));
        } else {
            self.to_upscale.push((img.to_string(), scale));
            assert(upscale_view(self.to_upscale@) =~= upscale_view(old(self).to_upscale@).push((img@, scale)));
        }
    }

    /// Puts `img`, of the given size, in the queue of its next step. When
    /// its result exists in the wallpapers directory and `force` is not
    /// given, `default_crops[i]` is the crop that the cropper chooses for the
    /// `i`-th resolution for the wallpaper the table knows by that name.
    pub fn add_image(
        &mut self,
        img: &str,
        force: bool,
        width: u32,
        height: u32,
        out_exists: bool,
        default_crops: &Vec<Geometry>,
    )
        requires
            file_name_spec(img@).is_some(),
            format_ok(old(self).format),
            width > 0,
            height > 0,
            target_scale(width, height, old(self).min_width, old(self).min_height) is Some,
            default_crops@.len() == old(self).resolutions@.len(),
        ensures
            ({
                let out = placed_path(img@, old(self).format, old(self).wall_dir@);
                let scale = target_scale(width, height, old(self).min_width, old(self).min_height).unwrap();
                let q = queues(*old(self));
                if out_exists && !force {
                    let known = match lookup(old(self).wallpapers_csv.infos@, placed_name(img@, old(self).format)) {
                        Some(i) => Some(old(self).wallpapers_csv.infos@[i]),
                        None => None,
                    };
                    queues(*final(self)) == after_existing(
                        q,
                        img@,
                        out,
                        width,
                        height,
                        scale,
                        known,
                        old(self).resolutions@,
                        default_crops@,
                    )
                } else {
                    let s = queued_for_size((q.0, q.1), img@, scale);
                    queues(*final(self)) == (s.0, s.1, q.2, q.3)
                }
            }),
            final(self).format == old(self).format,
            final(self).min_width == old(self).min_width,
            final(self).min_height == old(self).min_height,
            final(self).wall_dir == old(self).wall_dir,
            final(self).resolutions@ == old(self).resolutions@,
            final(self).wallpapers_csv.infos@ == old(self).wallpapers_csv.infos@,
    {
        let name = placed_name_of(img, &self.format);
        let out_path = join(self.wall_dir.as_str(), name.as_str());
        if out_exists && !force {
            match self.wallpapers_csv.get(name.as_str()) {
                Some(info) => {
                    if info.width / width != info.height / height {
                        self.queue_for_size(img, width, height);
                        return;
                    }
                    if info.faces.len() != 1 && info.is_default_crops(&self.resolutions, default_crops) {
                        self.to_preview.push(out_path);
                        assert(strings_view(self.to_preview@) =~= strings_view(old(self).to_preview@).push(
                            placed_path(img@, old(self).format, old(self).wall_dir@),
                        ));
                    }
                },
                None => {
                    self.to_detect.push(out_path);
                    assert(strings_view(self.to_detect@) =~= strings_view(old(self).to_detect@).push(
                        placed_path(img@, old(self).format, old(self).wall_dir@),
                    ));
                },
            }
            return;
        }
        self.queue_for_size(img, width, height);
    }

    /// The images waiting to be upscaled, each with where its result goes
    /// and its progress label; the results join the images to optimize.
    pub fn upscale_images(&mut self) -> (r: Vec<UpscaleJob>)
        requires
            all_named(old(self).to_upscale@.map_values(|e: (String, u32)| e.0)),
            format_ok(old(self).format),
        ensures
            r@.len() == old(self).to_upscale@.len(),
            forall|i: int|
                0 <= i < r@.len() ==> {
                    &&& (#[trigger] r@[i]).src@ == old(self).to_upscale@[i].0@
                    &&& r@[i].scale == old(self).to_upscale@[i].1
                    &&& r@[i].dest@ == placed_path(old(self).to_upscale@[i].0@, old(self).format, "/tmp"@)
                    &&& r@[i].progress@ == progress_label((i + 1) as nat, r@.len() as nat)
                },
            strings_view(final(self).to_optimize@) == strings_view(old(self).to_optimize@) + r@.map_values(
                |j: UpscaleJob| j.dest@,
            ),
            final(self).to_upscale@ == old(self).to_upscale@,
            final(self).to_detect@ == old(self).to_detect@,
            final(self).to_preview@ == old(self).to_preview@,
            final(self).format == old(self).format,
            final(self).wall_dir == old(self).wall_dir,
            final(self).resolutions@ == old(self).resolutions@,
            final(self).wallpapers_csv.infos@ == old(self).wallpapers_csv.infos@,
    {
        let total = self.to_upscale.len();
        let mut jobs: Vec<UpscaleJob> = Vec::new();
        let ghost before = strings_view(self.to_optimize@);
        proof {
            reveal_strlit("/tmp");
        }
        for i in 0..total
            invariant
                total == self.to_upscale@.len(),
                self.to_upscale@ == old(self).to_upscale@,
                self.format == old(self).format,
                all_named(old(self).to_upscale@.map_values(|e: (String, u32)| e.0)),
                format_ok(old(self).format),
                jobs@.len() == i,
                forall|k: int|
                    0 <= k < i ==> {
                        &&& (#[trigger] jobs@[k]).src@ == old(self).to_upscale@[k].0@
                        &&& jobs@[k].scale == old(self).to_upscale@[k].1
                        &&& jobs@[k].dest@ == placed_path(old(self).to_upscale@[k].0@, old(self).format, "/tmp"@)
                        &&& jobs@[k].progress@ == progress_label((k + 1) as nat, total as nat)
                    },
                strings_view(self.to_optimize@) == before + jobs@.map_values(|j: UpscaleJob| j.dest@),
                before == strings_view(old(self).to_optimize@),
                self.to_detect@ == old(self).to_detect@,
                self.to_preview@ == old(self).to_preview@,
                self.wall_dir == old(self).wall_dir,
                self.resolutions@ == old(self).resolutions@,
                self.wallpapers_csv.infos@ == old(self).wallpapers_csv.infos@,
        {
            let src = self.to_upscale[i].0.clone();
            let scale = self.to_upscale[i].1;
            assert(file_name_spec(old(self).to_upscale@.map_values(|e: (String, u32)| e.0)[i as int]@).is_some());
            let dest = placed_path_of(src.as_str(), &self.format, "/tmp");
            let progress = push_progress(i + 1, total);
            let job = UpscaleJob { src, scale, dest: dest.clone(), progress };
            let ghost prev_jobs = jobs@;
            let ghost prev_q = self.to_optimize@;
            let ghost d = dest@;
            jobs.push(job);
            self.to_optimize.push(dest);
            assert(jobs@.map_values(|j: UpscaleJob| j.dest@) =~= prev_jobs.map_values(|j: UpscaleJob| j.dest@).push(d));
            assert(strings_view(self.to_optimize@) =~= strings_view(prev_q).push(d));
            assert(strings_view(self.to_optimize@) =~= before + jobs@.map_values(|j: UpscaleJob| j.dest@));
        }
        jobs
    }

    /// The images waiting to be optimized, each with where its result goes
    /// in the wallpapers directory, how it is optimized and its progress
    /// label; the results join the images whose faces are detected.
    pub fn optimize_images(&mut self) -> (r: Vec<OptimizeJob>)
        requires
            all_named(old(self).to_optimize@),
            format_ok(old(self).format),
        ensures
            r@.len() == old(self).to_optimize@.len(),
            forall|i: int|
                0 <= i < r@.len() ==> {
                    &&& (#[trigger] r@[i]).src@ == old(self).to_optimize@[i]@
                    &&& r@[i].dest@ == placed_path(old(self).to_optimize@[i]@, old(self).format, old(self).wall_dir@)
                    &&& r@[i].optimization == optimization_spec(r@[i].dest@)
                    &&& r@[i].progress@ == progress_label((i + 1) as nat, r@.len() as nat)
                },
            strings_view(final(self).to_detect@) == strings_view(old(self).to_detect@) + r@.map_values(
                |j: OptimizeJob| j.dest@,
            ),
            final(self).to_upscale@ == old(self).to_upscale@,
            final(self).to_optimize@ == old(self).to_optimize@,
            final(self).to_preview@ == old(self).to_preview@,
            final(self).format == old(self).format,
            final(self).wall_dir == old(self).wall_dir,
            final(self).resolutions@ == old(self).resolutions@,
            final(self).wallpapers_csv.infos@ == old(self).wallpapers_csv.infos@,
    {
        let total = self.to_optimize.len();
        let mut jobs: Vec<OptimizeJob> = Vec::new();
        let ghost before = strings_view(self.to_detect@);
        for i in 0..total
            invariant
                total == self.to_optimize@.len(),
                self.to_optimize@ == old(self).to_optimize@,
                self.format == old(self).format,
                self.wall_dir == old(self).wall_dir,
                all_named(old(self).to_optimize@),
                format_ok(old(self).format),
                jobs@.len() == i,
                forall|k: int|
                    0 <= k < i ==> {
                        &&& (#[trigger] jobs@[k]).src@ == old(self).to_optimize@[k]@
                        &&& jobs@[k].dest@ == placed_path(old(self).to_optimize@[k]@, old(self).format, old(self).wall_dir@)
                        &&& jobs@[k].optimization == optimization_spec(jobs@[k].dest@)
                        &&& jobs@[k].progress@ == progress_label((k + 1) as nat, total as nat)
                    },
                strings_view(self.to_detect@) == before + jobs@.map_values(|j: OptimizeJob| j.dest@),
                before == strings_view(old(self).to_detect@),
                self.to_upscale@ == old(self).to_upscale@,
                self.to_preview@ == old(self).to_preview@,
                self.resolutions@ == old(self).resolutions@,
                self.wallpapers_csv.infos@ == old(self).wallpapers_csv.infos@,
        {
            let src = self.to_optimize[i].clone();
            assert(file_name_spec(old(self).to_optimize@[i as int]@).is_some());
            let dest = placed_path_of(src.as_str(), &self.format, self.wall_dir.as_str());
            let optimization = optimization_for(dest.as_str());
            let progress = push_progress(i + 1, total);
            let job = OptimizeJob { src, dest: dest.clone(), optimization, progress };
            let ghost prev_jobs = jobs@;
            let ghost prev_q = self.to_detect@;
            let ghost d = dest@;
            jobs.push(job);
            self.to_detect.push(dest);
            assert(jobs@.map_values(|j: OptimizeJob| j.dest@) =~= prev_jobs.map_values(|j: OptimizeJob| j.dest@).push(d));
            assert(strings_view(self.to_detect@) =~= strings_view(prev_q).push(d));
            assert(strings_view(self.to_detect@) =~= before + jobs@.map_values(|j: OptimizeJob| j.dest@));
        }
        jobs
    }

    /// Records the faces detected in the image at `path`: the wallpaper,
    /// with `crops[i]`, the crop that the cropper chooses, for the `i`-th
    /// resolution, is stored in the table under its file name, and one
    /// without exactly one face is reviewed at the end.
    pub fn add_detected(&mut self, path: &str, width: u32, height: u32, faces: Vec<Geometry>, crops: &Vec<Geometry>)
        requires
            file_name_spec(path@).is_some(),
            crops@.len() == old(self).resolutions@.len(),
        ensures
            ({
                let name = file_name_spec(path@).unwrap();
                exists|info: WallInfo|
                    {
                        &&& #[trigger] final(self).wallpapers_csv.infos@ == stored(old(self).wallpapers_csv.infos@, info)
                        &&& info.path@ == name
                        &&& info.width == width
                        &&& info.height == height
                        &&& info.faces@ == faces@
                        &&& info.scale is None
                        &&& crops_of(info.geometries) == crate::pipeline::crops_for(old(self).resolutions@, crops@)
                        &&& crop_order(info.geometries) == crate::pipeline::crop_order_for(
                            old(self).resolutions@,
                            crops@,
                        )
                    }
            }),
            strings_view(final(self).to_preview@) == if faces@.len() != 1 {
                strings_view(old(self).to_preview@).push(
                    crate::paths::join_spec(old(self).wall_dir@, file_name_spec(path@).unwrap()),
                )
            } else {
                strings_view(old(self).to_preview@)
            },
            final(self).to_upscale@ == old(self).to_upscale@,
            final(self).to_optimize@ == old(self).to_optimize@,
            final(self).to_detect@ == old(self).to_detect@,
            final(self).format == old(self).format,
            final(self).wall_dir == old(self).wall_dir,
            final(self).resolutions@ == old(self).resolutions@,
    {
        let name = filename(path);
        let mut info = WallInfo::new(name.clone(), width, height, faces, None);
        for i in 0..self.resolutions.len()
            invariant
                crops@.len() == self.resolutions@.len(),
                info.path@ == name@,
                info.width == width,
                info.height == height,
                info.faces@ == faces@,
                info.scale is None,
                crops_of(info.geometries) == crate::pipeline::crops_for(
                    self.resolutions@.take(i as int),
                    crops@.take(i as int),
                ),
                crop_order(info.geometries) == crate::pipeline::crop_order_for(
                    self.resolutions@.take(i as int),
                    crops@.take(i as int),
                ),
        {
            assert(self.resolutions@.take(i + 1).drop_last() =~= self.resolutions@.take(i as int));
            assert(crops@.take(i + 1).drop_last() =~= crops@.take(i as int));
            info.set_geometry(&self.resolutions[i], &crops[i]);
        }
        assert(self.resolutions@.take(self.resolutions@.len() as int) =~= self.resolutions@);
        assert(crops@.take(crops@.len() as int) =~= crops@);
        if info.faces.len() != 1 {
            let p = join(self.wall_dir.as_str(), name.as_str());
            self.to_preview.push(p);
            assert(strings_view(self.to_preview@) =~= strings_view(old(self).to_preview@).push(
                crate::paths::join_spec(old(self).wall_dir@, file_name_spec(path@).unwrap()),
            ));
        }
        let ghost g = info;
        self.wallpapers_csv.insert(info);
        assert(final(self).wallpapers_csv.infos@ == stored(old(self).wallpapers_csv.infos@, g));
    }

    /// The wallpapers to review, if there are any.
    pub fn preview(self) -> (r: Option<Vec<String>>)
        ensures
            match r {
                Some(v) => v@ == self.to_preview@ && v@.len() > 0,
                None => self.to_preview@.len() == 0,
            },
    {
        if self.to_preview.len() > 0 {
            Some(self.to_preview)
        } else {
            None
        }
    }
}

} // verus!
