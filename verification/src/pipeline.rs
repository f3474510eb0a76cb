//! Adding wallpapers: where each result goes, which step comes after each
//! one, and which wallpapers are shown for review at the end.
use vstd::prelude::*;
use vstd::string::*;

use crate::aspect_ratio::AspectRatio;
use crate::config::{same_config, Config, ConfigResolution};
use crate::geometry::Geometry;
use crate::paths::{
    extension, extension_spec, file_name_spec, filename, join, join_spec, renamed_file_name,
    renamed_spec, strings_view,
};
use crate::wallpapers::{crop_order, crops_of, geometry_for, order_with, target_scale, WallInfo};

verus! {

/// The largest width or height of a webp image.
pub const WEBP_MAX_DIMENSION: u32 = 16383;

/// The program that shrinks an image file without changing the image.
#[derive(Debug, Clone, Copy, PartialEq, Eq, Structural)]
pub enum Optimizer {
    Jpg,
    Png,
    Webp,
}

/// How the result of a step is optimized, by its extension.
#[derive(Debug, Clone, Copy, PartialEq, Eq, Structural)]
pub enum Optimization {
    /// The path has no extension: there is nothing to run.
    Skip,
    Run(Optimizer),
    /// An extension that no optimizer handles.
    Unsupported,
}

/// Why an image cannot be brought to the minimum size.
#[derive(Debug, Clone, Copy, PartialEq, Eq, Structural)]
pub enum UpscaleError {
    /// Even four times its size the image is smaller than the minimum.
    TooSmall,
    /// The upscaled image would be larger than a webp image can be.
    TooLarge,
}

/// What adding an image asks for next.
#[derive(Debug, Clone, Copy, PartialEq, Eq, Structural)]
pub enum AddStep {
    /// The faces of the image are detected, and it goes through the steps.
    Detect,
    /// Nothing more is done with the image.
    Done,
}

/// The steps of adding wallpapers, and the wallpapers to review at the end.
pub struct WallpaperPipeline {
    pub config: Config,
    pub format: Option<String>,
    pub to_preview: Vec<String>,
}

/// The format to convert to is a non-empty extension, if any.
pub open spec fn format_ok(format: Option<String>) -> bool {
    format matches Some(ext) ==> ext@.len() > 0
}

/// The file name of `img`, with its extension replaced by the format, if any.
pub open spec fn placed_name(img: Seq<char>, format: Option<String>) -> Seq<char> {
    let name = file_name_spec(img).unwrap();
    match format {
        Some(ext) => renamed_spec(name, ext@),
        None => name,
    }
}

/// Where the result of a step on `img` goes in `dir`.
pub open spec fn placed_path(img: Seq<char>, format: Option<String>, dir: Seq<char>) -> Seq<char> {
    join_spec(dir, placed_name(img, format))
}

/// The images that lack the metadata of this tool, in order; each image is
/// given with whether it has that metadata.
pub open spec fn orphans_of(images: Seq<(String, bool)>) -> Seq<Seq<char>>
    decreases images.len(),
{
    if images.len() == 0 {
        Seq::empty()
    } else {
        let rest = orphans_of(images.drop_last());
        if images.last().1 {
            rest
        } else {
            rest.push(images.last().0@)
        }
    }
}

/// The ratios of the configured resolutions.
pub open spec fn config_ratios(cfg: Config) -> Seq<AspectRatio> {
    cfg.resolutions@.map_values(|c: ConfigResolution| c.resolution)
}

/// The wallpaper still uses the default crop, `default_crops[i]`, of every
/// ratio `ratios[i]`.
pub open spec fn uses_default_crops(info: WallInfo, ratios: Seq<AspectRatio>, default_crops: Seq<Geometry>) -> bool {
    forall|i: int|
        0 <= i < ratios.len() ==> geometry_for(crops_of(info.geometries), #[trigger] ratios[i], default_crops[i])
            == default_crops[i]
}

/// What adding an image whose result exists already leads to: the image is
/// detected again when its proportions changed (compared by whole
/// multiples, as the sizes are divided); it is reviewed again when it does
/// not have exactly one face and still uses the default crops.
pub open spec fn existing_step(
    info: WallInfo,
    width: u32,
    height: u32,
    default_crops: Seq<Geometry>,
    ratios: Seq<AspectRatio>,
) -> (AddStep, bool) {
    if info.width / width != info.height / height {
        (AddStep::Detect, false)
    } else if info.faces@.len() != 1 && uses_default_crops(info, ratios, default_crops) {
        (AddStep::Done, true)
    } else {
        (AddStep::Done, false)
    }
}

/// The crops stored for each ratio in turn.
pub open spec fn crops_for(ratios: Seq<AspectRatio>, crops: Seq<Geometry>) -> Map<(u32, u32), Geometry>
    decreases ratios.len(),
{
    if ratios.len() == 0 || crops.len() == 0 {
        Map::empty()
    } else {
        crops_for(ratios.drop_last(), crops.drop_last()).insert(
            (ratios.last().w, ratios.last().h),
            crops.last(),
        )
    }
}

/// The order in which storing a crop for each ratio in turn leaves the
/// ratios' keys.
pub open spec fn crop_order_for(ratios: Seq<AspectRatio>, crops: Seq<Geometry>) -> Seq<(u32, u32)>
    decreases ratios.len(),
{
    if ratios.len() == 0 || crops.len() == 0 {
        Seq::empty()
    } else {
        order_with(
            crop_order_for(ratios.drop_last(), crops.drop_last()),
            crops_for(ratios.drop_last(), crops.drop_last()),
            (ratios.last().w, ratios.last().h),
        )
    }
}

/// The scale that brings the wallpaper to the minimum size, unless there is
/// none or the result is too large for a webp image.
pub open spec fn upscale_spec(info: WallInfo, min_width: u32, min_height: u32) -> Result<u32, UpscaleError> {
    match target_scale(info.width, info.height, min_width, min_height) {
        None => Err(UpscaleError::TooSmall),
        Some(s) => if info.width * s > WEBP_MAX_DIMENSION || info.height * s > WEBP_MAX_DIMENSION {
            Err(UpscaleError::TooLarge)
        } else {
            Ok(s)
        },
    }
}

/// The optimizer for a path, by its extension.
pub open spec fn optimization_spec(path: Seq<char>) -> Optimization {
    match extension_spec(path) {
        None => Optimization::Skip,
        Some(e) => if e == seq!['j', 'p', 'g'] || e == seq!['j', 'p', 'e', 'g'] {
            Optimization::Run(Optimizer::Jpg)
        } else if e == seq!['p', 'n', 'g'] {
            Optimization::Run(Optimizer::Png)
        } else if e == seq!['w', 'e', 'b', 'p'] {
            Optimization::Run(Optimizer::Webp)
        } else {
            Optimization::Unsupported
        },
    }
}

/// An image so small that even four times its size is below the minimum.
pub fn too_small(width: u32, height: u32, min_width: u32, min_height: u32) -> (r: bool)
    ensures
        r == (width * 4 < min_width || height * 4 < min_height),
{
    (width as u64) * 4 < min_width as u64 || (height as u64) * 4 < min_height as u64
}

/// The file name of `img`, with its extension replaced by the format, if any.
pub fn placed_name_of(img: &str, format: &Option<String>) -> (r: String)
    requires
        file_name_spec(img@).is_some(),
    ensures
        r@ == placed_name(img@, *format),
{
    match format {
        Some(ext) => renamed_file_name(img, ext.as_str()),
        None => filename(img),
    }
}

/// Where the result of a step on `img` goes in `dir`.
pub fn placed_path_of(img: &str, format: &Option<String>, dir: &str) -> (r: String)
    requires
        file_name_spec(img@).is_some(),
    ensures
        r@ == placed_path(img@, *format, dir@),
{
    let name = placed_name_of(img, format);
    join(dir, name.as_str())
}

fn str_eq(a: &String, b: &str) -> (r: bool)
    ensures
        r == (a@ == b@),
{
    let t = b.to_string();
    *a == t
}

/// The optimizer for a path, by its extension: `jpg` and `jpeg`, `png` and
/// `webp` have one.
pub fn optimization_for(path: &str) -> (r: Optimization)
    ensures
        r == optimization_spec(path@),
{
    match extension(path) {
        None => Optimization::Skip,
        Some(e) => {
            proof {
                reveal_strlit("jpg");
                reveal_strlit("jpeg");
                reveal_strlit("png");
                reveal_strlit("webp");
            }
            assert("jpg"@ =~= seq!['j', 'p', 'g']);
            assert("jpeg"@ =~= seq!['j', 'p', 'e', 'g']);
            assert("png"@ =~= seq!['p', 'n', 'g']);
            assert("webp"@ =~= seq!['w', 'e', 'b', 'p']);
            if str_eq(&e, "jpg") || str_eq(&e, "jpeg") {
                Optimization::Run(Optimizer::Jpg)
            } else if str_eq(&e, "png") {
                Optimization::Run(Optimizer::Png)
            } else if str_eq(&e, "webp") {
                Optimization::Run(Optimizer::Webp)
            } else {
                Optimization::Unsupported
            }
        },
    }
}

impl WallpaperPipeline {
    /// A pipeline for the configuration. `images` are the images of the
    /// wallpapers directory, each with whether it has this tool's metadata;
    /// when some lack it, they are returned and no pipeline is made.
    pub fn new(cfg: &Config, format: Option<String>, images: &Vec<(String, bool)>) -> (r: Result<WallpaperPipeline, Vec<String>>)
        ensures
            match r {
                Ok(p) => {
                    &&& orphans_of(images@).len() == 0
                    &&& same_config(p.config, *cfg)
                    &&& p.format == format
                    &&& p.to_preview@.len() == 0
                },
                Err(orphans) => {
                    &&& orphans_of(images@).len() > 0
                    &&& strings_view(orphans@) == orphans_of(images@)
                },
            },
    {
        let mut orphans: Vec<String> = Vec::new();
        for i in 0..images.len()
            invariant
                strings_view(orphans@) == orphans_of(images@.take(i as int)),
        {
            assert(images@.take(i + 1).drop_last() =~= images@.take(i as int));
            if !images[i].1 {
                orphans.push(images[i].0.clone());
            }
            assert(strings_view(orphans@) =~= orphans_of(images@.take(i + 1)));
        }
        assert(images@.take(images@.len() as int) =~= images@);
        if orphans.len() > 0 {
            return Err(orphans);
        }
        Ok(WallpaperPipeline { config: cfg.clone(), format, to_preview: Vec::new() })
    }

    /// Where the result of a step on `img` goes in `dir`: the file name of
    /// `img`, with the extension of the format, in `dir`.
    pub fn placed(&self, img: &str, dir: &str) -> (r: String)
        requires
            file_name_spec(img@).is_some(),
            format_ok(self.format),
        ensures
            r@ == placed_path(img@, self.format, dir@),
    {
        placed_path_of(img, &self.format, dir)
    }

    /// Where the wallpaper made from `img` goes in the wallpapers directory.
    pub fn output_path(&self, img: &str) -> (r: String)
        requires
            file_name_spec(img@).is_some(),
            format_ok(self.format),
        ensures
            r@ == placed_path(img@, self.format, self.config.wallpapers_dir@),
    {
        self.placed(img, self.config.wallpapers_dir.as_str())
    }

    /// Where the intermediate results of `img` go.
    pub fn temp_path(&self, img: &str) -> (r: String)
        requires
            file_name_spec(img@).is_some(),
            format_ok(self.format),
        ensures
            r@ == placed_path(img@, self.format, "/tmp"@),
    {
        self.placed(img, "/tmp")
    }

    /// Decides what adding `img`, of the given size, leads to. When its
    /// result exists in the wallpapers directory and `force` is not given,
    /// `existing` is the wallpaper stored there and `default_crops[i]` is the
    /// crop that the cropper chooses for it for the `i`-th configured ratio.
    pub fn add_image(
        &mut self,
        img: &str,
        width: u32,
        height: u32,
        force: bool,
        out_exists: bool,
        existing: Option<&WallInfo>,
        default_crops: &Vec<Geometry>,
    ) -> (r: AddStep)
        requires
            file_name_spec(img@).is_some(),
            format_ok(old(self).format),
            out_exists && !force ==> existing.is_some() && width > 0 && height > 0 && default_crops@.len()
                == old(self).config.resolutions@.len(),
        ensures
            final(self).config == old(self).config,
            final(self).format == old(self).format,
            out_exists && !force ==> {
                let (step, review) = existing_step(
                    *existing.unwrap(),
                    width,
                    height,
                    default_crops@,
                    config_ratios(old(self).config),
                );
                &&& r == step
                &&& strings_view(final(self).to_preview@) == if review {
                    strings_view(old(self).to_preview@).push(
                        placed_path(img@, old(self).format, old(self).config.wallpapers_dir@),
                    )
                } else {
                    strings_view(old(self).to_preview@)
                }
            },
            !(out_exists && !force) ==> r == AddStep::Detect && final(self).to_preview@ == old(self).to_preview@,
    {
        if out_exists && !force {
            let info = match existing {
                Some(i) => i,
                None => {
                    return AddStep::Detect;
                },
            };
            if info.width / width != info.height / height {
                return AddStep::Detect;
            }
            let ratios = self.config.sorted_resolutions();
            if info.faces.len() != 1 && info.is_default_crops(&ratios, default_crops) {
                let out_path = self.output_path(img);
                self.to_preview.push(out_path);
                assert(strings_view(self.to_preview@) =~= strings_view(old(self).to_preview@).push(
                    placed_path(img@, old(self).format, old(self).config.wallpapers_dir@),
                ));
            }
            AddStep::Done
        } else {
            AddStep::Detect
        }
    }

    /// The wallpaper made from `img` after detecting its faces: its size, its
    /// faces, and `crops[i]`, the crop that the cropper chooses, for the
    /// `i`-th configured ratio.
    pub fn detected_info(
        &self,
        img: &str,
        width: u32,
        height: u32,
        faces: Vec<Geometry>,
        crops: &Vec<Geometry>,
    ) -> (r: WallInfo)
        requires
            crops@.len() == self.config.resolutions@.len(),
        ensures
            r.path@ == img@,
            r.width == width,
            r.height == height,
            r.faces@ == faces@,
            r.scale is None,
            crops_of(r.geometries) == crops_for(config_ratios(self.config), crops@),
            crop_order(r.geometries) == crop_order_for(config_ratios(self.config), crops@),
    {
        let ratios = self.config.sorted_resolutions();
        let mut info = WallInfo::new(img.to_string(), width, height, faces, None);
        for i in 0..ratios.len()
            invariant
                ratios@ == config_ratios(self.config),
                crops@.len() == ratios@.len(),
                info.path@ == img@,
                info.width == width,
                info.height == height,
                info.faces@ == faces@,
                info.scale is None,
                crops_of(info.geometries) == crops_for(ratios@.take(i as int), crops@.take(i as int)),
                crop_order(info.geometries) == crop_order_for(ratios@.take(i as int), crops@.take(i as int)),
        {
            assert(ratios@.take(i + 1).drop_last() =~= ratios@.take(i as int));
            assert(crops@.take(i + 1).drop_last() =~= crops@.take(i as int));
            info.set_geometry(&ratios[i], &crops[i]);
        }
        assert(ratios@.take(ratios@.len() as int) =~= ratios@);
        assert(crops@.take(crops@.len() as int) =~= crops@);
        info
    }

    /// The factor by which the wallpaper is upscaled to reach the minimum
    /// size, or why it cannot be.
    pub fn upscale_scale(&self, info: &WallInfo) -> (r: Result<u32, UpscaleError>)
        ensures
            r == upscale_spec(*info, self.config.min_width, self.config.min_height),
    {
        match info.get_target_scale(self.config.min_width, self.config.min_height) {
            None => Err(UpscaleError::TooSmall),
            Some(scale) => {
                proof {
                    crate::wallpapers::lemma_target_scale(
                        info.width,
                        info.height,
                        self.config.min_width,
                        self.config.min_height,
                    );
                }
                assert(info.width * scale <= 4 * 0xffff_ffffu64 && info.height * scale <= 4 * 0xffff_ffffu64)
                    by (nonlinear_arith)
                    requires
                        scale <= 4,
                        info.width <= 0xffff_ffffu64,
                        info.height <= 0xffff_ffffu64,
                ;
                let w = info.width as u64 * scale as u64;
                let h = info.height as u64 * scale as u64;
                if w > WEBP_MAX_DIMENSION as u64 || h > WEBP_MAX_DIMENSION as u64 {
                    Err(UpscaleError::TooLarge)
                } else {
                    Ok(scale)
                }
            },
        }
    }

    /// After a wallpaper is optimized and saved: one without exactly one face
    /// is reviewed at the end, under its path in the wallpapers directory.
    pub fn optimized(&mut self, img: &str, info: &WallInfo)
        requires
            file_name_spec(img@).is_some(),
            format_ok(old(self).format),
        ensures
            final(self).config == old(self).config,
            final(self).format == old(self).format,
            strings_view(final(self).to_preview@) == if info.faces@.len() != 1 {
                strings_view(old(self).to_preview@).push(
                    placed_path(img@, old(self).format, old(self).config.wallpapers_dir@),
                )
            } else {
                strings_view(old(self).to_preview@)
            },
    {
        if info.faces.len() != 1 {
            let p = self.output_path(img);
            self.to_preview.push(p);
            assert(strings_view(self.to_preview@) =~= strings_view(old(self).to_preview@).push(
                placed_path(img@, old(self).format, old(self).config.wallpapers_dir@),
            ));
        }
    }

    /// The wallpapers to review, if there are any.
    pub fn preview(self) -> (r: Option<Vec<String>>)
        ensures
            match r {
                Some(v) => v@ == self.to_preview@ && v@.len() > 0,
                None => self.to_preview@.len() == 0,
            },
    {
        if self.to_preview.len() > 0 {
            Some(self.to_preview)
        } else {
            None
        }
    }
}

} // verus!
