//! The command line: its options as plain values, and what the face filter
//! keeps.
use vstd::prelude::*;

verus! {

/// The shells for which completions can be generated.
#[derive(Debug, Clone, Copy, PartialEq, Eq, Structural)]
pub enum ShellCompletion {
    Bash,
    Zsh,
    Fish,
}

/// Which wallpapers to show by their number of detected faces.
#[derive(Debug, Clone, Copy, PartialEq, Eq, Structural)]
pub enum FacesFilter {
    Zero,
    /// Written `none` on the command line.
    NoFaces,
    One,
    Single,
    Many,
    Multiple,
    All,
}

/// The options of adding wallpapers.
#[derive(Debug, Clone, PartialEq, Eq)]
pub struct AddWallpaperArgs {
    /// The format to convert the images to: `jpg`, `png` or `webp`.
    pub format: Option<String>,
    /// Process an image again even if its result exists.
    pub force: bool,
    /// The directories or images to add.
    pub paths: Vec<String>,
}

/// The options of adding a resolution.
#[derive(Debug, Clone, PartialEq, Eq)]
pub struct AddResolutionArgs {
    /// The name of the new resolution.
    pub name: String,
    /// The new resolution, as `<width>x<height>`.
    pub resolution: String,
}

/// The subcommands.
#[derive(Debug, Clone, PartialEq, Eq)]
pub enum Commands {
    Add(AddWallpaperArgs),
    AddResolution(AddResolutionArgs),
}

/// The options of the wallpaper viewer.
#[derive(Debug, Clone, PartialEq, Eq)]
pub struct WallfacerArgs {
    pub generate: Option<ShellCompletion>,
    pub command: Option<Commands>,
    /// Only wallpapers that use the default crops: `all` or resolutions as
    /// `1920x1080,1920x1200`.
    pub unmodified: Option<String>,
    /// Only wallpapers that do not use the default crops, as for
    /// `unmodified`.
    pub modified: Option<String>,
    pub faces: FacesFilter,
    /// Only wallpapers whose file name holds this text, in any case.
    pub filter: Option<String>,
    pub paths: Option<Vec<String>>,
}

/// The options of the older viewer.
#[derive(Debug, Clone, PartialEq, Eq)]
pub struct WallpaperUIArgs {
    pub version: bool,
    pub only_unmodified: bool,
    pub only_none: bool,
    pub only_single: bool,
    pub only_multiple: bool,
    pub paths: Option<Vec<String>>,
}

/// The options of the older pipeline.
#[derive(Debug, Clone, Copy, PartialEq, Eq, Structural)]
pub struct WallpaperPipelineArgs {
    pub version: bool,
}

/// Whether the filter keeps a wallpaper with this many faces.
pub open spec fn faces_filter_keeps(filter: FacesFilter, num_faces: nat) -> bool {
    match filter {
        FacesFilter::All => true,
        FacesFilter::Zero | FacesFilter::NoFaces => num_faces == 0,
        FacesFilter::One | FacesFilter::Single => num_faces == 1,
        FacesFilter::Many | FacesFilter::Multiple => num_faces > 1,
    }
}

impl FacesFilter {
    /// Whether the filter keeps a wallpaper with `num_faces` faces: `all`
    /// keeps every one, `zero` and `none` (`NoFaces`) those without a face, `one` and
    /// `single` those with one, `many` and `multiple` those with more.
    pub fn keeps(&self, num_faces: usize) -> (r: bool)
        ensures
            r == faces_filter_keeps(*self, num_faces as nat),
    {
        match self {
            FacesFilter::All => true,
            FacesFilter::Zero | FacesFilter::NoFaces => num_faces == 0,
            FacesFilter::One | FacesFilter::Single => num_faces == 1,
            FacesFilter::Many | FacesFilter::Multiple => num_faces > 1,
        }
    }
}

/// The filters that share a meaning keep the same wallpapers: `zero` and
/// `none`, `one` and `single`, `many` and `multiple`; and every wallpaper is
/// kept by exactly one of `zero`, `one` and `many`, and by `all`.
pub proof fn lemma_faces_filter_aliases(n: nat)
    ensures
        faces_filter_keeps(FacesFilter::Zero, n) == faces_filter_keeps(FacesFilter::NoFaces, n),
        faces_filter_keeps(FacesFilter::One, n) == faces_filter_keeps(FacesFilter::Single, n),
        faces_filter_keeps(FacesFilter::Many, n) == faces_filter_keeps(FacesFilter::Multiple, n),
        faces_filter_keeps(FacesFilter::All, n),
        (faces_filter_keeps(FacesFilter::Zero, n) as int) + (faces_filter_keeps(FacesFilter::One, n) as int) + (
        faces_filter_keeps(FacesFilter::Many, n) as int) == 1,
{
}

} // verus!
