//! The state of the wallpaper viewer: which screen is shown, and which
//! wallpaper of the list is being edited.
use vstd::prelude::*;
use vstd::string::*;
use std::time::Instant;

use crate::aspect_ratio::{parse_ratio, ratio_text_ok, AspectRatio};
use crate::cli::{faces_filter_keeps, FacesFilter};
use crate::cropper::{ratio_in_range, Direction};
use crate::geometry::Geometry;
use crate::paths::{all_named, file_name_spec, filename, join, join_spec};
use crate::text::{chars_of, split_by};
use crate::wallpapers::{
    bare_info, crop_order, crops_of, geometry_for, lookup, order_with, same_info, stored, WallInfo, WallpapersCsv,
};

verus! {

#[verifier::external_type_specification]
#[verifier::external_body]
pub struct ExInstant(Instant);

/// The screen shown.
#[derive(Debug, Clone, PartialEq, Eq)]
pub enum UiMode {
    Editor,
    FileList,
    Palette,
    /// Wallpapers are being added from these paths.
    Adding(Vec<String>),
}

impl Default for UiMode {
    fn default() -> (r: UiMode)
        ensures
            r == UiMode::Editor,
    {
        UiMode::Editor
    }
}

/// How the crop is chosen in the preview.
#[derive(Debug, Clone, Copy, PartialEq, Eq, Structural)]
pub enum PreviewMode {
    /// The crop is dragged.
    Pan,
    /// The crop is picked among the candidates; holds the last one hovered.
    Candidate(Option<Geometry>),
}

impl Default for PreviewMode {
    fn default() -> (r: PreviewMode)
        ensures
            r == PreviewMode::Candidate(None),
    {
        PreviewMode::Candidate(None)
    }
}

/// The state of the viewer's interface.
#[derive(Debug, Clone, PartialEq, Eq)]
pub struct UiState {
    pub mode: UiMode,
    pub preview_mode: PreviewMode,
    pub show_faces: bool,
    pub is_saving: bool,
    pub is_applying_wallpaper: bool,
    pub arrow_key_start: Option<Instant>,
}

impl Default for UiState {
    fn default() -> (r: UiState)
        ensures
            r.mode == UiMode::Editor,
            r.preview_mode == PreviewMode::Candidate(None),
            !r.show_faces,
            !r.is_saving,
            !r.is_applying_wallpaper,
            r.arrow_key_start is None,
    {
        UiState {
            mode: UiMode::Editor,
            preview_mode: PreviewMode::Candidate(None),
            show_faces: false,
            is_saving: false,
            is_applying_wallpaper: false,
            arrow_key_start: None,
        }
    }
}

/// The other fields of the interface state are as they were.
pub open spec fn same_but_mode(a: UiState, b: UiState) -> bool {
    &&& a.preview_mode == b.preview_mode
    &&& a.show_faces == b.show_faces
    &&& a.is_saving == b.is_saving
    &&& a.is_applying_wallpaper == b.is_applying_wallpaper
    &&& a.arrow_key_start == b.arrow_key_start
}

impl UiState {
    /// Shows the file list, or goes back to the editor from it.
    pub fn toggle_filelist(&mut self)
        ensures
            final(self).mode == (if old(self).mode is FileList {
                UiMode::Editor
            } else {
                UiMode::FileList
            }),
            same_but_mode(*final(self), *old(self)),
    {
        self.mode = match &self.mode {
            UiMode::FileList => UiMode::Editor,
            _ => UiMode::FileList,
        };
    }

    /// Shows the palette, or goes back to the editor from it.
    pub fn toggle_palette(&mut self)
        ensures
            final(self).mode == (if old(self).mode is Palette {
                UiMode::Editor
            } else {
                UiMode::Palette
            }),
            same_but_mode(*final(self), *old(self)),
    {
        self.mode = match &self.mode {
            UiMode::Palette => UiMode::Editor,
            _ => UiMode::Palette,
        };
    }

    /// Switches between dragging the crop and picking among candidates.
    pub fn toggle_pan(&mut self)
        ensures
            final(self).preview_mode == (if old(self).preview_mode is Pan {
                PreviewMode::Candidate(None)
            } else {
                PreviewMode::Pan
            }),
            final(self).mode == old(self).mode,
            final(self).show_faces == old(self).show_faces,
            final(self).is_saving == old(self).is_saving,
            final(self).is_applying_wallpaper == old(self).is_applying_wallpaper,
            final(self).arrow_key_start == old(self).arrow_key_start,
    {
        self.preview_mode = match self.preview_mode {
            PreviewMode::Pan => PreviewMode::Candidate(None),
            _ => PreviewMode::Pan,
        };
    }

    /// Picks among candidates when the wallpaper being edited has several
    /// for its ratio, and drags the crop otherwise.
    pub fn init_preview_mode(&mut self, walls: &Wallpapers)
        requires
            walls.current.cropper_in_range(),
            ratio_in_range(walls.ratio, walls.current.width, walls.current.height),
        ensures
            final(self).preview_mode == (if walls.current.cropper_spec().candidates_unordered(walls.ratio).len() > 1 {
                PreviewMode::Candidate(None)
            } else {
                PreviewMode::Pan
            }),
            final(self).mode == old(self).mode,
            final(self).show_faces == old(self).show_faces,
            final(self).is_saving == old(self).is_saving,
            final(self).is_applying_wallpaper == old(self).is_applying_wallpaper,
            final(self).arrow_key_start == old(self).arrow_key_start,
    {
        let has_multiple_candidates = walls.crop_candidates().len() > 1;
        self.preview_mode = if has_multiple_candidates {
            PreviewMode::Candidate(None)
        } else {
            PreviewMode::Pan
        };
    }
}

/// The wallpapers being viewed, the one being edited, and the table of
/// known wallpapers.
pub struct Wallpapers {
    pub files: Vec<String>,
    pub csv: WallpapersCsv,
    /// The wallpaper being edited, as it was loaded.
    pub source: WallInfo,
    /// The wallpaper being edited, with the changes made so far.
    pub current: WallInfo,
    pub index: usize,
    pub ratio: AspectRatio,
    pub resolutions: Vec<(String, AspectRatio)>,
    pub wall_dir: String,
}

/// The position after `i` in a list of `len`, going round to the first.
pub open spec fn next_index(len: int, i: int) -> int {
    if i == len - 1 {
        0
    } else {
        i + 1
    }
}

/// The position before `i` in a list of `len`, going round to the last.
pub open spec fn prev_index(len: int, i: int) -> int {
    if i == 0 {
        len - 1
    } else {
        i - 1
    }
}

/// The wallpaper loaded for the file name: the table's one, or a bare
/// wallpaper of that name when the table does not know it.
pub open spec fn loaded_as(info: WallInfo, infos: Seq<WallInfo>, name: Seq<char>) -> bool {
    match lookup(infos, name) {
        Some(i) => same_info(info, infos[i]),
        None => bare_info(info, name),
    }
}

/// The paths other than `x`, in order.
pub open spec fn without(files: Seq<String>, x: Seq<char>) -> Seq<String>
    decreases files.len(),
{
    if files.len() == 0 {
        Seq::empty()
    } else {
        let rest = without(files.drop_last(), x);
        if files.last()@ == x {
            rest
        } else {
            rest.push(files.last())
        }
    }
}

/// The list after removing the file at `index`: the file goes, with every
/// other entry of the same path.
pub open spec fn removed_files(files: Seq<String>, index: int) -> Seq<String> {
    without(files.remove(index), files[index]@)
}

/// The position after removing the file at `index`: the first file when the
/// last one went, else the same position.
pub open spec fn removed_index(files: Seq<String>, index: int) -> int {
    if index == files.len() - 1 {
        0
    } else {
        index
    }
}

/// No path occurs twice.
pub open spec fn distinct_files(files: Seq<String>) -> bool {
    forall|i: int, j: int| 0 <= i < j < files.len() ==> (#[trigger] files[i])@ != (#[trigger] files[j])@
}

/// The first position whose file name is `name`.
pub open spec fn first_named(files: Seq<String>, name: Seq<char>) -> Option<int>
    decreases files.len(),
{
    if files.len() == 0 {
        None
    } else {
        match first_named(files.drop_last(), name) {
            Some(i) => Some(i),
            None => if file_name_spec(files.last()@) == Some(name) {
                Some(files.len() - 1)
            } else {
                None
            },
        }
    }
}

/// The candidates without repeats, each where it first occurs.
pub open spec fn unique(s: Seq<Geometry>) -> Seq<Geometry>
    decreases s.len(),
{
    if s.len() == 0 {
        Seq::empty()
    } else {
        let rest = unique(s.drop_last());
        if rest.contains(s.last()) {
            rest
        } else {
            rest.push(s.last())
        }
    }
}

/// The crop moved by `delta` along the direction in which it slides,
/// towards the start when `negative`, and kept inside the image.
pub open spec fn moved_geometry(g: Geometry, width: u32, height: u32, delta: u32, negative: bool) -> Geometry {
    if height == g.h {
        Geometry {
            x: if negative {
                if g.x >= delta {
                    (g.x - delta) as u32
                } else {
                    0
                }
            } else if g.x + delta <= width - g.w {
                (g.x + delta) as u32
            } else {
                (width - g.w) as u32
            },
            ..g
        }
    } else {
        Geometry {
            y: if negative {
                if g.y >= delta {
                    (g.y - delta) as u32
                } else {
                    0
                }
            } else if g.y + delta <= height - g.h {
                (g.y + delta) as u32
            } else {
                (height - g.h) as u32
            },
            ..g
        }
    }
}

/// Whether `c` is white space to `char::is_whitespace`.
pub open spec fn is_white(c: char) -> bool {
    c == '\t' || c == '\n' || c == '\u{0B}' || c == '\u{0C}' || c == '\r' || c == ' ' || c == '\u{85}'
        || c == '\u{A0}' || c == '\u{1680}' || ('\u{2000}' <= c && c <= '\u{200A}') || c == '\u{2028}'
        || c == '\u{2029}' || c == '\u{202F}' || c == '\u{205F}' || c == '\u{3000}'
}

pub open spec fn trim_start(s: Seq<char>) -> Seq<char>
    decreases s.len(),
{
    if s.len() > 0 && is_white(s[0]) {
        trim_start(s.drop_first())
    } else {
        s
    }
}

pub open spec fn trim_end(s: Seq<char>) -> Seq<char>
    decreases s.len(),
{
    if s.len() > 0 && is_white(s.last()) {
        trim_end(s.drop_last())
    } else {
        s
    }
}

/// The text without white space at either end, as `str::trim` gives it.
pub open spec fn trim(s: Seq<char>) -> Seq<char> {
    trim_end(trim_start(s))
}

pub open spec fn is_comma(c: char) -> bool {
    c == ','
}

pub open spec fn comma_sep() -> spec_fn(char) -> bool {
    |c: char| is_comma(c)
}

/// The pieces of a list of resolutions: split at each `,`, each trimmed.
pub open spec fn resolution_pieces(s: Seq<char>) -> Seq<Seq<char>> {
    split_by(s, comma_sep()).map_values(|p: Seq<char>| trim(p))
}

/// The resolutions that an option names: none without the option, all of
/// them for `all`, else the listed ones in order.
pub open spec fn resolution_arg_spec(arg: Option<Seq<char>>, resolutions: Seq<AspectRatio>) -> Seq<AspectRatio> {
    match arg {
        None => Seq::empty(),
        Some(a) => if a == seq!['a', 'l', 'l'] {
            resolutions
        } else {
            resolution_pieces(a).map_values(|p: Seq<char>| parse_ratio(p).unwrap())
        },
    }
}

/// The crops shown as candidates: the cropper's candidates for the ratio,
/// in order of position along the direction in which they slide, each once.
pub open spec fn is_candidate_list(info: WallInfo, ratio: AspectRatio, c: Seq<Geometry>) -> bool {
    exists|c0: Seq<Geometry>|
        #[trigger] c0.to_multiset() == info.cropper_spec().candidates_unordered(ratio).to_multiset()
            && crate::cropper::sorted_by_key(c0, crate::cropper::crop_rect_spec(info.width, info.height, ratio).2)
            && c == unique(c0)
}

/// How many of the geometries come before `g` by position.
pub open spec fn count_before(c: Seq<Geometry>, g: Geometry) -> int
    decreases c.len(),
{
    if c.len() == 0 {
        0
    } else {
        count_before(c.drop_last(), g) + if crate::geometry::position_lt(c.last(), g) {
            1int
        } else {
            0int
        }
    }
}

/// Some geometry has the position of `g`.
pub open spec fn has_position(c: Seq<Geometry>, g: Geometry) -> bool {
    exists|i: int| 0 <= i < c.len() && (#[trigger] c[i]).x == g.x && c[i].y == g.y
}

/// The position after `g` among geometries ordered by position, going round
/// to the first: after the one at `g`'s position, or at the place where `g`
/// would go.
pub open spec fn next_candidate_index(c: Seq<Geometry>, g: Geometry) -> int {
    if has_position(c, g) {
        (count_before(c, g) + 1) % (c.len() as int)
    } else {
        count_before(c, g) % (c.len() as int)
    }
}

proof fn lemma_count_before_bounds(c: Seq<Geometry>, g: Geometry)
    ensures
        0 <= count_before(c, g) <= c.len(),
    decreases c.len(),
{
    if c.len() > 0 {
        lemma_count_before_bounds(c.drop_last(), g);
    }
}

fn count_before_exec(c: &Vec<Geometry>, g: &Geometry) -> (r: usize)
    ensures
        r == count_before(c@, *g),
{
    let mut n: usize = 0;
    for i in 0..c.len()
        invariant
            n == count_before(c@.take(i as int), *g),
            n <= i,
    {
        assert(c@.take(i + 1).drop_last() =~= c@.take(i as int));
        if c[i].x < g.x || (c[i].x == g.x && c[i].y < g.y) {
            n = n + 1;
        }
    }
    assert(c@.take(c@.len() as int) =~= c@);
    n
}

fn has_position_exec(c: &Vec<Geometry>, g: &Geometry) -> (r: bool)
    ensures
        r == has_position(c@, *g),
{
    for i in 0..c.len()
        invariant
            forall|k: int| 0 <= k < i ==> !((#[trigger] c@[k]).x == g.x && c@[k].y == g.y),
    {
        if c[i].x == g.x && c[i].y == g.y {
            return true;
        }
    }
    false
}

fn is_white_exec(c: char) -> (r: bool)
    ensures
        r == is_white(c),
{
    c == '\t' || c == '\n' || c == '\u{0B}' || c == '\u{0C}' || c == '\r' || c == ' ' || c == '\u{85}'
        || c == '\u{A0}' || c == '\u{1680}' || ('\u{2000}' <= c && c <= '\u{200A}') || c == '\u{2028}'
        || c == '\u{2029}' || c == '\u{202F}' || c == '\u{205F}' || c == '\u{3000}'
}

proof fn lemma_trim_start_skip(s: Seq<char>, a: int)
    requires
        0 <= a <= s.len(),
        forall|k: int| 0 <= k < a ==> is_white(#[trigger] s[k]),
    ensures
        trim_start(s) == trim_start(s.skip(a)),
    decreases a,
{
    if a > 0 {
        assert(s.skip(1).skip(a - 1) =~= s.skip(a));
        lemma_trim_start_skip(s.skip(1), a - 1);
        assert(s.drop_first() =~= s.skip(1));
    } else {
        assert(s.skip(0) =~= s);
    }
}

proof fn lemma_trim_end_take(s: Seq<char>, b: int)
    requires
        0 <= b <= s.len(),
        forall|k: int| b <= k < s.len() ==> is_white(#[trigger] s[k]),
    ensures
        trim_end(s) == trim_end(s.take(b)),
    decreases s.len() - b,
{
    if b < s.len() {
        assert(s.drop_last().take(b) =~= s.take(b));
        lemma_trim_end_take(s.drop_last(), b);
    } else {
        assert(s.take(b) =~= s);
    }
}

/// The bounds of `chars[a..b]` without white space at either end.
fn trim_bounds(chars: &Vec<char>, a: usize, b: usize) -> (r: (usize, usize))
    requires
        a <= b <= chars@.len(),
    ensures
        a <= r.0 <= r.1 <= b,
        chars@.subrange(r.0 as int, r.1 as int) == trim(chars@.subrange(a as int, b as int)),
{
    let ghost s = chars@.subrange(a as int, b as int);
    let mut i = a;
    while i < b && is_white_exec(chars[i])
        invariant
            a <= i <= b <= chars@.len(),
            forall|k: int| a <= k < i ==> is_white(#[trigger] chars@[k]),
        decreases b - i,
    {
        i = i + 1;
    }
    proof {
        assert forall|k: int| 0 <= k < i - a implies is_white(#[trigger] s[k]) by {
            assert(s[k] == chars@[a + k]);
        }
        lemma_trim_start_skip(s, i - a);
        assert(s.skip(i - a) =~= chars@.subrange(i as int, b as int));
        let t = chars@.subrange(i as int, b as int);
        if t.len() > 0 {
            assert(t[0] == chars@[i as int]);
        }
        assert(trim_start(t) == t);
    }
    let mut j = b;
    while j > i && is_white_exec(chars[j - 1])
        invariant
            i <= j <= b <= chars@.len(),
            forall|k: int| j <= k < b ==> is_white(#[trigger] chars@[k]),
        decreases j - i,
    {
        j = j - 1;
    }
    proof {
        let t = chars@.subrange(i as int, b as int);
        assert forall|k: int| j - i <= k < t.len() implies is_white(#[trigger] t[k]) by {
            assert(t[k] == chars@[i + k]);
        }
        lemma_trim_end_take(t, j - i);
        let u = t.take(j - i);
        assert(u =~= chars@.subrange(i as int, j as int));
        if u.len() > 0 {
            assert(u.last() == chars@[j - 1]);
        }
        assert(trim_end(u) == u);
    }
    (i, j)
}

/// The bounds of the pieces of `chars` between commas.
fn comma_pieces(chars: &Vec<char>) -> (r: Vec<(usize, usize)>)
    ensures
        r@.len() == split_by(chars@, comma_sep()).len(),
        forall|k: int|
            0 <= k < r@.len() ==> (#[trigger] r@[k]).0 <= r@[k].1 <= chars@.len() && chars@.subrange(
                r@[k].0 as int,
                r@[k].1 as int,
            ) == split_by(chars@, comma_sep())[k],
{
    let n = chars.len();
    let mut out: Vec<(usize, usize)> = Vec::new();
    let mut start: usize = 0;
    let ghost mut done: Seq<Seq<char>> = Seq::empty();
    assert(chars@.take(0) =~= Seq::<char>::empty());
    assert(chars@.subrange(0, 0) =~= Seq::<char>::empty());
    for i in 0..n
        invariant
            n == chars@.len(),
            start <= i,
            split_by(chars@.take(i as int), comma_sep()) == done.push(chars@.subrange(start as int, i as int)),
            out@.len() == done.len(),
            forall|k: int|
                0 <= k < out@.len() ==> (#[trigger] out@[k]).0 <= out@[k].1 <= i && chars@.subrange(
                    out@[k].0 as int,
                    out@[k].1 as int,
                ) == done[k],
    {
        let c = chars[i];
        assert(chars@.take(i + 1).drop_last() =~= chars@.take(i as int));
        assert(chars@.take(i + 1).last() == c);
        if c == ',' {
            proof {
                done = done.push(chars@.subrange(start as int, i as int));
            }
            out.push((start, i));
            start = i + 1;
            assert(comma_sep()(c));
            assert(chars@.subrange(start as int, (i + 1) as int) =~= Seq::<char>::empty());
            assert(split_by(chars@.take(i + 1), comma_sep()) =~= done.push(
                chars@.subrange(start as int, (i + 1) as int),
            ));
        } else {
            assert(chars@.subrange(start as int, (i + 1) as int) =~= chars@.subrange(start as int, i as int).push(c));
            let ghost p = split_by(chars@.take(i as int), comma_sep());
            assert(!comma_sep()(c));
            assert(split_by(chars@.take(i + 1), comma_sep()) == p.update(p.len() - 1, p.last().push(c)));
            assert(split_by(chars@.take(i + 1), comma_sep()) =~= done.push(
                chars@.subrange(start as int, (i + 1) as int),
            ));
        }
    }
    assert(chars@.take(n as int) =~= chars@);
    proof {
        done = done.push(chars@.subrange(start as int, n as int));
    }
    out.push((start, n));
    out
}

impl Wallpapers {
    /// The resolutions that a `--modified` or `--unmodified` option names:
    /// none without the option, all of `resolutions` for `all`, else the
    /// comma separated ones, each read as a ratio.
    pub fn resolution_arg(resolution_arg: Option<&str>, resolutions: &Vec<AspectRatio>) -> (r: Vec<AspectRatio>)
        requires
            resolution_arg matches Some(a) ==> (a@ != seq!['a', 'l', 'l'] ==> forall|i: int|
                0 <= i < resolution_pieces(a@).len() ==> ratio_text_ok(#[trigger] resolution_pieces(a@)[i])),
        ensures
            r@ == resolution_arg_spec(
                match resolution_arg {
                    Some(a) => Some(a@),
                    None => None,
                },
                resolutions@,
            ),
    {
        match resolution_arg {
            None => Vec::new(),
            Some(a) => {
                proof {
                    reveal_strlit("all");
                }
                assert("all"@ =~= seq!['a', 'l', 'l']);
                let all = "all".to_string();
                let arg = a.to_string();
                if arg == all {
                    return resolutions.clone();
                }
                let chars = chars_of(a);
                let bounds = comma_pieces(&chars);
                let ghost pieces = resolution_pieces(a@);
                let ghost want = pieces.map_values(|p: Seq<char>| parse_ratio(p).unwrap());
                let mut out: Vec<AspectRatio> = Vec::new();
                for k in 0..bounds.len()
                    invariant
                        chars@ == a@,
                        bounds@.len() == split_by(chars@, comma_sep()).len(),
                        forall|j: int|
                            0 <= j < bounds@.len() ==> (#[trigger] bounds@[j]).0 <= bounds@[j].1 <= chars@.len()
                                && chars@.subrange(bounds@[j].0 as int, bounds@[j].1 as int) == split_by(
                                chars@,
                                comma_sep(),
                            )[j],
                        pieces == resolution_pieces(a@),
                        want == pieces.map_values(|p: Seq<char>| parse_ratio(p).unwrap()),
                        forall|j: int| 0 <= j < pieces.len() ==> ratio_text_ok(#[trigger] pieces[j]),
                        out@ == want.take(k as int),
                {
                    let (a0, b0) = bounds[k];
                    let (ta, tb) = trim_bounds(&chars, a0, b0);
                    let piece = a.substring_char(ta, tb);
                    assert(piece@ == pieces[k as int]);
                    assert(ratio_text_ok(pieces[k as int]));
                    match AspectRatio::try_from(piece) {
                        Ok(ratio) => out.push(ratio),
                        Err(_) => {},
                    }
                    assert(out@ =~= want.take(k + 1));
                }
                assert(want.take(bounds@.len() as int) =~= want);
                out
            },
        }
    }
}

impl Wallpapers {
    /// The viewer's list, starting at its first file, whose wallpaper the
    /// table knows; the first resolution's ratio is the one edited.
    pub fn from_files(
        files: Vec<String>,
        csv: WallpapersCsv,
        resolutions: Vec<(String, AspectRatio)>,
        wall_dir: String,
    ) -> (r: Wallpapers)
        requires
            files@.len() > 0,
            file_name_spec(files@[0]@) matches Some(name) && lookup(csv.infos@, name) is Some,
            resolutions@.len() > 0,
        ensures
            r.files@ == files@,
            r.csv.infos@ == csv.infos@,
            r.index == 0,
            r.ratio == resolutions@[0].1,
            r.resolutions@ == resolutions@,
            r.wall_dir == wall_dir,
            loaded_as(r.current, csv.infos@, file_name_spec(files@[0]@).unwrap()),
            loaded_as(r.source, csv.infos@, file_name_spec(files@[0]@).unwrap()),
    {
        let fname = filename(files[0].as_str());
        let loaded = match csv.get(fname.as_str()) {
            Some(info) => info.clone(),
            None => WallInfo::new(fname, 0, 0, Vec::new(), None),
        };
        let source = loaded.clone();
        let ratio = resolutions[0].1;
        Wallpapers { files, csv, source, current: loaded, index: 0, ratio, resolutions, wall_dir }
    }

    /// A list of `len` files named `0`, `1`, ... with no known wallpapers,
    /// at position `index`.
    pub fn create_mock(len: usize, index: usize) -> (r: Wallpapers)
        requires
            index < len,
        ensures
            r.files@.len() == len,
            forall|i: int| 0 <= i < len ==> (#[trigger] r.files@[i])@ == crate::text::decimal(i as nat),
            r.index == index,
            r.csv.infos@.len() == 0,
            bare_info(r.current, seq!['0']),
            bare_info(r.source, seq!['0']),
            r.ratio == (AspectRatio { w: 16, h: 9 }),
            r.resolutions@.len() == 0,
            r.wall_dir@.len() == 0,
    {
        let mut files: Vec<String> = Vec::new();
        for i in 0..len
            invariant
                files@.len() == i,
                forall|k: int| 0 <= k < i ==> (#[trigger] files@[k])@ == crate::text::decimal(k as nat),
        {
            let mut name = String::new();
            crate::text::write_decimal(&mut name, i as u64);
            assert(name@ =~= crate::text::decimal(i as nat));
            files.push(name);
        }
        let mut first = String::new();
        crate::text::write_decimal(&mut first, 0);
        assert(crate::text::decimal(0) == seq!['0']);
        let current = WallInfo::new(first, 0, 0, Vec::new(), None);
        let source = current.clone();
        Wallpapers {
            files,
            csv: WallpapersCsv::new(),
            index,
            source,
            current,
            ratio: AspectRatio { w: 16, h: 9 },
            resolutions: Vec::new(),
            wall_dir: String::new(),
        }
    }

    /// Loads the wallpaper at the current position from the table, or a
    /// bare wallpaper of that name when the table does not know it.
    fn load_from_csv(&mut self)
        requires
            old(self).files@.len() > 0 ==> old(self).index < old(self).files@.len(),
            all_named(old(self).files@),
        ensures
            final(self).files@ == old(self).files@,
            final(self).csv.infos@ == old(self).csv.infos@,
            final(self).index == old(self).index,
            final(self).ratio == old(self).ratio,
            final(self).resolutions@ == old(self).resolutions@,
            final(self).wall_dir == old(self).wall_dir,
            old(self).files@.len() > 0 ==> {
                let name = file_name_spec(old(self).files@[old(self).index as int]@).unwrap();
                loaded_as(final(self).current, old(self).csv.infos@, name) && loaded_as(
                    final(self).source,
                    old(self).csv.infos@,
                    name,
                )
            },
            old(self).files@.len() == 0 ==> same_info(final(self).current, old(self).current) && same_info(
                final(self).source,
                old(self).source,
            ),
    {
        if self.files.len() == 0 {
            proof {
                assert(same_info(self.current, self.current));
            }
            return;
        }
        assert(file_name_spec(self.files@[self.index as int]@).is_some());
        let fname = filename(self.files[self.index].as_str());
        let loaded = match self.csv.get(fname.as_str()) {
            Some(info) => info.clone(),
            None => WallInfo::new(fname, 0, 0, Vec::new(), None),
        };
        self.source = loaded.clone();
        self.current = loaded;
    }

    /// Goes to the previous wallpaper, from the first to the last.
    pub fn prev_wall(&mut self)
        requires
            old(self).files@.len() > 0,
            old(self).index < old(self).files@.len(),
            all_named(old(self).files@),
        ensures
            final(self).index == prev_index(old(self).files@.len() as int, old(self).index as int),
            final(self).index < final(self).files@.len(),
            final(self).files@ == old(self).files@,
            final(self).csv.infos@ == old(self).csv.infos@,
            final(self).ratio == old(self).ratio,
            loaded_as(
                final(self).current,
                old(self).csv.infos@,
                file_name_spec(old(self).files@[final(self).index as int]@).unwrap(),
            ),
            loaded_as(
                final(self).source,
                old(self).csv.infos@,
                file_name_spec(old(self).files@[final(self).index as int]@).unwrap(),
            ),
    {
        self.index = if self.index == 0 {
            self.files.len() - 1
        } else {
            self.index - 1
        };
        self.load_from_csv();
    }

    /// Goes to the next wallpaper, from the last to the first.
    pub fn next_wall(&mut self)
        requires
            old(self).files@.len() > 0,
            old(self).index < old(self).files@.len(),
            all_named(old(self).files@),
        ensures
            final(self).index == next_index(old(self).files@.len() as int, old(self).index as int),
            final(self).index < final(self).files@.len(),
            final(self).files@ == old(self).files@,
            final(self).csv.infos@ == old(self).csv.infos@,
            final(self).ratio == old(self).ratio,
            loaded_as(
                final(self).current,
                old(self).csv.infos@,
                file_name_spec(old(self).files@[final(self).index as int]@).unwrap(),
            ),
            loaded_as(
                final(self).source,
                old(self).csv.infos@,
                file_name_spec(old(self).files@[final(self).index as int]@).unwrap(),
            ),
    {
        self.index = if self.index == self.files.len() - 1 {
            0
        } else {
            self.index + 1
        };
        self.load_from_csv();
    }
}

/// The ratios of the resolutions that differ from the image's own, with
/// their names: an image of the same proportions has only one crop. The
/// proportions are compared exactly.
pub open spec fn image_ratios_spec(resolutions: Seq<(String, AspectRatio)>, width: u32, height: u32) -> Seq<
    (String, AspectRatio),
>
    decreases resolutions.len(),
{
    if resolutions.len() == 0 {
        Seq::empty()
    } else {
        let rest = image_ratios_spec(resolutions.drop_last(), width, height);
        let r = resolutions.last().1;
        if width * r.h != height * r.w {
            rest.push(resolutions.last())
        } else {
            rest
        }
    }
}

proof fn lemma_without_push(files: Seq<String>, f: String, x: Seq<char>)
    ensures
        without(files.push(f), x) == if f@ == x {
            without(files, x)
        } else {
            without(files, x).push(f)
        },
{
    assert(files.push(f).drop_last() =~= files);
}

proof fn lemma_without_len(files: Seq<String>, x: Seq<char>)
    ensures
        without(files, x).len() <= files.len(),
        (forall|i: int| 0 <= i < files.len() ==> (#[trigger] files[i])@ != x) ==> without(files, x) == files,
    decreases files.len(),
{
    if files.len() > 0 {
        lemma_without_len(files.drop_last(), x);
        if forall|i: int| 0 <= i < files.len() ==> (#[trigger] files[i])@ != x {
            assert forall|i: int| 0 <= i < files.drop_last().len() implies (#[trigger] files.drop_last()[i])@ != x by {
                assert(files.drop_last()[i] == files[i]);
            }
            assert(files.drop_last().push(files.last()) =~= files);
        }
    }
}

proof fn lemma_without_named(files: Seq<String>, x: Seq<char>)
    requires
        all_named(files),
    ensures
        all_named(without(files, x)),
    decreases files.len(),
{
    if files.len() > 0 {
        assert forall|i: int| 0 <= i < files.drop_last().len() implies (#[trigger] file_name_spec(
            files.drop_last()[i]@,
        )).is_some() by {
            assert(files.drop_last()[i] == files[i]);
        }
        lemma_without_named(files.drop_last(), x);
        assert(file_name_spec(files[files.len() - 1]@).is_some());
    }
}

impl Wallpapers {
    /// Removes the current wallpaper from the list, with every other entry of
    /// the same path, and shows the wallpaper that takes its place, or the
    /// first one when the last one went.
    pub fn remove(&mut self)
        requires
            old(self).files@.len() > 0,
            old(self).index < old(self).files@.len(),
            all_named(old(self).files@),
            removed_files(old(self).files@, old(self).index as int).len() > 0 ==> removed_index(
                old(self).files@,
                old(self).index as int,
            ) < removed_files(old(self).files@, old(self).index as int).len(),
        ensures
            final(self).files@ == removed_files(old(self).files@, old(self).index as int),
            final(self).index == removed_index(old(self).files@, old(self).index as int),
            final(self).csv.infos@ == old(self).csv.infos@,
            final(self).ratio == old(self).ratio,
            final(self).files@.len() > 0 ==> loaded_as(
                final(self).current,
                old(self).csv.infos@,
                file_name_spec(final(self).files@[final(self).index as int]@).unwrap(),
            ) && loaded_as(
                final(self).source,
                old(self).csv.infos@,
                file_name_spec(final(self).files@[final(self).index as int]@).unwrap(),
            ),
    {
        let current_file = self.files[self.index].clone();
        let ghost old_files = self.files@;
        let ghost cur = old_files[self.index as int]@;
        if self.index == self.files.len() - 1 {
            self.files.remove(self.index);
            self.index = 0;
        } else {
            self.files.remove(self.index);
        }
        let ghost rest = self.files@;
        assert(rest == old_files.remove(old(self).index as int));
        let mut kept: Vec<String> = Vec::new();
        for i in 0..self.files.len()
            invariant
                kept@ == without(rest.take(i as int), cur),
                self.files@ == rest,
                current_file@ == cur,
        {
            proof {
                lemma_without_push(rest.take(i as int), rest[i as int], cur);
                assert(rest.take(i + 1) =~= rest.take(i as int).push(rest[i as int]));
            }
            if self.files[i] != current_file {
                kept.push(self.files[i].clone());
            }
        }
        assert(rest.take(rest.len() as int) =~= rest);
        self.files = kept;
        proof {
            assert forall|i: int| 0 <= i < rest.len() implies (#[trigger] file_name_spec(rest[i]@)).is_some() by {
                if i < old(self).index {
                    assert(rest[i] == old_files[i]);
                } else {
                    assert(rest[i] == old_files[i + 1]);
                }
            }
            lemma_without_named(rest, cur);
        }
        self.load_from_csv();
    }

    /// Shows the wallpaper with the file name: the table's one, at the first
    /// position of the list with that file name.
    pub fn set_from_filename(&mut self, fname: &str)
        requires
            all_named(old(self).files@),
            lookup(old(self).csv.infos@, fname@) is Some,
            first_named(old(self).files@, fname@) is Some,
        ensures
            final(self).index == first_named(old(self).files@, fname@).unwrap(),
            final(self).files@ == old(self).files@,
            final(self).csv.infos@ == old(self).csv.infos@,
            final(self).ratio == old(self).ratio,
            same_info(final(self).current, old(self).csv.infos@[lookup(old(self).csv.infos@, fname@).unwrap()]),
            same_info(final(self).source, old(self).csv.infos@[lookup(old(self).csv.infos@, fname@).unwrap()]),
    {
        let loaded = match self.csv.get(fname) {
            Some(info) => info.clone(),
            None => WallInfo::new(fname.to_string(), 0, 0, Vec::new(), None),
        };
        self.source = loaded.clone();
        self.current = loaded;
        self.index = position_named(&self.files, fname);
    }

    /// The crop for the current ratio: the stored one, else `default_crop`,
    /// the one the cropper chooses.
    pub fn get_geometry(&self, default_crop: Geometry) -> (r: Geometry)
        ensures
            r == geometry_for(crops_of(self.current.geometries), self.ratio, default_crop),
    {
        self.current.get_geometry(&self.ratio, default_crop)
    }

    /// Stores the crop for the current ratio.
    pub fn set_geometry(&mut self, geom: &Geometry)
        ensures
            crops_of(final(self).current.geometries) == crops_of(old(self).current.geometries).insert(
                (old(self).ratio.w, old(self).ratio.h),
                *geom,
            ),
            crop_order(final(self).current.geometries) == order_with(
                crop_order(old(self).current.geometries),
                crops_of(old(self).current.geometries),
                (old(self).ratio.w, old(self).ratio.h),
            ),
            final(self).current.faces@ == old(self).current.faces@,
            final(self).current.width == old(self).current.width,
            final(self).current.height == old(self).current.height,
            final(self).current.path == old(self).current.path,
            final(self).files@ == old(self).files@,
            final(self).index == old(self).index,
            final(self).ratio == old(self).ratio,
    {
        let ratio = self.ratio;
        self.current.set_geometry(&ratio, geom);
    }

    /// The crop candidates of the current wallpaper for the current ratio.
    pub fn crop_candidates(&self) -> (r: Vec<Geometry>)
        requires
            self.current.cropper_in_range(),
            ratio_in_range(self.ratio, self.current.width, self.current.height),
        ensures
            r@.to_multiset() == self.current.cropper_spec().candidates_unordered(self.ratio).to_multiset(),
            r@.len() == self.current.cropper_spec().candidates_unordered(self.ratio).len(),
            crate::cropper::sorted_by_key(
                r@,
                crate::cropper::crop_rect_spec(self.current.width, self.current.height, self.ratio).2,
            ),
    {
        let cropper = self.current.cropper();
        let r = cropper.crop_candidates(&self.ratio);
        assert(cropper.candidates_unordered(self.ratio) == self.current.cropper_spec().candidates_unordered(
            self.ratio,
        ));
        r
    }

    /// The resolutions whose ratio differs from the image's own, with their
    /// names.
    pub fn image_ratios(&self) -> (r: Vec<(String, AspectRatio)>)
        ensures
            r@.len() == image_ratios_spec(self.resolutions@, self.current.width, self.current.height).len(),
            forall|i: int|
                0 <= i < r@.len() ==> (#[trigger] r@[i]).0@ == image_ratios_spec(
                    self.resolutions@,
                    self.current.width,
                    self.current.height,
                )[i].0@ && r@[i].1 == image_ratios_spec(
                    self.resolutions@,
                    self.current.width,
                    self.current.height,
                )[i].1,
    {
        let w = self.current.width as u64;
        let h = self.current.height as u64;
        let mut out: Vec<(String, AspectRatio)> = Vec::new();
        for i in 0..self.resolutions.len()
            invariant
                w == self.current.width,
                h == self.current.height,
                out@.len() == image_ratios_spec(self.resolutions@.take(i as int), w as u32, h as u32).len(),
                forall|k: int|
                    0 <= k < out@.len() ==> (#[trigger] out@[k]).0@ == image_ratios_spec(
                        self.resolutions@.take(i as int),
                        w as u32,
                        h as u32,
                    )[k].0@ && out@[k].1 == image_ratios_spec(
                        self.resolutions@.take(i as int),
                        w as u32,
                        h as u32,
                    )[k].1,
        {
            assert(self.resolutions@.take(i + 1).drop_last() =~= self.resolutions@.take(i as int));
            let r = self.resolutions[i].1;
            assert(w * r.h <= 0xffff_ffffu64 * 0xffff_ffffu64) by (nonlinear_arith)
                requires
                    w <= 0xffff_ffffu64,
                    r.h <= 0xffff_ffffu64,
            ;
            assert(h * r.w <= 0xffff_ffffu64 * 0xffff_ffffu64) by (nonlinear_arith)
                requires
                    h <= 0xffff_ffffu64,
                    r.w <= 0xffff_ffffu64,
            ;
            if w * (r.h as u64) != h * (r.w as u64) {
                out.push((self.resolutions[i].0.clone(), r));
            }
        }
        assert(self.resolutions@.take(self.resolutions@.len() as int) =~= self.resolutions@);
        out
    }

    /// Whether some resolution other than the image's own ratio has several
    /// crop candidates.
    pub fn has_candidates(&self) -> (r: bool)
        requires
            self.current.cropper_in_range(),
            forall|i: int|
                0 <= i < self.resolutions@.len() ==> ratio_in_range(
                    #[trigger] self.resolutions@[i].1,
                    self.current.width,
                    self.current.height,
                ),
        ensures
            r == exists|i: int|
                0 <= i < image_ratios_spec(self.resolutions@, self.current.width, self.current.height).len()
                    && self.current.cropper_spec().candidates_unordered(
                    #[trigger] image_ratios_spec(self.resolutions@, self.current.width, self.current.height)[i].1,
                ).len() > 1,
    {
        let cropper = self.current.cropper();
        let ratios = self.image_ratios();
        let ghost spec_ratios = image_ratios_spec(self.resolutions@, self.current.width, self.current.height);
        proof {
            lemma_image_ratios_from(self.resolutions@, self.current.width, self.current.height);
        }
        for i in 0..ratios.len()
            invariant
                spec_ratios == image_ratios_spec(self.resolutions@, self.current.width, self.current.height),
                ratios@.len() == spec_ratios.len(),
                forall|k: int| 0 <= k < ratios@.len() ==> (#[trigger] ratios@[k]).1 == spec_ratios[k].1,
                forall|k: int|
                    0 <= k < spec_ratios.len() ==> ratio_in_range(
                        #[trigger] spec_ratios[k].1,
                        self.current.width,
                        self.current.height,
                    ),
                cropper.faces@ == self.current.faces@,
                cropper.width == self.current.width,
                cropper.height == self.current.height,
                self.current.cropper_in_range(),
                forall|k: int|
                    0 <= k < i ==> self.current.cropper_spec().candidates_unordered(
                        #[trigger] spec_ratios[k].1,
                    ).len() <= 1,
        {
            let ratio = ratios[i].1;
            assert(ratio_in_range(spec_ratios[i as int].1, self.current.width, self.current.height));
            let c = cropper.crop_candidates(&ratio);
            assert(cropper.candidates_unordered(ratio) == self.current.cropper_spec().candidates_unordered(ratio));
            if c.len() > 1 {
                assert(self.current.cropper_spec().candidates_unordered(
                    image_ratios_spec(self.resolutions@, self.current.width, self.current.height)[i as int].1,
                ).len() > 1);
                return true;
            }
        }
        false
    }

    /// The crop candidates, each once, in the order in which they first come.
    pub fn candidate_geometries(&self) -> (r: Vec<Geometry>)
        requires
            self.current.cropper_in_range(),
            ratio_in_range(self.ratio, self.current.width, self.current.height),
        ensures
            is_candidate_list(self.current, self.ratio, r@),
    {
        let cands = self.crop_candidates();
        let mut out: Vec<Geometry> = Vec::new();
        for i in 0..cands.len()
            invariant
                out@ == unique(cands@.take(i as int)),
        {
            assert(cands@.take(i + 1).drop_last() =~= cands@.take(i as int));
            let g = cands[i];
            let mut seen = false;
            for j in 0..out.len()
                invariant
                    seen == exists|k: int| 0 <= k < j && out@[k] == g,
            {
                if out[j] == g {
                    seen = true;
                }
            }
            if !seen {
                out.push(g);
            }
        }
        assert(cands@.take(cands@.len() as int) =~= cands@);
        assert(is_candidate_list(self.current, self.ratio, out@));
        out
    }

    /// Stores the candidate before the current crop, by position, going
    /// round to the last; nothing changes with fewer than two candidates.
    pub fn prev_candidate(&mut self, default_crop: Geometry)
        requires
            old(self).current.cropper_in_range(),
            ratio_in_range(old(self).ratio, old(self).current.width, old(self).current.height),
        ensures
            exists|c: Seq<Geometry>|
                #[trigger] is_candidate_list(old(self).current, old(self).ratio, c) && crops_of(
                    final(self).current.geometries,
                ) == if c.len() <= 1 {
                    crops_of(old(self).current.geometries)
                } else {
                    crops_of(old(self).current.geometries).insert(
                        (old(self).ratio.w, old(self).ratio.h),
                        c[prev_index(
                            c.len() as int,
                            count_before(
                                c,
                                geometry_for(crops_of(old(self).current.geometries), old(self).ratio, default_crop),
                            ),
                        )],
                    )
                } && crop_order(final(self).current.geometries) == if c.len() <= 1 {
                    crop_order(old(self).current.geometries)
                } else {
                    order_with(
                        crop_order(old(self).current.geometries),
                        crops_of(old(self).current.geometries),
                        (old(self).ratio.w, old(self).ratio.h),
                    )
                },
            final(self).files@ == old(self).files@,
            final(self).index == old(self).index,
            final(self).ratio == old(self).ratio,
            final(self).current.faces@ == old(self).current.faces@,
            final(self).current.width == old(self).current.width,
            final(self).current.height == old(self).current.height,
    {
        let candidates = self.candidate_geometries();
        if candidates.len() <= 1 {
            return;
        }
        let current = self.get_geometry(default_crop);
        let n = count_before_exec(&candidates, &current);
        proof {
            lemma_count_before_bounds(candidates@, current);
        }
        let idx = if n == 0 {
            candidates.len() - 1
        } else {
            n - 1
        };
        let g = candidates[idx];
        self.set_geometry(&g);
    }

    /// Stores the candidate after the current crop, by position, going round
    /// to the first; nothing changes with fewer than two candidates.
    pub fn next_candidate(&mut self, default_crop: Geometry)
        requires
            old(self).current.cropper_in_range(),
            ratio_in_range(old(self).ratio, old(self).current.width, old(self).current.height),
        ensures
            exists|c: Seq<Geometry>|
                #[trigger] is_candidate_list(old(self).current, old(self).ratio, c) && crops_of(
                    final(self).current.geometries,
                ) == if c.len() <= 1 {
                    crops_of(old(self).current.geometries)
                } else {
                    crops_of(old(self).current.geometries).insert(
                        (old(self).ratio.w, old(self).ratio.h),
                        c[next_candidate_index(
                            c,
                            geometry_for(crops_of(old(self).current.geometries), old(self).ratio, default_crop),
                        )],
                    )
                } && crop_order(final(self).current.geometries) == if c.len() <= 1 {
                    crop_order(old(self).current.geometries)
                } else {
                    order_with(
                        crop_order(old(self).current.geometries),
                        crops_of(old(self).current.geometries),
                        (old(self).ratio.w, old(self).ratio.h),
                    )
                },
            final(self).files@ == old(self).files@,
            final(self).index == old(self).index,
            final(self).ratio == old(self).ratio,
            final(self).current.faces@ == old(self).current.faces@,
            final(self).current.width == old(self).current.width,
            final(self).current.height == old(self).current.height,
    {
        let candidates = self.candidate_geometries();
        if candidates.len() <= 1 {
            return;
        }
        let current = self.get_geometry(default_crop);
        let n = count_before_exec(&candidates, &current);
        proof {
            lemma_count_before_bounds(candidates@, current);
        }
        let found = has_position_exec(&candidates, &current);
        let len = candidates.len();
        let idx = if found {
            if n >= len - 1 {
                assert((n + 1) % (len as int) == n - (len - 1)) by (nonlinear_arith)
                    requires
                        len - 1 <= n <= len,
                        len >= 2,
                ;
                n - (len - 1)
            } else {
                assert((n + 1) % (len as int) == n + 1) by (nonlinear_arith)
                    requires
                        n + 1 < len,
                        n >= 0,
                ;
                n + 1
            }
        } else {
            n % len
        };
        let g = candidates[idx];
        self.set_geometry(&g);
    }

    /// The current crop, `default_crop` when none is stored, moved by `delta`
    /// pixels along the direction in which it slides, towards the start when
    /// `negative`, and kept inside the image.
    pub fn move_geometry_by(&self, default_crop: Geometry, delta: u32, negative: bool) -> (r: Geometry)
        requires
            ({
                let g = geometry_for(crops_of(self.current.geometries), self.ratio, default_crop);
                if self.current.height == g.h {
                    g.w <= self.current.width && (!negative ==> g.x + delta <= u32::MAX)
                } else {
                    g.h <= self.current.height && (!negative ==> g.y + delta <= u32::MAX)
                }
            }),
        ensures
            r == moved_geometry(
                geometry_for(crops_of(self.current.geometries), self.ratio, default_crop),
                self.current.width,
                self.current.height,
                delta,
                negative,
            ),
    {
        let g = self.get_geometry(default_crop);
        match self.current.direction(&g) {
            Direction::X => {
                let x = if negative {
                    (if g.x >= delta { g.x } else { delta }) - delta
                } else {
                    let moved = g.x + delta;
                    let hi = self.current.width - g.w;
                    if moved <= hi { moved } else { hi }
                };
                Geometry { x, ..g }
            },
            Direction::Y => {
                let y = if negative {
                    (if g.y >= delta { g.y } else { delta }) - delta
                } else {
                    let moved = g.y + delta;
                    let hi = self.current.height - g.h;
                    if moved <= hi { moved } else { hi }
                };
                Geometry { y, ..g }
            },
        }
    }

    /// The path of the current wallpaper in the wallpapers directory.
    pub fn full_path(&self) -> (r: String)
        ensures
            r@ == join_spec(self.wall_dir@, self.current.path@),
    {
        join(self.wall_dir.as_str(), self.current.path.as_str())
    }

    /// Stores a wallpaper in the table under its path.
    pub fn insert_csv(&mut self, info: &WallInfo)
        ensures
            exists|stored_info: WallInfo|
                same_info(stored_info, *info) && #[trigger] final(self).csv.infos@ == stored(
                    old(self).csv.infos@,
                    stored_info,
                ),
            final(self).files@ == old(self).files@,
            final(self).index == old(self).index,
            final(self).ratio == old(self).ratio,
    {
        let c = info.clone();
        let ghost g = c;
        self.csv.insert(c);
        assert(final(self).csv.infos@ == stored(old(self).csv.infos@, g));
    }
}

/// The first position of the list whose file name is `fname`.
fn position_named(files: &Vec<String>, fname: &str) -> (r: usize)
    requires
        all_named(files@),
        first_named(files@, fname@) is Some,
    ensures
        r == first_named(files@, fname@).unwrap(),
{
    let name = fname.to_string();
    let mut i: usize = 0;
    while i < files.len()
        invariant
            i <= files@.len(),
            all_named(files@),
            name@ == fname@,
            first_named(files@, fname@) is Some,
            first_named(files@.take(i as int), fname@) is None,
        decreases files@.len() - i,
    {
        assert(files@.take(i + 1).drop_last() =~= files@.take(i as int));
        assert(file_name_spec(files@[i as int]@).is_some());
        let f = filename(files[i].as_str());
        if f == name {
            proof {
                lemma_first_named_prefix(files@, i as int + 1, fname@);
            }
            return i;
        }
        i = i + 1;
    }
    proof {
        assert(files@.take(i as int) =~= files@);
    }
    0
}

proof fn lemma_first_named_prefix(files: Seq<String>, k: int, name: Seq<char>)
    requires
        0 < k <= files.len(),
        first_named(files.take(k - 1), name) is None,
        file_name_spec(files[k - 1]@) == Some(name),
    ensures
        first_named(files, name) == Some(k - 1),
    decreases files.len(),
{
    if k < files.len() {
        assert(files.drop_last().take(k - 1) =~= files.take(k - 1));
        assert(files.drop_last()[k - 1] == files[k - 1]);
        lemma_first_named_prefix(files.drop_last(), k, name);
    } else {
        assert(files.take(k - 1) =~= files.drop_last());
    }
}

proof fn lemma_image_ratios_from(resolutions: Seq<(String, AspectRatio)>, width: u32, height: u32)
    ensures
        forall|k: int|
            0 <= k < image_ratios_spec(resolutions, width, height).len() ==> exists|j: int|
                0 <= j < resolutions.len() && resolutions[j] == #[trigger] image_ratios_spec(resolutions, width, height)[k],
    decreases resolutions.len(),
{
    if resolutions.len() > 0 {
        lemma_image_ratios_from(resolutions.drop_last(), width, height);
        let rest = image_ratios_spec(resolutions.drop_last(), width, height);
        assert forall|k: int|
            0 <= k < image_ratios_spec(resolutions, width, height).len() implies exists|j: int|
                0 <= j < resolutions.len() && resolutions[j] == #[trigger] image_ratios_spec(resolutions, width, height)[k] by {
            if k < rest.len() {
                let j = choose|j: int| 0 <= j < resolutions.drop_last().len() && resolutions.drop_last()[j] == rest[k];
                assert(resolutions[j] == rest[k]);
            } else {
                assert(resolutions[resolutions.len() - 1] == image_ratios_spec(resolutions, width, height)[k]);
            }
        }
    }
}

/// `str::to_lowercase`: the text with every character in lower case, as
/// Unicode defines it.
pub uninterp spec fn lowercase(s: Seq<char>) -> Seq<char>;

/// `str::to_lowercase`; its result is named `lowercase`.
#[verifier::external_body]
fn to_lowercase(s: &str) -> (r: String)
    ensures
        r@ == lowercase(s@),
{
    s.to_lowercase()
}

/// `needle` occurs in `hay`.
pub open spec fn has_substring(hay: Seq<char>, needle: Seq<char>) -> bool {
    exists|i: int| 0 <= i <= hay.len() - needle.len() && #[trigger] hay.subrange(i, i + needle.len()) == needle
}

fn matches_at(h: &Vec<char>, n: &Vec<char>, i: usize) -> (r: bool)
    requires
        i + n@.len() <= h@.len(),
    ensures
        r == (h@.subrange(i as int, i + n@.len()) == n@),
{
    let mut j: usize = 0;
    let hl = h.len();
    assert(h@.subrange(i as int, i as int) =~= n@.subrange(0, 0));
    while j < n.len()
        invariant
            hl == h@.len(),
            i + n@.len() <= h@.len(),
            j <= n@.len(),
            h@.subrange(i as int, i + j) == n@.subrange(0, j as int),
        decreases n@.len() - j,
    {
        if h[i + j] != n[j] {
            assert(h@.subrange(i as int, i + n@.len())[j as int] != n@[j as int]);
            return false;
        }
        assert(h@.subrange(i as int, i + j + 1) =~= h@.subrange(i as int, i + j).push(h@[i + j]));
        assert(n@.subrange(0, j + 1) =~= n@.subrange(0, j as int).push(n@[j as int]));
        j = j + 1;
    }
    assert(n@.subrange(0, n@.len() as int) =~= n@);
    true
}

/// Whether `needle` occurs in `hay`, as `str::contains` finds it.
pub fn contains_text(hay: &str, needle: &str) -> (r: bool)
    ensures
        r == has_substring(hay@, needle@),
{
    let h = chars_of(hay);
    let n = chars_of(needle);
    if n.len() == 0 {
        assert(hay@.subrange(0int, 0int + needle@.len()) =~= needle@);
        return true;
    }
    if n.len() > h.len() {
        return false;
    }
    let last = h.len() - n.len();
    let hl = h.len();
    let mut i: usize = 0;
    while i <= last
        invariant
            hl == h@.len(),
            h@ == hay@,
            n@ == needle@,
            last == h@.len() - n@.len(),
            0 < n@.len() <= h@.len(),
            i <= last + 1,
            forall|k: int| 0 <= k < i ==> #[trigger] hay@.subrange(k, k + needle@.len()) != needle@,
        decreases last + 1 - i,
    {
        if matches_at(&h, &n, i) {
            return true;
        }
        i = i + 1;
    }
    false
}

/// Whether the viewer keeps the file named `fname`, whose wallpaper is
/// `info` when the table knows it: a wallpaper the table does not know is
/// kept; otherwise its name must hold `filter` in any case, and then, when
/// there are modified filters, it must use the default crops of those
/// ratios, else, when there are unmodified filters, of those, else the face
/// filter must keep it.
pub open spec fn keeps_spec(
    info: Option<WallInfo>,
    fname: Seq<char>,
    filter: Option<Seq<char>>,
    modified: Seq<AspectRatio>,
    unmodified: Seq<AspectRatio>,
    faces: FacesFilter,
    modified_crops: Seq<Geometry>,
    unmodified_crops: Seq<Geometry>,
) -> bool {
    match info {
        None => true,
        Some(i) => {
            if filter matches Some(f) && !has_substring(lowercase(fname), lowercase(f)) {
                false
            } else if modified.len() > 0 {
                crate::pipeline::uses_default_crops(i, modified, modified_crops)
            } else if unmodified.len() > 0 {
                crate::pipeline::uses_default_crops(i, unmodified, unmodified_crops)
            } else {
                faces_filter_keeps(faces, i.faces@.len())
            }
        },
    }
}

/// The resolutions not named by `--modified`: a wallpaper is modified for
/// the named ones when it still uses the default crops of all the others.
pub open spec fn complement_spec(resolutions: Seq<AspectRatio>, named: Seq<AspectRatio>) -> Seq<AspectRatio>
    decreases resolutions.len(),
{
    if resolutions.len() == 0 {
        Seq::empty()
    } else {
        let rest = complement_spec(resolutions.drop_last(), named);
        if named.contains(resolutions.last()) {
            rest
        } else {
            rest.push(resolutions.last())
        }
    }
}

impl Wallpapers {
    /// The filters of `--modified`: none when it names no resolution, else
    /// the resolutions it does not name.
    pub fn modified_filters(named: &Vec<AspectRatio>, resolutions: &Vec<AspectRatio>) -> (r: Vec<AspectRatio>)
        ensures
            r@ == (if named@.len() == 0 {
                Seq::empty()
            } else {
                complement_spec(resolutions@, named@)
            }),
    {
        let mut out: Vec<AspectRatio> = Vec::new();
        if named.len() == 0 {
            return out;
        }
        for i in 0..resolutions.len()
            invariant
                out@ == complement_spec(resolutions@.take(i as int), named@),
        {
            assert(resolutions@.take(i + 1).drop_last() =~= resolutions@.take(i as int));
            let r = resolutions[i];
            let mut found = false;
            for j in 0..named.len()
                invariant
                    found == exists|k: int| 0 <= k < j && named@[k] == r,
            {
                if named[j] == r {
                    found = true;
                }
            }
            if !found {
                out.push(r);
            }
        }
        assert(resolutions@.take(resolutions@.len() as int) =~= resolutions@);
        out
    }

    /// Whether the viewer keeps the file named `fname` (see `keeps_spec`);
    /// `modified_crops[i]` and `unmodified_crops[i]` are the crops that the
    /// cropper chooses for the wallpaper for the `i`-th ratio of each filter.
    pub fn keeps(
        info: Option<&WallInfo>,
        fname: &str,
        filter: Option<&str>,
        modified: &Vec<AspectRatio>,
        unmodified: &Vec<AspectRatio>,
        faces: FacesFilter,
        modified_crops: &Vec<Geometry>,
        unmodified_crops: &Vec<Geometry>,
    ) -> (r: bool)
        requires
            modified_crops@.len() == modified@.len(),
            unmodified_crops@.len() == unmodified@.len(),
        ensures
            r == keeps_spec(
                match info {
                    Some(i) => Some(*i),
                    None => None,
                },
                fname@,
                match filter {
                    Some(f) => Some(f@),
                    None => None,
                },
                modified@,
                unmodified@,
                faces,
                modified_crops@,
                unmodified_crops@,
            ),
    {
        match info {
            None => true,
            Some(i) => {
                if let Some(f) = filter {
                    let name = to_lowercase(fname);
                    let pattern = to_lowercase(f);
                    if !contains_text(name.as_str(), pattern.as_str()) {
                        return false;
                    }
                }
                if modified.len() > 0 {
                    return i.is_default_crops(modified, modified_crops);
                }
                if unmodified.len() > 0 {
                    return i.is_default_crops(unmodified, unmodified_crops);
                }
                faces.keeps(i.faces.len())
            },
        }
    }
}

/// Goes to the previous wallpaper; the file list gives way to the editor.
pub fn prev_image(wallpapers: &mut Wallpapers, ui: &mut UiState)
    requires
        old(wallpapers).files@.len() > 0,
        old(wallpapers).index < old(wallpapers).files@.len(),
        all_named(old(wallpapers).files@),
    ensures
        final(wallpapers).index == prev_index(old(wallpapers).files@.len() as int, old(wallpapers).index as int),
        final(wallpapers).files@ == old(wallpapers).files@,
        loaded_as(
            final(wallpapers).current,
            old(wallpapers).csv.infos@,
            file_name_spec(old(wallpapers).files@[final(wallpapers).index as int]@).unwrap(),
        ),
        final(ui).mode == (if old(ui).mode is FileList {
            UiMode::Editor
        } else {
            old(ui).mode
        }),
        same_but_mode(*final(ui), *old(ui)),
{
    wallpapers.prev_wall();
    if let UiMode::FileList = ui.mode {
        ui.mode = UiMode::Editor;
    }
}

/// Goes to the next wallpaper; the file list gives way to the editor.
pub fn next_image(wallpapers: &mut Wallpapers, ui: &mut UiState)
    requires
        old(wallpapers).files@.len() > 0,
        old(wallpapers).index < old(wallpapers).files@.len(),
        all_named(old(wallpapers).files@),
    ensures
        final(wallpapers).index == next_index(old(wallpapers).files@.len() as int, old(wallpapers).index as int),
        final(wallpapers).files@ == old(wallpapers).files@,
        loaded_as(
            final(wallpapers).current,
            old(wallpapers).csv.infos@,
            file_name_spec(old(wallpapers).files@[final(wallpapers).index as int]@).unwrap(),
        ),
        final(ui).mode == (if old(ui).mode is FileList {
            UiMode::Editor
        } else {
            old(ui).mode
        }),
        same_but_mode(*final(ui), *old(ui)),
{
    wallpapers.next_wall();
    if let UiMode::FileList = ui.mode {
        ui.mode = UiMode::Editor;
    }
}

/// Stores an aligned crop for the current ratio and goes back to picking
/// among candidates.
pub fn set_align(wallpapers: &mut Wallpapers, ui: &mut UiState, geom: &Geometry)
    ensures
        crops_of(final(wallpapers).current.geometries) == crops_of(old(wallpapers).current.geometries).insert(
            (old(wallpapers).ratio.w, old(wallpapers).ratio.h),
            *geom,
        ),
        crop_order(final(wallpapers).current.geometries) == order_with(
            crop_order(old(wallpapers).current.geometries),
            crops_of(old(wallpapers).current.geometries),
            (old(wallpapers).ratio.w, old(wallpapers).ratio.h),
        ),
        final(wallpapers).files@ == old(wallpapers).files@,
        final(wallpapers).index == old(wallpapers).index,
        final(wallpapers).ratio == old(wallpapers).ratio,
        final(ui).preview_mode == PreviewMode::Candidate(None),
        final(ui).mode == old(ui).mode,
{
    wallpapers.set_geometry(geom);
    ui.preview_mode = PreviewMode::Candidate(None);
}

/// Edits the crop for another ratio.
pub fn change_ratio(wallpapers: &mut Wallpapers, ratio: &AspectRatio)
    ensures
        final(wallpapers).ratio == *ratio,
        final(wallpapers).files@ == old(wallpapers).files@,
        final(wallpapers).index == old(wallpapers).index,
        same_info(final(wallpapers).current, old(wallpapers).current),
        same_info(final(wallpapers).source, old(wallpapers).source),
{
    wallpapers.ratio = *ratio;
}

/// The files that the viewer keeps, in order (see `keeps_spec`); `crops[i]`
/// holds the default crops of the `i`-th file's wallpaper for the modified
/// and for the unmodified filters.
pub open spec fn kept_spec(
    files: Seq<String>,
    infos: Seq<WallInfo>,
    filter: Option<Seq<char>>,
    modified: Seq<AspectRatio>,
    unmodified: Seq<AspectRatio>,
    faces: FacesFilter,
    crops: Seq<(Vec<Geometry>, Vec<Geometry>)>,
) -> Seq<String>
    decreases files.len(),
{
    if files.len() == 0 || crops.len() == 0 {
        Seq::empty()
    } else {
        let rest = kept_spec(files.drop_last(), infos, filter, modified, unmodified, faces, crops.drop_last());
        let name = file_name_spec(files.last()@).unwrap();
        let info = match lookup(infos, name) {
            Some(i) => Some(infos[i]),
            None => None,
        };
        if keeps_spec(info, name, filter, modified, unmodified, faces, crops.last().0@, crops.last().1@) {
            rest.push(files.last())
        } else {
            rest
        }
    }
}

/// `i` comes before `j` among files ordered newest first: a later time, or
/// for the same time a later position in the list.
pub open spec fn newer_first(times: Seq<u128>, i: int, j: int) -> bool {
    times[i] > times[j] || (times[i] == times[j] && i > j)
}

/// `out` is `files` ordered newest first by their `times`: what sorting by
/// time and reversing gives.
pub open spec fn is_newest_first(files: Seq<String>, times: Seq<u128>, out: Seq<String>) -> bool {
    exists|idx: Seq<int>|
        #[trigger] crate::config::is_permutation_by(files, out, idx) && forall|q1: int, q2: int|
            0 <= q1 < q2 < out.len() ==> newer_first(times, #[trigger] idx[q1], #[trigger] idx[q2])
}

impl Wallpapers {
    /// The files that the viewer keeps, in order (see `kept_spec`).
    pub fn kept_files(
        files: &Vec<String>,
        csv: &WallpapersCsv,
        filter: Option<&str>,
        modified: &Vec<AspectRatio>,
        unmodified: &Vec<AspectRatio>,
        faces: FacesFilter,
        crops: &Vec<(Vec<Geometry>, Vec<Geometry>)>,
    ) -> (r: Vec<String>)
        requires
            all_named(files@),
            crops@.len() == files@.len(),
            forall|i: int|
                0 <= i < crops@.len() ==> (#[trigger] crops@[i]).0@.len() == modified@.len() && crops@[i].1@.len()
                    == unmodified@.len(),
        ensures
            r@ == kept_spec(
                files@,
                csv.infos@,
                match filter {
                    Some(f) => Some(f@),
                    None => None,
                },
                modified@,
                unmodified@,
                faces,
                crops@,
            ),
    {
        let ghost fv = match filter {
            Some(f) => Some(f@),
            None => None::<Seq<char>>,
        };
        let mut out: Vec<String> = Vec::new();
        for i in 0..files.len()
            invariant
                all_named(files@),
                crops@.len() == files@.len(),
                forall|k: int|
                    0 <= k < crops@.len() ==> (#[trigger] crops@[k]).0@.len() == modified@.len() && crops@[k].1@.len()
                        == unmodified@.len(),
                fv == match filter {
                    Some(f) => Some(f@),
                    None => None::<Seq<char>>,
                },
                out@ == kept_spec(
                    files@.take(i as int),
                    csv.infos@,
                    fv,
                    modified@,
                    unmodified@,
                    faces,
                    crops@.take(i as int),
                ),
        {
            assert(files@.take(i + 1).drop_last() =~= files@.take(i as int));
            assert(crops@.take(i + 1).drop_last() =~= crops@.take(i as int));
            assert(file_name_spec(files@[i as int]@).is_some());
            assert(crops@[i as int].0@.len() == modified@.len());
            let name = filename(files[i].as_str());
            let info = csv.get(name.as_str());
            let keep = Wallpapers::keeps(
                info,
                name.as_str(),
                filter,
                modified,
                unmodified,
                faces,
                &crops[i].0,
                &crops[i].1,
            );
            if keep {
                out.push(files[i].clone());
            }
        }
        assert(files@.take(files@.len() as int) =~= files@);
        assert(crops@.take(crops@.len() as int) =~= crops@);
        out
    }

    /// The files ordered newest first by their modification `times`, files
    /// of the same time in the reverse of their order.
    pub fn newest_first(files: &Vec<String>, times: &Vec<u128>) -> (r: Vec<String>)
        requires
            files@.len() == times@.len(),
        ensures
            is_newest_first(files@, times@, r@),
    {
        let n = files.len();
        let mut out: Vec<String> = Vec::new();
        let mut out_times: Vec<u128> = Vec::new();
        let ghost mut idx: Seq<int> = Seq::empty();
        let mut k = n;
        while k > 0
            invariant
                n == files@.len(),
                n == times@.len(),
                k <= n,
                idx.len() == out@.len(),
                out_times@.len() == out@.len(),
                out@.len() == n - k,
                forall|q: int|
                    0 <= q < idx.len() ==> k <= #[trigger] idx[q] < n && out@[q] == files@[idx[q]] && out_times@[q]
                        == times@[idx[q]],
                forall|q1: int, q2: int|
                    0 <= q1 < idx.len() && 0 <= q2 < idx.len() && q1 != q2 ==> idx[q1] != idx[q2],
                forall|q1: int, q2: int|
                    0 <= q1 < q2 < idx.len() ==> newer_first(times@, #[trigger] idx[q1], #[trigger] idx[q2]),
            decreases k,
        {
            k = k - 1;
            let x = files[k].clone();
            let t = times[k];
            let mut p: usize = 0;
            while p < out.len() && out_times[p] >= t
                invariant
                    p <= out@.len(),
                    out_times@.len() == out@.len(),
                    forall|q: int| 0 <= q < p ==> #[trigger] out_times@[q] >= t,
                decreases out@.len() - p,
            {
                p = p + 1;
            }
            let ghost before = out@;
            let ghost before_times = out_times@;
            let ghost old_idx = idx;
            proof {
                before.insert_ensures(p as int, x);
                before_times.insert_ensures(p as int, t);
                old_idx.insert_ensures(p as int, k as int);
                idx = old_idx.insert(p as int, k as int);
            }
            out.insert(p, x);
            out_times.insert(p, t);
            proof {
                assert forall|q: int| 0 <= q < idx.len() implies k <= #[trigger] idx[q] < n && out@[q] == files@[idx[q]]
                    && out_times@[q] == times@[idx[q]] by {
                    if q < p {
                        assert(idx[q] == old_idx[q]);
                    } else if q > p {
                        assert(idx[q] == old_idx[q - 1]);
                    }
                }
                assert forall|q1: int, q2: int|
                    0 <= q1 < idx.len() && 0 <= q2 < idx.len() && q1 != q2 implies idx[q1] != idx[q2] by {
                    if q1 != p && q2 != p {
                        let a = if q1 < p { q1 } else { q1 - 1 };
                        let b = if q2 < p { q2 } else { q2 - 1 };
                        assert(idx[q1] == old_idx[a]);
                        assert(idx[q2] == old_idx[b]);
                    } else if q1 == p {
                        let b = if q2 < p { q2 } else { q2 - 1 };
                        assert(idx[q2] == old_idx[b]);
                    } else {
                        let a = if q1 < p { q1 } else { q1 - 1 };
                        assert(idx[q1] == old_idx[a]);
                    }
                }
                assert forall|q1: int, q2: int| 0 <= q1 < q2 < idx.len() implies newer_first(
                    times@,
                    #[trigger] idx[q1],
                    #[trigger] idx[q2],
                ) by {
                    if q2 < p {
                        assert(idx[q1] == old_idx[q1] && idx[q2] == old_idx[q2]);
                    } else if q1 > p {
                        assert(idx[q1] == old_idx[q1 - 1] && idx[q2] == old_idx[q2 - 1]);
                    } else if q1 < p && q2 > p {
                        assert(idx[q1] == old_idx[q1] && idx[q2] == old_idx[q2 - 1]);
                    } else if q2 == p {
                        assert(idx[q1] == old_idx[q1]);
                        assert(before_times[q1] >= t);
                        assert(before_times[q1] == times@[old_idx[q1]]);
                    } else {
                        assert(idx[q2] == old_idx[q2 - 1]);
                        assert(p < before.len());
                        assert(!(before_times[p as int] >= t));
                        assert(before_times[p as int] == times@[old_idx[p as int]]);
                        assert(before_times[q2 - 1] == times@[old_idx[q2 - 1]]);
                        if q2 - 1 > p {
                            assert(newer_first(times@, old_idx[p as int], old_idx[q2 - 1]));
                        }
                    }
                }
            }
        }
        proof {
            assert(crate::config::is_permutation_by(files@, out@, idx));
        }
        out
    }
}

/// Going to the next wallpaper and back, or back and then on, returns to
/// the same position, and both stay within the list.
pub proof fn lemma_next_prev(len: int, i: int)
    requires
        0 <= i < len,
    ensures
        0 <= next_index(len, i) < len,
        0 <= prev_index(len, i) < len,
        prev_index(len, next_index(len, i)) == i,
        next_index(len, prev_index(len, i)) == i,
{
}

/// Removing a wallpaper from a list without repeated paths takes exactly one
/// file out, keeps the others in order, and leaves the position within the
/// list.
pub proof fn lemma_remove_distinct(files: Seq<String>, index: int)
    requires
        0 <= index < files.len(),
        distinct_files(files),
    ensures
        removed_files(files, index) == files.remove(index),
        removed_files(files, index).len() == files.len() - 1,
        removed_files(files, index).len() > 0 ==> 0 <= removed_index(files, index) < removed_files(files, index).len(),
{
    let rest = files.remove(index);
    assert forall|i: int| 0 <= i < rest.len() implies (#[trigger] rest[i])@ != files[index]@ by {
        if i < index {
            assert(rest[i] == files[i]);
        } else {
            assert(rest[i] == files[i + 1]);
        }
    }
    lemma_without_len(rest, files[index]@);
}

/// Moving a crop steps it by `delta` along the direction it slides, and
/// nowhere else: a crop spanning the full height moves along x, any other
/// along y. Towards the start it goes to `max(start, delta) - delta`, so by
/// exactly `delta` when there is room and to the edge otherwise; towards the
/// end it goes `delta` further, stopping where the crop meets the image's
/// end. A step back that had room is undone by a step forward.
pub proof fn lemma_moved_geometry_steps(g: Geometry, width: u32, height: u32, delta: u32, negative: bool)
    requires
        height == g.h ==> g.w <= width,
        height != g.h ==> g.h <= height,
    ensures
        ({
            let r = moved_geometry(g, width, height, delta, negative);
            &&& r.w == g.w && r.h == g.h
            &&& height == g.h ==> {
                &&& r.y == g.y
                &&& negative ==> r.x + delta == (if g.x >= delta { g.x as int } else { delta as int })
                &&& !negative ==> r.x == (if g.x + delta <= width - g.w { g.x + delta } else { width - g.w })
            }
            &&& height != g.h ==> {
                &&& r.x == g.x
                &&& negative ==> r.y + delta == (if g.y >= delta { g.y as int } else { delta as int })
                &&& !negative ==> r.y == (if g.y + delta <= height - g.h { g.y + delta } else { height - g.h })
            }
            &&& negative && crate::geometry::fits_in(g, width as int, height as int) && (if height == g.h {
                g.x >= delta
            } else {
                g.y >= delta
            }) ==> moved_geometry(r, width, height, delta, false) == g
        }),
{
}

/// Moving a crop that lies inside the image keeps it inside the image and
/// keeps its size.
pub proof fn lemma_moved_geometry_fits(g: Geometry, width: u32, height: u32, delta: u32, negative: bool)
    requires
        crate::geometry::fits_in(g, width as int, height as int),
    ensures
        crate::geometry::fits_in(moved_geometry(g, width, height, delta, negative), width as int, height as int),
        moved_geometry(g, width, height, delta, negative).w == g.w,
        moved_geometry(g, width, height, delta, negative).h == g.h,
{
}

} // verus!
