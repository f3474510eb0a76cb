//! Path text handled as Unix paths are: file names, extensions, joining, and
//! which paths are wallpaper images.
use vstd::prelude::*;
use vstd::string::*;

use crate::geometry::Geometry;
use crate::text::{chars_of, split_by};

verus! {

pub open spec fn is_slash(c: char) -> bool {
    c == '/'
}

pub open spec fn slash_sep() -> spec_fn(char) -> bool {
    |c: char| is_slash(c)
}

/// A path component that names something: not empty and not `.`.
pub open spec fn is_named(c: Seq<char>) -> bool {
    c.len() > 0 && c != seq!['.']
}

/// The components of a path that name something, in order.
pub open spec fn named(pieces: Seq<Seq<char>>) -> Seq<Seq<char>>
    decreases pieces.len(),
{
    if pieces.len() == 0 {
        Seq::empty()
    } else {
        let rest = named(pieces.drop_last());
        if is_named(pieces.last()) {
            rest.push(pieces.last())
        } else {
            rest
        }
    }
}

/// The last component of the path, unless there is none or it is `..`.
pub open spec fn file_name_spec(p: Seq<char>) -> Option<Seq<char>> {
    let comps = named(split_by(p, slash_sep()));
    if comps.len() == 0 || comps.last() == seq!['.', '.'] {
        None
    } else {
        Some(comps.last())
    }
}

/// The index of the last `.` in `s`, or -1.
pub open spec fn last_dot(s: Seq<char>) -> int
    decreases s.len(),
{
    if s.len() == 0 {
        -1
    } else if s.last() == '.' {
        s.len() - 1
    } else {
        last_dot(s.drop_last())
    }
}

/// The extension of a file name: what follows its last `.`, when there is a
/// `.` that does not start the name.
pub open spec fn extension_of_name(name: Seq<char>) -> Option<Seq<char>> {
    let i = last_dot(name);
    if i <= 0 {
        None
    } else {
        Some(name.subrange(i + 1, name.len() as int))
    }
}

pub open spec fn extension_spec(p: Seq<char>) -> Option<Seq<char>> {
    match file_name_spec(p) {
        Some(name) => extension_of_name(name),
        None => None,
    }
}

/// `base` joined with `p`: an absolute `p` replaces `base`; otherwise a `/`
/// separates them unless `base` is empty or already ends with one.
pub open spec fn join_spec(base: Seq<char>, p: Seq<char>) -> Seq<char> {
    if p.len() > 0 && p[0] == '/' {
        p
    } else if base.len() > 0 && base.last() != '/' {
        base.push('/') + p
    } else {
        base + p
    }
}

/// A path that starts with `~/` is taken relative to the home directory.
pub open spec fn full_path_spec(p: Seq<char>, home: Seq<char>) -> Seq<char> {
    if p.len() >= 2 && p[0] == '~' && p[1] == '/' {
        join_spec(home, p.skip(2))
    } else {
        p
    }
}

/// The extensions of wallpaper images.
pub open spec fn is_image_extension(e: Seq<char>) -> bool {
    e == seq!['j', 'p', 'g'] || e == seq!['j', 'p', 'e', 'g'] || e == seq!['p', 'n', 'g'] || e == seq![
        'w',
        'e',
        'b',
        'p',
    ]
}

/// A regular file whose extension is `jpg`, `jpeg`, `png` or `webp`.
pub open spec fn is_image_spec(p: Seq<char>, is_file: bool) -> bool {
    is_file && match extension_spec(p) {
        Some(e) => is_image_extension(e),
        None => false,
    }
}

/// The paths of the entries that are images, in order.
pub open spec fn images_of(entries: Seq<(Seq<char>, bool)>) -> Seq<Seq<char>>
    decreases entries.len(),
{
    if entries.len() == 0 {
        Seq::empty()
    } else {
        let rest = images_of(entries.drop_last());
        if is_image_spec(entries.last().0, entries.last().1) {
            rest.push(entries.last().0)
        } else {
            rest
        }
    }
}

/// Where the last component of the path, if named, lies in the path text.
pub open spec fn located(p: Seq<char>, a: int, b: int, name: Seq<char>) -> bool {
    0 <= a <= b <= p.len() && p.subrange(a, b) == name
}

proof fn lemma_named_push(pieces: Seq<Seq<char>>, c: Seq<char>)
    ensures
        named(pieces.push(c)) == if is_named(c) {
            named(pieces).push(c)
        } else {
            named(pieces)
        },
{
    assert(pieces.push(c).drop_last() =~= pieces);
}

/// Finds the last named component of `p`: its bounds in the text, if any.
fn last_component(chars: &Vec<char>) -> (r: Option<(usize, usize)>)
    ensures
        match r {
            Some((a, b)) => {
                let comps = named(split_by(chars@, slash_sep()));
                comps.len() > 0 && located(chars@, a as int, b as int, comps.last())
            },
            None => named(split_by(chars@, slash_sep())).len() == 0,
        },
{
    let n = chars.len();
    let ghost is_sep = slash_sep();
    let mut last: Option<(usize, usize)> = None;
    let mut start: usize = 0;
    let ghost mut done: Seq<Seq<char>> = Seq::empty();
    assert(chars@.take(0) =~= Seq::<char>::empty());
    assert(chars@.subrange(0, 0) =~= Seq::<char>::empty());
    assert(split_by(chars@.take(0), is_sep) =~= done.push(chars@.subrange(0, 0)));
    for i in 0..n
        invariant
            n == chars@.len(),
            start <= i,
            is_sep == slash_sep(),
            split_by(chars@.take(i as int), is_sep) == done.push(chars@.subrange(start as int, i as int)),
            match last {
                Some((a, b)) => named(done).len() > 0 && located(chars@, a as int, b as int, named(done).last()),
                None => named(done).len() == 0,
            },
    {
        let c = chars[i];
        let ghost pre = chars@.take(i as int);
        assert(chars@.take(i + 1).drop_last() =~= pre);
        assert(chars@.take(i + 1).last() == c);
        if c == '/' {
            let ghost piece = chars@.subrange(start as int, i as int);
            let is_dot = i - start == 1 && chars[start] == '.';
            if i > start && !is_dot {
                last = Some((start, i));
            }
            proof {
                if is_dot {
                    assert(piece =~= seq!['.']);
                }
                if i > start && !is_dot {
                    assert(piece != seq!['.']) by {
                        if i == start + 1 {
                            assert(piece[0] == chars@[start as int]);
                        } else {
                            assert(piece.len() != 1);
                        }
                    }
                }
                lemma_named_push(done, piece);
                done = done.push(piece);
            }
            start = i + 1;
            assert(chars@.subrange(start as int, (i + 1) as int) =~= Seq::<char>::empty());
            assert(split_by(chars@.take(i + 1), is_sep) =~= done.push(chars@.subrange(start as int, (i + 1) as int)));
        } else {
            assert(chars@.subrange(start as int, (i + 1) as int) =~= chars@.subrange(start as int, i as int).push(c));
            assert(split_by(chars@.take(i + 1), is_sep) =~= done.push(chars@.subrange(start as int, (i + 1) as int)));
        }
    }
    assert(chars@.take(n as int) =~= chars@);
    let ghost piece = chars@.subrange(start as int, n as int);
    let is_dot = n - start == 1 && chars[start] == '.';
    proof {
        if is_dot {
            assert(piece =~= seq!['.']);
        }
        if n > start && !is_dot {
            assert(piece != seq!['.']) by {
                if n == start + 1 {
                    assert(piece[0] == chars@[start as int]);
                } else {
                    assert(piece.len() != 1);
                }
            }
        }
        lemma_named_push(done, piece);
    }
    if n > start && !is_dot {
        Some((start, n))
    } else {
        last
    }
}

fn is_dot_dot(chars: &Vec<char>, a: usize, b: usize) -> (r: bool)
    requires
        a <= b <= chars@.len(),
    ensures
        r == (chars@.subrange(a as int, b as int) == seq!['.', '.']),
{
    if b - a == 2 && chars[a] == '.' && chars[a + 1] == '.' {
        assert(chars@.subrange(a as int, b as int) =~= seq!['.', '.']);
        true
    } else {
        proof {
            let s = chars@.subrange(a as int, b as int);
            if s == seq!['.', '.'] {
                assert(s.len() == 2);
                assert(s[0] == chars@[a as int]);
                assert(s[1] == chars@[a + 1]);
            }
        }
        false
    }
}

/// The bounds of the file name of `p` in its text.
fn file_name_bounds(chars: &Vec<char>) -> (r: Option<(usize, usize)>)
    ensures
        match r {
            Some((a, b)) => file_name_spec(chars@) == Some(chars@.subrange(a as int, b as int)) && a <= b
                <= chars@.len(),
            None => file_name_spec(chars@).is_none(),
        },
{
    match last_component(chars) {
        None => None,
        Some((a, b)) => {
            if is_dot_dot(chars, a, b) {
                None
            } else {
                Some((a, b))
            }
        },
    }
}

/// The file name of a path: its last component, unless it has none or that
/// component is `..`.
pub fn file_name(path: &str) -> (r: Option<String>)
    ensures
        match r {
            Some(s) => file_name_spec(path@) == Some(s@),
            None => file_name_spec(path@).is_none(),
        },
{
    let chars = chars_of(path);
    match file_name_bounds(&chars) {
        None => None,
        Some((a, b)) => Some(path.substring_char(a, b).to_owned()),
    }
}

/// The file name of a path, which must have one.
pub fn filename(path: &str) -> (r: String)
    requires
        file_name_spec(path@).is_some(),
    ensures
        file_name_spec(path@) == Some(r@),
{
    match file_name(path) {
        Some(s) => s,
        None => String::new(),
    }
}

proof fn lemma_last_dot_bounds(s: Seq<char>)
    ensures
        -1 <= last_dot(s) < s.len(),
        last_dot(s) >= 0 ==> s[last_dot(s)] == '.',
    decreases s.len(),
{
    if s.len() > 0 && s.last() != '.' {
        lemma_last_dot_bounds(s.drop_last());
    }
}

fn last_dot_exec(chars: &Vec<char>, a: usize, b: usize) -> (r: Option<usize>)
    requires
        a <= b <= chars@.len(),
    ensures
        match r {
            Some(i) => a <= i < b && last_dot(chars@.subrange(a as int, b as int)) == i - a,
            None => last_dot(chars@.subrange(a as int, b as int)) == -1,
        },
{
    let mut i = b;
    while i > a
        invariant
            a <= i <= b <= chars@.len(),
            last_dot(chars@.subrange(a as int, b as int)) == last_dot(chars@.subrange(a as int, i as int)),
        decreases i - a,
    {
        let ghost s = chars@.subrange(a as int, i as int);
        assert(s.drop_last() =~= chars@.subrange(a as int, i - 1));
        assert(s.last() == chars@[i - 1]);
        if chars[i - 1] == '.' {
            return Some(i - 1);
        }
        i = i - 1;
    }
    assert(chars@.subrange(a as int, i as int) =~= Seq::<char>::empty());
    None
}

/// The extension of the file name of a path.
pub fn extension(path: &str) -> (r: Option<String>)
    ensures
        match r {
            Some(s) => extension_spec(path@) == Some(s@),
            None => extension_spec(path@).is_none(),
        },
{
    let chars = chars_of(path);
    match file_name_bounds(&chars) {
        None => None,
        Some((a, b)) => match last_dot_exec(&chars, a, b) {
            None => None,
            Some(i) => {
                if i == a {
                    None
                } else {
                    assert(chars@.subrange(a as int, b as int).subrange(i - a + 1, b - a) =~= chars@.subrange(i + 1, b as int));
                    Some(path.substring_char(i + 1, b).to_owned())
                }
            },
        },
    }
}

/// `base` joined with `p`.
pub fn join(base: &str, p: &str) -> (r: String)
    ensures
        r@ == join_spec(base@, p@),
{
    let pn = p.unicode_len();
    if pn > 0 && p.get_char(0) == '/' {
        return p.to_owned();
    }
    let bn = base.unicode_len();
    let mut out = base.to_owned();
    if bn > 0 && base.get_char(bn - 1) != '/' {
        proof {
            reveal_strlit("/");
        }
        out.append("/");
    }
    out.append(p);
    out
}

/// Expands a leading `~/` to the home directory.
pub fn full_path(p: &str, home: &str) -> (r: String)
    ensures
        r@ == full_path_spec(p@, home@),
{
    let n = p.unicode_len();
    if n >= 2 && p.get_char(0) == '~' && p.get_char(1) == '/' {
        let rest = p.substring_char(2, n);
        assert(rest@ =~= p@.skip(2));
        join(home, rest)
    } else {
        p.to_owned()
    }
}

/// The file name of a path in another directory.
pub trait PathBufExt {
    spec fn with_directory_spec(&self, dir: Seq<char>) -> Seq<char>;

    spec fn has_file_name(&self) -> bool;

    fn with_directory(&self, dir: &str) -> (r: String)
        requires
            self.has_file_name(),
        ensures
            r@ == self.with_directory_spec(dir@),
    ;
}

impl PathBufExt for String {
    open spec fn with_directory_spec(&self, dir: Seq<char>) -> Seq<char> {
        join_spec(dir, file_name_spec(self@).unwrap())
    }

    open spec fn has_file_name(&self) -> bool {
        file_name_spec(self@).is_some()
    }

    fn with_directory(&self, dir: &str) -> (r: String) {
        let name = filename(self.as_str());
        join(dir, name.as_str())
    }
}

/// The stem of a file name: the name without its extension.
pub open spec fn stem_of_name(name: Seq<char>) -> Seq<char> {
    if extension_of_name(name).is_some() {
        name.take(last_dot(name))
    } else {
        name
    }
}

/// The file name that `Path::with_extension` gives a path whose file name is
/// `name`: the stem, then `.` and `ext` unless `ext` is empty.
pub open spec fn renamed_spec(name: Seq<char>, ext: Seq<char>) -> Seq<char> {
    if ext.len() > 0 {
        stem_of_name(name).push('.') + ext
    } else {
        stem_of_name(name)
    }
}

/// The file name of `path` with its extension replaced by `ext`.
pub fn renamed_file_name(path: &str, ext: &str) -> (r: String)
    requires
        file_name_spec(path@).is_some(),
    ensures
        r@ == renamed_spec(file_name_spec(path@).unwrap(), ext@),
{
    let chars = chars_of(path);
    let (a, b) = match file_name_bounds(&chars) {
        Some(bounds) => bounds,
        None => (0, 0),
    };
    let ghost name = chars@.subrange(a as int, b as int);
    let stem_end = match last_dot_exec(&chars, a, b) {
        Some(i) => if i == a {
            b
        } else {
            i
        },
        None => b,
    };
    proof {
        lemma_last_dot_bounds(name);
    }
    assert(chars@.subrange(a as int, stem_end as int) =~= stem_of_name(name));
    let mut out = path.substring_char(a, stem_end).to_owned();
    if ext.unicode_len() > 0 {
        proof {
            reveal_strlit(".");
        }
        out.append(".");
        out.append(ext);
    }
    out
}


fn str_eq_lit(s: &String, lit: &str) -> (r: bool)
    ensures
        r == (s@ == lit@),
{
    let l = String::from_str(lit);
    *s == l
}

/// Whether the path is a wallpaper image: a regular file whose extension is
/// `jpg`, `jpeg`, `png` or `webp`. Whether it is a regular file comes from
/// the file system.
pub fn is_image(path: &str, is_file: bool) -> (r: bool)
    ensures
        r == is_image_spec(path@, is_file),
{
    if !is_file {
        return false;
    }
    match extension(path) {
        None => false,
        Some(e) => {
            proof {
                reveal_strlit("jpg");
                reveal_strlit("jpeg");
                reveal_strlit("png");
                reveal_strlit("webp");
            }
            let r = str_eq_lit(&e, "jpg") || str_eq_lit(&e, "jpeg") || str_eq_lit(&e, "png") || str_eq_lit(&e, "webp");
            assert(r == is_image_extension(e@)) by {
                assert("jpg"@ =~= seq!['j', 'p', 'g']);
                assert("jpeg"@ =~= seq!['j', 'p', 'e', 'g']);
                assert("png"@ =~= seq!['p', 'n', 'g']);
                assert("webp"@ =~= seq!['w', 'e', 'b', 'p']);
            }
            r
        },
    }
}

pub open spec fn entries_view(entries: Seq<(String, bool)>) -> Seq<(Seq<char>, bool)> {
    entries.map_values(|e: (String, bool)| (e.0@, e.1))
}

/// Every path has a file name.
pub open spec fn all_named(paths: Seq<String>) -> bool {
    forall|i: int| 0 <= i < paths.len() ==> (#[trigger] file_name_spec(paths[i]@)).is_some()
}

pub open spec fn strings_view(v: Seq<String>) -> Seq<Seq<char>> {
    v.map_values(|s: String| s@)
}

/// The paths of the directory entries that are images, in order. Each entry
/// is a path and whether it is a regular file.
pub fn filter_images(entries: &Vec<(String, bool)>) -> (r: Vec<String>)
    ensures
        strings_view(r@) == images_of(entries_view(entries@)),
{
    let mut out: Vec<String> = Vec::new();
    for i in 0..entries.len()
        invariant
            strings_view(out@) == images_of(entries_view(entries@.take(i as int))),
    {
        let ghost ev = entries_view(entries@.take(i + 1));
        assert(ev.drop_last() =~= entries_view(entries@.take(i as int)));
        assert(ev.last() == (entries@[i as int].0@, entries@[i as int].1));
        if is_image(entries[i].0.as_str(), entries[i].1) {
            let p = entries[i].0.clone();
            out.push(p);
            assert(strings_view(out@) =~= images_of(ev));
        } else {
            assert(strings_view(out@) =~= images_of(ev));
        }
    }
    assert(entries@.take(entries@.len() as int) =~= entries@);
    out
}

/// Some entry has the path `p` and is an image.
pub open spec fn is_image_entry(entries: Seq<(Seq<char>, bool)>, p: Seq<char>) -> bool {
    exists|j: int| 0 <= j < entries.len() && #[trigger] entries[j].0 == p && is_image_spec(entries[j].0, entries[j].1)
}

/// What `filter_images` keeps are images, each the path of an entry.
pub proof fn lemma_images_are_images(entries: Seq<(Seq<char>, bool)>)
    ensures
        forall|i: int| 0 <= i < images_of(entries).len() ==> is_image_entry(entries, #[trigger] images_of(entries)[i]),
    decreases entries.len(),
{
    if entries.len() > 0 {
        let rest = entries.drop_last();
        lemma_images_are_images(rest);
        assert forall|i: int| 0 <= i < images_of(entries).len() implies is_image_entry(
            entries,
            #[trigger] images_of(entries)[i],
        ) by {
            if i < images_of(rest).len() {
                assert(is_image_entry(rest, images_of(rest)[i]));
                let j = choose|j: int|
                    0 <= j < rest.len() && #[trigger] rest[j].0 == images_of(rest)[i] && is_image_spec(
                        rest[j].0,
                        rest[j].1,
                    );
                assert(entries[j] == rest[j]);
                assert(images_of(entries)[i] == images_of(rest)[i]);
            } else {
                assert(entries[entries.len() - 1] == entries.last());
            }
        }
    }
}

} // verus!
