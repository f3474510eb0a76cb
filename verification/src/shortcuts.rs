//! What a key press asks of the viewer. The viewer's event loop reads the
//! key, asks here what it means, and carries the answer out.
use vstd::prelude::*;

use crate::app_state::UiMode;
use crate::aspect_ratio::AspectRatio;

verus! {

/// A key pressed in the viewer.
#[derive(Debug, Clone, PartialEq, Eq)]
pub enum KeyPress {
    /// A key that types text, with that text.
    Character(String),
    ArrowLeft,
    ArrowUp,
    ArrowRight,
    ArrowDown,
    /// Any other key.
    Other,
}

/// What a key press asks of the viewer.
#[derive(Debug, Clone, Copy, PartialEq, Eq, Structural)]
pub enum Shortcut {
    Nothing,
    ToggleFileList,
    SaveImage,
    ToggleFaces,
    PrevImage,
    NextImage,
    AlignStart,
    AlignCenter,
    AlignEnd,
    PrevCandidate,
    NextCandidate,
    /// Go back to the crop the wallpaper was loaded with.
    SourceCrop,
    /// Go back to the crop the cropper chooses.
    DefaultCrop,
    /// Edit the crop of the next ratio, going round to the first.
    NextRatio,
    /// Move the crop towards the start of the image.
    MoveBack,
    /// Move the crop towards the end of the image.
    MoveForward,
}

/// What a typed character asks of the editor.
pub open spec fn editor_char(c: char) -> Shortcut {
    match c {
        'f' => Shortcut::ToggleFaces,
        'h' => Shortcut::PrevImage,
        'l' => Shortcut::NextImage,
        '0' => Shortcut::AlignStart,
        'm' => Shortcut::AlignCenter,
        '$' => Shortcut::AlignEnd,
        'p' => Shortcut::PrevCandidate,
        'n' => Shortcut::NextCandidate,
        'u' => Shortcut::SourceCrop,
        'd' => Shortcut::DefaultCrop,
        't' => Shortcut::NextRatio,
        _ => Shortcut::Nothing,
    }
}

/// What a typed text asks of the editor: only single characters mean
/// anything.
pub open spec fn editor_text(s: Seq<char>) -> Shortcut {
    if s.len() == 1 {
        editor_char(s[0])
    } else {
        Shortcut::Nothing
    }
}

/// What a key asks of the editor: a shortcut for a typed character, a move
/// of the crop for an arrow key.
pub open spec fn editor_shortcut_spec(key: KeyPress) -> Shortcut {
    match key {
        KeyPress::Character(s) => editor_text(s@),
        KeyPress::ArrowLeft | KeyPress::ArrowUp => Shortcut::MoveBack,
        KeyPress::ArrowRight | KeyPress::ArrowDown => Shortcut::MoveForward,
        KeyPress::Other => Shortcut::Nothing,
    }
}

/// What a key asks of the viewer: `/` toggles the file list, as does
/// ctrl+f; ctrl+s saves when there are wallpapers; every other key is an
/// editor shortcut while the editor is shown. `f` without ctrl does nothing.
pub open spec fn shortcut_spec(key: KeyPress, ctrl: bool, mode: UiMode, has_files: bool) -> Shortcut {
    let in_editor = mode is Editor;
    match key {
        KeyPress::Character(s) => if s@ == seq!['/'] {
            Shortcut::ToggleFileList
        } else if s@ == seq!['f'] {
            if ctrl {
                Shortcut::ToggleFileList
            } else {
                Shortcut::Nothing
            }
        } else if s@ == seq!['s'] {
            if ctrl && has_files {
                Shortcut::SaveImage
            } else {
                Shortcut::Nothing
            }
        } else if in_editor {
            editor_text(s@)
        } else {
            Shortcut::Nothing
        },
        _ => if in_editor {
            editor_shortcut_spec(key)
        } else {
            Shortcut::Nothing
        },
    }
}

/// The single character of a text, if it has exactly one.
fn single_char(s: &str) -> (r: Option<char>)
    ensures
        r == (if s@.len() == 1 {
            Some(s@[0])
        } else {
            None::<char>
        }),
{
    if s.unicode_len() == 1 {
        Some(s.get_char(0))
    } else {
        None
    }
}

fn editor_char_exec(c: char) -> (r: Shortcut)
    ensures
        r == editor_char(c),
{
    match c {
        'f' => Shortcut::ToggleFaces,
        'h' => Shortcut::PrevImage,
        'l' => Shortcut::NextImage,
        '0' => Shortcut::AlignStart,
        'm' => Shortcut::AlignCenter,
        '$' => Shortcut::AlignEnd,
        'p' => Shortcut::PrevCandidate,
        'n' => Shortcut::NextCandidate,
        'u' => Shortcut::SourceCrop,
        'd' => Shortcut::DefaultCrop,
        't' => Shortcut::NextRatio,
        _ => Shortcut::Nothing,
    }
}

/// What a key asks of the editor.
pub fn editor_shortcut(key: &KeyPress) -> (r: Shortcut)
    ensures
        r == editor_shortcut_spec(*key),
{
    match key {
        KeyPress::Character(s) => match single_char(s.as_str()) {
            Some(c) => editor_char_exec(c),
            None => Shortcut::Nothing,
        },
        KeyPress::ArrowLeft | KeyPress::ArrowUp => Shortcut::MoveBack,
        KeyPress::ArrowRight | KeyPress::ArrowDown => Shortcut::MoveForward,
        KeyPress::Other => Shortcut::Nothing,
    }
}

/// What a key asks of the viewer (see `shortcut_spec`).
pub fn shortcut(key: &KeyPress, ctrl: bool, mode: &UiMode, has_files: bool) -> (r: Shortcut)
    ensures
        r == shortcut_spec(*key, ctrl, *mode, has_files),
{
    let in_editor = match mode {
        UiMode::Editor => true,
        _ => false,
    };
    match key {
        KeyPress::Character(s) => {
            let c = single_char(s.as_str());
            match c {
                Some('/') => {
                    assert(s@ =~= seq!['/']);
                    Shortcut::ToggleFileList
                },
                Some('f') => {
                    assert(s@ =~= seq!['f']);
                    if ctrl {
                        Shortcut::ToggleFileList
                    } else {
                        Shortcut::Nothing
                    }
                },
                Some('s') => {
                    assert(s@ =~= seq!['s']);
                    if ctrl && has_files {
                        Shortcut::SaveImage
                    } else {
                        Shortcut::Nothing
                    }
                },
                _ => {
                    assert(s@ != seq!['/'] && s@ != seq!['f'] && s@ != seq!['s']) by {
                        if s@.len() == 1 {
                            assert(seq!['/'][0] == '/');
                            assert(seq!['f'][0] == 'f');
                            assert(seq!['s'][0] == 's');
                        } else {
                            assert(seq!['/'].len() == 1);
                        }
                    }
                    if in_editor {
                        match c {
                            Some(ch) => editor_char_exec(ch),
                            None => Shortcut::Nothing,
                        }
                    } else {
                        Shortcut::Nothing
                    }
                },
            }
        },
        _ => {
            if in_editor {
                editor_shortcut(key)
            } else {
                Shortcut::Nothing
            }
        },
    }
}

/// The position of the first ratio equal to `r`, if any.
pub open spec fn first_position(ratios: Seq<AspectRatio>, r: AspectRatio) -> Option<int>
    decreases ratios.len(),
{
    if ratios.len() == 0 {
        None
    } else if ratios[0] == r {
        Some(0)
    } else {
        match first_position(ratios.drop_first(), r) {
            Some(i) => Some(i + 1),
            None => None,
        }
    }
}

/// The ratio after the first one equal to `current`, going round to the
/// first; none when `current` is not among them.
pub open spec fn next_ratio_spec(ratios: Seq<AspectRatio>, current: AspectRatio) -> Option<AspectRatio> {
    match first_position(ratios, current) {
        Some(i) => Some(ratios[(i + 1) % ratios.len() as int]),
        None => None,
    }
}

proof fn lemma_first_position(ratios: Seq<AspectRatio>, r: AspectRatio, k: int)
    requires
        0 <= k <= ratios.len(),
        forall|j: int| 0 <= j < k ==> ratios[j] != r,
    ensures
        first_position(ratios, r) == (match first_position(ratios.skip(k), r) {
            Some(i) => Some(i + k),
            None => None::<int>,
        }),
        first_position(ratios, r) matches Some(i) ==> 0 <= i < ratios.len() && ratios[i] == r,
    decreases k,
{
    if k == 0 {
        assert(ratios.skip(0) =~= ratios);
        lemma_first_position_bounds(ratios, r);
    } else {
        assert(ratios.drop_first().skip(k - 1) =~= ratios.skip(k));
        lemma_first_position(ratios.drop_first(), r, k - 1);
        lemma_first_position_bounds(ratios, r);
    }
}

proof fn lemma_first_position_bounds(ratios: Seq<AspectRatio>, r: AspectRatio)
    ensures
        first_position(ratios, r) matches Some(i) ==> 0 <= i < ratios.len() && ratios[i] == r,
    decreases ratios.len(),
{
    if ratios.len() > 0 && ratios[0] != r {
        lemma_first_position_bounds(ratios.drop_first(), r);
    }
}

/// Among ratios that are all different, `t` goes from each ratio to the one
/// after it, and from the last to the first.
pub proof fn lemma_next_ratio_cycles(ratios: Seq<AspectRatio>, i: int)
    requires
        0 <= i < ratios.len(),
        forall|a: int, b: int| 0 <= a < b < ratios.len() ==> ratios[a] != ratios[b],
    ensures
        next_ratio_spec(ratios, ratios[i]) == Some(ratios[(i + 1) % ratios.len() as int]),
{
    lemma_first_position(ratios, ratios[i], i);
    assert(ratios.skip(i)[0] == ratios[i]);
}

/// The ratio to edit after `current` (see `next_ratio_spec`).
pub fn next_ratio(ratios: &Vec<AspectRatio>, current: &AspectRatio) -> (r: Option<AspectRatio>)
    ensures
        r == next_ratio_spec(ratios@, *current),
{
    let n = ratios.len();
    let mut k: usize = 0;
    while k < n
        invariant
            n == ratios@.len(),
            k <= n,
            forall|j: int| 0 <= j < k ==> ratios@[j] != *current,
        decreases n - k,
    {
        if ratios[k] == *current {
            proof {
                lemma_first_position(ratios@, *current, k as int);
                assert(ratios@.skip(k as int)[0] == *current);
            }
            let next = if k + 1 == n {
                0
            } else {
                k + 1
            };
            assert(next as int == (k + 1) % n as int) by {
                if k + 1 == n {
                    assert((n as int) % (n as int) == 0) by (nonlinear_arith)
                        requires
                            n > 0,
                    ;
                } else {
                    vstd::arithmetic::div_mod::lemma_small_mod((k + 1) as nat, n as nat);
                }
            }
            return Some(ratios[next]);
        }
        k = k + 1;
    }
    proof {
        lemma_first_position(ratios@, *current, k as int);
        assert(ratios@.skip(k as int).len() == 0);
    }
    None
}

} // verus!
