use wallfacer::app_state::UiMode;
use wallfacer::aspect_ratio::AspectRatio;
use wallfacer::shortcuts::{editor_shortcut, next_ratio, shortcut, KeyPress, Shortcut};

fn ch(s: &str) -> KeyPress {
    KeyPress::Character(s.to_string())
}

#[test]
fn editor_keys() {
    assert_eq!(editor_shortcut(&ch("f")), Shortcut::ToggleFaces);
    assert_eq!(editor_shortcut(&ch("h")), Shortcut::PrevImage);
    assert_eq!(editor_shortcut(&ch("l")), Shortcut::NextImage);
    assert_eq!(editor_shortcut(&ch("0")), Shortcut::AlignStart);
    assert_eq!(editor_shortcut(&ch("m")), Shortcut::AlignCenter);
    assert_eq!(editor_shortcut(&ch("$")), Shortcut::AlignEnd);
    assert_eq!(editor_shortcut(&ch("p")), Shortcut::PrevCandidate);
    assert_eq!(editor_shortcut(&ch("n")), Shortcut::NextCandidate);
    assert_eq!(editor_shortcut(&ch("u")), Shortcut::SourceCrop);
    assert_eq!(editor_shortcut(&ch("d")), Shortcut::DefaultCrop);
    assert_eq!(editor_shortcut(&ch("t")), Shortcut::NextRatio);
    assert_eq!(editor_shortcut(&ch("x")), Shortcut::Nothing);
    assert_eq!(editor_shortcut(&ch("hl")), Shortcut::Nothing);
    assert_eq!(editor_shortcut(&KeyPress::ArrowLeft), Shortcut::MoveBack);
    assert_eq!(editor_shortcut(&KeyPress::ArrowUp), Shortcut::MoveBack);
    assert_eq!(editor_shortcut(&KeyPress::ArrowRight), Shortcut::MoveForward);
    assert_eq!(editor_shortcut(&KeyPress::ArrowDown), Shortcut::MoveForward);
    assert_eq!(editor_shortcut(&KeyPress::Other), Shortcut::Nothing);
}

#[test]
fn viewer_keys() {
    let editor = UiMode::Editor;
    let list = UiMode::FileList;
    assert_eq!(shortcut(&ch("/"), false, &editor, true), Shortcut::ToggleFileList);
    assert_eq!(shortcut(&ch("/"), false, &list, false), Shortcut::ToggleFileList);
    assert_eq!(shortcut(&ch("f"), true, &editor, true), Shortcut::ToggleFileList);
    // without ctrl, `f` does nothing, not even in the editor
    assert_eq!(shortcut(&ch("f"), false, &editor, true), Shortcut::Nothing);
    assert_eq!(shortcut(&ch("s"), true, &editor, true), Shortcut::SaveImage);
    assert_eq!(shortcut(&ch("s"), true, &editor, false), Shortcut::Nothing);
    assert_eq!(shortcut(&ch("s"), false, &editor, true), Shortcut::Nothing);
    assert_eq!(shortcut(&ch("n"), false, &editor, true), Shortcut::NextCandidate);
    assert_eq!(shortcut(&ch("n"), false, &list, true), Shortcut::Nothing);
    assert_eq!(shortcut(&KeyPress::ArrowDown, false, &editor, true), Shortcut::MoveForward);
    assert_eq!(shortcut(&KeyPress::ArrowDown, false, &UiMode::Palette, true), Shortcut::Nothing);
}

#[test]
fn ratios_go_round() {
    let a = AspectRatio { w: 16, h: 9 };
    let b = AspectRatio { w: 21, h: 9 };
    let c = AspectRatio { w: 4, h: 3 };
    let ratios = vec![a, b, c];
    assert_eq!(next_ratio(&ratios, &a), Some(b));
    assert_eq!(next_ratio(&ratios, &b), Some(c));
    assert_eq!(next_ratio(&ratios, &c), Some(a));
    assert_eq!(next_ratio(&ratios, &AspectRatio { w: 1, h: 1 }), None);
    assert_eq!(next_ratio(&vec![], &a), None);
    assert_eq!(next_ratio(&vec![a], &a), Some(a));
}
