use wallfacer::app_state::{
    change_ratio, contains_text, next_image, prev_image, set_align, PreviewMode, UiMode, UiState,
    Wallpapers,
};
use wallfacer::aspect_ratio::AspectRatio;
use wallfacer::cli::FacesFilter;
use wallfacer::geometry::Geometry;
use wallfacer::wallpapers::{WallInfo, WallpapersCsv};

#[test]
fn test_next_wall() {
    let len: usize = 5;
    let mut walls = Wallpapers::create_mock(len, 0);
    walls.next_wall();
    assert_eq!(walls.index, 1);
    assert_eq!(walls.files.len(), len);

    // loop around last element
    walls.index = len - 1;
    walls.next_wall();

    assert_eq!(walls.index, 0);
    assert_eq!(walls.files.len(), len);
}

#[test]
fn test_prev_wall() {
    let len: usize = 5;
    let mut walls = Wallpapers::create_mock(len, 1);
    walls.prev_wall();
    assert_eq!(walls.index, 0);
    assert_eq!(walls.files.len(), len);

    // loop around first element
    walls.index = 0;
    walls.prev_wall();
    assert_eq!(walls.index, len - 1);
    assert_eq!(walls.files.len(), len);
}

#[test]
fn test_remove_start() {
    let len: usize = 5;
    // remove first index
    let mut walls = Wallpapers::create_mock(len, 0);
    walls.remove();
    assert_eq!(walls.index, 0, "remove index 0");
    assert_eq!(walls.current.path, "1", "remove index 0");
    assert_eq!(walls.files.len(), len - 1, "remove index 0");
}

#[test]
fn test_remove_middle() {
    // remove middle index
    let len: usize = 5;
    let mut walls = Wallpapers::create_mock(len, 2);
    walls.remove();
    assert_eq!(walls.index, 2, "remove index 2");
    assert_eq!(walls.current.path, "3", "remove index 2");
    assert_eq!(walls.files.len(), len - 1, "remove index 2");
}

#[test]
fn test_remove_last() {
    // remove last index
    let len: usize = 5;
    let mut walls = Wallpapers::create_mock(len, len - 1);
    walls.remove();
    assert_eq!(walls.index, 0, "remove index {}", len - 1);
    assert_eq!(walls.current.path, "0", "remove index {}", len - 1);
    assert_eq!(walls.files.len(), len - 1, "remove index {}", len - 1);

    walls.prev_wall();
    assert_eq!(walls.index, len - 1 - 1, "prev after remove last");
    assert_eq!(walls.current.path, "3", "prev after remove last");
    assert_eq!(walls.files.len(), len - 1, "prev after remove last");
}

#[test]
fn remove_single() {
    let mut walls = Wallpapers::create_mock(1, 0);
    walls.remove();
    assert_eq!(walls.files.len(), 0);
}

#[test]
fn mock_names_files_by_position() {
    let walls = Wallpapers::create_mock(3, 2);
    assert_eq!(walls.files, vec!["0".to_string(), "1".to_string(), "2".to_string()]);
    assert_eq!(walls.index, 2);
    assert_eq!(walls.current.path, "0");
    assert_eq!(walls.ratio, AspectRatio { w: 16, h: 9 });
}

#[test]
fn next_then_prev_returns_to_the_same_wallpaper() {
    for start in 0..4usize {
        let mut walls = Wallpapers::create_mock(4, start);
        walls.next_wall();
        walls.prev_wall();
        assert_eq!(walls.index, start);
        walls.prev_wall();
        walls.next_wall();
        assert_eq!(walls.index, start);
    }
}

#[test]
fn navigation_loads_the_known_wallpaper() {
    let mut walls = Wallpapers::create_mock(3, 0);
    walls.insert_csv(&WallInfo::new("1".to_string(), 640, 480, vec![], Some(2)));
    walls.next_wall();
    assert_eq!(walls.current.path, "1");
    assert_eq!(walls.current.width, 640);
    assert_eq!(walls.source.height, 480);
    assert_eq!(walls.current.scale, Some(2));
    walls.next_wall();
    assert_eq!(walls.current.path, "2");
    assert_eq!(walls.current.width, 0);
}

#[test]
fn remove_drops_every_entry_of_the_path() {
    let mut walls = Wallpapers::create_mock(3, 0);
    walls.files = vec!["a".to_string(), "b".to_string(), "a".to_string(), "c".to_string()];
    walls.index = 0;
    walls.remove();
    assert_eq!(walls.files, vec!["b".to_string(), "c".to_string()]);
    assert_eq!(walls.index, 0);
    assert_eq!(walls.current.path, "b");
}

#[test]
fn set_from_filename_finds_the_first_position() {
    let mut csv = WallpapersCsv::new();
    csv.insert(WallInfo::new("b.jpg".to_string(), 100, 50, vec![], None));
    let files = vec!["/w/a.jpg".to_string(), "/w/b.jpg".to_string(), "/x/b.jpg".to_string()];
    let mut walls = Wallpapers::from_files(
        files,
        csv,
        vec![("HD".to_string(), AspectRatio { w: 16, h: 9 })],
        "/w".to_string(),
    );
    assert_eq!(walls.index, 0);
    assert_eq!(walls.current.path, "a.jpg");
    walls.set_from_filename("b.jpg");
    assert_eq!(walls.index, 1);
    assert_eq!(walls.current.width, 100);
    assert_eq!(walls.full_path(), "/w/b.jpg");
}

#[test]
fn from_files_loads_the_first_wallpaper() {
    let mut csv = WallpapersCsv::new();
    csv.insert(WallInfo::new("a.jpg".to_string(), 300, 200, vec![], None));
    let walls = Wallpapers::from_files(
        vec!["/w/a.jpg".to_string()],
        csv,
        vec![("UW".to_string(), AspectRatio { w: 7, h: 3 }), ("HD".to_string(), AspectRatio { w: 16, h: 9 })],
        "/w".to_string(),
    );
    assert_eq!(walls.current.width, 300);
    assert_eq!(walls.ratio, AspectRatio { w: 7, h: 3 });
    assert_eq!(walls.full_path(), "/w/a.jpg");
}

#[test]
fn resolution_arg_reads_lists() {
    let res = vec![AspectRatio { w: 16, h: 9 }, AspectRatio { w: 7, h: 3 }];
    assert_eq!(Wallpapers::resolution_arg(None, &res), vec![]);
    assert_eq!(Wallpapers::resolution_arg(Some("all"), &res), res);
    assert_eq!(
        Wallpapers::resolution_arg(Some("1920x1080, 21x9 "), &res),
        vec![AspectRatio { w: 16, h: 9 }, AspectRatio { w: 7, h: 3 }]
    );
    assert_eq!(Wallpapers::resolution_arg(Some("\t4x3"), &res), vec![AspectRatio { w: 4, h: 3 }]);
}

#[test]
fn modified_filters_are_the_other_resolutions() {
    let res = vec![AspectRatio { w: 16, h: 9 }, AspectRatio { w: 7, h: 3 }, AspectRatio { w: 4, h: 3 }];
    assert_eq!(Wallpapers::modified_filters(&vec![], &res), vec![]);
    assert_eq!(
        Wallpapers::modified_filters(&vec![AspectRatio { w: 7, h: 3 }], &res),
        vec![AspectRatio { w: 16, h: 9 }, AspectRatio { w: 4, h: 3 }]
    );
}

#[test]
fn contains_text_finds_substrings() {
    assert!(contains_text("wallpaper.jpg", "paper"));
    assert!(contains_text("abc", ""));
    assert!(!contains_text("abc", "abcd"));
    assert!(!contains_text("abc", "ac"));
    assert!(contains_text("abc", "abc"));
}

#[test]
fn keeps_filters_by_name_crops_and_faces() {
    let face = Geometry { w: 10, h: 10, x: 0, y: 0 };
    let info = WallInfo::new("pic.jpg".to_string(), 1920, 1080, vec![face], None);
    let none: Vec<AspectRatio> = vec![];
    let no_crops: Vec<Geometry> = vec![];
    // unknown wallpapers are kept
    assert!(Wallpapers::keeps(None, "x.jpg", Some("zzz"), &none, &none, FacesFilter::Zero, &no_crops, &no_crops));
    // the name filter ignores case
    assert!(Wallpapers::keeps(Some(&info), "MyPic.JPG", Some("PIC"), &none, &none, FacesFilter::All, &no_crops, &no_crops));
    assert!(!Wallpapers::keeps(Some(&info), "MyPic.JPG", Some("zzz"), &none, &none, FacesFilter::All, &no_crops, &no_crops));
    // face filters
    assert!(Wallpapers::keeps(Some(&info), "a.jpg", None, &none, &none, FacesFilter::One, &no_crops, &no_crops));
    assert!(Wallpapers::keeps(Some(&info), "a.jpg", None, &none, &none, FacesFilter::Single, &no_crops, &no_crops));
    assert!(!Wallpapers::keeps(Some(&info), "a.jpg", None, &none, &none, FacesFilter::NoFaces, &no_crops, &no_crops));
    assert!(!Wallpapers::keeps(Some(&info), "a.jpg", None, &none, &none, FacesFilter::Many, &no_crops, &no_crops));
    // crop filters come before the face filter
    let hd = vec![AspectRatio { w: 16, h: 9 }];
    let default_crop = vec![Geometry { w: 1920, h: 1080, x: 0, y: 0 }];
    assert!(Wallpapers::keeps(Some(&info), "a.jpg", None, &hd, &none, FacesFilter::Many, &default_crop, &no_crops));
    let mut edited = info.clone();
    edited.set_geometry(&AspectRatio { w: 16, h: 9 }, &Geometry { w: 10, h: 10, x: 5, y: 5 });
    assert!(!Wallpapers::keeps(Some(&edited), "a.jpg", None, &hd, &none, FacesFilter::All, &default_crop, &no_crops));
    assert!(!Wallpapers::keeps(Some(&edited), "a.jpg", None, &none, &hd, FacesFilter::All, &no_crops, &default_crop));
}

fn two_face_walls() -> Wallpapers {
    let mut walls = Wallpapers::create_mock(1, 0);
    let faces = vec![
        Geometry { w: 100, h: 100, x: 100, y: 0 },
        Geometry { w: 200, h: 100, x: 3700, y: 0 },
    ];
    walls.current = WallInfo::new("0".to_string(), 4000, 2000, faces, None);
    walls
}

#[test]
fn candidates_step_forwards_and_backwards() {
    let mut walls = two_face_walls();
    let a = Geometry { w: 3555, h: 2000, x: 50, y: 0 };
    let b = Geometry { w: 3555, h: 2000, x: 395, y: 0 };
    assert_eq!(walls.crop_candidates(), vec![a, b]);
    assert_eq!(walls.candidate_geometries(), vec![a, b]);
    walls.next_candidate(a);
    assert_eq!(walls.get_geometry(a), b);
    walls.next_candidate(a);
    assert_eq!(walls.get_geometry(a), a);
    walls.prev_candidate(a);
    assert_eq!(walls.get_geometry(a), b);
    walls.prev_candidate(a);
    assert_eq!(walls.get_geometry(a), a);
}

#[test]
fn preview_mode_follows_the_number_of_candidates() {
    let walls = two_face_walls();
    let mut ui = UiState::default();
    ui.preview_mode = PreviewMode::Pan;
    ui.init_preview_mode(&walls);
    assert_eq!(ui.preview_mode, PreviewMode::Candidate(None));
    let mut one = Wallpapers::create_mock(1, 0);
    one.current = WallInfo::new("0".to_string(), 1920, 1080, vec![], None);
    ui.init_preview_mode(&one);
    assert_eq!(ui.preview_mode, PreviewMode::Pan);
}

#[test]
fn has_candidates_looks_at_the_other_ratios() {
    let mut walls = two_face_walls();
    walls.resolutions = vec![("HD".to_string(), AspectRatio { w: 16, h: 9 })];
    assert!(walls.has_candidates());
    walls.resolutions = vec![("SQ".to_string(), AspectRatio { w: 2, h: 1 })];
    assert!(!walls.has_candidates());
}

#[test]
fn image_ratios_skip_the_image_ratio() {
    let mut walls = Wallpapers::create_mock(1, 0);
    walls.current = WallInfo::new("0".to_string(), 1920, 1080, vec![], None);
    walls.resolutions = vec![
        ("HD".to_string(), AspectRatio { w: 16, h: 9 }),
        ("UW".to_string(), AspectRatio { w: 7, h: 3 }),
    ];
    assert_eq!(walls.image_ratios(), vec![("UW".to_string(), AspectRatio { w: 7, h: 3 })]);
}

#[test]
fn move_geometry_stays_in_the_image() {
    let mut walls = Wallpapers::create_mock(1, 0);
    walls.current = WallInfo::new("0".to_string(), 4000, 2000, vec![], None);
    let crop = Geometry { w: 3555, h: 2000, x: 100, y: 0 };
    assert_eq!(walls.move_geometry_by(crop, 50, false), Geometry { x: 150, ..crop });
    assert_eq!(walls.move_geometry_by(crop, 150, true), Geometry { x: 0, ..crop });
    assert_eq!(walls.move_geometry_by(crop, 1000, false), Geometry { x: 445, ..crop });
    let tall = Geometry { w: 4000, h: 1000, x: 0, y: 500 };
    assert_eq!(walls.move_geometry_by(tall, 600, false), Geometry { y: 1000, ..tall });
    assert_eq!(walls.move_geometry_by(tall, 20, true), Geometry { y: 480, ..tall });
}

#[test]
fn ui_toggles() {
    let mut ui = UiState::default();
    assert_eq!(ui.mode, UiMode::Editor);
    assert_eq!(ui.preview_mode, PreviewMode::Candidate(None));
    ui.toggle_filelist();
    assert_eq!(ui.mode, UiMode::FileList);
    ui.toggle_palette();
    assert_eq!(ui.mode, UiMode::Palette);
    ui.toggle_palette();
    assert_eq!(ui.mode, UiMode::Editor);
    ui.toggle_filelist();
    ui.toggle_filelist();
    assert_eq!(ui.mode, UiMode::Editor);
    ui.toggle_pan();
    assert_eq!(ui.preview_mode, PreviewMode::Pan);
    ui.toggle_pan();
    assert_eq!(ui.preview_mode, PreviewMode::Candidate(None));
    assert_eq!(UiMode::default(), UiMode::Editor);
    assert_eq!(PreviewMode::default(), PreviewMode::Candidate(None));
}

#[test]
fn image_navigation_leaves_the_file_list() {
    let mut walls = Wallpapers::create_mock(3, 0);
    let mut ui = UiState::default();
    ui.mode = UiMode::FileList;
    next_image(&mut walls, &mut ui);
    assert_eq!(walls.index, 1);
    assert_eq!(ui.mode, UiMode::Editor);
    ui.mode = UiMode::Palette;
    prev_image(&mut walls, &mut ui);
    assert_eq!(walls.index, 0);
    assert_eq!(ui.mode, UiMode::Palette);
}

#[test]
fn align_and_ratio_changes() {
    let mut walls = Wallpapers::create_mock(1, 0);
    let mut ui = UiState::default();
    ui.preview_mode = PreviewMode::Pan;
    let g = Geometry { w: 10, h: 10, x: 1, y: 2 };
    set_align(&mut walls, &mut ui, &g);
    assert_eq!(ui.preview_mode, PreviewMode::Candidate(None));
    assert_eq!(walls.get_geometry(Geometry::default()), g);
    change_ratio(&mut walls, &AspectRatio { w: 4, h: 3 });
    assert_eq!(walls.ratio, AspectRatio { w: 4, h: 3 });
    assert_eq!(walls.get_geometry(Geometry::default()), Geometry::default());
}

#[test]
fn kept_files_apply_the_filters() {
    let mut csv = WallpapersCsv::new();
    csv.insert(WallInfo::new("a.jpg".to_string(), 1, 1, vec![], None));
    csv.insert(WallInfo::new("b.jpg".to_string(), 1, 1, vec![Geometry::default()], None));
    let files = vec!["/w/a.jpg".to_string(), "/w/b.jpg".to_string(), "/w/c.jpg".to_string()];
    let none: Vec<AspectRatio> = vec![];
    let crops = vec![(vec![], vec![]), (vec![], vec![]), (vec![], vec![])];
    assert_eq!(
        Wallpapers::kept_files(&files, &csv, None, &none, &none, FacesFilter::Zero, &crops),
        vec!["/w/a.jpg".to_string(), "/w/c.jpg".to_string()]
    );
    assert_eq!(
        Wallpapers::kept_files(&files, &csv, Some("B"), &none, &none, FacesFilter::All, &crops),
        vec!["/w/b.jpg".to_string(), "/w/c.jpg".to_string()]
    );
}

#[test]
fn newest_files_come_first() {
    let files = vec!["a".to_string(), "b".to_string(), "c".to_string(), "d".to_string()];
    let times: Vec<u128> = vec![5, 9, 5, 1];
    assert_eq!(
        Wallpapers::newest_first(&files, &times),
        vec!["b".to_string(), "c".to_string(), "a".to_string(), "d".to_string()]
    );
    assert_eq!(Wallpapers::newest_first(&vec![], &vec![]), Vec::<String>::new());
}
