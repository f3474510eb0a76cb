use wallfacer::aspect_ratio::AspectRatio;
use wallfacer::cropper::Direction;
use wallfacer::geometry::Geometry;
use wallfacer::wallpapers::{crop_key_prefix_exec, MetadataError, WallInfo, WallpapersCsv};

fn geom(w: u32, h: u32, x: u32, y: u32) -> Geometry {
    Geometry { w, h, x, y }
}

const HD: AspectRatio = AspectRatio { w: 16, h: 9 };
const UW: AspectRatio = AspectRatio { w: 7, h: 3 };

#[test]
fn target_scale_is_the_smallest_factor() {
    let info = WallInfo::new("a".to_string(), 1000, 500, vec![], None);
    assert_eq!(info.get_target_scale(1920, 1080), Some(3));
    assert_eq!(info.get_target_scale(1000, 500), Some(1));
    assert_eq!(info.get_target_scale(4000, 100), Some(4));
    assert_eq!(info.get_target_scale(4001, 100), None);
    let huge = WallInfo::new("b".to_string(), u32::MAX, 1, vec![], None);
    assert_eq!(huge.get_target_scale(10, 3), Some(3));
}

#[test]
fn stored_crops_win_over_the_default() {
    let mut info = WallInfo::new("a".to_string(), 4000, 2000, vec![], None);
    let default_crop = geom(3555, 2000, 222, 0);
    assert_eq!(info.stored_geometry(&HD), None);
    assert_eq!(info.get_geometry(&HD, default_crop), default_crop);
    let chosen = geom(3555, 2000, 0, 0);
    info.set_geometry(&HD, &chosen);
    assert_eq!(info.stored_geometry(&HD), Some(chosen));
    assert_eq!(info.get_geometry(&HD, default_crop), chosen);
    // another ratio is unaffected
    assert_eq!(info.get_geometry(&UW, default_crop), default_crop);
    // storing again replaces
    info.set_geometry(&HD, &default_crop);
    assert_eq!(info.get_geometry(&HD, chosen), default_crop);
}

#[test]
fn default_crops_are_detected() {
    let mut info = WallInfo::new("a".to_string(), 4000, 2000, vec![], None);
    let ratios = vec![HD, UW];
    let defaults = vec![geom(3555, 2000, 222, 0), geom(4000, 1714, 0, 143)];
    assert!(info.is_default_crops(&ratios, &defaults));
    info.set_geometry(&UW, &geom(4000, 1714, 0, 143));
    assert!(info.is_default_crops(&ratios, &defaults));
    info.set_geometry(&UW, &geom(4000, 1714, 0, 0));
    assert!(!info.is_default_crops(&ratios, &defaults));
    assert!(info.is_default_crops(&vec![HD], &vec![defaults[0]]));
}

#[test]
fn direction_and_cropper() {
    let info = WallInfo::new("a".to_string(), 4000, 2000, vec![geom(10, 10, 1, 1)], None);
    assert_eq!(info.direction(&geom(3555, 2000, 0, 0)), Direction::X);
    assert_eq!(info.direction(&geom(4000, 1714, 0, 0)), Direction::Y);
    let c = info.cropper();
    assert_eq!(c.faces, info.faces);
    assert_eq!((c.width, c.height), (4000, 2000));
}

#[test]
fn clones_keep_the_crops() {
    let mut info = WallInfo::new("a".to_string(), 4000, 2000, vec![geom(5, 5, 1, 2)], Some(2));
    info.set_geometry(&HD, &geom(1, 2, 3, 4));
    let copy = info.clone();
    assert_eq!(copy.path, "a");
    assert_eq!(copy.faces, info.faces);
    assert_eq!(copy.scale, Some(2));
    assert_eq!(copy.get_geometry(&HD, Geometry::default()), geom(1, 2, 3, 4));
}

#[test]
fn scaling_multiplies_every_pixel_value() {
    let mut info = WallInfo::new("a".to_string(), 400, 200, vec![geom(10, 20, 30, 40)], None);
    info.set_geometry(&HD, &geom(355, 200, 22, 0));
    info.set_geometry(&UW, &geom(400, 171, 0, 14));
    let big = info.scaled(2);
    assert_eq!(big.path, "a");
    assert_eq!((big.width, big.height), (800, 400));
    assert_eq!(big.faces, vec![geom(20, 40, 60, 80)]);
    assert_eq!(big.scale, Some(2));
    assert_eq!(big.get_geometry(&HD, Geometry::default()), geom(710, 400, 44, 0));
    assert_eq!(big.get_geometry(&UW, Geometry::default()), geom(800, 342, 0, 28));
    let keys: Vec<(u32, u32)> = big.geometries.keys().copied().collect();
    assert_eq!(keys, vec![(16, 9), (7, 3)]);
}

#[test]
fn metadata_is_read() {
    let prefix = crop_key_prefix_exec();
    assert_eq!(prefix, "http://example.com/wallfacer/:");
    let crops = vec![(format!("{prefix}1920x1080"), "80x45+5+0".to_string())];
    let info = WallInfo::from_metadata(
        "p.jpg".to_string(),
        100,
        50,
        Some("2".to_string()),
        Some(vec!["10x10+1+2".to_string()]),
        Some(crops),
    )
    .unwrap();
    assert_eq!(info.path, "p.jpg");
    assert_eq!((info.width, info.height), (100, 50));
    assert_eq!(info.scale, Some(2));
    assert_eq!(info.faces, vec![geom(10, 10, 1, 2)]);
    assert_eq!(info.get_geometry(&HD, Geometry::default()), geom(80, 45, 5, 0));
    let bare = WallInfo::from_metadata("q".to_string(), 1, 1, Some("abc".to_string()), None, None).unwrap();
    assert_eq!(bare.scale, None);
    assert!(bare.faces.is_empty());
    assert_eq!(bare.stored_geometry(&HD), None);
}

#[test]
fn crops_keep_the_order_of_their_ratios() {
    let mut info = WallInfo::new("a".to_string(), 400, 200, vec![], None);
    info.set_geometry(&UW, &geom(1, 1, 0, 0));
    info.set_geometry(&HD, &geom(2, 2, 0, 0));
    info.set_geometry(&UW, &geom(3, 3, 0, 0));
    let keys: Vec<(u32, u32)> = info.geometries.keys().copied().collect();
    assert_eq!(keys, vec![(7, 3), (16, 9)]);
    let copy = info.clone();
    let copied: Vec<(u32, u32)> = copy.geometries.keys().copied().collect();
    assert_eq!(copied, keys);
    let prefix = crop_key_prefix_exec();
    let crops = vec![
        (format!("{prefix}1920x1080"), "16x9+0+0".to_string()),
        (format!("{prefix}21x9"), "7x3+0+0".to_string()),
        (format!("{prefix}16x9"), "32x18+0+0".to_string()),
    ];
    let read = WallInfo::from_metadata("p".to_string(), 100, 50, None, None, Some(crops)).unwrap();
    let read_keys: Vec<(u32, u32)> = read.geometries.keys().copied().collect();
    assert_eq!(read_keys, vec![(16, 9), (7, 3)]);
    assert_eq!(read.get_geometry(&HD, Geometry::default()), geom(32, 18, 0, 0));
}

#[test]
fn metadata_errors() {
    let prefix = crop_key_prefix_exec();
    let bad_face = WallInfo::from_metadata("p".to_string(), 1, 1, None, Some(vec!["bad".to_string()]), None);
    assert_eq!(bad_face.err(), Some(MetadataError::InvalidFace));
    let no_prefix = vec![("16x9".to_string(), "1x1+0+0".to_string())];
    let r = WallInfo::from_metadata("p".to_string(), 1, 1, None, None, Some(no_prefix));
    assert_eq!(r.err(), Some(MetadataError::MissingPrefix));
    let zero = vec![(format!("{prefix}0x0"), "1x1+0+0".to_string())];
    let r = WallInfo::from_metadata("p".to_string(), 1, 1, None, None, Some(zero));
    assert_eq!(r.err(), Some(MetadataError::InvalidRatio));
    let bad_crop = vec![(format!("{prefix}16x9"), "x".to_string())];
    let r = WallInfo::from_metadata("p".to_string(), 1, 1, None, None, Some(bad_crop));
    assert_eq!(r.err(), Some(MetadataError::InvalidCrop));
    // faces are checked first
    let both = vec![(format!("{prefix}16x9"), "x".to_string())];
    let r = WallInfo::from_metadata("p".to_string(), 1, 1, None, Some(vec!["1x1".to_string()]), Some(both));
    assert_eq!(r.err(), Some(MetadataError::InvalidFace));
}

#[test]
fn table_finds_wallpapers_by_path() {
    let mut csv = WallpapersCsv::new();
    assert!(csv.get("a.jpg").is_none());
    csv.insert(WallInfo::new("a.jpg".to_string(), 10, 20, vec![], None));
    csv.insert(WallInfo::new("b.jpg".to_string(), 30, 40, vec![], None));
    assert_eq!(csv.get("a.jpg").map(|i| i.width), Some(10));
    assert_eq!(csv.get("b.jpg").map(|i| i.height), Some(40));
    csv.insert(WallInfo::new("a.jpg".to_string(), 11, 21, vec![], None));
    assert_eq!(csv.infos.len(), 2);
    assert_eq!(csv.get("a.jpg").map(|i| i.width), Some(11));
    assert_eq!(csv.get("b.jpg").map(|i| i.width), Some(30));
    assert!(csv.get("c.jpg").is_none());
}
