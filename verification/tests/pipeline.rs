use wallfacer::aspect_ratio::AspectRatio;
use wallfacer::config::{Config, ConfigResolution};
use wallfacer::geometry::Geometry;
use wallfacer::pipeline::{
    optimization_for, placed_name_of, placed_path_of, AddStep, Optimization, Optimizer, UpscaleError,
    WallpaperPipeline, WEBP_MAX_DIMENSION,
};
use wallfacer::wallpapers::WallInfo;

fn config() -> Config {
    Config::default_for("/home/u")
}

fn pipeline(format: Option<&str>) -> WallpaperPipeline {
    WallpaperPipeline::new(&config(), format.map(|f| f.to_string()), &vec![]).unwrap()
}

#[test]
fn orphans_stop_the_pipeline() {
    let images = vec![("/w/a.jpg".to_string(), true), ("/w/b.jpg".to_string(), false), ("/w/c.jpg".to_string(), false)];
    let r = WallpaperPipeline::new(&config(), None, &images);
    assert_eq!(r.err(), Some(vec!["/w/b.jpg".to_string(), "/w/c.jpg".to_string()]));
    let ok = WallpaperPipeline::new(&config(), Some("webp".to_string()), &vec![("/w/a.jpg".to_string(), true)]).unwrap();
    assert_eq!(ok.format, Some("webp".to_string()));
    assert!(ok.to_preview.is_empty());
    assert_eq!(ok.config, config());
}

#[test]
fn results_go_to_the_wallpapers_directory() {
    let p = pipeline(Some("webp"));
    assert_eq!(p.output_path("/in/pic.png"), "/home/u/Pictures/Wallpapers/pic.webp");
    assert_eq!(p.temp_path("/in/pic.png"), "/tmp/pic.webp");
    assert_eq!(p.placed("/in/pic.png", "/x"), "/x/pic.webp");
    let q = pipeline(None);
    assert_eq!(q.output_path("/in/pic.png"), "/home/u/Pictures/Wallpapers/pic.png");
    assert_eq!(placed_name_of("/in/a.b.jpg", &Some("png".to_string())), "a.b.png");
    assert_eq!(placed_path_of("/in/a.jpg", &None, "/d/"), "/d/a.jpg");
}

#[test]
fn adding_an_image_decides_the_next_step() {
    let mut p = pipeline(None);
    let none: Vec<Geometry> = vec![];
    assert_eq!(p.add_image("/in/a.jpg", 1920, 1080, false, false, None, &none), AddStep::Detect);
    let existing = WallInfo::new("/w/a.jpg".to_string(), 1920, 1080, vec![], None);
    let defaults = vec![Geometry { w: 1920, h: 1080, x: 0, y: 0 }];
    // forced: detected again
    assert_eq!(p.add_image("/in/a.jpg", 1920, 1080, true, true, Some(&existing), &defaults), AddStep::Detect);
    // same proportions, no face, default crops: reviewed again
    assert_eq!(p.add_image("/in/a.jpg", 1920, 1080, false, true, Some(&existing), &defaults), AddStep::Done);
    assert_eq!(p.to_preview, vec!["/home/u/Pictures/Wallpapers/a.jpg".to_string()]);
    // edited proportions: detected again
    let bigger = WallInfo::new("/w/a.jpg".to_string(), 3840, 2160, vec![], None);
    assert_eq!(p.add_image("/in/a.jpg", 1920, 1200, false, true, Some(&bigger), &defaults), AddStep::Detect);
    // one face: nothing more
    let one = WallInfo::new("/w/a.jpg".to_string(), 1920, 1080, vec![Geometry { w: 1, h: 1, x: 0, y: 0 }], None);
    assert_eq!(p.add_image("/in/a.jpg", 1920, 1080, false, true, Some(&one), &defaults), AddStep::Done);
    assert_eq!(p.to_preview.len(), 1);
}

#[test]
fn detected_wallpapers_get_the_default_crops() {
    let p = pipeline(None);
    let crop = Geometry { w: 3555, h: 2000, x: 222, y: 0 };
    let faces = vec![Geometry { w: 5, h: 5, x: 1, y: 1 }];
    let info = p.detected_info("/in/a.jpg", 4000, 2000, faces.clone(), &vec![crop]);
    assert_eq!(info.path, "/in/a.jpg");
    assert_eq!((info.width, info.height), (4000, 2000));
    assert_eq!(info.faces, faces);
    assert_eq!(info.scale, None);
    assert_eq!(info.get_geometry(&AspectRatio { w: 16, h: 9 }, Geometry::default()), crop);
}

#[test]
fn upscaling_factor() {
    let p = pipeline(None);
    let small = WallInfo::new("a".to_string(), 1000, 500, vec![], None);
    assert_eq!(p.upscale_scale(&small), Ok(3));
    let exact = WallInfo::new("a".to_string(), 1920, 1080, vec![], None);
    assert_eq!(p.upscale_scale(&exact), Ok(1));
    let tiny = WallInfo::new("a".to_string(), 100, 100, vec![], None);
    assert_eq!(p.upscale_scale(&tiny), Err(UpscaleError::TooSmall));
    let wide = WallInfo::new("a".to_string(), 9000, 300, vec![], None);
    assert_eq!(p.upscale_scale(&wide), Err(UpscaleError::TooLarge));
    assert_eq!(WEBP_MAX_DIMENSION, 16383);
}

#[test]
fn optimizers_by_extension() {
    assert_eq!(optimization_for("a.jpg"), Optimization::Run(Optimizer::Jpg));
    assert_eq!(optimization_for("a.jpeg"), Optimization::Run(Optimizer::Jpg));
    assert_eq!(optimization_for("/t/b.png"), Optimization::Run(Optimizer::Png));
    assert_eq!(optimization_for("c.webp"), Optimization::Run(Optimizer::Webp));
    assert_eq!(optimization_for("d.gif"), Optimization::Unsupported);
    assert_eq!(optimization_for("e"), Optimization::Skip);
}

#[test]
fn optimized_wallpapers_without_one_face_are_reviewed() {
    let mut p = pipeline(Some("png"));
    let one = WallInfo::new("a".to_string(), 1, 1, vec![Geometry::default()], None);
    p.optimized("/tmp/a.jpg", &one);
    assert!(p.to_preview.is_empty());
    let none = WallInfo::new("b".to_string(), 1, 1, vec![], None);
    p.optimized("/tmp/b.jpg", &none);
    assert_eq!(p.to_preview, vec!["/home/u/Pictures/Wallpapers/b.png".to_string()]);
    assert_eq!(p.preview(), Some(vec!["/home/u/Pictures/Wallpapers/b.png".to_string()]));
    assert_eq!(pipeline(None).preview(), None);
}

#[test]
fn resolutions_of_the_config_are_used() {
    let mut cfg = config();
    cfg.resolutions.push(ConfigResolution { name: "UW".to_string(), description: None, resolution: AspectRatio { w: 7, h: 3 } });
    let p = WallpaperPipeline::new(&cfg, None, &vec![]).unwrap();
    let a = Geometry { w: 1, h: 1, x: 0, y: 0 };
    let b = Geometry { w: 2, h: 2, x: 0, y: 0 };
    let info = p.detected_info("x", 10, 10, vec![], &vec![a, b]);
    assert_eq!(info.get_geometry(&AspectRatio { w: 7, h: 3 }, Geometry::default()), b);
    assert_eq!(info.get_geometry(&AspectRatio { w: 16, h: 9 }, Geometry::default()), a);
}
