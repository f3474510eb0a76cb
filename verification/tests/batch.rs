use wallfacer::aspect_ratio::AspectRatio;
use wallfacer::batch::{get_scale_factor, WallpaperPipeline};
use wallfacer::config::WallpaperConfig;
use wallfacer::geometry::Geometry;
use wallfacer::pipeline::{Optimization, Optimizer};
use wallfacer::wallpapers::{WallInfo, WallpapersCsv};

fn config() -> WallpaperConfig {
    WallpaperConfig {
        wallpapers_path: "/w".to_string(),
        csv_path: "/c.csv".to_string(),
        min_width: 1920,
        min_height: 1080,
        resolutions: vec![("HD".to_string(), AspectRatio { w: 16, h: 9 })],
    }
}

fn pipeline(format: Option<&str>, csv: WallpapersCsv, images: Vec<String>) -> WallpaperPipeline {
    WallpaperPipeline::new(&config(), 1920, 1080, format.map(|f| f.to_string()), csv, &images)
}

#[test]
fn scale_factor() {
    assert_eq!(get_scale_factor(1000, 500, 1920, 1080), 3);
    assert_eq!(get_scale_factor(1920, 1080, 1920, 1080), 1);
    assert_eq!(get_scale_factor(480, 270, 1920, 1080), 4);
}

#[test]
fn unknown_wallpapers_wait_for_detection() {
    let mut csv = WallpapersCsv::new();
    csv.insert(WallInfo::new("a.jpg".to_string(), 1, 1, vec![], None));
    let p = pipeline(None, csv, vec!["/w/a.jpg".to_string(), "/w/b.jpg".to_string()]);
    assert_eq!(p.to_detect, vec!["/w/b.jpg".to_string()]);
    assert!(p.to_upscale.is_empty() && p.to_optimize.is_empty() && p.to_preview.is_empty());
    assert_eq!(p.wall_dir, "/w");
    assert_eq!(p.resolutions, vec![AspectRatio { w: 16, h: 9 }]);
}

#[test]
fn new_images_queue_by_size() {
    let mut p = pipeline(None, WallpapersCsv::new(), vec![]);
    let defaults = vec![Geometry::default()];
    p.add_image("/in/a.jpg", false, 1920, 1080, false, &defaults);
    assert_eq!(p.to_optimize, vec!["/in/a.jpg".to_string()]);
    p.add_image("/in/b.jpg", false, 1000, 500, false, &defaults);
    assert_eq!(p.to_upscale, vec![("/in/b.jpg".to_string(), 3)]);
    // the result exists but the table does not know it
    p.add_image("/in/c.png", false, 1920, 1080, true, &defaults);
    assert_eq!(p.to_detect, vec!["/w/c.png".to_string()]);
    // forced
    p.add_image("/in/d.jpg", true, 1920, 1080, true, &defaults);
    assert_eq!(p.to_optimize, vec!["/in/a.jpg".to_string(), "/in/d.jpg".to_string()]);
}

#[test]
fn existing_images_are_processed_or_reviewed_again() {
    let mut csv = WallpapersCsv::new();
    csv.insert(WallInfo::new("a.webp".to_string(), 3840, 2160, vec![], None));
    csv.insert(WallInfo::new("b.webp".to_string(), 1920, 1080, vec![], None));
    let mut p = pipeline(Some("webp"), csv, vec![]);
    let defaults = vec![Geometry { w: 1920, h: 1080, x: 0, y: 0 }];
    // proportions changed: processed again
    p.add_image("/in/a.jpg", false, 1920, 1200, true, &defaults);
    assert_eq!(p.to_optimize, vec!["/in/a.jpg".to_string()]);
    // default crops and no face: reviewed again
    p.add_image("/in/b.jpg", false, 1920, 1080, true, &defaults);
    assert_eq!(p.to_preview, vec!["/w/b.webp".to_string()]);
}

#[test]
fn upscaled_images_are_optimized_next() {
    let mut p = pipeline(Some("png"), WallpapersCsv::new(), vec![]);
    p.to_upscale = vec![("/in/a.jpg".to_string(), 2), ("/in/b.jpg".to_string(), 4)];
    let jobs = p.upscale_images();
    assert_eq!(jobs.len(), 2);
    assert_eq!(jobs[0].src, "/in/a.jpg");
    assert_eq!(jobs[0].scale, 2);
    assert_eq!(jobs[0].dest, "/tmp/a.png");
    assert_eq!(jobs[0].progress, "[1/2]");
    assert_eq!(jobs[1].dest, "/tmp/b.png");
    assert_eq!(jobs[1].progress, "[2/2]");
    assert_eq!(p.to_optimize, vec!["/tmp/a.png".to_string(), "/tmp/b.png".to_string()]);
}

#[test]
fn optimized_images_are_detected_next() {
    let mut p = pipeline(None, WallpapersCsv::new(), vec![]);
    p.to_optimize = vec!["/tmp/a.png".to_string(), "/in/b.jpeg".to_string(), "/in/c.bmp".to_string()];
    let jobs = p.optimize_images();
    assert_eq!(jobs.len(), 3);
    assert_eq!(jobs[0].dest, "/w/a.png");
    assert_eq!(jobs[0].optimization, Optimization::Run(Optimizer::Png));
    assert_eq!(jobs[1].optimization, Optimization::Run(Optimizer::Jpg));
    assert_eq!(jobs[2].optimization, Optimization::Unsupported);
    assert_eq!(jobs[2].progress, "[3/3]");
    assert_eq!(p.to_detect, vec!["/w/a.png".to_string(), "/w/b.jpeg".to_string(), "/w/c.bmp".to_string()]);
}

#[test]
fn detections_are_stored_and_reviewed() {
    let mut p = pipeline(None, WallpapersCsv::new(), vec![]);
    let crop = Geometry { w: 3555, h: 2000, x: 222, y: 0 };
    p.add_detected("/w/a.png", 4000, 2000, vec![], &vec![crop]);
    let info = p.wallpapers_csv.get("a.png").unwrap();
    assert_eq!(info.width, 4000);
    assert_eq!(info.get_geometry(&AspectRatio { w: 16, h: 9 }, Geometry::default()), crop);
    assert_eq!(p.to_preview, vec!["/w/a.png".to_string()]);
    p.add_detected("/w/b.png", 10, 10, vec![Geometry::default()], &vec![crop]);
    assert_eq!(p.to_preview.len(), 1);
    assert_eq!(p.preview(), Some(vec!["/w/a.png".to_string()]));
    assert_eq!(pipeline(None, WallpapersCsv::new(), vec![]).preview(), None);
}
