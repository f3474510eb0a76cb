use wallfacer::aspect_ratio::AspectRatio;
use wallfacer::config::{sort_by_ratio, Config, ConfigError, ConfigResolution, WallpaperConfig};

fn res(name: &str, w: u32, h: u32) -> ConfigResolution {
    ConfigResolution { name: name.to_string(), description: None, resolution: AspectRatio { w, h } }
}

fn old_config(resolutions: Vec<(String, AspectRatio)>) -> WallpaperConfig {
    WallpaperConfig {
        wallpapers_path: "/w".to_string(),
        csv_path: "/c.csv".to_string(),
        min_width: 1920,
        min_height: 1080,
        resolutions,
    }
}

#[test]
fn sorted_resolutions_keep_their_order() {
    let mut cfg = Config::default_for("/home/u");
    cfg.resolutions = vec![res("UW", 7, 3), res("HD", 16, 9)];
    assert_eq!(cfg.sorted_resolutions(), vec![AspectRatio { w: 7, h: 3 }, AspectRatio { w: 16, h: 9 }]);
    cfg.sort_resolutions();
    assert_eq!(cfg.sorted_resolutions(), vec![AspectRatio { w: 16, h: 9 }, AspectRatio { w: 7, h: 3 }]);
    assert_eq!(cfg.resolutions[0].name, "HD");
}

#[test]
fn sorting_by_ratio_is_stable() {
    let v = vec![
        ("b".to_string(), AspectRatio { w: 7, h: 3 }),
        ("a".to_string(), AspectRatio { w: 16, h: 9 }),
        ("c".to_string(), AspectRatio { w: 14, h: 6 }),
        ("d".to_string(), AspectRatio { w: 4, h: 3 }),
    ];
    let sorted = sort_by_ratio(v);
    let names: Vec<String> = sorted.iter().map(|(n, _)| n.clone()).collect();
    assert_eq!(names, vec!["d", "a", "b", "c"]);
}

#[test]
fn adding_a_resolution_keeps_the_order() {
    let mut cfg = old_config(vec![("HD".to_string(), AspectRatio { w: 16, h: 9 })]);
    cfg.add_resolution("UW", AspectRatio { w: 7, h: 3 });
    cfg.add_resolution("V", AspectRatio { w: 9, h: 16 });
    let names: Vec<String> = cfg.resolutions.iter().map(|(n, _)| n.clone()).collect();
    assert_eq!(names, vec!["V", "HD", "UW"]);
    assert_eq!(
        cfg.sorted_resolutions(),
        vec![AspectRatio { w: 9, h: 16 }, AspectRatio { w: 16, h: 9 }, AspectRatio { w: 7, h: 3 }]
    );
    assert_eq!(cfg.wallpapers_path, "/w");
}

#[test]
fn closest_resolution_skips_equal_ratios() {
    let cfg = old_config(vec![
        ("HD".to_string(), AspectRatio { w: 16, h: 9 }),
        ("43".to_string(), AspectRatio { w: 4, h: 3 }),
        ("UW".to_string(), AspectRatio { w: 21, h: 9 }),
    ]);
    assert_eq!(cfg.closest_resolution(&AspectRatio { w: 16, h: 10 }), Some(AspectRatio { w: 16, h: 9 }));
    assert_eq!(cfg.closest_resolution(&AspectRatio { w: 16, h: 9 }), Some(AspectRatio { w: 4, h: 3 }));
    assert_eq!(cfg.closest_resolution(&AspectRatio { w: 3, h: 1 }), Some(AspectRatio { w: 21, h: 9 }));
    assert_eq!(old_config(vec![]).closest_resolution(&AspectRatio { w: 1, h: 1 }), None);
    // all equal: the first
    let same = old_config(vec![("a".to_string(), AspectRatio { w: 1, h: 1 }), ("b".to_string(), AspectRatio { w: 2, h: 2 })]);
    assert_eq!(same.closest_resolution(&AspectRatio { w: 1, h: 1 }), Some(AspectRatio { w: 1, h: 1 }));
}

#[test]
fn default_settings() {
    let cfg = Config::default_for("/home/u");
    assert_eq!(cfg.wallpapers_dir, "/home/u/Pictures/Wallpapers");
    assert_eq!(cfg.min_width, 1920);
    assert_eq!(cfg.min_height, 1080);
    assert!(!cfg.show_faces);
    assert_eq!(cfg.resolutions.len(), 1);
    assert_eq!(cfg.resolutions[0].name, "HD");
    assert_eq!(cfg.resolutions[0].description, Some("Full HD (1920x1080)".to_string()));
    assert_eq!(cfg.resolutions[0].resolution, AspectRatio { w: 16, h: 9 });
    assert_eq!(cfg.wallpaper_command, None);
    let old = WallpaperConfig::default_for("/home/u", "/home/u/.config");
    assert_eq!(old.wallpapers_path, "/home/u/Pictures/Wallpapers");
    assert_eq!(old.csv_path, "/home/u/.config/wallpaper-ui/wallpapers.csv");
    assert_eq!(old.resolutions, vec![("HD".to_string(), AspectRatio { w: 16, h: 9 })]);
    let copy = cfg.clone();
    assert_eq!(copy, cfg);
}

#[test]
fn settings_replace_defaults() {
    let given = vec![("UW".to_string(), "21x9".to_string()), ("HD".to_string(), "1920x1080".to_string())];
    let cfg = WallpaperConfig::from_settings("/home/u", "/cfg", Some("~/w"), None, Some("2560"), Some(&given)).unwrap();
    assert_eq!(cfg.wallpapers_path, "/home/u/w");
    assert_eq!(cfg.csv_path, "/cfg/wallpaper-ui/wallpapers.csv");
    assert_eq!(cfg.min_width, 2560);
    assert_eq!(cfg.min_height, 2560);
    assert_eq!(
        cfg.resolutions,
        vec![("HD".to_string(), AspectRatio { w: 16, h: 9 }), ("UW".to_string(), AspectRatio { w: 7, h: 3 })]
    );
    let plain = WallpaperConfig::from_settings("/home/u", "/cfg", None, Some("/x.csv"), None, None).unwrap();
    assert_eq!(plain.csv_path, "/x.csv");
    assert_eq!(plain.min_width, 1920);
    assert_eq!(plain.min_height, 1920);
    assert_eq!(plain.resolutions, vec![("HD".to_string(), AspectRatio { w: 16, h: 9 })]);
}

#[test]
fn invalid_settings() {
    assert_eq!(
        WallpaperConfig::from_settings("/h", "/c", None, None, Some("abc"), None),
        Err(ConfigError::InvalidConfig)
    );
    let zero = vec![("Z".to_string(), "0x0".to_string())];
    assert_eq!(
        WallpaperConfig::from_settings("/h", "/c", None, None, None, Some(&zero)),
        Err(ConfigError::InvalidConfig)
    );
    let bad = vec![("B".to_string(), "wide".to_string())];
    assert_eq!(
        WallpaperConfig::from_settings("/h", "/c", None, None, None, Some(&bad)),
        Err(ConfigError::InvalidConfig)
    );
}
