use wallfacer::aspect_ratio::AspectRatio;
use wallfacer::geometry::Geometry;
use wallfacer::resolutions::{center_new_crop, closest_existing_resolution, new_resolution_crop};
use wallfacer::wallpapers::WallInfo;

fn geom(w: u32, h: u32, x: u32, y: u32) -> Geometry {
    Geometry { w, h, x, y }
}

#[test]
fn closest_existing_resolution_skips_the_new_one() {
    let res = vec![AspectRatio { w: 16, h: 9 }, AspectRatio { w: 4, h: 3 }, AspectRatio { w: 21, h: 9 }];
    assert_eq!(closest_existing_resolution(&res, &AspectRatio { w: 16, h: 9 }), Some(AspectRatio { w: 4, h: 3 }));
    assert_eq!(closest_existing_resolution(&res, &AspectRatio { w: 16, h: 10 }), Some(AspectRatio { w: 16, h: 9 }));
    assert_eq!(closest_existing_resolution(&vec![AspectRatio { w: 1, h: 1 }], &AspectRatio { w: 1, h: 1 }), None);
    assert_eq!(closest_existing_resolution(&vec![], &AspectRatio { w: 1, h: 1 }), None);
    // ties go to the first
    let tie = vec![AspectRatio { w: 1, h: 1 }, AspectRatio { w: 3, h: 1 }];
    assert_eq!(closest_existing_resolution(&tie, &AspectRatio { w: 2, h: 1 }), Some(AspectRatio { w: 1, h: 1 }));
}

#[test]
fn new_crops_are_centred_on_the_old_ones() {
    let info = WallInfo::new("a".to_string(), 4000, 2000, vec![], None);
    let new_crop = geom(2000, 2000, 1000, 0);
    assert_eq!(center_new_crop(&geom(3555, 2000, 1000, 0), &new_crop, &info), (geom(2000, 2000, 1777, 0), true));
    assert_eq!(center_new_crop(&geom(3555, 2000, 445, 0), &new_crop, &info), (geom(2000, 2000, 1222, 0), true));
    // pushed against an edge: not reviewed
    assert_eq!(center_new_crop(&geom(1000, 2000, 0, 0), &new_crop, &info), (geom(2000, 2000, 0, 0), false));
    assert_eq!(center_new_crop(&geom(1000, 2000, 3000, 0), &new_crop, &info), (geom(2000, 2000, 2000, 0), false));
    // vertical crops keep the old start
    let tall = WallInfo::new("b".to_string(), 2000, 4000, vec![], None);
    assert_eq!(
        center_new_crop(&geom(2000, 1125, 0, 700), &geom(2000, 1500, 0, 0), &tall),
        (geom(2000, 1500, 0, 700), true)
    );
}

#[test]
fn new_resolution_crops() {
    let mut info = WallInfo::new("a".to_string(), 4000, 2000, vec![], None);
    let hd = AspectRatio { w: 16, h: 9 };
    let new_default = geom(2000, 2000, 1000, 0);
    let hd_default = geom(3555, 2000, 222, 0);
    // no nearest ratio
    assert_eq!(new_resolution_crop(&info, None, new_default, hd_default), (new_default, false));
    // the nearest ratio keeps its default crop
    assert_eq!(new_resolution_crop(&info, Some(hd), new_default, hd_default), (new_default, false));
    // the nearest ratio's crop was moved: follow it
    info.set_geometry(&hd, &geom(3555, 2000, 445, 0));
    assert_eq!(new_resolution_crop(&info, Some(hd), new_default, hd_default), (geom(2000, 2000, 1222, 0), true));
    // different directions
    let wide_new = geom(4000, 1000, 0, 500);
    assert_eq!(new_resolution_crop(&info, Some(hd), wide_new, hd_default), (wide_new, true));
}
