use wallfacer::aspect_ratio::AspectRatio;
use wallfacer::cropper::{sort_faces_by_direction, Cropper, Direction, FaceShare};
use wallfacer::geometry::Geometry;

fn face(x: u32, y: u32, w: u32, h: u32) -> Geometry {
    Geometry { w, h, x, y }
}

#[test]
fn crop_rect_is_the_largest_rectangle_of_the_ratio() {
    let hd = AspectRatio { w: 16, h: 9 };
    assert_eq!(Cropper::new(&vec![], 3000, 2000).crop_rect(&hd), (3000, 1687, Direction::Y));
    assert_eq!(Cropper::new(&vec![], 4000, 2000).crop_rect(&hd), (3555, 2000, Direction::X));
    assert_eq!(Cropper::new(&vec![], 1920, 1080).crop_rect(&hd), (1920, 1080, Direction::Y));
    assert_eq!(
        Cropper::new(&vec![], 2000, 4000).crop_rect(&hd),
        (2000, 1125, Direction::Y)
    );
}

#[test]
fn clamp_keeps_the_crop_inside() {
    let c = Cropper::new(&vec![], 4000, 2000);
    assert_eq!(c.clamp(100, Direction::X, 3555, 2000), face(100, 0, 3555, 2000));
    assert_eq!(c.clamp(1000, Direction::X, 3555, 2000), face(445, 0, 3555, 2000));
    assert_eq!(c.clamp(0, Direction::X, 3555, 2000), face(0, 0, 3555, 2000));
    assert_eq!(c.clamp(5000, Direction::Y, 4000, 1500), face(0, 500, 4000, 1500));
}

#[test]
fn trivial_crops() {
    // the whole image
    let c = Cropper::new(&vec![], 1920, 1080);
    assert_eq!(c.crop_trivial(Direction::Y, 1920, 1080), Some(face(0, 0, 1920, 1080)));
    // no face: the middle
    let c = Cropper::new(&vec![], 4000, 2000);
    assert_eq!(c.crop_trivial(Direction::X, 3555, 2000), Some(face(222, 0, 3555, 2000)));
    let c = Cropper::new(&vec![], 2000, 4000);
    assert_eq!(c.crop_trivial(Direction::Y, 2000, 1125), Some(face(0, 1437, 2000, 1125)));
    // one face
    let c = Cropper::new(&vec![face(3000, 0, 400, 400)], 4000, 2000);
    assert_eq!(c.crop_trivial(Direction::X, 3555, 2000), Some(face(445, 0, 3555, 2000)));
    // several faces need a search
    let c = Cropper::new(&vec![face(0, 0, 10, 10), face(50, 0, 10, 10)], 4000, 2000);
    assert_eq!(c.crop_trivial(Direction::X, 3555, 2000), None);
}

#[test]
fn single_face_crops() {
    let c = Cropper::new(&vec![face(3000, 0, 400, 400)], 4000, 2000);
    assert_eq!(c.crop_single_face(Direction::X, 3555, 2000), face(445, 0, 3555, 2000));
    let c = Cropper::new(&vec![face(100, 50, 200, 200)], 4000, 2000);
    assert_eq!(c.crop_single_face(Direction::X, 3555, 2000), face(0, 0, 3555, 2000));
    let c = Cropper::new(&vec![face(1500, 1000, 100, 100)], 4000, 2000);
    assert_eq!(c.crop_single_face(Direction::X, 1000, 2000), face(1050, 0, 1000, 2000));
    // 15% of the height above the face
    let c = Cropper::new(&vec![face(0, 1000, 100, 100)], 2000, 4000);
    assert_eq!(c.crop_single_face(Direction::Y, 2000, 1125), face(0, 400, 2000, 1125));
    let c = Cropper::new(&vec![face(0, 100, 100, 100)], 2000, 4000);
    assert_eq!(c.crop_single_face(Direction::Y, 2000, 1125), face(0, 0, 2000, 1125));
}

#[test]
fn faces_sort_by_direction() {
    let a = face(30, 1, 5, 5);
    let b = face(10, 9, 5, 5);
    let c = face(20, 5, 5, 5);
    assert_eq!(sort_faces_by_direction(vec![a, b, c], Direction::X), vec![b, c, a]);
    assert_eq!(sort_faces_by_direction(vec![a, b, c], Direction::Y), vec![a, c, b]);
    // equal keys keep their order
    let d = face(10, 0, 7, 7);
    assert_eq!(sort_faces_by_direction(vec![d, b], Direction::X), vec![d, b]);
}

#[test]
fn sliding_window_covers_the_faces() {
    let faces = vec![face(100, 0, 100, 100), face(3800, 0, 100, 100)];
    let c = Cropper::new(&faces, 4000, 2000);
    assert_eq!(c.sliding_window_range(&faces, Direction::X, 3555), (0, 445));
    let faces = vec![face(2000, 0, 100, 100), face(2100, 0, 100, 100)];
    let c = Cropper::new(&faces, 4000, 2000);
    assert_eq!(c.sliding_window_range(&faces, Direction::X, 1000), (1550, 2650));
}

#[test]
fn candidates_for_several_faces() {
    let hd = AspectRatio { w: 16, h: 9 };
    let same = vec![face(100, 0, 100, 100), face(3800, 0, 100, 100)];
    assert_eq!(Cropper::new(&same, 4000, 2000).crop_candidates(&hd), vec![face(345, 0, 3555, 2000)]);
    let different = vec![face(100, 0, 100, 100), face(3700, 0, 200, 100)];
    assert_eq!(
        Cropper::new(&different, 4000, 2000).crop_candidates(&hd),
        vec![face(50, 0, 3555, 2000), face(395, 0, 3555, 2000)]
    );
    // a trivial crop is the only candidate
    assert_eq!(Cropper::new(&vec![], 1920, 1080).crop_candidates(&hd), vec![face(0, 0, 1920, 1080)]);
}

#[test]
fn window_coverage_counts_whole_and_partial_faces() {
    let faces = vec![face(100, 0, 100, 100), face(3800, 0, 100, 50)];
    let w = Cropper::window_coverage(&faces, Direction::X, 0, 3555);
    assert_eq!(w.shares, vec![FaceShare::Whole]);
    assert_eq!(w.faces_area, 10000);
    let w = Cropper::window_coverage(&faces, Direction::X, 0, 3850);
    assert_eq!(w.shares, vec![FaceShare::Whole, FaceShare::Part { covered: 50, length: 100 }]);
    assert_eq!(w.faces_area, 12500);
    let w = Cropper::window_coverage(&faces, Direction::X, 300, 3000);
    assert_eq!(w.shares, vec![]);
    assert_eq!(w.faces_area, 0);
}

#[test]
fn crop_from_face_areas_takes_the_middle_of_the_largest() {
    let c = Cropper::new(&vec![], 4000, 2000);
    let areas = vec![(5, 10), (7, 30), (7, 20), (7, 40)];
    assert_eq!(c.crop_from_face_areas(&areas, Direction::X, 3555, 2000), face(30, 0, 3555, 2000));
    let areas = vec![(9, 400), (9, 420)];
    assert_eq!(c.crop_from_face_areas(&areas, Direction::X, 3555, 2000), face(420, 0, 3555, 2000));
}

#[test]
fn crop_picks_the_middle_of_the_chosen_windows() {
    let hd = AspectRatio { w: 16, h: 9 };
    let faces = vec![face(100, 0, 100, 100), face(3800, 0, 100, 100)];
    let c = Cropper::new(&faces, 4000, 2000);
    // windows start at 0..=445
    let mut best = vec![false; 446];
    for b in best.iter_mut().take(101) {
        *b = true;
    }
    assert_eq!(c.crop(&hd, &best), face(50, 0, 3555, 2000));
    // the largest face area wins among the chosen windows
    let mut best = vec![false; 446];
    best[0] = true;
    best[300] = true;
    best[400] = true;
    // window 300 holds only part of the second face
    assert_eq!(c.crop(&hd, &best), face(400, 0, 3555, 2000));
    // trivial crops need no windows
    assert_eq!(Cropper::new(&vec![], 1920, 1080).crop(&hd, &vec![]), face(0, 0, 1920, 1080));
    assert_eq!(Cropper::new(&vec![face(3000, 0, 400, 400)], 4000, 2000).crop(&hd, &vec![]), face(445, 0, 3555, 2000));
}
