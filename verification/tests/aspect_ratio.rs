use std::cmp::Ordering;
use wallfacer::aspect_ratio::{AspectRatio, AspectRatioError};

#[test]
fn ratio_in_lowest_terms() {
    assert_eq!(AspectRatio::new(1920, 1080), AspectRatio { w: 16, h: 9 });
    assert_eq!(AspectRatio::new(3440, 1440), AspectRatio { w: 43, h: 18 });
    assert_eq!(AspectRatio::new(16, 9), AspectRatio { w: 16, h: 9 });
    assert_eq!(AspectRatio::new(0, 5), AspectRatio { w: 0, h: 1 });
    assert_eq!(AspectRatio::new(7, 0), AspectRatio { w: 1, h: 0 });
    // reducing twice changes nothing
    let r = AspectRatio::new(2560, 1600);
    assert_eq!(AspectRatio::new(r.w, r.h), r);
}

#[test]
fn ratio_reads_and_writes_text() {
    assert_eq!(AspectRatio::try_from("1920x1080"), Ok(AspectRatio { w: 16, h: 9 }));
    assert_eq!(AspectRatio::try_from("+4x+2"), Ok(AspectRatio { w: 2, h: 1 }));
    assert_eq!(AspectRatio { w: 16, h: 9 }.to_string(), "16x9");
    let r = AspectRatio { w: 21, h: 9 };
    assert_eq!(AspectRatio::try_from(r.to_string().as_str()), Ok(AspectRatio { w: 7, h: 3 }));
    let lowest = AspectRatio { w: 7, h: 3 };
    assert_eq!(AspectRatio::try_from(lowest.to_string().as_str()), Ok(lowest));
}

#[test]
fn ratio_rejects_bad_text() {
    assert_eq!(AspectRatio::try_from("abc"), Err(AspectRatioError::InvalidAspectRatio));
    assert_eq!(AspectRatio::try_from("1x2x3"), Err(AspectRatioError::InvalidAspectRatio));
    assert_eq!(AspectRatio::try_from("16x"), Err(AspectRatioError::InvalidAspectRatio));
    assert_eq!(AspectRatio::try_from_nonzero("0x0"), None);
    assert_eq!(AspectRatio::try_from_nonzero("2x4"), Some(AspectRatio { w: 1, h: 2 }));
    assert_eq!(AspectRatio::try_from_nonzero("2x"), None);
}

#[test]
fn ratios_order_by_value() {
    let hd = AspectRatio { w: 16, h: 9 };
    let four_three = AspectRatio { w: 4, h: 3 };
    let uw = AspectRatio { w: 7, h: 3 };
    assert_eq!(hd.compare(&four_three), Ordering::Greater);
    assert_eq!(four_three.compare(&hd), Ordering::Less);
    assert_eq!(uw.compare(&AspectRatio { w: 21, h: 9 }), Ordering::Equal);
    assert!(four_three.le(&hd));
    assert!(!uw.le(&hd));
    assert!(hd.le(&hd));
}
