use walk_the_dog::atlas::{decimal_string, FrameAtlas, FramePattern};
use walk_the_dog::surface::FrameRect;

fn rect(x: u32) -> FrameRect {
    FrameRect { x, y: 0, w: 120, h: 160 }
}

#[test]
fn decimal_strings() {
    assert_eq!(decimal_string(0), "0");
    assert_eq!(decimal_string(7), "7");
    assert_eq!(decimal_string(10), "10");
    assert_eq!(decimal_string(1203), "1203");
    assert_eq!(decimal_string(usize::MAX), usize::MAX.to_string());
}

#[test]
fn pattern_names_frames() {
    let p = FramePattern::new("Run (", ").png");
    assert_eq!(p.name_for(1), "Run (1).png");
    assert_eq!(p.name_for(8), "Run (8).png");
    assert_eq!(p.name_for(12), "Run (12).png");
    let bare = FramePattern::new("", "");
    assert_eq!(bare.name_for(42), "42");
}

#[test]
fn atlas_insert_and_get() {
    let mut a = FrameAtlas::new();
    assert_eq!(a.len(), 0);
    assert_eq!(a.get("Run (1).png"), None);
    a.insert("Run (1).png", rect(0));
    a.insert("Run (2).png", rect(120));
    assert_eq!(a.len(), 2);
    assert_eq!(a.get("Run (1).png"), Some(rect(0)));
    assert_eq!(a.get("Run (2).png"), Some(rect(120)));
    assert_eq!(a.get("Run (3).png"), None);
    assert_eq!(a.get(""), None);
}

#[test]
fn atlas_insert_same_name_replaces() {
    let mut a = FrameAtlas::new();
    a.insert("Idle (1).png", rect(0));
    a.insert("Idle (1).png", rect(240));
    assert_eq!(a.len(), 1);
    assert_eq!(a.get("Idle (1).png"), Some(rect(240)));
}
