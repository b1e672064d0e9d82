use walk_the_dog::animator::{AnimError, SpriteAnimator};
use walk_the_dog::atlas::{FrameAtlas, FramePattern};
use walk_the_dog::surface::{DrawList, DrawOp, FrameRect, ScreenRect};

fn rect(i: u32) -> FrameRect {
    FrameRect { x: 120 * i, y: 0, w: 120, h: 160 }
}

fn run_atlas(frames: u32) -> FrameAtlas {
    let mut a = FrameAtlas::new();
    for n in 1..=frames {
        a.insert(&format!("Run ({}).png", n), rect(n));
    }
    a
}

fn clear() -> ScreenRect {
    ScreenRect { x: 0, y: 0, w: 600, h: 600 }
}

fn animator(atlas: FrameAtlas, frame_count: usize) -> SpriteAnimator {
    SpriteAnimator::start(atlas, FramePattern::new("Run (", ").png"), frame_count, clear(), 300, 300, 50)
}

#[test]
fn first_tick_draws_first_frame() {
    let mut a = animator(run_atlas(8), 8);
    let mut list = DrawList::new();
    assert_eq!(list.len(), 0);
    assert_eq!(a.next_frame_name(), "Run (1).png");
    assert_eq!(a.tick(&mut list), Ok(()));
    assert_eq!(a.current_index(), 0);
    let expected = vec![
        DrawOp::ClearRect(clear()),
        DrawOp::DrawImageRegion { src: rect(1), dst_x: 300, dst_y: 300 },
    ];
    assert_eq!(list.ops(), &expected);
    assert_eq!(a.interval_ms(), 50);
}

#[test]
fn eight_ticks_return_to_first_frame() {
    let mut a = animator(run_atlas(8), 8);
    let mut list = DrawList::new();
    a.tick(&mut list).unwrap();
    let first = a.current_index();
    let first_src = list.ops()[1];
    for _ in 0..8 {
        a.tick(&mut list).unwrap();
    }
    assert_eq!(a.current_index(), first);
    assert_eq!(list.ops()[list.len() - 1], first_src);
    assert_eq!(a.next_frame_name(), "Run (2).png");
}

#[test]
fn index_cycles_through_every_frame() {
    let mut a = animator(run_atlas(5), 5);
    let mut list = DrawList::new();
    let mut seen = Vec::new();
    for _ in 0..5 {
        a.tick(&mut list).unwrap();
        assert!(a.current_index() < a.frame_count());
        seen.push(a.current_index());
    }
    assert_eq!(seen, vec![0, 1, 2, 3, 4]);
    a.tick(&mut list).unwrap();
    assert_eq!(a.current_index(), 0);
}

#[test]
fn single_frame_always_index_zero() {
    let mut a = animator(run_atlas(1), 1);
    let mut list = DrawList::new();
    for _ in 0..3 {
        a.tick(&mut list).unwrap();
        assert_eq!(a.current_index(), 0);
    }
    assert_eq!(list.len(), 6);
}

#[test]
fn missing_frame_fails_after_advancing() {
    // the atlas lacks frames 4 and up
    let mut a = animator(run_atlas(3), 8);
    let mut list = DrawList::new();
    for _ in 0..3 {
        a.tick(&mut list).unwrap();
    }
    let drawn = list.len();
    assert_eq!(a.tick(&mut list), Err(AnimError::FrameNotFound));
    assert_eq!(a.current_index(), 3);
    assert_eq!(list.len(), drawn);
    assert!(a.is_running());
    assert_eq!(a.tick(&mut list), Err(AnimError::FrameNotFound));
    assert_eq!(a.current_index(), 4);
}

#[test]
fn cancelled_animator_never_ticks() {
    let mut a = animator(run_atlas(8), 8);
    let mut list = DrawList::new();
    a.tick(&mut list).unwrap();
    a.cancel();
    assert!(!a.is_running());
    let index = a.current_index();
    for _ in 0..10 {
        assert_eq!(a.tick(&mut list), Ok(()));
    }
    assert_eq!(a.current_index(), index);
    assert_eq!(list.len(), 2);
}
