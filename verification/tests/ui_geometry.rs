use cap_rendering::geometry::{clip_to_display, DisplayRelativeRect, PhysicalRect};
use cap_rendering::hit_chain::{element_hit, HitChain, MAX_HIT_DEPTH};

fn scaled(clip: DisplayRelativeRect, display: PhysicalRect, logical: (f64, f64)) -> [f64; 4] {
    let scale_x = logical.0 / display.width() as f64;
    let scale_y = logical.1 / display.height() as f64;
    [
        clip.x as f64 * scale_x,
        clip.y as f64 * scale_y,
        clip.width as f64 * scale_x,
        clip.height as f64 * scale_y,
    ]
}

#[test]
fn converts_physical_bounds_with_display_scaling() {
    let display = PhysicalRect::new(100, 200, 2100, 1200);
    let clip = clip_to_display(&PhysicalRect::new(150, 250, 650, 750), &display).unwrap();
    assert_eq!(clip, DisplayRelativeRect { x: 50, y: 50, width: 500, height: 500 });
    let logical = scaled(clip, display, (1600.0, 800.0));
    assert_eq!((logical[0], logical[1]), (40.0, 40.0));
    assert_eq!((logical[2], logical[3]), (400.0, 400.0));
}

#[test]
fn handles_negative_display_origins_and_clips_bounds() {
    let display = PhysicalRect::new(-1920, 0, 0, 1080);
    let clip = clip_to_display(&PhysicalRect::new(-2200, -100, -1200, 700), &display).unwrap();
    assert_eq!(clip, DisplayRelativeRect { x: 0, y: 0, width: 720, height: 700 });
    let logical = scaled(clip, display, (1536.0, 864.0));
    assert_eq!((logical[0], logical[1]), (0.0, 0.0));
    assert_eq!((logical[2], logical[3]), (576.0, 560.0));
}

#[test]
fn rejects_rectangles_outside_the_display() {
    assert!(clip_to_display(
        &PhysicalRect::new(2000, 0, 2200, 200),
        &PhysicalRect::new(0, 0, 1920, 1080),
    )
    .is_none());
}

#[test]
fn rect_is_normalized_from_any_corner_order() {
    let r = PhysicalRect::new(650, 750, 150, 250);
    assert_eq!((r.left(), r.top(), r.right(), r.bottom()), (150, 250, 650, 750));
    assert_eq!(r, PhysicalRect::new(150, 250, 650, 750));
    assert_eq!(r.width(), 500);
    assert_eq!(r.height(), 500);
}

#[test]
fn contains_is_half_open() {
    let r = PhysicalRect::new(0, 0, 10, 20);
    assert!(r.contains(0, 0));
    assert!(r.contains(9, 19));
    assert!(!r.contains(10, 5));
    assert!(!r.contains(5, 20));
    assert!(!r.contains(-1, 5));
}

#[test]
fn intersection_is_commutative_and_holds_common_points() {
    let a = PhysicalRect::new(0, 0, 100, 100);
    let b = PhysicalRect::new(50, -20, 150, 60);
    let ab = a.intersect(&b).unwrap();
    let ba = b.intersect(&a).unwrap();
    assert_eq!(ab, ba);
    assert_eq!((ab.left(), ab.top(), ab.right(), ab.bottom()), (50, 0, 100, 60));
    for (x, y) in [(50, 0), (99, 59), (100, 10), (49, 10), (70, 60), (70, -5)] {
        assert_eq!(ab.contains(x, y), a.contains(x, y) && b.contains(x, y));
    }
}

#[test]
fn touching_rectangles_do_not_intersect() {
    let a = PhysicalRect::new(0, 0, 10, 10);
    assert!(a.intersect(&PhysicalRect::new(10, 0, 20, 10)).is_none());
    assert!(a.intersect(&PhysicalRect::new(0, 10, 10, 20)).is_none());
    assert!(a.intersect(&PhysicalRect::new(0, 0, 0, 10)).is_none());
}

#[test]
fn element_hit_needs_an_onscreen_element_under_the_cursor() {
    let window = PhysicalRect::new(0, 0, 800, 600);
    let rect = Some((700, 500, 900, 700));
    let hit = element_hit(Some(false), rect, &window, 750, 550).unwrap();
    assert_eq!((hit.left(), hit.top(), hit.right(), hit.bottom()), (700, 500, 800, 600));
    // clipped away by the window
    assert!(element_hit(Some(false), rect, &window, 850, 550).is_none());
    // offscreen, or unknown visibility
    assert!(element_hit(Some(true), rect, &window, 750, 550).is_none());
    assert!(element_hit(None, rect, &window, 750, 550).is_none());
    // no bounds reported
    assert!(element_hit(Some(false), None, &window, 750, 550).is_none());
}

#[test]
fn hit_chain_skips_repeated_bounds_and_lists_innermost_first() {
    let outer = PhysicalRect::new(0, 0, 1000, 1000);
    let inner = PhysicalRect::new(100, 100, 300, 200);
    let offscreen = PhysicalRect::new(5000, 5000, 5100, 5100);
    let mut chain = HitChain::new();
    chain.record(outer);
    chain.record(outer);
    chain.record(offscreen);
    chain.record(inner);
    chain.record(inner);
    let display = PhysicalRect::new(0, 0, 1920, 1080);
    let on_display = chain.on_display(&display);
    assert_eq!(
        on_display,
        vec![
            DisplayRelativeRect { x: 100, y: 100, width: 200, height: 100 },
            DisplayRelativeRect { x: 0, y: 0, width: 1000, height: 1000 },
        ]
    );
}

#[test]
fn hit_chain_probes_at_most_the_maximum_depth() {
    let mut chain = HitChain::new();
    let mut probes = 0;
    while chain.can_probe() {
        chain.record(PhysicalRect::new(probes, 0, probes + 10, 10));
        probes += 1;
    }
    assert_eq!(probes as usize, MAX_HIT_DEPTH);
    assert_eq!(chain.on_display(&PhysicalRect::new(-100, -100, 1000, 1000)).len(), MAX_HIT_DEPTH);
}
