use screenvidcap::capture::{find_display, DisplayBounds};
use screenvidcap::ui::{render_ui, CONTROLLER_HEIGHT, CONTROLLER_WIDTH};

#[test]
fn render_ui_uses_display_of_corner() {
    let d = vec![
        DisplayBounds { x: 0, y: 0, width: 1920, height: 1080 },
        DisplayBounds { x: 1920, y: 0, width: 1280, height: 1024 },
    ];
    let p = render_ui(&d, 2000, 50, 300, 200).expect("a display holds the corner");
    assert_eq!(p.controller_width, CONTROLLER_WIDTH);
    assert_eq!(p.controller_height, CONTROLLER_HEIGHT);
    assert_eq!((p.region_x, p.region_y, p.region_width, p.region_height), (2000, 50, 300, 200));
    assert_eq!((p.display_x, p.display_y, p.display_width, p.display_height), (1920, 0, 1280, 1024));
}

#[test]
fn render_ui_edges_included() {
    let d = vec![
        DisplayBounds { x: 0, y: 0, width: 100, height: 100 },
        DisplayBounds { x: 100, y: 0, width: 100, height: 100 },
    ];
    // The shared edge belongs to the first display.
    let p = render_ui(&d, 100, 100, 1, 1).unwrap();
    assert_eq!(p.display_x, 0);
    assert!(render_ui(&d, 201, 0, 1, 1).is_none());
    assert!(render_ui(&d, 0, -1, 1, 1).is_none());
}

#[test]
fn placed_region_gets_controller() {
    let d = vec![DisplayBounds { x: -1280, y: 0, width: 1280, height: 720 }];
    assert_eq!(find_display(&d, -1280, 0, 1280, 720), Some(0));
    assert!(render_ui(&d, -1280, 0, 1280, 720).is_some());
}

#[test]
fn render_ui_negative_corner_as_u32() {
    let d = vec![DisplayBounds { x: -100, y: -100, width: 200, height: 200 }];
    let p = render_ui(&d, -10, -20, 5, 5).unwrap();
    assert_eq!(p.region_x, (-10i32) as u32);
    assert_eq!(p.region_y, (-20i32) as u32);
}
