use vstd::prelude::*;
use crate::capture::{DisplayBounds, region_within};

verus! {

/// Width of the recording controller window.
pub const CONTROLLER_WIDTH: u32 = 300;

/// Height of the recording controller window.
pub const CONTROLLER_HEIGHT: u32 = 100;

/// The point `(x, y)` lies on display `d`, edges included.
pub open spec fn point_on_display(d: DisplayBounds, x: i32, y: i32) -> bool {
    &&& x >= d.x
    &&& x <= d.x + (d.width as i32)
    &&& y >= d.y
    &&& y <= d.y + (d.height as i32)
}

/// For displays whose sizes read as non-negative `i32` (any real screen), a
/// point is on a display exactly when it lies between the display's left and
/// right edges and between its top and bottom edges, edges included.
pub proof fn lemma_point_on_display_bounds(d: DisplayBounds, x: i32, y: i32)
    requires
        d.width <= i32::MAX,
        d.height <= i32::MAX,
    ensures
        point_on_display(d, x, y) <==> {
            &&& d.x <= x <= d.x + d.width
            &&& d.y <= y <= d.y + d.height
        },
{
    assert((d.width as i32) as int == d.width as int);
    assert((d.height as i32) as int == d.height as int);
}

/// What the placement routine for the controller window is asked: the
/// controller's size, the recorded region and the display it is on.
pub struct PlacementRequest {
    pub controller_width: u32,
    pub controller_height: u32,
    pub region_x: u32,
    pub region_y: u32,
    pub region_width: u32,
    pub region_height: u32,
    pub display_width: u32,
    pub display_height: u32,
    pub display_x: i32,
    pub display_y: i32,
}

/// Plans the recording controller: picks the first display that holds the
/// region's corner `(x, y)` and builds the request for placing the controller
/// window next to the region on it. `None` when no display holds the corner.
pub fn render_ui(displays: &Vec<DisplayBounds>, x: i32, y: i32, w: u32, h: u32) -> (r: Option<PlacementRequest>)
    ensures
        match r {
            Some(p) => exists|i: int|
                0 <= i < displays.len() && point_on_display(#[trigger] displays@[i], x, y)
                    && (forall|j: int| 0 <= j < i ==> !point_on_display(#[trigger] displays@[j], x, y))
                    && p.display_width == displays@[i].width
                    && p.display_height == displays@[i].height
                    && p.display_x == displays@[i].x
                    && p.display_y == displays@[i].y,
            None => forall|j: int| 0 <= j < displays.len() ==> !point_on_display(#[trigger] displays@[j], x, y),
        },
        r matches Some(p) ==> {
            &&& p.controller_width == CONTROLLER_WIDTH
            &&& p.controller_height == CONTROLLER_HEIGHT
            &&& p.region_x == x as u32
            &&& p.region_y == y as u32
            &&& p.region_width == w
            &&& p.region_height == h
        },
{
    let mut i: usize = 0;
    while i < displays.len()
        invariant
            i <= displays.len(),
            forall|j: int| 0 <= j < i ==> !point_on_display(#[trigger] displays@[j], x, y),
        decreases displays.len() - i,
    {
        let d = &displays[i];
        let width_i32 = d.width as i32;
        let height_i32 = d.height as i32;
        if x >= d.x && (x as i64) <= (d.x as i64) + (width_i32 as i64) && y >= d.y && (y as i64) <= (d.y
            as i64) + (height_i32 as i64) {
            return Some(
                PlacementRequest {
                    controller_width: CONTROLLER_WIDTH,
                    controller_height: CONTROLLER_HEIGHT,
                    region_x: x as u32,
                    region_y: y as u32,
                    region_width: w,
                    region_height: h,
                    display_width: d.width,
                    display_height: d.height,
                    display_x: d.x,
                    display_y: d.y,
                },
            );
        }
        i += 1;
    }
    None
}

proof fn lemma_region_corner_on_display(d: DisplayBounds, x: i32, y: i32, w: u32, h: u32)
    requires
        region_within(d, x, y, w, h),
        w <= i32::MAX,
        h <= i32::MAX,
    ensures
        point_on_display(d, x, y),
{
    assert((w as i32) >= 0) by (bit_vector)
        requires
            w <= 0x7fff_ffffu32,
    ;
    assert((h as i32) >= 0) by (bit_vector)
        requires
            h <= 0x7fff_ffffu32,
    ;
}

/// Whenever `find_display` finds a display for a recorded region (of a width
/// and height that read as non-negative `i32`), `render_ui` finds a display
/// for the controller: the region's corner lies on the display that holds it.
pub proof fn lemma_placed_region_gets_controller(displays: Seq<DisplayBounds>, x: i32, y: i32, w: u32, h: u32)
    requires
        exists|i: int| 0 <= i < displays.len() && region_within(#[trigger] displays[i], x, y, w, h),
        w <= i32::MAX,
        h <= i32::MAX,
    ensures
        exists|i: int| 0 <= i < displays.len() && point_on_display(#[trigger] displays[i], x, y),
{
    let i = choose|i: int| 0 <= i < displays.len() && region_within(#[trigger] displays[i], x, y, w, h);
    lemma_region_corner_on_display(displays[i], x, y, w, h);
}

} // verus!
