//! Window geometry is kept separate from preferences so saving a settings form
//! cannot overwrite a window move that happened while the form was open.

use vstd::prelude::*;

use crate::models::held;
use crate::table::Table;
use crate::text::same;

verus! {

#[derive(Debug, Clone, Copy, PartialEq, Eq, Structural)]
pub struct Geometry {
    pub x: i32,
    pub y: i32,
    pub width: u32,
    pub height: u32,
}

/// The part of a monitor that windows may use.
#[derive(Debug, Clone, Copy, PartialEq, Eq, Structural)]
pub struct WorkArea {
    pub x: i32,
    pub y: i32,
    pub width: u32,
    pub height: u32,
}

/// Where each window was.
#[derive(Debug)]
pub struct GeometryStore {
    pub windows: Table<Geometry>,
}

impl Default for GeometryStore {
    fn default() -> (store: Self)
        ensures
            store.windows@ == Map::<Seq<char>, Geometry>::empty(),
    {
        GeometryStore { windows: Table::new() }
    }
}

/// The windows whose place is kept.
pub open spec fn is_kept(label: Seq<char>) -> bool {
    label == "main"@ || label == "settings"@ || label == "chart"@
}

/// How a window is shown.
#[derive(Debug, Clone, Copy, PartialEq, Eq, Structural)]
pub struct WindowMode {
    pub visible: bool,
    pub minimized: bool,
    pub maximized: bool,
}

/// Whether a window's place is worth keeping: it is a window of ours, on screen
/// as the user sized it, and has a size.
pub open spec fn worth_keeping(label: Seq<char>, mode: WindowMode, g: Option<Geometry>) -> bool {
    &&& is_kept(label)
    &&& mode.visible
    &&& !mode.minimized
    &&& !mode.maximized
    &&& g is Some
    &&& g.unwrap().width != 0
    &&& g.unwrap().height != 0
}

impl GeometryStore {
    /// Keep a window's place. Says whether it was kept.
    pub fn remember(&mut self, label: &str, mode: WindowMode, g: Option<Geometry>) -> (kept: bool)
        ensures
            kept == worth_keeping(label@, mode, g),
            kept ==> final(self).windows@ == old(self).windows@.insert(label@, g.unwrap()),
            !kept ==> *final(self) == *old(self),
    {
        let ours = same(label, "main") || same(label, "settings") || same(label, "chart");
        if !ours || !mode.visible || mode.minimized || mode.maximized {
            return false;
        }
        match g {
            Some(place) => {
                if place.width == 0 || place.height == 0 {
                    return false;
                }
                self.windows.insert(label.to_owned(), place);
                true
            },
            None => false,
        }
    }

    /// Where a window goes: where it was, on a monitor that is still there.
    /// Nothing where its place was not kept or there is no monitor.
    pub fn restore(&self, label: &str, inner_height: Option<u32>, areas: &Vec<WorkArea>) -> (res:
        Option<Geometry>)
        requires
            self.windows@.contains_key(label@) ==> fits(
                self.windows@[label@],
                wanted(label@, self.windows@[label@], inner_height),
                areas@,
            ),
        ensures
            res == if self.windows@.contains_key(label@) {
                restored(
                    self.windows@[label@],
                    wanted(label@, self.windows@[label@], inner_height),
                    areas@,
                )
            } else {
                None
            },
    {
        match self.windows.get(label) {
            Some(saved) => {
                let mut g: Geometry = *saved;
                if g.width == 0 || g.height == 0 {
                    return None;
                }
                // The chart restores width and position; content determines its
                // height.
                if same(label, "chart") {
                    match inner_height {
                        Some(height) => {
                            g.height = height;
                        },
                        None => {},
                    }
                }
                fit(g, areas)
            },
            None => None,
        }
    }

    /// Whether a window can be put back: see [`fits`].
    pub fn can_restore(&self, label: &str, inner_height: Option<u32>, areas: &Vec<WorkArea>) -> (res:
        bool)
        ensures
            res == (self.windows@.contains_key(label@) ==> fits(
                self.windows@[label@],
                wanted(label@, self.windows@[label@], inner_height),
                areas@,
            )),
    {
        match self.windows.get(label) {
            Some(saved) => {
                let mut g: Geometry = *saved;
                if g.width == 0 || g.height == 0 {
                    return true;
                }
                if same(label, "chart") {
                    match inner_height {
                        Some(height) => {
                            g.height = height;
                        },
                        None => {},
                    }
                }
                match find_area(&g, areas) {
                    Some(a) => a.x <= end_of(a.x, a.width - smaller(g.width, a.width)) && a.y
                        <= end_of(a.y, a.height - smaller(g.height, a.height)),
                    None => true,
                }
            },
            None => true,
        }
    }
}

fn smaller(a: u32, b: u32) -> (res: u32)
    ensures
        res == lesser(a, b),
{
    if a < b {
        a
    } else {
        b
    }
}

pub open spec fn lesser(a: u32, b: u32) -> u32 {
    if a < b {
        a
    } else {
        b
    }
}

/// The geometry that a window asks for.
pub open spec fn wanted(label: Seq<char>, saved: Geometry, inner_height: Option<u32>) -> Geometry {
    if label == "chart"@ && inner_height is Some {
        Geometry { height: inner_height.unwrap(), ..saved }
    } else {
        saved
    }
}

/// The last place that leaves `room` behind it, counted in 32 bits: a room that
/// takes all of them counts as a negative one, and the sum stops at the ends.
pub open spec fn last_place(low: int, room: int) -> int {
    let counted = if room > i32::MAX {
        room - 0x1_0000_0000
    } else {
        room
    };
    held(low + counted, i32::MIN as int, i32::MAX as int)
}

/// Whether a window has a place in an area: the first place of each direction
/// is not behind the last.
pub open spec fn fits_in(g: Geometry, a: WorkArea) -> bool {
    a.x <= last_place(a.x as int, a.width - lesser(g.width, a.width)) && a.y <= last_place(
        a.y as int,
        a.height - lesser(g.height, a.height),
    )
}

/// Whether a window that has a size has a place in the area it goes to.
pub open spec fn fits(saved: Geometry, g: Geometry, areas: Seq<WorkArea>) -> bool {
    saved.width != 0 && saved.height != 0 ==> match area_for(g, areas) {
        Some(a) => fits_in(g, a),
        None => true,
    }
}

/// Whether a window's corner is in an area.
pub open spec fn corner_in(g: Geometry, a: WorkArea) -> bool {
    a.x <= g.x < a.x + a.width && a.y <= g.y < a.y + a.height
}

/// The first area with a window's corner in it, or the first of all.
pub open spec fn area_for(g: Geometry, areas: Seq<WorkArea>) -> Option<WorkArea> {
    match first_area(g, areas) {
        Some(area) => Some(area),
        None => if areas.len() > 0 {
            Some(areas[0])
        } else {
            None
        },
    }
}

pub open spec fn first_area(g: Geometry, areas: Seq<WorkArea>) -> Option<WorkArea>
    decreases areas.len(),
{
    if areas.len() == 0 {
        None
    } else if corner_in(g, areas[0]) {
        Some(areas[0])
    } else {
        first_area(g, areas.drop_first())
    }
}

/// A window fitted into an area: no larger than it, and within it.
pub open spec fn fitted(g: Geometry, a: WorkArea) -> Geometry {
    let width = lesser(g.width, a.width);
    let height = lesser(g.height, a.height);
    Geometry {
        x: held(g.x as int, a.x as int, last_place(a.x as int, a.width - width)) as i32,
        y: held(g.y as int, a.y as int, last_place(a.y as int, a.height - height)) as i32,
        width,
        height,
    }
}

/// Where a window goes.
pub open spec fn restored(
    saved: Geometry,
    g: Geometry,
    areas: Seq<WorkArea>,
) -> Option<Geometry> {
    if saved.width == 0 || saved.height == 0 {
        None
    } else {
        match area_for(g, areas) {
            Some(area) => Some(fitted(g, area)),
            None => None,
        }
    }
}

fn is_corner_in(g: &Geometry, a: &WorkArea) -> (res: bool)
    ensures
        res == corner_in(*g, *a),
{
    g.x >= a.x && g.y >= a.y && (g.x as i64) < a.x as i64 + a.width as i64 && (g.y as i64)
        < a.y as i64 + a.height as i64
}

fn end_of(low: i32, room: u32) -> (res: i32)
    ensures
        res == last_place(low as int, room as int),
{
    let counted: i64 = if room > 0x7FFF_FFFF {
        room as i64 - 0x1_0000_0000
    } else {
        room as i64
    };
    let end: i64 = low as i64 + counted;
    if end > 0x7FFF_FFFF {
        i32::MAX
    } else if end < -0x8000_0000 {
        i32::MIN
    } else {
        end as i32
    }
}

fn hold(n: i32, low: i32, high: i32) -> (res: i32)
    requires
        low <= high,
    ensures
        res == held(n as int, low as int, high as int),
{
    if n < low {
        low
    } else if n > high {
        high
    } else {
        n
    }
}

fn find_area(g: &Geometry, areas: &Vec<WorkArea>) -> (res: Option<WorkArea>)
    ensures
        res == area_for(*g, areas@),
{
    let mut i: usize = 0;
    assert(areas@.skip(0) =~= areas@);
    while i < areas.len()
        invariant
            i <= areas@.len(),
            first_area(*g, areas@) == first_area(*g, areas@.skip(i as int)),
        decreases areas@.len() - i,
    {
        assert(areas@.skip(i as int)[0] == areas@[i as int]);
        assert(areas@.skip(i as int).drop_first() =~= areas@.skip(i + 1));
        if is_corner_in(g, &areas[i]) {
            return Some(areas[i]);
        }
        i = i + 1;
    }
    if areas.len() > 0 {
        Some(areas[0])
    } else {
        None
    }
}

fn fit(g: Geometry, areas: &Vec<WorkArea>) -> (res: Option<Geometry>)
    requires
        area_for(g, areas@) matches Some(a) ==> fits_in(g, a),
    ensures
        res == match area_for(g, areas@) {
            Some(area) => Some(fitted(g, area)),
            None => None,
        },
{
    match find_area(&g, areas) {
        Some(a) => {
            let width: u32 = smaller(g.width, a.width);
            let height: u32 = smaller(g.height, a.height);
            Some(
                Geometry {
                    x: hold(g.x, a.x, end_of(a.x, a.width - width)),
                    y: hold(g.y, a.y, end_of(a.y, a.height - height)),
                    width,
                    height,
                },
            )
        },
        None => None,
    }
}

/// A window that was put back is no larger than its area and lies within it,
/// and one that lay within it already is where it was. Left out are areas that
/// reach beyond what a place can name, or leave more room than can be counted.
pub proof fn restored_windows_are_on_screen(g: Geometry, a: WorkArea)
    requires
        a.x + a.width <= i32::MAX,
        a.y + a.height <= i32::MAX,
        a.width - lesser(g.width, a.width) <= i32::MAX,
        a.height - lesser(g.height, a.height) <= i32::MAX,
    ensures
        fits_in(g, a),
        fitted(g, a).width <= a.width,
        fitted(g, a).height <= a.height,
        a.x <= fitted(g, a).x,
        fitted(g, a).x + fitted(g, a).width <= a.x + a.width,
        a.y <= fitted(g, a).y,
        fitted(g, a).y + fitted(g, a).height <= a.y + a.height,
        a.x <= g.x && g.x + g.width <= a.x + a.width && a.y <= g.y && g.y + g.height <= a.y
            + a.height ==> fitted(g, a) == g,
{
}

} // verus!
