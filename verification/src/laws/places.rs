//! Windows, monitors and the panel.

use vstd::arithmetic::power2::{lemma2_to64, pow2};
use vstd::prelude::*;

use crate::arithmetic::{signed_whole, whole};
use crate::exact::{dyadic, dyadics_add, dyadics_are_exact, dyadics_halve, finer_parts, held_in, parts_divide, quotients_are_bracketed, same_from_both_sides};
use crate::figure::Figure;
use crate::laws::popover::{popover_measures, popovers_have_a_row_for_each_node};
use crate::laws::sums::in_parts;
use crate::state::PanelState;
use crate::text::trim;
use crate::window_geometry::{area_for, corner_in, first_area, fitted, restored, wanted, worth_keeping, Geometry, WindowMode, WorkArea};
use crate::windows::{anchor_of, chart_move, closing_does, first_view, height_shown, json_written, loaded, loaded_check, monitor_at, monitors_of, navigation_script, next_count, on_monitor, panel_hangs, screen_at, shown_check, watched, ChartMove, MonitorRect, Screen, BLUR_DELAY_MS, PANEL_LOAD_MS, PANEL_REST_MS, PANEL_SHOW_MS, PANEL_WATCH_MS};

verus! {

/// A window goes to the first area that has its corner, or to the first of all
/// where none has.
pub proof fn windows_go_where_their_corner_is(g: Geometry, areas: Seq<WorkArea>, i: int)
    requires
        0 <= i < areas.len(),
    ensures
        (areas[i].x <= g.x < areas[i].x + areas[i].width && areas[i].y <= g.y < areas[i].y
            + areas[i].height && forall|k: int|
            0 <= k < i ==> !corner_in(g, #[trigger] areas[k])) ==> area_for(g, areas) == Some(
            areas[i],
        ),
        (forall|k: int| 0 <= k < areas.len() ==> !corner_in(g, #[trigger] areas[k])) ==> area_for(
            g,
            areas,
        ) == Some(areas[0]),
{
    if corner_in(g, areas[i]) && forall|k: int| 0 <= k < i ==> !corner_in(g, #[trigger] areas[k]) {
        first_of_areas(g, areas, i);
    }
    if forall|k: int| 0 <= k < areas.len() ==> !corner_in(g, #[trigger] areas[k]) {
        none_of_areas(g, areas);
    }
}

/// A corner is in an area from its left and top edges on and before its right
/// and bottom ones.
pub proof fn corners_are_between_edges(g: Geometry, a: WorkArea)
    ensures
        corner_in(g, a) <==> a.x <= g.x && g.x < a.x + a.width && a.y <= g.y && g.y < a.y + a.height,
{
}

proof fn first_of_areas(g: Geometry, areas: Seq<WorkArea>, i: int)
    requires
        0 <= i < areas.len(),
        corner_in(g, areas[i]),
        forall|k: int| 0 <= k < i ==> !corner_in(g, #[trigger] areas[k]),
    ensures
        first_area(g, areas) == Some(areas[i]),
    decreases areas.len(),
{
    if i > 0 {
        let rest = areas.drop_first();
        assert(!corner_in(g, areas[0]));
        assert forall|k: int| 0 <= k < i - 1 implies !corner_in(g, #[trigger] rest[k]) by {
            assert(rest[k] == areas[k + 1]);
        }
        first_of_areas(g, rest, i - 1);
    }
}

proof fn none_of_areas(g: Geometry, areas: Seq<WorkArea>)
    requires
        forall|k: int| 0 <= k < areas.len() ==> !corner_in(g, #[trigger] areas[k]),
    ensures
        first_area(g, areas) is None,
    decreases areas.len(),
{
    if areas.len() > 0 {
        let rest = areas.drop_first();
        assert(!corner_in(g, areas[0]));
        assert forall|k: int| 0 <= k < rest.len() implies !corner_in(g, #[trigger] rest[k]) by {
            assert(rest[k] == areas[k + 1]);
        }
        none_of_areas(g, rest);
    }
}

/// A window put back keeps its size as far as the area is that large, and its
/// place as far as it fits there; else it is moved just to the edge that it
/// passed.
pub proof fn windows_are_moved_to_the_edge_they_passed(g: Geometry, a: WorkArea)
    requires
        a.x + a.width <= i32::MAX,
        a.y + a.height <= i32::MAX,
        a.width <= g.width + i32::MAX,
        a.height <= g.height + i32::MAX,
    ensures
        ({
            let got = fitted(g, a);
            &&& g.width <= a.width ==> got.width == g.width
            &&& g.width > a.width ==> got.width == a.width && got.x == a.x
            &&& g.height <= a.height ==> got.height == g.height
            &&& g.height > a.height ==> got.height == a.height && got.y == a.y
            &&& g.x < a.x ==> got.x == a.x
            &&& g.y < a.y ==> got.y == a.y
            &&& a.x <= g.x && g.x + g.width <= a.x + a.width ==> got.x == g.x
            &&& a.y <= g.y && g.y + g.height <= a.y + a.height ==> got.y == g.y
            &&& a.x <= g.x && g.x + g.width > a.x + a.width ==> got.x + got.width == a.x + a.width
            &&& a.y <= g.y && g.y + g.height > a.y + a.height ==> got.y + got.height == a.y
                + a.height
        }),
{
}

/// A place without a width or a height is not put back, nor is any without an
/// area.
pub proof fn empty_places_are_not_put_back(saved: Geometry, g: Geometry, areas: Seq<WorkArea>)
    ensures
        saved.width == 0 || saved.height == 0 ==> restored(saved, g, areas) is None,
        areas.len() == 0 ==> restored(saved, g, areas) is None,
        saved.width > 0 && saved.height > 0 && areas.len() > 0 ==> area_for(g, areas) is Some
            && restored(saved, g, areas) == Some(fitted(g, area_for(g, areas).unwrap())),
{
}

/// The popover is put back as high as its content is; other windows as high as
/// they were. All are put back where they were and as wide.
pub proof fn popovers_are_as_high_as_their_content(saved: Geometry, h: u32, label: Seq<char>)
    ensures
        wanted("chart"@, saved, Some(h)).height == h,
        wanted("chart"@, saved, Some(h)).width == saved.width,
        wanted("chart"@, saved, Some(h)).x == saved.x,
        wanted("chart"@, saved, Some(h)).y == saved.y,
        wanted(label, saved, None) == saved,
        label != "chart"@ ==> wanted(label, saved, Some(h)) == saved,
{
}

/// The places of the panel, the settings and the popover are kept, as long as
/// they are on screen as they are and not empty.
pub proof fn places_worth_keeping(label: Seq<char>, mode: WindowMode, g: Geometry)
    ensures
        worth_keeping(label, mode, Some(g)) <==> (label == "main"@ || label == "settings"@ || label
            == "chart"@) && mode.visible && !mode.minimized && !mode.maximized && g.width > 0
            && g.height > 0,
        !worth_keeping(label, mode, None),
{
}

/// A point is on the first monitor that has it, or else counts to the primary
/// one; so it is with screens.
pub proof fn points_are_on_the_first_monitor(
    monitors: Seq<MonitorRect>,
    primary: Option<MonitorRect>,
    x: Figure,
    y: Figure,
    i: int,
)
    ensures
        0 <= i < monitors.len() && on_monitor(monitors[i], x, y) && (forall|k: int|
            0 <= k < i ==> !on_monitor(#[trigger] monitors[k], x, y)) ==> monitor_at(
            monitors,
            primary,
            x,
            y,
        ) == Some(monitors[i]),
        (forall|k: int| 0 <= k < monitors.len() ==> !on_monitor(#[trigger] monitors[k], x, y))
            ==> monitor_at(monitors, primary, x, y) == primary,
    decreases monitors.len(),
{
    if monitors.len() > 0 {
        let rest = monitors.drop_first();
        points_are_on_the_first_monitor(rest, primary, x, y, i - 1);
        if 0 < i < monitors.len() && on_monitor(monitors[i], x, y) && (forall|k: int|
            0 <= k < i ==> !on_monitor(#[trigger] monitors[k], x, y)) {
            assert(!on_monitor(monitors[0], x, y));
            assert forall|k: int| 0 <= k < i - 1 implies !on_monitor(#[trigger] rest[k], x, y) by {
                assert(rest[k] == monitors[k + 1]);
            }
            assert(rest[i - 1] == monitors[i]);
        }
        if forall|k: int| 0 <= k < monitors.len() ==> !on_monitor(#[trigger] monitors[k], x, y) {
            assert(!on_monitor(monitors[0], x, y));
            assert forall|k: int| 0 <= k < rest.len() implies !on_monitor(#[trigger] rest[k], x, y) by {
                assert(rest[k] == monitors[k + 1]);
            }
        }
    }
}

/// A point is on the first screen whose monitor has it, or else counts to the
/// primary one.
pub proof fn points_are_on_the_first_screen(
    screens: Seq<Screen>,
    primary: Option<Screen>,
    x: Figure,
    y: Figure,
    i: int,
)
    ensures
        0 <= i < screens.len() && on_monitor(screens[i].monitor, x, y) && (forall|k: int|
            0 <= k < i ==> !on_monitor((#[trigger] screens[k]).monitor, x, y)) ==> screen_at(
            screens,
            primary,
            x,
            y,
        ) == Some(screens[i]),
        (forall|k: int|
            0 <= k < screens.len() ==> !on_monitor((#[trigger] screens[k]).monitor, x, y))
            ==> screen_at(screens, primary, x, y) == primary,
    decreases screens.len(),
{
    if screens.len() > 0 {
        let rest = screens.drop_first();
        points_are_on_the_first_screen(rest, primary, x, y, i - 1);
        if 0 < i < screens.len() && on_monitor(screens[i].monitor, x, y) && (forall|k: int|
            0 <= k < i ==> !on_monitor((#[trigger] screens[k]).monitor, x, y)) {
            assert(!on_monitor(screens[0].monitor, x, y));
            assert forall|k: int| 0 <= k < i - 1 implies !on_monitor(
                (#[trigger] rest[k]).monitor,
                x,
                y,
            ) by {
                assert(rest[k] == screens[k + 1]);
            }
            assert(rest[i - 1] == screens[i]);
        }
        if forall|k: int|
            0 <= k < screens.len() ==> !on_monitor((#[trigger] screens[k]).monitor, x, y) {
            assert(!on_monitor(screens[0].monitor, x, y));
            assert forall|k: int| 0 <= k < rest.len() implies !on_monitor(
                (#[trigger] rest[k]).monitor,
                x,
                y,
            ) by {
                assert(rest[k] == screens[k + 1]);
            }
        }
    }
}

/// A popover of some pixels at a scale of `q / 2^k` is as many points high as
/// make its pixels: between any two numbers of `1 / 2^e` parts that the exact
/// height lies between. Without a window it has a row for each node.
pub proof fn popovers_are_as_high_as_their_window(
    h: nat,
    e: nat,
    q: nat,
    k: nat,
    n: int,
    pixels: u32,
)
    requires
        h < 0x20_0000_0000_0000,
        e <= 1000,
        0 < q < 0x1_0000,
        k <= 16,
        0 <= n < 0x1_0000_0000,
    ensures
        ({
            let got = height_shown(Some((pixels, dyadic(q as int, k))), n as nat);
            let points = pixels * pow2(k);
            &&& h * q <= points * pow2(e) ==> dyadic(h as int, e).at_most(got)
            &&& points * pow2(e) <= h * q ==> got.at_most(dyadic(h as int, e))
            &&& points * pow2(e) == h * q ==> got == dyadic(h as int, e)
        }),
        height_shown(None, n as nat) == whole(held_in(270 + 32 * n, 300, 900) as nat),
{
    popovers_have_a_row_for_each_node(n);
    in_parts(pixels as int, k);
    let points = (pixels * pow2(k)) as nat;
    parts_divide(points, q, k);
    quotients_are_bracketed(points, q, h, e);
    dyadics_are_exact(h as int, e);
    if points * pow2(e) == h * q {
        same_from_both_sides(
            height_shown(Some((pixels, dyadic(q as int, k))), n as nat),
            dyadic(h as int, e),
        );
    }
}

/// An icon's anchor is in the middle of its width and at its bottom edge.
pub proof fn anchors_are_below_the_middle(x: int, y: int, w: nat, h: nat)
    requires
        -0x1_0000_0000 < x < 0x1_0000_0000,
        -0x1_0000_0000 < y < 0x1_0000_0000,
        w < 0x1_0000_0000,
        h < 0x1_0000_0000,
    ensures
        anchor_of(signed_whole(x), signed_whole(y), whole(w), whole(h)).0 == dyadic(2 * x + w, 1),
        anchor_of(signed_whole(x), signed_whole(y), whole(w), whole(h)).1 == signed_whole(y + h),
{
    popover_measures();
    lemma2_to64();
    dyadics_halve(w, 0);
    finer_parts(x, 0, 1);
    dyadics_add(2 * x, w as int, 1);
    dyadics_add(y, h as int, 0);
}

/// A click within 700 milliseconds of the popover's hiding does nothing; a later
/// one shows what is hidden, at the icon unless it was dragged away, hides what
/// is shown and makes what is not there.
pub proof fn clicks_come_after_a_while(ago: u64, shown: bool, pinned: bool)
    ensures
        ago < 700 ==> chart_move(Some(ago), Some(shown), pinned) is Ignore && chart_move(
            Some(ago),
            None,
            pinned,
        ) is Ignore,
        ago >= 700 ==> chart_move(Some(ago), None, pinned) is Create,
        ago >= 700 && shown ==> chart_move(Some(ago), Some(shown), pinned) is Hide,
        ago >= 700 && !shown ==> chart_move(Some(ago), Some(shown), pinned) == (ChartMove::Show {
            anchor: !pinned,
        }),
        shown ==> chart_move(None, Some(shown), pinned) is Hide,
        !shown ==> chart_move(None, Some(shown), pinned) == (ChartMove::Show { anchor: !pinned }),
        chart_move(None, None, pinned) is Create,
{
}

/// A panel hangs whose page began to load over 30 seconds ago and has not ended,
/// and that was not made anew for over a minute. Seen so it is made anew, up to
/// three times in a row.
pub proof fn hanging_panels_are_made_anew(panel: PanelState, now: u64)
    ensures
        panel_hangs(panel, now) <==> panel.load_ms < panel.load_started_ms && panel.load_started_ms
            + 30_000 < now && panel.reload_ms + 60_000 < now,
        panel_hangs(panel, now) && panel.recreate_streak < 3 ==> {
            let (after, anew) = watched(panel, true, now);
            &&& anew
            &&& after.reload_ms == now
            &&& after.recreate_streak == panel.recreate_streak + 1
            &&& after.load_ms == panel.load_ms
            &&& after.load_started_ms == panel.load_started_ms
            &&& after.epoch == panel.epoch
        },
        panel_hangs(panel, now) && panel.recreate_streak >= 3 ==> !watched(panel, true, now).1
            && watched(panel, true, now).0.reload_ms == panel.reload_ms && (
        panel.recreate_streak < u64::MAX ==> watched(panel, true, now).0.recreate_streak
            == panel.recreate_streak + 1),
        !panel_hangs(panel, now) ==> watched(panel, true, now) == (panel, false),
        watched(panel, false, now) == (panel, false),
{
}

/// A page that has loaded ends what was tried for it.
pub proof fn loaded_pages_start_over(panel: PanelState, now: u64)
    ensures
        loaded(panel, now).load_ms == now,
        loaded(panel, now).recreate_streak == 0,
        loaded(panel, now).load_started_ms == panel.load_started_ms,
        loaded(panel, now).reload_ms == panel.reload_ms,
        loaded(panel, now).epoch == panel.epoch,
{
}

/// Counts go up by one and start over at the end.
pub proof fn counts_go_up(n: u64)
    ensures
        n < u64::MAX ==> next_count(n) == n + 1,
        next_count(u64::MAX) == 0,
{
}

/// Some time after opening, only the panel of that opening is looked after: it
/// is shown where it is not on screen, and loaded again where it is but no page
/// has loaded since.
pub proof fn openings_are_looked_after(then: u64, loaded_then: u64, panel: PanelState)
    ensures
        panel.epoch != then ==> shown_check(then, panel, false) is Leave && loaded_check(
            then,
            loaded_then,
            panel,
            true,
        ) is Leave,
        panel.epoch == then ==> shown_check(then, panel, false) is Show,
        shown_check(then, panel, true) is Leave,
        panel.epoch == then && panel.load_ms <= loaded_then ==> loaded_check(
            then,
            loaded_then,
            panel,
            true,
        ) is Reload,
        panel.load_ms > loaded_then ==> loaded_check(then, loaded_then, panel, true) is Leave,
        loaded_check(then, loaded_then, panel, false) is Leave,
{
}

/// What is shown first: the settings without a backend, else the panel, hidden
/// where it is to be silent.
pub proof fn first_views(url: Seq<char>)
    ensures
        trim(url).len() == 0 ==> first_view(url, true) is Settings && first_view(url, false) is Settings,
        trim(url).len() > 0 ==> first_view(url, true) is HiddenPanel && first_view(url, false) is Panel,
{
}

/// Closing the panel or the popover hides it; any other window is closed.
pub proof fn closing_hides_what_stays(label: Seq<char>)
    ensures
        closing_does("main"@) is HidePanel,
        closing_does("chart"@) is HideChart,
        label != "main"@ && label != "chart"@ ==> closing_does(label) is Close,
{
    reveal_strlit("main");
    reveal_strlit("chart");
    assert("main"@.len() != "chart"@.len());
}

/// How long windows are waited for, in milliseconds.
pub proof fn waits_of_windows()
    ensures
        PANEL_WATCH_MS == 15_000,
        PANEL_REST_MS == 300,
        PANEL_SHOW_MS == 6_000,
        PANEL_LOAD_MS == 20_000,
        BLUR_DELAY_MS == 250,
{
}

/// The panel is sent to an address by a script that replaces its page by it.
pub proof fn panels_are_sent_by_script(base: Seq<char>)
    ensures
        "window.location.replace("@.is_prefix_of(navigation_script(base)),
        (json_written(base) + ")"@).is_suffix_of(navigation_script(base)),
        json_written(base)[0] == '"',
        json_written(base).last() == '"',
{
    let head = "window.location.replace("@;
    let tail = json_written(base) + ")"@;
    assert(navigation_script(base) =~= head + tail);
    assert((head + tail).take(head.len() as int) =~= head);
    assert((head + tail).skip(head.len() as int) =~= tail);
}

/// The monitors of screens, one for one.
pub proof fn screens_have_their_monitors(screens: Seq<Screen>, i: int)
    requires
        0 <= i < screens.len(),
    ensures
        monitors_of(screens).len() == screens.len(),
        monitors_of(screens)[i] == screens[i].monitor,
{
}

} // verus!
