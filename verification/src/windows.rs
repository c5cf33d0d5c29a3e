//! Windows: the panel, the chart popover and where they go.

use vstd::prelude::*;

use crate::arithmetic::{add_figures, cut_to_range, difference, divide_figures, figure_to_i32, figure_to_u32, multiply_figures, product, quotient, round_figure, rounded_figure, signed_whole, signed_whole_figure, subtract_figures, sum, whole, whole_figure};
use crate::figure::{figure_of, Figure, ONE_BITS};
use crate::json::{json_read, Json};
use crate::models::ThemeMode;
use crate::rounding::{cutting_keeps_above, small_whole_numbers_are_numbers};
use crate::state::{AppState, PanelState};
use crate::text::{joined, same, text_if, trim, trimmed};
use crate::urls::{normal_base, normalize_base};
use crate::window_geometry::WorkArea;

verus! {

/// Injected into every navigation of the remote panel. Keeping the chrome in
/// the initialization script lets the panel stay on its configured external
/// origin while still giving the frameless window native-feeling controls.
pub const PANEL_CHROME_SCRIPT: &'static str = r#"
(() => {
  const TOOLBAR_ID = 'hotaru-panel-toolbar';
  if (document.getElementById(TOOLBAR_ID)) return;

  const install = () => {
    if (!document.body || document.getElementById(TOOLBAR_ID)) return;

    const originalPaddingTop = getComputedStyle(document.body).paddingTop;
    document.documentElement.style.setProperty('--hotaru-page-padding-top', originalPaddingTop);

    const css = `
      :root {
        --hotaru-titlebar-height: 42px;
        --hotaru-titlebar-bg: rgba(248, 250, 252, .94);
        --hotaru-titlebar-border: rgba(15, 23, 42, .12);
        --hotaru-titlebar-ink: #334155;
        --hotaru-titlebar-muted: #64748b;
        --hotaru-titlebar-hover: rgba(15, 23, 42, .08);
        --hotaru-titlebar-pressed: rgba(15, 23, 42, .13);
        --hotaru-titlebar-focus: #0ea5e9;
      }
      @media (prefers-color-scheme: dark) {
        :root {
          --hotaru-titlebar-bg: rgba(15, 23, 42, .94);
          --hotaru-titlebar-border: rgba(226, 232, 240, .14);
          --hotaru-titlebar-ink: #e2e8f0;
          --hotaru-titlebar-muted: #94a3b8;
          --hotaru-titlebar-hover: rgba(226, 232, 240, .10);
          --hotaru-titlebar-pressed: rgba(226, 232, 240, .16);
          --hotaru-titlebar-focus: #38bdf8;
        }
      }
      body {
        box-sizing: border-box !important;
        padding-top: calc(var(--hotaru-page-padding-top, 0px) + var(--hotaru-titlebar-height)) !important;
      }
      #${TOOLBAR_ID} {
        position: fixed;
        z-index: 2147483647;
        inset: 0 0 auto 0;
        box-sizing: border-box;
        display: flex;
        align-items: center;
        gap: 8px;
        height: var(--hotaru-titlebar-height);
        padding: 0 8px;
        color: var(--hotaru-titlebar-ink);
        background: var(--hotaru-titlebar-bg);
        border-bottom: 1px solid var(--hotaru-titlebar-border);
        box-shadow: 0 1px 4px rgba(15, 23, 42, .06);
        backdrop-filter: blur(20px) saturate(1.35);
        -webkit-backdrop-filter: blur(20px) saturate(1.35);
        font-family: -apple-system, BlinkMacSystemFont, "Segoe UI", sans-serif;
        user-select: none;
        -webkit-user-select: none;
      }
      #${TOOLBAR_ID} * { box-sizing: border-box; }
      #${TOOLBAR_ID} .hotaru-nav,
      #${TOOLBAR_ID} .hotaru-window-controls {
        display: flex;
        align-items: center;
        gap: 3px;
        flex: none;
      }
      #${TOOLBAR_ID} .hotaru-drag-region {
        align-self: stretch;
        flex: 1;
        min-width: 24px;
      }
      #${TOOLBAR_ID} button {
        display: inline-grid;
        place-items: center;
        width: 30px;
        height: 30px;
        margin: 0;
        padding: 0;
        color: var(--hotaru-titlebar-muted);
        background: transparent;
        border: 0;
        border-radius: 7px;
        box-shadow: none;
        cursor: default;
        appearance: none;
        -webkit-appearance: none;
      }
      #${TOOLBAR_ID} button:hover {
        color: var(--hotaru-titlebar-ink);
        background: var(--hotaru-titlebar-hover);
      }
      #${TOOLBAR_ID} button:active { background: var(--hotaru-titlebar-pressed); }
      #${TOOLBAR_ID} button:focus-visible {
        outline: 2px solid var(--hotaru-titlebar-focus);
        outline-offset: -2px;
      }
      #${TOOLBAR_ID} svg {
        width: 16px;
        height: 16px;
        pointer-events: none;
      }
      #${TOOLBAR_ID} .hotaru-window-controls { gap: 1px; }
      #${TOOLBAR_ID} .hotaru-close:hover {
        color: #fff;
        background: #e5484d;
      }
      #${TOOLBAR_ID}.hotaru-macos .hotaru-window-controls { order: 1; gap: 7px; padding: 0 4px; }
      #${TOOLBAR_ID}.hotaru-macos .hotaru-nav { order: 2; }
      #${TOOLBAR_ID}.hotaru-macos .hotaru-drag-region { order: 3; }
      #${TOOLBAR_ID}.hotaru-macos .hotaru-window-controls button {
        width: 12px;
        height: 12px;
        border-radius: 50%;
      }
      #${TOOLBAR_ID}.hotaru-macos .hotaru-window-controls svg { display: none; }
      #${TOOLBAR_ID}.hotaru-macos .hotaru-close { background: #ff5f57; }
      #${TOOLBAR_ID}.hotaru-macos .hotaru-minimize { background: #febc2e; }
      #${TOOLBAR_ID}.hotaru-macos .hotaru-maximize { background: #28c840; }
      #${TOOLBAR_ID}:not(.hotaru-macos) .hotaru-nav { order: 1; }
      #${TOOLBAR_ID}:not(.hotaru-macos) .hotaru-drag-region { order: 2; }
      #${TOOLBAR_ID}:not(.hotaru-macos) .hotaru-window-controls { order: 3; }
      @media (prefers-reduced-motion: no-preference) {
        #${TOOLBAR_ID} button { transition: color 120ms ease, background-color 120ms ease; }
      }
    `;

    try {
      const sheet = new CSSStyleSheet();
      sheet.replaceSync(css);
      document.adoptedStyleSheets = [...document.adoptedStyleSheets, sheet];
    } catch (_) {
      const style = document.createElement('style');
      style.textContent = css;
      (document.head || document.documentElement).appendChild(style);
    }

    const icon = (path) => `<svg viewBox="0 0 24 24" fill="none" stroke="currentColor" stroke-width="1.8" stroke-linecap="round" stroke-linejoin="round" aria-hidden="true"><path d="${path}"/></svg>`;
    const button = (className, label, path) => `<button type="button" class="${className}" aria-label="${label}" title="${label}">${icon(path)}</button>`;
    const toolbar = document.createElement('header');
    toolbar.id = TOOLBAR_ID;
    toolbar.className = /Mac|iPhone|iPad/.test(navigator.platform) ? 'hotaru-macos' : '';
    toolbar.setAttribute('role', 'toolbar');
    toolbar.setAttribute('aria-label', '面板导航');
    toolbar.innerHTML = `
      <nav class="hotaru-nav" aria-label="页面导航">
        ${button('hotaru-back', '后退', 'M15 18l-6-6 6-6')}
        ${button('hotaru-forward', '前进', 'M9 18l6-6-6-6')}
        ${button('hotaru-reload', '刷新', 'M20 11a8.1 8.1 0 10-2.2 5.5M20 4v7h-7')}
      </nav>
      <div class="hotaru-drag-region" data-tauri-drag-region="deep" aria-hidden="true"></div>
      <div class="hotaru-window-controls" aria-label="窗口控制">
        ${button('hotaru-minimize', '最小化', 'M5 12h14')}
        ${button('hotaru-maximize', '最大化或还原', 'M6 6h12v12H6z')}
        ${button('hotaru-close', '关闭', 'M6 6l12 12M18 6L6 18')}
      </div>`;

    const invokeWindow = (command) => {
      const invoke = window.__TAURI_INTERNALS__?.invoke;
      if (invoke) void invoke(`plugin:window|${command}`, { label: 'main' });
    };
    toolbar.querySelector('.hotaru-back').addEventListener('click', () => history.back());
    toolbar.querySelector('.hotaru-forward').addEventListener('click', () => history.forward());
    toolbar.querySelector('.hotaru-reload').addEventListener('click', () => location.reload());
    toolbar.querySelector('.hotaru-minimize').addEventListener('click', () => invokeWindow('minimize'));
    toolbar.querySelector('.hotaru-maximize').addEventListener('click', () => invokeWindow('toggle_maximize'));
    toolbar.querySelector('.hotaru-close').addEventListener('click', () => invokeWindow('close'));
    document.body.prepend(toolbar);
  };

  if (document.readyState === 'loading') {
    document.addEventListener('DOMContentLoaded', install, { once: true });
  } else {
    install();
  }
})();
"#;

// ---------------------------------------------------------------------------
// The chart popover
// ---------------------------------------------------------------------------

/// Logical width of the chart popover: `320.0`.
pub const CHART_W_BITS: u64 = 0x4074_0000_0000_0000;

/// The least height of its content: `300.0`.
pub const CHART_MIN_H_BITS: u64 = 0x4072_C000_0000_0000;

/// The greatest height of its content: `900.0`.
pub const CHART_MAX_H_BITS: u64 = 0x408C_2000_0000_0000;

/// Vertical room left free so the popover never spans the whole screen: `80.0`.
pub const CHART_SCREEN_MARGIN_BITS: u64 = 0x4054_0000_0000_0000;

/// The height of what stands above the nodes: `224.0`.
pub const CHART_HEAD_BITS: u64 = 0x406C_0000_0000_0000;

/// The height of one node: `32.0`.
pub const CHART_ROW_BITS: u64 = 0x4040_0000_0000_0000;

/// The height of what stands below the nodes: `46.0`.
pub const CHART_FOOT_BITS: u64 = 0x4047_0000_0000_0000;

/// The distance from the icon: `6.0`.
pub const CHART_GAP_BITS: u64 = 0x4018_0000_0000_0000;

/// `2.0`.
pub const TWO_BITS: u64 = 0x4000_0000_0000_0000;

/// Ignore tray clicks that arrive right after the popover auto-hid on blur,
/// so the same click does not instantly reopen it (toggle semantics).
pub const CHART_REOPEN_GUARD_MS: u64 = 700;

/// The logical height of the popover for a number of nodes.
pub open spec fn chart_height(node_count: nat) -> Figure {
    sum(
        sum(
            figure_of(CHART_HEAD_BITS),
            product(whole(node_count), figure_of(CHART_ROW_BITS)),
        ),
        figure_of(CHART_FOOT_BITS),
    ).clamped(figure_of(CHART_MIN_H_BITS), figure_of(CHART_MAX_H_BITS))
}

/// Logical size of the chart popover. Height depends on the node count so
/// the builder's initial size already matches the content (the page still
/// fine-tunes it).
pub fn chart_logical_size(node_count: usize) -> (res: (Figure, Figure))
    ensures
        res.0 == figure_of(CHART_W_BITS),
        res.1 == chart_height(node_count as nat),
{
    let rows = multiply_figures(
        whole_figure(node_count as u64),
        Figure { bits: CHART_ROW_BITS },
    );
    let base = add_figures(
        add_figures(Figure { bits: CHART_HEAD_BITS }, rows),
        Figure { bits: CHART_FOOT_BITS },
    );
    (
        Figure { bits: CHART_W_BITS },
        base.clamp(Figure { bits: CHART_MIN_H_BITS }, Figure { bits: CHART_MAX_H_BITS }),
    )
}

/// The height that a popover gets of the one it asks for.
pub open spec fn height_within(logical_h: Figure, monitor_logical_h: Option<Figure>) -> Figure {
    let most = match monitor_logical_h {
        Some(mh) => figure_of(CHART_MAX_H_BITS).smaller(
            difference(mh, figure_of(CHART_SCREEN_MARGIN_BITS)),
        ),
        None => figure_of(CHART_MAX_H_BITS),
    };
    logical_h.clamped(figure_of(CHART_MIN_H_BITS), figure_of(CHART_MIN_H_BITS).larger(most))
}

/// Clamp a requested logical popover height to the height range and, when the
/// monitor is known, to its logical height minus the screen margin.
pub fn clamp_chart_h(logical_h: Figure, monitor_logical_h: Option<Figure>) -> (res: Figure)
    ensures
        res == height_within(logical_h, monitor_logical_h),
{
    let least = Figure { bits: CHART_MIN_H_BITS };
    let most = match monitor_logical_h {
        Some(mh) => Figure { bits: CHART_MAX_H_BITS }.min(
            subtract_figures(mh, Figure { bits: CHART_SCREEN_MARGIN_BITS }),
        ),
        None => Figure { bits: CHART_MAX_H_BITS },
    };
    logical_h.clamp(least, least.max(most))
}

/// A popover is never lower than its least height and never higher than its
/// greatest, nor than what its monitor leaves it.
pub proof fn heights_stay_in_range(logical_h: Figure, monitor_logical_h: Option<Figure>)
    requires
        !logical_h.nan(),
    ensures
        figure_of(CHART_MIN_H_BITS).at_most(height_within(logical_h, monitor_logical_h)),
        height_within(logical_h, monitor_logical_h).at_most(figure_of(CHART_MAX_H_BITS)),
        monitor_logical_h matches Some(mh) ==> {
            let room = difference(mh, figure_of(CHART_SCREEN_MARGIN_BITS));
            figure_of(CHART_MIN_H_BITS).at_most(room) ==> height_within(
                logical_h,
                monitor_logical_h,
            ).at_most(room)
        },
{
}

/// The top edge of a popover after it was resized.
pub open spec fn top_after_resize(
    below: bool,
    cur_top: Figure,
    cur_h: Figure,
    target_h: Figure,
    monitor: Option<(Figure, Figure)>,
) -> Figure {
    let y = if below {
        cur_top
    } else {
        difference(sum(cur_top, cur_h), target_h)
    };
    match monitor {
        Some((my, mh)) => y.clamped(my, difference(sum(my, mh), target_h).larger(my)),
        None => y,
    }
}

/// New top edge (physical px) for a popover resized from `cur_h` to
/// `target_h`. A `below` popover hangs off the menu bar and keeps its top
/// edge; the others sit above the taskbar and keep their bottom edge, so they
/// grow upwards. `monitor` is the containing monitor's `(top, height)`.
pub fn anchored_y(
    below: bool,
    cur_top: Figure,
    cur_h: Figure,
    target_h: Figure,
    monitor: Option<(Figure, Figure)>,
) -> (res: Figure)
    requires
        monitor is Some ==> !monitor.unwrap().0.nan(),
    ensures
        res == top_after_resize(below, cur_top, cur_h, target_h, monitor),
{
    let y = if below {
        cur_top
    } else {
        subtract_figures(add_figures(cur_top, cur_h), target_h)
    };
    match monitor {
        Some((my, mh)) => {
            let lowest = subtract_figures(add_figures(my, mh), target_h).max(my);
            y.clamp(my, lowest)
        },
        None => y,
    }
}

/// A resized popover keeps the edge at the icon where its monitor has room for
/// it: the top edge where it hangs below the icon, else the bottom edge. It
/// never leaves the monitor by the top, nor by the bottom where it fits.
pub proof fn resized_popovers_stay_put(
    below: bool,
    cur_top: Figure,
    cur_h: Figure,
    target_h: Figure,
    top: Figure,
    height: Figure,
)
    requires
        !top.nan(),
        !cur_top.nan(),
        !difference(sum(cur_top, cur_h), target_h).nan(),
    ensures
        top.at_most(top_after_resize(below, cur_top, cur_h, target_h, Some((top, height)))),
        top.at_most(difference(sum(top, height), target_h)) ==> top_after_resize(
            below,
            cur_top,
            cur_h,
            target_h,
            Some((top, height)),
        ).at_most(difference(sum(top, height), target_h)),
        below && top.at_most(cur_top) && cur_top.at_most(difference(sum(top, height), target_h))
            ==> top_after_resize(below, cur_top, cur_h, target_h, Some((top, height))) == cur_top,
        !below && top.at_most(difference(sum(cur_top, cur_h), target_h)) && difference(
            sum(cur_top, cur_h),
            target_h,
        ).at_most(difference(sum(top, height), target_h)) ==> top_after_resize(
            below,
            cur_top,
            cur_h,
            target_h,
            Some((top, height)),
        ) == difference(sum(cur_top, cur_h), target_h),
        below ==> top_after_resize(below, cur_top, cur_h, target_h, None) == cur_top,
        !below ==> top_after_resize(below, cur_top, cur_h, target_h, None) == difference(
            sum(cur_top, cur_h),
            target_h,
        ),
{
}

/// A monitor: its place and size in physical pixels, and how many of them make
/// a logical one.
#[derive(Debug, Clone, Copy)]
pub struct MonitorRect {
    pub x: i32,
    pub y: i32,
    pub width: u32,
    pub height: u32,
    pub scale: Figure,
}

/// Whether a point is on a monitor, its edges included.
pub open spec fn on_monitor(m: MonitorRect, x: Figure, y: Figure) -> bool {
    let mx = signed_whole(m.x as int);
    let my = signed_whole(m.y as int);
    &&& mx.at_most(x)
    &&& x.at_most(sum(mx, whole(m.width as nat)))
    &&& my.at_most(y)
    &&& y.at_most(sum(my, whole(m.height as nat)))
}

/// The first monitor with a point on it.
pub open spec fn first_with(monitors: Seq<MonitorRect>, x: Figure, y: Figure) -> Option<MonitorRect>
    decreases monitors.len(),
{
    if monitors.len() == 0 {
        None
    } else if on_monitor(monitors[0], x, y) {
        Some(monitors[0])
    } else {
        first_with(monitors.drop_first(), x, y)
    }
}

/// The monitor with a point on it, or the primary one.
pub open spec fn monitor_at(
    monitors: Seq<MonitorRect>,
    primary: Option<MonitorRect>,
    x: Figure,
    y: Figure,
) -> Option<MonitorRect> {
    match first_with(monitors, x, y) {
        Some(m) => Some(m),
        None => primary,
    }
}

fn is_on_monitor(m: &MonitorRect, x: Figure, y: Figure) -> (res: bool)
    ensures
        res == on_monitor(*m, x, y),
{
    let mx = signed_whole_figure(m.x as i64);
    let my = signed_whole_figure(m.y as i64);
    mx.le(x) && x.le(add_figures(mx, whole_figure(m.width as u64))) && my.le(y) && y.le(
        add_figures(my, whole_figure(m.height as u64)),
    )
}

pub fn monitor_containing(
    monitors: &Vec<MonitorRect>,
    primary: Option<MonitorRect>,
    x: Figure,
    y: Figure,
) -> (res: Option<MonitorRect>)
    ensures
        res == monitor_at(monitors@, primary, x, y),
{
    let mut i: usize = 0;
    assert(monitors@.skip(0) =~= monitors@);
    while i < monitors.len()
        invariant
            i <= monitors@.len(),
            first_with(monitors@, x, y) == first_with(monitors@.skip(i as int), x, y),
        decreases monitors@.len() - i,
    {
        assert(monitors@.skip(i as int)[0] == monitors@[i as int]);
        assert(monitors@.skip(i as int).drop_first() =~= monitors@.skip(i + 1));
        if is_on_monitor(&monitors[i], x, y) {
            return Some(monitors[i]);
        }
        i = i + 1;
    }
    primary
}

/// Where a popover goes.
#[derive(Debug, Clone, Copy, PartialEq, Eq, Structural)]
pub struct Placement {
    pub x: i32,
    pub y: i32,
    /// Whether it hangs below the icon.
    pub below: bool,
}

/// The place of a popover beside an icon on a monitor.
pub open spec fn place_on(
    m: MonitorRect,
    center_x: Figure,
    icon_top: Figure,
    icon_bottom: Figure,
    logical_h: Figure,
) -> Placement {
    let w = product(figure_of(CHART_W_BITS), m.scale);
    let h = product(logical_h, m.scale);
    let gap = product(figure_of(CHART_GAP_BITS), m.scale);
    let mx = signed_whole(m.x as int);
    let my = signed_whole(m.y as int);
    let mw = whole(m.width as nat);
    let mh = whole(m.height as nat);
    let x = difference(center_x, quotient(w, figure_of(TWO_BITS))).clamped(
        mx,
        difference(sum(mx, mw), w).larger(mx),
    );
    let below = icon_bottom.below(sum(my, quotient(mh, figure_of(TWO_BITS))));
    let y = if below {
        sum(icon_bottom, gap)
    } else {
        difference(difference(icon_top, gap), h)
    };
    let kept = y.clamped(my, difference(sum(my, mh), h).larger(my));
    Placement {
        x: cut_to_range(x, i32::MIN as int, i32::MAX as int) as i32,
        y: cut_to_range(kept, i32::MIN as int, i32::MAX as int) as i32,
        below,
    }
}

/// Where a popover goes: centred on the icon, below it where the icon is in the
/// upper half of its monitor (a menu bar) and above it where it is in the lower
/// (a taskbar), and within the monitor.
pub fn position_chart(
    m: &MonitorRect,
    center_x: Figure,
    icon_top: Figure,
    icon_bottom: Figure,
    logical_h: Figure,
) -> (res: Placement)
    ensures
        res == place_on(*m, center_x, icon_top, icon_bottom, logical_h),
{
    let two = Figure { bits: TWO_BITS };
    let w = multiply_figures(Figure { bits: CHART_W_BITS }, m.scale);
    let h = multiply_figures(logical_h, m.scale);
    let gap = multiply_figures(Figure { bits: CHART_GAP_BITS }, m.scale);
    let mx = signed_whole_figure(m.x as i64);
    let my = signed_whole_figure(m.y as i64);
    let mw = whole_figure(m.width as u64);
    let mh = whole_figure(m.height as u64);
    let right = subtract_figures(add_figures(mx, mw), w).max(mx);
    let x = subtract_figures(center_x, divide_figures(w, two)).clamp(mx, right);
    let below = icon_bottom.lt(add_figures(my, divide_figures(mh, two)));
    let y = if below {
        add_figures(icon_bottom, gap)
    } else {
        subtract_figures(subtract_figures(icon_top, gap), h)
    };
    let lowest = subtract_figures(add_figures(my, mh), h).max(my);
    let kept = y.clamp(my, lowest);
    Placement { x: figure_to_i32(x), y: figure_to_i32(kept), below }
}

/// A popover opens no further left than its monitor and no higher, and hangs
/// below the icon exactly where the icon's bottom is in the upper half.
pub proof fn popovers_open_on_their_monitor(
    m: MonitorRect,
    center_x: Figure,
    icon_top: Figure,
    icon_bottom: Figure,
    logical_h: Figure,
)
    requires
        !difference(
            center_x,
            quotient(product(figure_of(CHART_W_BITS), m.scale), figure_of(TWO_BITS)),
        ).nan(),
        !sum(icon_bottom, product(figure_of(CHART_GAP_BITS), m.scale)).nan(),
        !difference(
            difference(icon_top, product(figure_of(CHART_GAP_BITS), m.scale)),
            product(logical_h, m.scale),
        ).nan(),
    ensures
        ({
            let place = place_on(m, center_x, icon_top, icon_bottom, logical_h);
            &&& m.x <= place.x
            &&& m.y <= place.y
            &&& place.below == icon_bottom.below(
                sum(
                    signed_whole(m.y as int),
                    quotient(whole(m.height as nat), figure_of(TWO_BITS)),
                ),
            )
        }),
{
    small_whole_numbers_are_numbers(m.x as int);
    small_whole_numbers_are_numbers(m.y as int);
    let w = product(figure_of(CHART_W_BITS), m.scale);
    let h = product(logical_h, m.scale);
    let gap = product(figure_of(CHART_GAP_BITS), m.scale);
    let mx = signed_whole(m.x as int);
    let my = signed_whole(m.y as int);
    let x = difference(center_x, quotient(w, figure_of(TWO_BITS))).clamped(
        mx,
        difference(sum(mx, whole(m.width as nat)), w).larger(mx),
    );
    let below = icon_bottom.below(
        sum(my, quotient(whole(m.height as nat), figure_of(TWO_BITS))),
    );
    let y = if below {
        sum(icon_bottom, gap)
    } else {
        difference(difference(icon_top, gap), h)
    };
    let kept = y.clamped(my, difference(sum(my, whole(m.height as nat)), h).larger(my));
    assert(mx.at_most(x));
    assert(my.at_most(kept));
    cutting_keeps_above(x, m.x as int);
    cutting_keeps_above(kept, m.y as int);
}

/// A window's place and size in physical pixels.
#[derive(Debug, Clone, Copy)]
pub struct WindowRect {
    pub x: i32,
    pub y: i32,
    pub width: u32,
    pub height: u32,
    pub scale: Figure,
}

/// How a popover is resized.
#[derive(Debug, Clone, Copy)]
pub struct Resize {
    /// The logical height it gets.
    pub applied: Figure,
    pub y: i32,
    pub height: u32,
    /// Move before growing, shrink before moving: either order leaves the
    /// window briefly overhanging the anchored screen edge otherwise.
    pub move_first: bool,
}

/// The point by which a popover's monitor is found. The anchored edge sits next
/// to the tray icon, so it is on-screen even when the opposite edge already
/// overflowed.
pub open spec fn probe_of(window: WindowRect, below: bool) -> (Figure, Figure) {
    let top = signed_whole(window.y as int);
    let y = if below {
        top
    } else {
        difference(sum(top, whole(window.height as nat)), figure_of(ONE_BITS))
    };
    (
        sum(
            signed_whole(window.x as int),
            quotient(whole(window.width as nat), figure_of(TWO_BITS)),
        ),
        y,
    )
}

fn probe_point(window: &WindowRect, below: bool) -> (res: (Figure, Figure))
    ensures
        res == probe_of(*window, below),
{
    let top = signed_whole_figure(window.y as i64);
    let y = if below {
        top
    } else {
        subtract_figures(
            add_figures(top, whole_figure(window.height as u64)),
            Figure { bits: ONE_BITS },
        )
    };
    let x = add_figures(
        signed_whole_figure(window.x as i64),
        divide_figures(whole_figure(window.width as u64), Figure { bits: TWO_BITS }),
    );
    (x, y)
}

/// A monitor with the part of it that windows may use.
#[derive(Debug, Clone, Copy)]
pub struct Screen {
    pub monitor: MonitorRect,
    pub area: WorkArea,
}

/// The monitors of some screens, in their order.
pub open spec fn monitors_of(screens: Seq<Screen>) -> Seq<MonitorRect> {
    screens.map_values(|s: Screen| s.monitor)
}

/// The first screen with a point on it, or the primary one.
pub open spec fn screen_at(
    screens: Seq<Screen>,
    primary: Option<Screen>,
    x: Figure,
    y: Figure,
) -> Option<Screen>
    decreases screens.len(),
{
    if screens.len() == 0 {
        primary
    } else if on_monitor(screens[0].monitor, x, y) {
        Some(screens[0])
    } else {
        screen_at(screens.drop_first(), primary, x, y)
    }
}

/// The work area of the monitor that a popover is on.
pub fn area_around(
    window: &WindowRect,
    below: bool,
    screens: &Vec<Screen>,
    primary: Option<Screen>,
) -> (res: Option<WorkArea>)
    ensures
        res == match screen_at(
            screens@,
            primary,
            probe_of(*window, below).0,
            probe_of(*window, below).1,
        ) {
            Some(screen) => Some(screen.area),
            None => None,
        },
{
    let (x, y) = probe_point(window, below);
    let mut i: usize = 0;
    assert(screens@.skip(0) =~= screens@);
    while i < screens.len()
        invariant
            i <= screens@.len(),
            screen_at(screens@, primary, x, y) == screen_at(
                screens@.skip(i as int),
                primary,
                x,
                y,
            ),
            (x, y) == probe_of(*window, below),
        decreases screens@.len() - i,
    {
        assert(screens@.skip(i as int)[0] == screens@[i as int]);
        assert(screens@.skip(i as int).drop_first() =~= screens@.skip(i + 1));
        if is_on_monitor(&screens[i].monitor, x, y) {
            return Some(screens[i].area);
        }
        i = i + 1;
    }
    match primary {
        Some(screen) => Some(screen.area),
        None => None,
    }
}

/// The work area that is found is that of the monitor that is found.
pub proof fn areas_go_with_their_monitors(
    screens: Seq<Screen>,
    primary: Option<Screen>,
    x: Figure,
    y: Figure,
)
    ensures
        monitor_at(
            monitors_of(screens),
            match primary {
                Some(screen) => Some(screen.monitor),
                None => None,
            },
            x,
            y,
        ) == match screen_at(screens, primary, x, y) {
            Some(screen) => Some(screen.monitor),
            None => None,
        },
    decreases screens.len(),
{
    if screens.len() > 0 {
        let rest = screens.drop_first();
        assert(monitors_of(screens)[0] == screens[0].monitor);
        assert(monitors_of(screens).drop_first() =~= monitors_of(rest));
        areas_go_with_their_monitors(rest, primary, x, y);
    }
}

/// The physical height for a logical one: a whole number of pixels, at least
/// one.
pub open spec fn pixels_high(logical: Figure, scale: Figure) -> Figure {
    rounded_figure(product(logical, scale)).larger(figure_of(ONE_BITS))
}

/// The pixels of a work area from a popover's anchored edge to the edge it
/// grows to: the bottom where it hangs below the icon, else the top. An edge
/// that is not in the area counts as being at its end.
pub open spec fn pixels_left(window: WindowRect, below: bool, area: WorkArea) -> int {
    let end = area.y + area.height;
    let bottom = window.y + window.height;
    if below {
        end - if window.y < area.y {
            area.y
        } else {
            window.y
        }
    } else {
        (if bottom < end {
            bottom
        } else {
            end
        }) - area.y
    }
}

/// The logical height that a work area leaves a popover.
pub open spec fn room_left(window: WindowRect, below: bool, area: WorkArea) -> Figure {
    quotient(signed_whole(pixels_left(window, below, area)), window.scale)
}

fn left_for(window: &WindowRect, below: bool, area: &WorkArea) -> (res: Figure)
    ensures
        res == room_left(*window, below, *area),
{
    let end: i64 = area.y as i64 + area.height as i64;
    let bottom: i64 = window.y as i64 + window.height as i64;
    let pixels: i64 = if below {
        end - (if window.y < area.y {
            area.y as i64
        } else {
            window.y as i64
        })
    } else {
        (if bottom < end {
            bottom
        } else {
            end
        }) - area.y as i64
    };
    divide_figures(signed_whole_figure(pixels), window.scale)
}

/// The height that a popover gets where so much room is left for it.
pub open spec fn height_in_room(logical_h: Figure, room: Figure) -> Figure {
    logical_h.clamped(figure_of(CHART_MIN_H_BITS), figure_of(CHART_MIN_H_BITS).larger(room))
}

/// The height that a popover gets: what its work area leaves it, or where that
/// is not known what its monitor does.
pub open spec fn height_beside_icon(
    window: WindowRect,
    below: bool,
    logical_h: Figure,
    area: Option<WorkArea>,
    monitor: Option<MonitorRect>,
) -> Figure {
    match (area, monitor) {
        (Some(a), _) => height_in_room(logical_h, room_left(window, below, a)),
        (None, Some(m)) => height_within(
            logical_h,
            Some(quotient(whole(m.height as nat), m.scale)),
        ),
        (None, None) => height_within(logical_h, None),
    }
}

/// A popover gets the height it asks for as far as its work area has room for
/// it beside the icon: never more than is left there, unless that is less than
/// its least height, and exactly what it asks for in between.
pub proof fn popovers_fit_beside_the_icon(
    window: WindowRect,
    below: bool,
    logical_h: Figure,
    area: WorkArea,
    monitor: Option<MonitorRect>,
)
    requires
        !logical_h.nan(),
    ensures
        ({
            let least = figure_of(CHART_MIN_H_BITS);
            let room = room_left(window, below, area);
            let applied = height_beside_icon(window, below, logical_h, Some(area), monitor);
            &&& least.at_most(applied)
            &&& least.at_most(room) ==> applied.at_most(room)
            &&& least.at_most(logical_h) && logical_h.at_most(room) ==> applied == logical_h
            &&& room.below(least) ==> applied == least
        }),
{
}

/// How a popover is resized on the monitor it is on.
pub open spec fn resize_on(
    window: WindowRect,
    below: bool,
    logical_h: Figure,
    area: Option<WorkArea>,
    monitor: Option<MonitorRect>,
) -> Resize {
    let bounds = match monitor {
        Some(m) => Some((signed_whole(m.y as int), whole(m.height as nat))),
        None => None,
    };
    let applied = height_beside_icon(window, below, logical_h, area, monitor);
    let target = pixels_high(applied, window.scale);
    let cur_h = whole(window.height as nat);
    let y = top_after_resize(below, signed_whole(window.y as int), cur_h, target, bounds);
    Resize {
        applied,
        y: cut_to_range(y, i32::MIN as int, i32::MAX as int) as i32,
        height: cut_to_range(target, 0, u32::MAX as int) as u32,
        move_first: cur_h.below(target),
    }
}

/// Resize the popover to `logical_h`, growing away from the edge anchored to
/// the tray icon: hanging under the menu bar it keeps its top edge and extends
/// downwards, sitting above the taskbar it keeps its bottom edge and extends
/// upwards. The logical height actually applied is at most what is left on that
/// side of the icon in the work area of the popover's monitor, which leaves out
/// a taskbar or a Dock; see [`area_around`].
pub fn resize_chart(
    window: &WindowRect,
    below: bool,
    logical_h: Figure,
    area: Option<WorkArea>,
    monitors: &Vec<MonitorRect>,
    primary: Option<MonitorRect>,
) -> (res: Resize)
    ensures
        res == resize_on(
            *window,
            below,
            logical_h,
            area,
            monitor_at(monitors@, primary, probe_of(*window, below).0, probe_of(*window, below).1),
        ),
{
    let top = signed_whole_figure(window.y as i64);
    let cur_h = whole_figure(window.height as u64);
    let (center_x, probe_y) = probe_point(window, below);
    let monitor = monitor_containing(monitors, primary, center_x, probe_y);
    let (high, bounds) = match monitor {
        Some(m) => (
            Some(divide_figures(whole_figure(m.height as u64), m.scale)),
            Some((signed_whole_figure(m.y as i64), whole_figure(m.height as u64))),
        ),
        None => (None, None),
    };
    let applied = match area {
        Some(a) => {
            let least = Figure { bits: CHART_MIN_H_BITS };
            logical_h.clamp(least, least.max(left_for(window, below, &a)))
        },
        None => clamp_chart_h(logical_h, high),
    };
    let target = round_figure(multiply_figures(applied, window.scale)).max(
        Figure { bits: ONE_BITS },
    );
    let y = anchored_y(below, top, cur_h, target, bounds);
    Resize {
        applied,
        y: figure_to_i32(y),
        height: figure_to_u32(target),
        move_first: cur_h.lt(target),
    }
}

/// What a click on the tray icon does to the popover.
#[derive(Debug, Clone, Copy, PartialEq, Eq, Structural)]
pub enum ChartMove {
    /// The click that closed it by taking its focus is not to open it again.
    Ignore,
    Hide,
    /// Show it, anchored to the icon anew or where it was dragged.
    Show { anchor: bool },
    Create,
}

/// What a click does: `hidden_ago_ms` is how long ago the popover hid itself,
/// `visible` whether it is on screen, where it exists.
pub open spec fn chart_move(
    hidden_ago_ms: Option<u64>,
    visible: Option<bool>,
    pinned: bool,
) -> ChartMove {
    if hidden_ago_ms is Some && hidden_ago_ms.unwrap() < CHART_REOPEN_GUARD_MS {
        ChartMove::Ignore
    } else {
        match visible {
            None => ChartMove::Create,
            Some(shown) => if shown {
                ChartMove::Hide
            } else {
                ChartMove::Show { anchor: !pinned }
            },
        }
    }
}

pub fn open_chart(hidden_ago_ms: Option<u64>, visible: Option<bool>, pinned: bool) -> (res:
    ChartMove)
    ensures
        res == chart_move(hidden_ago_ms, visible, pinned),
{
    match hidden_ago_ms {
        Some(ago) => if ago < CHART_REOPEN_GUARD_MS {
            return ChartMove::Ignore;
        },
        None => {},
    }
    match visible {
        None => ChartMove::Create,
        Some(shown) => if shown {
            ChartMove::Hide
        } else {
            ChartMove::Show { anchor: !pinned }
        },
    }
}

/// Clicks toggle: what is shown is hidden, what is hidden is shown, and a
/// pinned popover stays where it was dragged.
pub proof fn clicks_toggle_the_popover(pinned: bool)
    ensures
        chart_move(None, Some(true), pinned) is Hide,
        chart_move(None, Some(false), pinned) == (ChartMove::Show { anchor: !pinned }),
        chart_move(None, None, pinned) is Create,
        forall|ago: u64, visible: Option<bool>|
            ago < CHART_REOPEN_GUARD_MS ==> #[trigger] chart_move(Some(ago), visible, pinned) is Ignore,
{
}

/// The logical height of a popover by its window's pixels and scale, or by its
/// nodes.
pub open spec fn height_shown(inner: Option<(u32, Figure)>, node_count: nat) -> Figure {
    match inner {
        Some((height, scale)) => quotient(whole(height as nat), scale),
        None => chart_height(node_count),
    }
}

/// The logical height of a popover by its window, or by its nodes where the
/// window does not tell. The retained page may be taller because a node is
/// expanded.
pub fn shown_height(inner: Option<(u32, Figure)>, node_count: usize) -> (res: Figure)
    ensures
        res == height_shown(inner, node_count as nat),
{
    match inner {
        Some((height, scale)) => divide_figures(whole_figure(height as u64), scale),
        None => chart_logical_size(node_count).1,
    }
}

/// The middle and the bottom of an icon.
pub open spec fn anchor_of(x: Figure, y: Figure, width: Figure, height: Figure) -> (Figure, Figure) {
    (sum(x, quotient(width, figure_of(TWO_BITS))), sum(y, height))
}

/// The middle and the bottom of an icon.
pub fn icon_anchor(x: Figure, y: Figure, width: Figure, height: Figure) -> (res: (Figure, Figure))
    ensures
        res == anchor_of(x, y, width, height),
{
    (
        add_figures(x, divide_figures(width, Figure { bits: TWO_BITS })),
        add_figures(y, height),
    )
}

/// Whether a theme is dark; nothing where the system decides.
pub fn native_theme(theme: ThemeMode) -> (dark: Option<bool>)
    ensures
        dark == match theme {
            ThemeMode::System => None,
            ThemeMode::Light => Some(false),
            ThemeMode::Dark => Some(true),
        },
{
    match theme {
        ThemeMode::System => None,
        ThemeMode::Light => Some(false),
        ThemeMode::Dark => Some(true),
    }
}

// ---------------------------------------------------------------------------
// The panel
// ---------------------------------------------------------------------------

pub open spec fn hex_digit(n: int) -> char {
    if n < 10 {
        (0x30 + n) as char
    } else {
        (0x61 + n - 10) as char
    }
}

/// A character as it stands between the quotes of a JSON text.
pub open spec fn escaped(c: char) -> Seq<char> {
    if c == '"' || c == '\\' {
        seq!['\\', c]
    } else if c == '\u{8}' {
        seq!['\\', 'b']
    } else if c == '\t' {
        seq!['\\', 't']
    } else if c == '\n' {
        seq!['\\', 'n']
    } else if c == '\u{c}' {
        seq!['\\', 'f']
    } else if c == '\r' {
        seq!['\\', 'r']
    } else if (c as int) < 0x20 {
        seq!['\\', 'u', '0', '0', hex_digit(c as int / 16), hex_digit(c as int % 16)]
    } else {
        seq![c]
    }
}

/// A text as JSON.
pub open spec fn json_written(s: Seq<char>) -> Seq<char> {
    seq!['"'] + s.map_values(|c: char| escaped(c)).flatten() + seq!['"']
}

/// `serde_json::to_string` of a text: the text between quotes, with quotes,
/// backslashes and control characters escaped. A text is always written, and
/// what is written is read back as the text.
#[verifier::external_body]
fn write_json(text: &str) -> (res: Option<String>)
    ensures
        res is Some,
        res.unwrap()@ == json_written(text@),
        json_read(res.unwrap()@) == Some(Json::Text(text@)),
{
    serde_json::to_string(text).ok()
}

/// The script that sends the panel to an address.
pub open spec fn navigation_script(base: Seq<char>) -> Seq<char> {
    "window.location.replace("@ + json_written(base) + ")"@
}

/// The script that sends the panel to an address. Whatever the address holds,
/// the script reads it back as it is.
pub fn navigate(base: &str) -> (out: String)
    ensures
        out@ == navigation_script(base@),
        json_read(json_written(base@)) == Some(Json::Text(base@)),
{
    let target = match write_json(base) {
        Some(text) => text,
        None => "\"about:blank\"".to_owned(),
    };
    let mut out = joined("window.location.replace(", target.as_str());
    out.append(")");
    out
}

/// What opening the panel takes.
#[derive(Debug)]
pub enum PanelMove {
    /// There is no backend to show.
    OpenSettings,
    /// Show the window; where its page is another one, by this script first.
    Focus { navigate: Option<String> },
    Create { base: String },
}

/// Open the panel for an address, and remember what it shows.
pub fn open_panel(state: &mut AppState, exists: bool) -> (res: PanelMove)
    ensures
        match normal_base(old(state).settings.backend_url@) {
            Err(_) => res is OpenSettings && *final(state) == *old(state),
            Ok(base) => if !exists {
                res is Create && res->base@ == base && *final(state) == *old(state)
            } else if text_if(old(state).loaded_panel_url) == Some(base) {
                res is Focus && res->navigate is None && *final(state) == *old(state)
            } else {
                res is Focus && text_if(res->navigate) == Some(navigation_script(base)) && text_if(
                    final(state).loaded_panel_url,
                ) == Some(base) && *final(state) == (AppState {
                    loaded_panel_url: final(state).loaded_panel_url,
                    ..*old(state)
                })
            },
        },
{
    match normalize_base(state.settings.backend_url.as_str()) {
        Err(_) => PanelMove::OpenSettings,
        Ok(base) => if !exists {
            PanelMove::Create { base }
        } else {
            PanelMove::Focus { navigate: turn_panel(state, base) }
        },
    }
}

/// Point the panel at a base address, unless it shows it already.
fn turn_panel(state: &mut AppState, base: String) -> (script: Option<String>)
    ensures
        if text_if(old(state).loaded_panel_url) == Some(base@) {
            script is None && *final(state) == *old(state)
        } else {
            text_if(script) == Some(navigation_script(base@)) && text_if(
                final(state).loaded_panel_url,
            ) == Some(base@) && *final(state) == (AppState {
                loaded_panel_url: final(state).loaded_panel_url,
                ..*old(state)
            })
        },
{
    let shown = match &state.loaded_panel_url {
        Some(url) => same(url.as_str(), base.as_str()),
        None => false,
    };
    if shown {
        None
    } else {
        let script = navigate(base.as_str());
        state.loaded_panel_url = Some(base);
        Some(script)
    }
}

/// If the main window is open and the backend URL changed, point it at the
/// new URL in the background (no focus steal).
pub fn sync_panel_url(state: &mut AppState, backend_url: &str, exists: bool) -> (script: Option<
    String,
>)
    ensures
        match normal_base(backend_url@) {
            Ok(base) => if exists && text_if(old(state).loaded_panel_url) != Some(base) {
                text_if(script) == Some(navigation_script(base)) && text_if(
                    final(state).loaded_panel_url,
                ) == Some(base) && *final(state) == (AppState {
                    loaded_panel_url: final(state).loaded_panel_url,
                    ..*old(state)
                })
            } else {
                script is None && *final(state) == *old(state)
            },
            Err(_) => script is None && *final(state) == *old(state),
        },
{
    match normalize_base(backend_url) {
        Ok(base) => if exists {
            turn_panel(state, base)
        } else {
            None
        },
        Err(_) => None,
    }
}

/// A count that starts over when it is full.
pub open spec fn next_count(n: u64) -> u64 {
    if n == u64::MAX {
        0
    } else {
        (n + 1) as u64
    }
}

fn counted(n: u64) -> (res: u64)
    ensures
        res == next_count(n),
{
    if n == u64::MAX {
        0
    } else {
        n + 1
    }
}

/// How long a page may take to load before the panel is made anew.
pub const PANEL_STALL_MS: u64 = 30_000;

/// How long to wait between two times of making it anew.
pub const PANEL_RECREATE_GAP_MS: u64 = 60_000;

/// How often to look after the panel.
pub const PANEL_WATCH_MS: u64 = 15_000;

/// How long to leave between taking the panel down and making it anew.
pub const PANEL_REST_MS: u64 = 300;

/// How long after opening a window that has not shown itself is shown anyway.
pub const PANEL_SHOW_MS: u64 = 6_000;

/// How long after opening a page that has not loaded is loaded again.
pub const PANEL_LOAD_MS: u64 = 20_000;

/// How often it is made anew without a page loading.
pub const PANEL_RECREATE_LIMIT: u64 = 3;

/// Whether a panel hangs: a load began, has not ended for a while, and the
/// panel was not made anew just now.
pub open spec fn panel_hangs(panel: PanelState, now: u64) -> bool {
    &&& panel.load_started_ms > panel.load_ms
    &&& now - panel.load_started_ms > PANEL_STALL_MS
    &&& now - panel.reload_ms > PANEL_RECREATE_GAP_MS
}

/// Whether the panel is to be made anew, and what is known of it then.
pub open spec fn watched(panel: PanelState, visible: bool, now: u64) -> (PanelState, bool) {
    if !visible || !panel_hangs(panel, now) {
        (panel, false)
    } else {
        let counted_once = PanelState {
            recreate_streak: next_count(panel.recreate_streak),
            ..panel
        };
        if panel.recreate_streak >= PANEL_RECREATE_LIMIT {
            (counted_once, false)
        } else {
            (PanelState { reload_ms: now, ..counted_once }, true)
        }
    }
}

/// What is known of a panel whose page has loaded.
pub open spec fn loaded(panel: PanelState, now: u64) -> PanelState {
    PanelState { load_ms: now, recreate_streak: 0, ..panel }
}

impl PanelState {
    /// The page has loaded: whatever was tried to get there is over.
    pub fn mark_loaded(&mut self, now: u64)
        ensures
            *final(self) == loaded(*old(self), now),
    {
        self.load_ms = now;
        self.recreate_streak = 0;
    }

    /// The panel was opened or closed: whoever watched the former opening has
    /// nothing to watch any more.
    pub fn turn_over(&mut self)
        ensures
            *final(self) == (PanelState { epoch: next_count(old(self).epoch), ..*old(self) }),
    {
        self.epoch = counted(self.epoch);
    }

    /// Periodic panel health check: while the panel is visible, a navigation
    /// that started but never finished within 30s has it made anew (with a
    /// cooldown). After three times without success it is left alone.
    pub fn watchdog_tick(&mut self, visible: bool, now: u64) -> (recreate: bool)
        ensures
            (*final(self), recreate) == watched(*old(self), visible, now),
    {
        if !visible {
            return false;
        }
        if self.load_started_ms > self.load_ms && now.saturating_sub(self.load_started_ms)
            > PANEL_STALL_MS && now.saturating_sub(self.reload_ms) > PANEL_RECREATE_GAP_MS {
            let streak: u64 = self.recreate_streak;
            self.recreate_streak = counted(streak);
            if streak >= PANEL_RECREATE_LIMIT {
                return false;
            }
            self.reload_ms = now;
            return true;
        }
        false
    }
}

/// After three times without a page loading the panel is not made anew again;
/// once a page has loaded, the next that hangs is, however often that was done
/// before. Two times are at least a minute apart.
pub proof fn recreations_are_limited(
    panel: PanelState,
    visible: bool,
    now: u64,
    then: u64,
    next: u64,
)
    ensures
        ({
            let begun = PanelState { load_started_ms: next, ..loaded(panel, then) };
            visible && panel_hangs(begun, now) ==> watched(begun, visible, now).1
        }),
        panel.recreate_streak >= PANEL_RECREATE_LIMIT ==> !watched(panel, visible, now).1,
        watched(panel, visible, now).1 ==> watched(panel, visible, now).0.recreate_streak
            == panel.recreate_streak + 1 && watched(panel, visible, now).0.reload_ms == now && now
            > panel.reload_ms + PANEL_RECREATE_GAP_MS,
        !visible ==> watched(panel, visible, now) == (panel, false),
{
}

/// What to do some time after the panel was opened.
#[derive(Debug, Clone, Copy, PartialEq, Eq, Structural)]
pub enum OpeningCheck {
    Leave,
    Show,
    Reload,
}

/// What to do of a panel that was opened a while ago and may not be on screen.
pub open spec fn shown_check(epoch_then: u64, panel: PanelState, visible: bool) -> OpeningCheck {
    if panel.epoch == epoch_then && !visible {
        OpeningCheck::Show
    } else {
        OpeningCheck::Leave
    }
}

/// What to do of a panel that was opened a while ago and may not have loaded.
pub open spec fn loaded_check(
    epoch_then: u64,
    loaded_then: u64,
    panel: PanelState,
    visible: bool,
) -> OpeningCheck {
    if panel.epoch == epoch_then && panel.load_ms <= loaded_then && visible {
        OpeningCheck::Reload
    } else {
        OpeningCheck::Leave
    }
}

/// A while after opening: a window that has not shown itself is shown anyway,
/// unless the panel was closed or opened again since.
pub fn check_shown(epoch_then: u64, panel: &PanelState, visible: bool) -> (res: OpeningCheck)
    ensures
        res == shown_check(epoch_then, *panel, visible),
{
    if panel.epoch == epoch_then && !visible {
        OpeningCheck::Show
    } else {
        OpeningCheck::Leave
    }
}

/// Later still: a page that has not loaded since is loaded again.
pub fn check_loaded(epoch_then: u64, loaded_then: u64, panel: &PanelState, visible: bool) -> (res:
    OpeningCheck)
    ensures
        res == loaded_check(epoch_then, loaded_then, *panel, visible),
{
    if panel.epoch == epoch_then && panel.load_ms <= loaded_then && visible {
        OpeningCheck::Reload
    } else {
        OpeningCheck::Leave
    }
}

// ---------------------------------------------------------------------------
// Start and window events
// ---------------------------------------------------------------------------

/// What is shown at the start.
#[derive(Debug, Clone, Copy, PartialEq, Eq, Structural)]
pub enum StartView {
    Settings,
    HiddenPanel,
    Panel,
}

/// What is shown first.
pub open spec fn first_view(backend_url: Seq<char>, silent_start: bool) -> StartView {
    if trim(backend_url).len() == 0 {
        StartView::Settings
    } else if silent_start {
        StartView::HiddenPanel
    } else {
        StartView::Panel
    }
}

/// The settings where no backend is set; else the panel, hidden where a silent
/// start is wanted.
pub fn start_view(backend_url: &str, silent_start: bool) -> (res: StartView)
    ensures
        res == first_view(backend_url@, silent_start),
{
    if trimmed(backend_url).as_str().is_empty() {
        StartView::Settings
    } else if silent_start {
        StartView::HiddenPanel
    } else {
        StartView::Panel
    }
}

/// What closing a window does.
#[derive(Debug, Clone, Copy, PartialEq, Eq, Structural)]
pub enum CloseMove {
    /// Hide the panel; the tray keeps running.
    HidePanel,
    /// Hide the popover, and keep its page and what it knows.
    HideChart,
    Close,
}

/// What closing the window of a label does.
pub open spec fn closing_does(label: Seq<char>) -> CloseMove {
    if label == "main"@ {
        CloseMove::HidePanel
    } else if label == "chart"@ {
        CloseMove::HideChart
    } else {
        CloseMove::Close
    }
}

pub fn on_close(label: &str) -> (res: CloseMove)
    ensures
        res == closing_does(label@),
{
    if same(label, "main") {
        CloseMove::HidePanel
    } else if same(label, "chart") {
        CloseMove::HideChart
    } else {
        CloseMove::Close
    }
}

/// How long the popover may be without focus before it hides. A brief flicker
/// (the shell re-asserting after a tray click) does not close it.
pub const BLUR_DELAY_MS: u64 = 250;

/// Whether losing the focus is to be looked into: only the popover minds, and
/// only where it is not pinned open.
pub fn minds_blur(label: &str, pinned: bool) -> (res: bool)
    ensures
        res == (label@ == "chart"@ && !pinned),
{
    same(label, "chart") && !pinned
}

/// A while after the focus was lost: a popover that is on screen and still
/// without it hides, and it is kept when. Nothing is taken for granted of a
/// window that does not tell.
pub fn after_blur(
    state: &mut AppState,
    visible: Option<bool>,
    focused: Option<bool>,
    clock_ms: u64,
) -> (hide: bool)
    ensures
        hide == (visible == Some(true) && focused == Some(false)),
        *final(state) == if hide {
            AppState { chart_hidden_at: Some(clock_ms), ..*old(state) }
        } else {
            *old(state)
        },
{
    match (visible, focused) {
        (Some(true), Some(false)) => {
            state.chart_hidden_at = Some(clock_ms);
            true
        },
        _ => false,
    }
}

} // verus!
