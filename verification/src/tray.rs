//! The tray icon: what it shows and what clicks on it do.

use vstd::prelude::*;

use crate::decimal::{decimal, digits, figure_decimal, figure_text};
use crate::figure::{figure_of, HUNDRED_BITS, ONE_BITS};
use crate::models::{aggregate_of, aggregate_within, errors_are_warnings_too, gauge_of, icon_of, icon_state, in_scope, online_of, percent_or_zero, readings_of, scoped_nodes, severity_of, sums_fit, Aggregate, IconState, MonitorSnapshot, NodeSnapshot, Reading, Settings, SettingsFacts, Severity, ThemeMode};
use crate::readout::{fmt_rate, fmt_rate_menu_bar, menu_bar_rate_text, rate_text};
use crate::text::{cut_to, joined, same, truncate};

verus! {

pub const TRAY_ID: &'static str = "hotaru-main-tray";

/// Both sides of the icon, in pixels.
pub const ICON_SIZE: u32 = 32;

// ---------------------------------------------------------------------------
// Texts
// ---------------------------------------------------------------------------

/// The tooltip for a snapshot and the figures over it.
pub open spec fn tooltip(snap: MonitorSnapshot, agg: Aggregate) -> Seq<char> {
    if !snap.backend_ok {
        let error = match snap.error {
            Some(e) => e@,
            None => "后端不可达"@,
        };
        "Hotaru · 后端不可达\n"@ + cut_to(error, 90)
    } else {
        "Hotaru · 在线 "@ + digits(agg.online as nat) + "/"@ + digits(agg.total as nat) + "\nCPU "@
            + figure_text(agg.cpu, 0) + "% · 内存 "@ + figure_text(agg.mem_pct, 0) + "%\n↑"@
            + rate_text(agg.net_up) + " ↓"@ + rate_text(agg.net_down)
    }
}

pub fn tooltip_text(snap: &MonitorSnapshot, agg: &Aggregate) -> (out: String)
    ensures
        out@ == tooltip(*snap, *agg),
{
    if !snap.backend_ok {
        let error = match &snap.error {
            Some(e) => truncate(e.as_str(), 90),
            None => truncate("后端不可达", 90),
        };
        return joined("Hotaru · 后端不可达\n", error.as_str());
    }
    let mut out = joined("Hotaru · 在线 ", decimal(agg.online as u64).as_str());
    out.append("/");
    out.append(decimal(agg.total as u64).as_str());
    out.append("\nCPU ");
    out.append(figure_decimal(agg.cpu, 0).as_str());
    out.append("% · 内存 ");
    out.append(figure_decimal(agg.mem_pct, 0).as_str());
    out.append("%\n↑");
    out.append(fmt_rate(agg.net_up).as_str());
    out.append(" ↓");
    out.append(fmt_rate(agg.net_down).as_str());
    out
}

/// The menu bar text for some figures.
pub open spec fn menu_bar(agg: Aggregate) -> Seq<char> {
    "↑\t"@ + menu_bar_rate_text(agg.net_up) + "\n↓\t"@ + menu_bar_rate_text(agg.net_down)
}

/// Up over down, each on its own line. The tab is what keeps the two columns:
/// a right-aligned tab stop leaves the arrows in a column on the left and
/// lines the figures up on the right.
pub fn menu_bar_text(agg: &Aggregate) -> (out: String)
    ensures
        out@ == menu_bar(*agg),
{
    let mut out = joined("↑\t", fmt_rate_menu_bar(agg.net_up).as_str());
    out.append("\n↓\t");
    out.append(fmt_rate_menu_bar(agg.net_down).as_str());
    out
}

/// Everything that the tray shows.
#[derive(Debug)]
pub struct TrayView {
    pub icon: IconState,
    /// The text beside the icon; empty where none is wanted.
    pub title: String,
    pub tooltip: String,
}

/// The sums that the tray shows: over the nodes in scope.
pub open spec fn sums_shown(settings: SettingsFacts, snap: MonitorSnapshot) -> Aggregate {
    aggregate_of(in_scope(settings, snap.nodes@))
}

/// The text beside the icon, where one is wanted.
pub open spec fn title_of(settings: SettingsFacts, agg: Aggregate) -> Seq<char> {
    if settings.show_menu_bar_text {
        menu_bar(agg)
    } else {
        Seq::empty()
    }
}

/// What the tray shows for settings and a snapshot; nothing where the byte
/// counts of the nodes do not sum up.
pub fn tray_view(settings: &Settings, snap: &MonitorSnapshot) -> (res: Option<TrayView>)
    ensures
        match res {
            Some(view) => {
                let agg = sums_shown(settings@, *snap);
                &&& sums_fit(in_scope(settings@, snap.nodes@))
                &&& view.icon == icon_of(settings@, *snap)
                &&& view.title@ == title_of(settings@, agg)
                &&& view.tooltip@ == tooltip(*snap, agg)
            },
            None => !sums_fit(in_scope(settings@, snap.nodes@)),
        },
{
    let scope = scoped_nodes(settings, snap.nodes.as_slice());
    match aggregate_within(scope.as_slice()) {
        Some(agg) => Some(
            TrayView {
                icon: icon_state(settings, snap),
                title: if settings.show_menu_bar_text {
                    menu_bar_text(&agg)
                } else {
                    String::new()
                },
                tooltip: tooltip_text(snap, &agg),
            },
        ),
        None => None,
    }
}

// ---------------------------------------------------------------------------
// Icon
// ---------------------------------------------------------------------------

/// What is drawn over the status ring.
#[derive(Debug, Clone, Copy, PartialEq, Eq, Structural)]
pub enum IconMark {
    Plain,
    /// A dot of radius 2.6.
    SmallDot,
    /// A dot of radius 3.2.
    LargeDot,
    /// A slash across the ring.
    Slash,
}

/// The mark for a state: a slash where nothing is up, a dot where something
/// needs attention.
pub open spec fn mark_of(state: IconState) -> IconMark {
    if state.severity is Down || (state.severity is Error && state.gauge is None) {
        IconMark::Slash
    } else if state.severity is Error {
        IconMark::LargeDot
    } else if state.badge || state.severity is Warn {
        IconMark::SmallDot
    } else {
        IconMark::Plain
    }
}

pub fn icon_mark(state: &IconState) -> (res: IconMark)
    ensures
        res == mark_of(*state),
{
    match state.severity {
        Severity::Down => IconMark::Slash,
        Severity::Error => match state.gauge {
            None => IconMark::Slash,
            Some(_) => IconMark::LargeDot,
        },
        Severity::Warn => IconMark::SmallDot,
        Severity::Normal => if state.badge {
            IconMark::SmallDot
        } else {
            IconMark::Plain
        },
    }
}

/// What the icon tells, with settings that were made fit: a slash exactly where
/// the backend does not answer or no node in scope is online; else a dot exactly
/// where some metric has reached its warning level or, among several nodes, some
/// are offline; else the plain ring.
pub proof fn marks_tell_the_state(settings: SettingsFacts, snap: MonitorSnapshot)
    requires
        figure_of(ONE_BITS).at_most(settings.cpu_warn_pct),
        settings.cpu_warn_pct.at_most(figure_of(HUNDRED_BITS)),
        figure_of(ONE_BITS).at_most(settings.mem_warn_pct),
        settings.mem_warn_pct.at_most(figure_of(HUNDRED_BITS)),
    ensures
        ({
            let scope = in_scope(settings, snap.nodes@);
            let online = online_of(scope);
            let mark = mark_of(icon_of(settings, snap));
            let dark = !snap.backend_ok || online.len() == 0;
            let high = exists|i: int|
                0 <= i < online.len() && node_is_high(settings, #[trigger] online[i]);
            let missing = settings.tray_mode is Aggregate && online.len() < scope.len();
            &&& mark is Slash <==> dark
            &&& mark is Plain <==> !dark && !high && !missing
        }),
{
    let scope = in_scope(settings, snap.nodes@);
    let online = online_of(scope);
    let readings = readings_of(settings, online);
    scope.lemma_filter_len(|n: NodeSnapshot| n.online);
    if snap.backend_ok && online.len() > 0 {
        readings_in_turn(settings, online);
        assert forall|i: int| 0 <= i < readings.len() implies (severity_of(#[trigger] readings[i])
            is Normal <==> !readings[i].warn.at_most(readings[i].value)) by {
            assert(readings[i].warn == settings.cpu_warn_pct || readings[i].warn
                == settings.mem_warn_pct);
            errors_are_warnings_too(readings[i]);
        }
        gauge_is_there(readings);
        let high = exists|i: int|
            0 <= i < online.len() && node_is_high(settings, #[trigger] online[i]);
        if high {
            let i = choose|i: int|
                0 <= i < online.len() && node_is_high(settings, #[trigger] online[i]);
            let k = if settings.cpu_warn_pct.at_most(online[i].cpu_usage) {
                2 * i
            } else {
                2 * i + 1
            };
            assert(severity_of(readings[k]) !is Normal);
        } else {
            assert forall|k: int| 0 <= k < readings.len() implies severity_of(
                #[trigger] readings[k],
            ) is Normal by {
                assert(!node_is_high(settings, online[k / 2]));
                assert(k == 2 * (k / 2) || k == 2 * (k / 2) + 1);
            }
        }
    }
}

/// Whether a metric of a node has reached its warning level.
pub open spec fn node_is_high(settings: SettingsFacts, node: NodeSnapshot) -> bool {
    settings.cpu_warn_pct.at_most(node.cpu_usage) || settings.mem_warn_pct.at_most(
        percent_or_zero(node.ram_used, node.ram_total),
    )
}

proof fn readings_in_turn(settings: SettingsFacts, nodes: Seq<NodeSnapshot>)
    ensures
        readings_of(settings, nodes).len() == 2 * nodes.len(),
        forall|i: int|
            #![trigger readings_of(settings, nodes)[i]]
            0 <= i < 2 * nodes.len() ==> readings_of(settings, nodes)[i] == if i % 2 == 0 {
                Reading { value: nodes[i / 2].cpu_usage, warn: settings.cpu_warn_pct }
            } else {
                Reading {
                    value: percent_or_zero(nodes[i / 2].ram_used, nodes[i / 2].ram_total),
                    warn: settings.mem_warn_pct,
                }
            },
    decreases nodes.len(),
{
    if nodes.len() > 0 {
        let front = nodes.drop_last();
        readings_in_turn(settings, front);
        let before = readings_of(settings, front);
        let all = readings_of(settings, nodes);
        assert forall|i: int| #![trigger all[i]] 0 <= i < 2 * nodes.len() implies all[i] == if i % 2
            == 0 {
            Reading { value: nodes[i / 2].cpu_usage, warn: settings.cpu_warn_pct }
        } else {
            Reading {
                value: percent_or_zero(nodes[i / 2].ram_used, nodes[i / 2].ram_total),
                warn: settings.mem_warn_pct,
            }
        } by {
            if i < 2 * front.len() {
                assert(all[i] == before[i]);
                assert(front[i / 2] == nodes[i / 2]);
            }
        }
    }
}

proof fn gauge_is_there(readings: Seq<Reading>)
    ensures
        gauge_of(readings) is Some <==> readings.len() > 0,
{
}

/// A backend that is down, one that warns and one that is well look different.
pub proof fn states_look_different(down: IconState, warning: IconState, well: IconState)
    requires
        down.severity is Down,
        warning.severity is Warn,
        well.severity is Normal,
        !well.badge,
    ensures
        mark_of(down) != mark_of(warning),
        mark_of(down) != mark_of(well),
        mark_of(warning) != mark_of(well),
{
}

/// The colour of the icon: dark on light windows, light on dark ones.
pub open spec fn foreground(
    on_windows: bool,
    shown_dark: Option<bool>,
    theme: ThemeMode,
) -> (u8, u8, u8, u8) {
    if !on_windows {
        (0, 0, 0, 0xFF)
    } else if shown_dark == Some(true) || (shown_dark is None && theme is Dark) {
        (0xF5, 0xF5, 0xF7, 0xFF)
    } else {
        (0x1D, 0x1D, 0x1F, 0xFF)
    }
}

/// The colour of the icon as red, green, blue and opacity. On Windows it goes
/// by the theme of the windows, or where there is none by the settings;
/// elsewhere the system inverts it by itself.
pub fn icon_foreground(on_windows: bool, shown_dark: Option<bool>, theme: ThemeMode) -> (res: (
    u8,
    u8,
    u8,
    u8,
))
    ensures
        res == foreground(on_windows, shown_dark, theme),
{
    if !on_windows {
        return (0, 0, 0, 0xFF);
    }
    let dark = match shown_dark {
        Some(d) => d,
        None => match theme {
            ThemeMode::Dark => true,
            _ => false,
        },
    };
    if dark {
        (0xF5, 0xF5, 0xF7, 0xFF)
    } else {
        (0x1D, 0x1D, 0x1F, 0xFF)
    }
}

// ---------------------------------------------------------------------------
// Menu and clicks
// ---------------------------------------------------------------------------

/// What an entry of the menu does.
#[derive(Debug, Clone, Copy, PartialEq, Eq, Structural)]
pub enum MenuAction {
    Quit,
    OpenPanel,
    ReloadPanel,
    OpenSettings,
    ToggleAutostart,
    Nothing,
}

/// What the entry with an id does.
pub open spec fn action_of(id: Seq<char>) -> MenuAction {
    if id == "quit"@ {
        MenuAction::Quit
    } else if id == "open-panel"@ {
        MenuAction::OpenPanel
    } else if id == "reload-panel"@ {
        MenuAction::ReloadPanel
    } else if id == "open-settings"@ {
        MenuAction::OpenSettings
    } else if id == "autostart"@ {
        MenuAction::ToggleAutostart
    } else {
        MenuAction::Nothing
    }
}

pub fn menu_action(id: &str) -> (res: MenuAction)
    ensures
        res == action_of(id@),
{
    if same(id, "quit") {
        MenuAction::Quit
    } else if same(id, "open-panel") {
        MenuAction::OpenPanel
    } else if same(id, "reload-panel") {
        MenuAction::ReloadPanel
    } else if same(id, "open-settings") {
        MenuAction::OpenSettings
    } else if same(id, "autostart") {
        MenuAction::ToggleAutostart
    } else {
        MenuAction::Nothing
    }
}

/// A click on the tray icon, as the system tells of it.
#[derive(Debug, Clone, Copy, PartialEq, Eq, Structural)]
pub enum TrayClick {
    LeftPressed,
    LeftReleased,
    LeftDouble,
    Other,
}

/// What a click leads to.
#[derive(Debug, Clone, Copy, PartialEq, Eq, Structural)]
pub enum ClickAction {
    ToggleChart,
    OpenPanel,
    ContextMenu,
    Ignore,
}

/// What a click on the icon does.
pub open spec fn clicking_does(click: TrayClick) -> ClickAction {
    match click {
        TrayClick::LeftReleased => ClickAction::ToggleChart,
        TrayClick::LeftDouble => ClickAction::OpenPanel,
        _ => ClickAction::Ignore,
    }
}

/// Left click opens the chart popover anchored to the icon; right click keeps
/// the native menu, double click opens the panel. Windows tells of the press
/// and of the release: only the release counts, or one physical click toggles
/// the popover twice.
pub fn tray_click(click: TrayClick) -> (res: ClickAction)
    ensures
        res == clicking_does(click),
{
    match click {
        TrayClick::LeftReleased => ClickAction::ToggleChart,
        TrayClick::LeftDouble => ClickAction::OpenPanel,
        TrayClick::LeftPressed => ClickAction::Ignore,
        TrayClick::Other => ClickAction::Ignore,
    }
}

/// A mouse event on the status bar button.
#[derive(Debug, Clone, Copy, PartialEq, Eq, Structural)]
pub enum MouseEvent {
    LeftMouseDown,
    LeftMouseUp,
    RightMouseDown,
    RightMouseUp,
    Other,
}

/// What a mouse event leads to, by the control key and how many clicks it is
/// the last of.
pub open spec fn click_leads_to(kind: MouseEvent, control: bool, count: int) -> ClickAction {
    match kind {
        MouseEvent::RightMouseUp => ClickAction::ContextMenu,
        MouseEvent::LeftMouseUp => if control {
            ClickAction::ContextMenu
        } else if count == 2 {
            ClickAction::OpenPanel
        } else if count <= 1 {
            ClickAction::ToggleChart
        } else {
            ClickAction::Ignore
        },
        _ => ClickAction::Ignore,
    }
}

pub fn click_action(kind: MouseEvent, control: bool, count: isize) -> (res: ClickAction)
    ensures
        res == click_leads_to(kind, control, count as int),
{
    match kind {
        MouseEvent::RightMouseUp => ClickAction::ContextMenu,
        MouseEvent::LeftMouseUp => if control {
            ClickAction::ContextMenu
        } else if count == 2 {
            ClickAction::OpenPanel
        } else if count <= 1 {
            ClickAction::ToggleChart
        } else {
            ClickAction::Ignore
        },
        MouseEvent::LeftMouseDown => ClickAction::Ignore,
        MouseEvent::RightMouseDown => ClickAction::Ignore,
        MouseEvent::Other => ClickAction::Ignore,
    }
}

/// Presses do nothing, and with the control key no click opens a window.
pub proof fn presses_are_ignored(control: bool, count: int)
    ensures
        click_leads_to(MouseEvent::LeftMouseDown, control, count) is Ignore,
        click_leads_to(MouseEvent::RightMouseDown, control, count) is Ignore,
        click_leads_to(MouseEvent::LeftMouseUp, true, count) is ContextMenu,
        click_leads_to(MouseEvent::RightMouseUp, control, count) is ContextMenu,
{
}

} // verus!
