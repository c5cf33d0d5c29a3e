//! The figures summed over nodes, and what the tray icon makes of them.

use vstd::arithmetic::power2::{lemma2_to64, lemma2_to64_rest, lemma_pow2_pos, pow2};
use vstd::prelude::*;

use crate::arithmetic::{quotient, sum, total, whole};
use crate::exact::{added, added_alike, are_dyadics, dyadic, dyadics_add, dyadics_are_exact, dyadics_divide, dyadics_multiply, dyadics_order, dyadics_total, means_are_bracketed, pattern_of_whole, products_keep_order, quotients_are_bracketed, short, wholes_are_dyadics};
use crate::figure::{figure_of, Figure, HUNDRED_BITS, ONE_BITS, ZERO_BITS};
use crate::models::{aggregate_of, cpu_of, down_of, gauge_of, icon_of, in_scope, on_scale, online_of, percent, percent_or_zero, ram_total_of, ram_used_of, readings_of, received_of, sent_of, severity_of, sum_of, sums_fit, up_of, Aggregate, MonitorSnapshot, NodeSnapshot, Reading, SettingsFacts, TrayMode, CPU_WARN_BITS, ERR_ABOVE_WARN_BITS, MEM_WARN_BITS};
use crate::tray::sums_shown;

verus! {

proof fn online_after(nodes: Seq<NodeSnapshot>, n: NodeSnapshot)
    ensures
        online_of(nodes.push(n)) == if n.online {
            online_of(nodes).push(n)
        } else {
            online_of(nodes)
        },
        online_of(nodes).len() <= nodes.len(),
{
    reveal(Seq::filter);
    assert(nodes.push(n).drop_last() =~= nodes);
    nodes.lemma_filter_len(|n: NodeSnapshot| n.online);
}

proof fn summed_after(list: Seq<u64>, n: u64)
    ensures
        sum_of(list.push(n)) == sum_of(list) + n,
{
    assert(list.push(n).drop_last() =~= list);
}

proof fn totalled_after(list: Seq<Figure>, f: Figure)
    ensures
        total(list.push(f)) == sum(total(list), f),
{
    assert(list.push(f).drop_last() =~= list);
}

/// One more node that is online adds its memory, its traffic and its rates to
/// the sums, each to its own, and counts as online.
pub proof fn online_nodes_are_added(nodes: Seq<NodeSnapshot>, n: NodeSnapshot)
    requires
        n.online,
        nodes.len() < usize::MAX,
        sums_fit(nodes),
        aggregate_of(nodes).ram_used + n.ram_used <= u64::MAX,
        aggregate_of(nodes).ram_total + n.ram_total <= u64::MAX,
        aggregate_of(nodes).total_up + n.total_up <= u64::MAX,
        aggregate_of(nodes).total_down + n.total_down <= u64::MAX,
    ensures
        ({
            let (a, b) = (aggregate_of(nodes), aggregate_of(nodes.push(n)));
            &&& b.online == a.online + 1
            &&& b.total == a.total + 1
            &&& b.ram_used == a.ram_used + n.ram_used
            &&& b.ram_total == a.ram_total + n.ram_total
            &&& b.total_up == a.total_up + n.total_up
            &&& b.total_down == a.total_down + n.total_down
            &&& b.net_up == sum(a.net_up, n.net_up)
            &&& b.net_down == sum(a.net_down, n.net_down)
            &&& b.mem_pct == percent_or_zero(b.ram_used, b.ram_total)
            &&& sums_fit(nodes.push(n))
        }),
{
    online_after(nodes, n);
    let online = online_of(nodes);
    assert(ram_used_of(online.push(n)) =~= ram_used_of(online).push(n.ram_used));
    assert(ram_total_of(online.push(n)) =~= ram_total_of(online).push(n.ram_total));
    assert(sent_of(online.push(n)) =~= sent_of(online).push(n.total_up));
    assert(received_of(online.push(n)) =~= received_of(online).push(n.total_down));
    assert(up_of(online.push(n)) =~= up_of(online).push(n.net_up));
    assert(down_of(online.push(n)) =~= down_of(online).push(n.net_down));
    summed_after(ram_used_of(online), n.ram_used);
    summed_after(ram_total_of(online), n.ram_total);
    summed_after(sent_of(online), n.total_up);
    summed_after(received_of(online), n.total_down);
    totalled_after(up_of(online), n.net_up);
    totalled_after(down_of(online), n.net_down);
}

/// One more node that is offline only counts as one more node.
pub proof fn offline_nodes_only_count(nodes: Seq<NodeSnapshot>, n: NodeSnapshot)
    requires
        !n.online,
        nodes.len() < usize::MAX,
    ensures
        aggregate_of(nodes.push(n)).total == aggregate_of(nodes).total + 1,
        aggregate_of(nodes.push(n)) == (Aggregate {
            total: aggregate_of(nodes.push(n)).total,
            ..aggregate_of(nodes)
        }),
{
    online_after(nodes, n);
}

/// Of no nodes every sum is zero.
pub proof fn nothing_sums_to_zero()
    ensures
        ({
            let a = aggregate_of(Seq::empty());
            &&& a.online == 0
            &&& a.total == 0
            &&& a.cpu.bits == 0
            &&& a.mem_pct.bits == 0
            &&& a.ram_used == 0
            &&& a.ram_total == 0
            &&& a.net_up.bits == 0
            &&& a.net_down.bits == 0
            &&& a.total_up == 0
            &&& a.total_down == 0
            &&& sums_fit(Seq::empty())
        }),
{
    reveal(Seq::filter);
    let none = online_of(Seq::empty());
    assert(none =~= Seq::empty());
    dyadics_are_exact(0, 0);
    wholes_are_dyadics(0);
    dyadics_divide(0, 0, 1);
    assert(cpu_of(none) =~= Seq::empty());
    assert(up_of(none) =~= Seq::empty());
    assert(down_of(none) =~= Seq::empty());
    assert(ram_used_of(none) =~= Seq::empty());
    assert(ram_total_of(none) =~= Seq::empty());
    assert(sent_of(none) =~= Seq::empty());
    assert(received_of(none) =~= Seq::empty());
}

/// The CPU figure is a mean: over nodes that use shares in parts of `1 / 2^i` it
/// lies between any two numbers of parts that the exact mean lies between, and
/// it is the exact mean where that is such a number.
pub proof fn cpu_is_a_mean(nodes: Seq<NodeSnapshot>, cpus: Seq<nat>, i: nat, m: nat, j: nat)
    requires
        are_dyadics(cpu_of(online_of(nodes)), cpus, i),
        0 < cpus.len() < 0x1_0000_0000,
        cpus.len() * pow2(i) < 0x20_0000_0000_0000,
        added(cpus) < 0x20_0000_0000_0000,
        m < 0x20_0000_0000_0000,
        i <= 1000,
        j <= 1000,
    ensures
        ({
            let cpu = aggregate_of(nodes).cpu;
            let parts = cpus.len() * pow2(i);
            &&& m * parts <= added(cpus) * pow2(j) ==> dyadic(m as int, j).at_most(cpu)
            &&& added(cpus) * pow2(j) <= m * parts ==> cpu.at_most(dyadic(m as int, j))
            &&& added(cpus) * pow2(j) == m * parts ==> cpu == dyadic(m as int, j)
        }),
{
    means_are_bracketed(cpu_of(online_of(nodes)), cpus, i, m, j);
}

proof fn in_whole_parts(n: nat, m: nat, k: nat)
    ensures
        pow2(0) == 1,
        n * pow2(0) == n,
        m * (k * pow2(0)) == m * k,
{
    lemma2_to64();
}

/// Nodes online that all use the same whole share make that share, however many
/// they are.
pub proof fn alike_nodes_have_their_mean(nodes: Seq<NodeSnapshot>, c: nat)
    requires
        c <= 100,
        0 < online_of(nodes).len() < 0x1_0000_0000,
        forall|i: int|
            0 <= i < nodes.len() && (#[trigger] nodes[i]).online ==> nodes[i].cpu_usage == whole(c),
    ensures
        aggregate_of(nodes).cpu == whole(c),
{
    let online = online_of(nodes);
    let cpus = Seq::new(online.len(), |i: int| c);
    assert forall|i: int| 0 <= i < online.len() implies #[trigger] cpu_of(online)[i] == dyadic(
        cpus[i] as int,
        0,
    ) by {
        online_ones(nodes, i);
    }
    added_alike(cpus, c);
    assert(c * cpus.len() <= 100 * 0x1_0000_0000) by (nonlinear_arith)
        requires
            c <= 100,
            cpus.len() < 0x1_0000_0000,
    ;
    in_whole_parts(added(cpus), c, cpus.len());
    in_whole_parts(cpus.len(), c, cpus.len());
    cpu_is_a_mean(nodes, cpus, 0, c, 0);
}

/// Nodes online that use whole shares from `low` to `high` make a share from
/// `low` to `high`.
pub proof fn means_stay_between(nodes: Seq<NodeSnapshot>, cpus: Seq<nat>, low: nat, high: nat)
    requires
        low <= high <= 100,
        0 < online_of(nodes).len() < 0x1_0000_0000,
        cpus.len() == online_of(nodes).len(),
        forall|i: int|
            0 <= i < cpus.len() ==> (#[trigger] online_of(nodes)[i]).cpu_usage == whole(cpus[i])
                && low <= cpus[i] <= high,
    ensures
        whole(low).at_most(aggregate_of(nodes).cpu),
        aggregate_of(nodes).cpu.at_most(whole(high)),
{
    let online = online_of(nodes);
    assert forall|i: int| 0 <= i < online.len() implies #[trigger] cpu_of(online)[i] == dyadic(
        cpus[i] as int,
        0,
    ) && low <= cpus[i] <= high by {
        assert(online[i].cpu_usage == whole(cpus[i]));
    }
    assert forall|i: int| 0 <= i < cpus.len() implies low <= #[trigger] cpus[i] <= high by {
        assert(online[i].cpu_usage == whole(cpus[i]));
    }
    sums_stay_between(cpus, low, high);
    assert(high * cpus.len() <= 100 * 0x1_0000_0000) by (nonlinear_arith)
        requires
            high <= 100,
            cpus.len() < 0x1_0000_0000,
    ;
    in_whole_parts(added(cpus), low, cpus.len());
    in_whole_parts(added(cpus), high, cpus.len());
    in_whole_parts(cpus.len(), high, cpus.len());
    cpu_is_a_mean(nodes, cpus, 0, low, 0);
    cpu_is_a_mean(nodes, cpus, 0, high, 0);
}

proof fn online_ones(nodes: Seq<NodeSnapshot>, i: int)
    requires
        0 <= i < online_of(nodes).len(),
    ensures
        online_of(nodes)[i].online,
        exists|k: int| 0 <= k < nodes.len() && #[trigger] nodes[k] == online_of(nodes)[i],
{
    let keep = |n: NodeSnapshot| n.online;
    nodes.lemma_filter_pred(keep, i);
    nodes.lemma_filter_contains_rev(keep, online_of(nodes)[i]);
}

proof fn sums_stay_between(list: Seq<nat>, low: nat, high: nat)
    requires
        forall|i: int| 0 <= i < list.len() ==> low <= #[trigger] list[i] <= high,
    ensures
        low * list.len() <= added(list) <= high * list.len(),
    decreases list.len(),
{
    if list.len() > 0 {
        let less = list.drop_last();
        assert forall|i: int| 0 <= i < less.len() implies low <= #[trigger] less[i] <= high by {
            assert(less[i] == list[i]);
        }
        sums_stay_between(less, low, high);
        assert(low <= list[list.len() - 1] <= high);
        assert(low * (list.len() - 1) + low == low * list.len()) by (nonlinear_arith);
        assert(high * (list.len() - 1) + high == high * list.len()) by (nonlinear_arith);
    } else {
        assert(low * 0 == 0 && high * 0 == 0) by (nonlinear_arith);
    }
}

/// Rates in parts of `1 / 2^i` add up to their sum: uploads to the upload,
/// downloads to the download.
pub proof fn rates_add_up(nodes: Seq<NodeSnapshot>, ups: Seq<nat>, downs: Seq<nat>, i: nat)
    requires
        are_dyadics(up_of(online_of(nodes)), ups, i),
        are_dyadics(down_of(online_of(nodes)), downs, i),
        added(ups) < 0x20_0000_0000_0000,
        added(downs) < 0x20_0000_0000_0000,
        i <= 1000,
    ensures
        aggregate_of(nodes).net_up == dyadic(added(ups) as int, i),
        aggregate_of(nodes).net_down == dyadic(added(downs) as int, i),
{
    dyadics_total(up_of(online_of(nodes)), ups, i);
    dyadics_total(down_of(online_of(nodes)), downs, i);
}

/// The marks that figures are held against: warnings at 80 and 85, errors 15
/// above a warning, and a whole of 100.
pub proof fn icon_marks()
    ensures
        figure_of(ZERO_BITS) == whole(0),
        figure_of(ONE_BITS) == whole(1),
        figure_of(HUNDRED_BITS) == whole(100),
        figure_of(CPU_WARN_BITS) == whole(80),
        figure_of(MEM_WARN_BITS) == whole(85),
        figure_of(ERR_ABOVE_WARN_BITS) == whole(15),
{
    lemma2_to64();
    lemma2_to64_rest();
    dyadics_are_exact(0, 0);
    pattern_of_whole(ONE_BITS, 1, 52);
    pattern_of_whole(HUNDRED_BITS, 100, 46);
    pattern_of_whole(CPU_WARN_BITS, 80, 46);
    pattern_of_whole(MEM_WARN_BITS, 85, 46);
    pattern_of_whole(ERR_ABOVE_WARN_BITS, 15, 49);
}

/// A share in percent is a hundred times what is used of the total: it lies
/// between any two numbers that `100 used / total` lies between by a multiple of
/// `100 / 2^j`.
pub proof fn percents_are_hundredths(used: u64, all: u64, m: nat, j: nat)
    requires
        used < 0x20_0000_0000_0000,
        0 < all < 0x20_0000_0000_0000,
        m < 0x2000_0000_0000,
        j <= 40,
    ensures
        percent(used, all) is Some,
        percent_or_zero(used, all) == percent(used, all).unwrap(),
        m * all <= used * pow2(j) ==> dyadic(100 * m as int, j).at_most(percent_or_zero(used, all)),
        used * pow2(j) <= m * all ==> percent_or_zero(used, all).at_most(dyadic(100 * m as int, j)),
        used == 0 ==> percent_or_zero(used, all) == whole(0),
        used == all ==> percent_or_zero(used, all) == whole(100),
        2 * used == all ==> percent_or_zero(used, all) == whole(50),
{
    icon_marks();
    let q = quotient(whole(used as nat), whole(all as nat));
    let hundred = whole(100);
    quotients_are_bracketed(used as nat, all as nat, m, j);
    dyadics_multiply(m, j, 100, 0);
    dyadics_are_exact(m as int, j);
    dyadics_are_exact(100, 0);
    if m * all <= used * pow2(j) {
        products_keep_order(dyadic(m as int, j), q, hundred);
    }
    if used * pow2(j) <= m * all {
        products_keep_order(q, dyadic(m as int, j), hundred);
    }
    lemma2_to64();
    if used == 0 {
        dyadics_divide(0, 0, all as nat);
        dyadics_multiply(0, 0, 100, 0);
    }
    if used == all {
        dyadics_divide(1, 0, all as nat);
        dyadics_multiply(1, 0, 100, 0);
    }
    if 2 * used == all {
        crate::exact::finer_parts(used as int, 0, 1);
        dyadics_divide(1, 1, all as nat);
        dyadics_multiply(1, 1, 100, 0);
        crate::exact::finer_parts(50, 0, 1);
    }
}

/// A share of nothing is none, and is shown as zero.
pub proof fn shares_of_nothing(used: u64)
    ensures
        percent(used, 0) is None,
        percent_or_zero(used, 0).bits == 0,
{
}

/// A reading of `v / 2^j` is an error from 15 above its warning level of
/// `w / 2^j` on, or from 100 on where that is less, a warning from the warning
/// level on, and else normal.
pub proof fn readings_are_held_against_their_level(v: int, w: int, j: nat)
    requires
        0 <= v < 0x1_0000_0000,
        0 <= w < 0x1_0000_0000,
        j <= 16,
    ensures
        ({
            let got = severity_of(Reading { value: dyadic(v, j), warn: dyadic(w, j) });
            let d = pow2(j);
            &&& got is Error <==> v >= w + 15 * d || v >= 100 * d
            &&& got is Warn <==> w <= v < w + 15 * d && v < 100 * d
            &&& got is Normal <==> v < w && v < 100 * d
        }),
{
    icon_marks();
    let d = pow2(j) as int;
    in_parts(15, j);
    in_parts(100, j);
    dyadics_add(w, 15 * d, j);
    dyadics_order(100 * d, w + 15 * d, j);
    dyadics_order(w + 15 * d, v, j);
    dyadics_order(100 * d, v, j);
    dyadics_order(w, v, j);
    dyadics_are_exact(w + 15 * d, j);
}

/// A whole number in parts.
pub(crate) proof fn in_parts(n: int, j: nat)
    requires
        0 <= n < 0x1_0000_0000,
        j <= 16,
    ensures
        whole(n as nat) == dyadic(n * pow2(j), j),
        0 < pow2(j) <= 0x1_0000,
        0 <= n * pow2(j) < 0x1_0000_0000_0000,
{
    crate::exact::finer_parts(n, 0, j);
    lemma2_to64();
    vstd::arithmetic::power2::lemma_pow2_adds(j, (16 - j) as nat);
    lemma_pow2_pos((16 - j) as nat);
    let d = pow2(j);
    assert(0 < d <= 0x1_0000) by (nonlinear_arith)
        requires
            d * pow2((16 - j) as nat) == 0x1_0000,
            pow2((16 - j) as nat) > 0,
            d >= 0,
    ;
    assert(0 <= n * d < 0x1_0000_0000_0000) by (nonlinear_arith)
        requires
            0 < d <= 0x1_0000,
            0 <= n < 0x1_0000_0000,
    ;
}

/// The readings of nodes: of each its CPU against the CPU's level and its memory
/// against the memory's.
pub proof fn each_node_has_two_readings(settings: SettingsFacts, nodes: Seq<NodeSnapshot>, i: int)
    requires
        0 <= i < nodes.len(),
    ensures
        ({
            let got = readings_of(settings, nodes);
            &&& got.len() == 2 * nodes.len()
            &&& got[2 * i].value == nodes[i].cpu_usage
            &&& got[2 * i].warn == settings.cpu_warn_pct
            &&& got[2 * i + 1].value == percent_or_zero(nodes[i].ram_used, nodes[i].ram_total)
            &&& got[2 * i + 1].warn == settings.mem_warn_pct
        }),
    decreases nodes.len(),
{
    let less = nodes.drop_last();
    if i < less.len() {
        each_node_has_two_readings(settings, less, i);
        assert(less[i] == nodes[i]);
    } else if less.len() > 0 {
        each_node_has_two_readings(settings, less, 0);
    } else {
        assert(readings_of(settings, less) =~= Seq::empty());
    }
}

/// What the icon shows: nothing known without a backend or nodes, an error where
/// no node is online, and else the worst of the readings of the nodes online.
/// The badge says that a node is missing where all are shown.
pub proof fn icons_show_the_worst(settings: SettingsFacts, snap: MonitorSnapshot)
    ensures
        ({
            let got = icon_of(settings, snap);
            let scope = in_scope(settings, snap.nodes@);
            let online = online_of(scope);
            let readings = readings_of(settings, online);
            &&& got.severity is Down <==> !snap.backend_ok || scope.len() == 0
            &&& snap.backend_ok && scope.len() > 0 && online.len() == 0 ==> got.severity is Error
            &&& snap.backend_ok && online.len() > 0 ==> {
                &&& got.severity is Error <==> exists|i: int|
                    0 <= i < readings.len() && severity_of(#[trigger] readings[i]) is Error
                &&& got.severity is Normal <==> forall|i: int|
                    0 <= i < readings.len() ==> severity_of(#[trigger] readings[i]) is Normal
                &&& got.gauge == gauge_of(readings)
                &&& got.badge <==> settings.tray_mode == TrayMode::Aggregate && exists|i: int|
                    0 <= i < scope.len() && !(#[trigger] scope[i]).online
            }
            &&& !snap.backend_ok || online.len() == 0 ==> got.gauge is None && !got.badge
        }),
{
    let scope = in_scope(settings, snap.nodes@);
    let online = online_of(scope);
    let readings = readings_of(settings, online);
    scope.lemma_filter_len(|n: NodeSnapshot| n.online);
    all_or_fewer(scope);
    assert forall|i: int| 0 <= i < readings.len() implies severity_of(#[trigger] readings[i]) is Error
        || severity_of(readings[i]) is Warn || severity_of(readings[i]) is Normal by {
    }
}

proof fn all_or_fewer(nodes: Seq<NodeSnapshot>)
    ensures
        online_of(nodes).len() <= nodes.len(),
        online_of(nodes).len() < nodes.len() <==> exists|i: int|
            0 <= i < nodes.len() && !(#[trigger] nodes[i]).online,
    decreases nodes.len(),
{
    reveal(Seq::filter);
    if nodes.len() > 0 {
        let less = nodes.drop_last();
        all_or_fewer(less);
        assert(nodes =~= less.push(nodes.last()));
        assert(nodes.last() == nodes[nodes.len() - 1]);
        if exists|i: int| 0 <= i < less.len() && !(#[trigger] less[i]).online {
            let i = choose|i: int| 0 <= i < less.len() && !(#[trigger] less[i]).online;
            assert(nodes[i] == less[i]);
        }
        if exists|i: int| 0 <= i < nodes.len() && !(#[trigger] nodes[i]).online {
            let i = choose|i: int| 0 <= i < nodes.len() && !(#[trigger] nodes[i]).online;
            if i < less.len() {
                assert(less[i] == nodes[i]);
            }
        }
    }
}

/// The gauge is the largest reading, within 0 and 100: none is above it and it
/// is one of them.
pub proof fn gauges_are_the_largest_reading(readings: Seq<Reading>)
    requires
        readings.len() > 0,
        forall|i: int| 0 <= i < readings.len() ==> !(#[trigger] readings[i]).value.nan(),
    ensures
        gauge_of(readings) is Some,
        !gauge_of(readings).unwrap().nan(),
        forall|i: int|
            0 <= i < readings.len() ==> on_scale((#[trigger] readings[i]).value).at_most(
                gauge_of(readings).unwrap(),
            ),
        exists|i: int|
            0 <= i < readings.len() && gauge_of(readings).unwrap() == on_scale(
                (#[trigger] readings[i]).value,
            ),
    decreases readings.len(),
{
    icon_marks();
    dyadics_are_exact(0, 0);
    dyadics_are_exact(100, 0);
    let less = readings.drop_last();
    let last = readings[readings.len() - 1];
    assert(readings.last() == last);
    if less.len() > 0 {
        assert forall|i: int| 0 <= i < less.len() implies !(#[trigger] less[i]).value.nan() by {
            assert(less[i] == readings[i]);
        }
        gauges_are_the_largest_reading(less);
        let before = gauge_of(less).unwrap();
        let k = choose|k: int|
            0 <= k < less.len() && before == on_scale((#[trigger] less[k]).value);
        assert(readings[k] == less[k]);
        assert forall|i: int| 0 <= i < readings.len() implies on_scale(
            (#[trigger] readings[i]).value,
        ).at_most(gauge_of(readings).unwrap()) by {
            if i < less.len() {
                assert(less[i] == readings[i]);
            }
        }
    }
}

/// A value of `v / 2^j` from 0 to 100 is on the scale as it is; others are at its
/// ends.
pub proof fn scales_go_to_a_hundred(v: int, j: nat)
    requires
        short(v),
        j <= 16,
    ensures
        0 <= v <= 100 * pow2(j) ==> on_scale(dyadic(v, j)) == dyadic(v, j),
        v < 0 ==> on_scale(dyadic(v, j)) == whole(0),
        v > 100 * pow2(j) ==> on_scale(dyadic(v, j)) == whole(100),
{
    icon_marks();
    in_parts(0, j);
    in_parts(100, j);
    assert(0 * pow2(j) == 0) by (nonlinear_arith);
    dyadics_order(v, 0, j);
    dyadics_order(100 * pow2(j) as int, v, j);
}

/// Which nodes are shown: all of them, or where one is chosen and known it
/// alone.
pub proof fn a_chosen_node_is_shown_alone(
    settings: SettingsFacts,
    nodes: Seq<NodeSnapshot>,
    i: int,
)
    requires
        0 <= i < nodes.len(),
    ensures
        settings.tray_mode == TrayMode::Aggregate ==> in_scope(settings, nodes) == nodes,
        settings.tray_mode == TrayMode::Node && nodes[i].uuid@ == settings.pinned_uuid ==> {
            &&& in_scope(settings, nodes).contains(nodes[i])
            &&& forall|k: int|
                0 <= k < in_scope(settings, nodes).len() ==> (#[trigger] in_scope(
                    settings,
                    nodes,
                )[k]).uuid@ == settings.pinned_uuid
        },
        (forall|k: int|
            0 <= k < nodes.len() ==> (#[trigger] nodes[k]).uuid@ != settings.pinned_uuid)
            ==> in_scope(settings, nodes) == nodes,
{
    let chosen = |n: NodeSnapshot| n.uuid@ == settings.pinned_uuid;
    let pinned = nodes.filter(chosen);
    if chosen(nodes[i]) {
        nodes.lemma_filter_contains(chosen, i);
    }
    assert forall|k: int| 0 <= k < pinned.len() implies (#[trigger] pinned[k]).uuid@
        == settings.pinned_uuid by {
        nodes.lemma_filter_pred(chosen, k);
    }
    if forall|k: int|
        0 <= k < nodes.len() ==> (#[trigger] nodes[k]).uuid@ != settings.pinned_uuid {
        if pinned.len() > 0 {
            assert(pinned[0].uuid@ == settings.pinned_uuid);
            nodes.lemma_filter_contains_rev(chosen, pinned[0]);
        }
    }
}

/// The tray sums up all nodes, or where one is chosen and known it alone: then
/// no other node changes what is shown.
pub proof fn the_tray_sums_up_what_is_in_scope(
    settings: SettingsFacts,
    snap: MonitorSnapshot,
    i: int,
)
    requires
        0 <= i < snap.nodes@.len(),
    ensures
        settings.tray_mode == TrayMode::Aggregate ==> sums_shown(settings, snap) == aggregate_of(
            snap.nodes@,
        ),
        settings.tray_mode == TrayMode::Node && snap.nodes@[i].uuid@ == settings.pinned_uuid
            && (forall|k: int|
            0 <= k < snap.nodes@.len() && k != i ==> (#[trigger] snap.nodes@[k]).uuid@
                != settings.pinned_uuid) ==> sums_shown(settings, snap) == aggregate_of(
            seq![snap.nodes@[i]],
        ),
{
    let nodes = snap.nodes@;
    a_chosen_node_is_shown_alone(settings, nodes, i);
    if settings.tray_mode == TrayMode::Node && nodes[i].uuid@ == settings.pinned_uuid && (forall|
        k: int,
    |
        0 <= k < nodes.len() && k != i ==> (#[trigger] nodes[k]).uuid@ != settings.pinned_uuid) {
        only_one_kept(nodes, |n: NodeSnapshot| n.uuid@ == settings.pinned_uuid, i);
    }
}

proof fn only_one_kept(nodes: Seq<NodeSnapshot>, keep: spec_fn(NodeSnapshot) -> bool, i: int)
    requires
        0 <= i < nodes.len(),
        keep(nodes[i]),
        forall|k: int| 0 <= k < nodes.len() && k != i ==> !keep(#[trigger] nodes[k]),
    ensures
        nodes.filter(keep) == seq![nodes[i]],
    decreases nodes.len(),
{
    reveal(Seq::filter);
    let less = nodes.drop_last();
    if i < less.len() {
        assert(!keep(nodes[nodes.len() - 1]));
        assert forall|k: int| 0 <= k < less.len() && k != i implies !keep(#[trigger] less[k]) by {
            assert(less[k] == nodes[k]);
        }
        only_one_kept(less, keep, i);
    } else {
        assert forall|k: int| 0 <= k < less.len() implies !keep(#[trigger] less[k]) by {
            assert(less[k] == nodes[k]);
        }
        none_kept(less, keep);
        assert(Seq::<NodeSnapshot>::empty().push(nodes[i]) =~= seq![nodes[i]]);
    }
}

proof fn none_kept(nodes: Seq<NodeSnapshot>, keep: spec_fn(NodeSnapshot) -> bool)
    requires
        forall|k: int| 0 <= k < nodes.len() ==> !keep(#[trigger] nodes[k]),
    ensures
        nodes.filter(keep) == Seq::<NodeSnapshot>::empty(),
    decreases nodes.len(),
{
    reveal(Seq::filter);
    if nodes.len() > 0 {
        let less = nodes.drop_last();
        assert(!keep(nodes[nodes.len() - 1]));
        assert forall|k: int| 0 <= k < less.len() implies !keep(#[trigger] less[k]) by {
            assert(less[k] == nodes[k]);
        }
        none_kept(less, keep);
    }
}

} // verus!
