//! What answers to pings come to: latencies, losses and points.

use vstd::arithmetic::power2::{lemma2_to64, lemma2_to64_rest, pow2};
use vstd::prelude::*;

use crate::arithmetic::{sum, whole};
use crate::commands::drawn;
use crate::decimal::digits;
use crate::exact::{added, are_dyadics, dyadic, dyadics_are_exact, dyadics_divide, dyadics_order, means_are_bracketed, parts_are_bracketed, quotients_are_bracketed};
use crate::figure::{figure_of, Figure, MINUS_ONE_BITS, ONE_BITS};
use crate::json::Json;
use crate::laws::sums::icon_marks;
use crate::order::{sorted_from, Ranked};
use crate::ping::{answers_in, has_probe, is_newest_of, latencies, lost, lost_in, mean, newest, newest_answers_are_the_newest, probes_rise, summary_of, with_answer, Answer, PingPoint};
use crate::providers::komari::{record_point, record_points, records_in};
use crate::providers::monitor::{keys_of, loss_share, loss_shares, roster, row_answers, row_point, row_points, row_tasks, share, window_summary, PingBody, PingRow};
use crate::table::rows_of;

verus! {

/// The mean of figures in parts of `1 / 2^i` lies between any two numbers of
/// parts that the exact one lies between, and is exact where that is such a
/// number; of nothing there is none.
pub proof fn means_are_in_the_middle(
    list: Seq<Figure>,
    numbers: Seq<nat>,
    i: nat,
    m: nat,
    j: nat,
)
    requires
        are_dyadics(list, numbers, i),
        list.len() < 0x1_0000_0000,
        list.len() * pow2(i) < 0x20_0000_0000_0000,
        added(numbers) < 0x20_0000_0000_0000,
        m < 0x20_0000_0000_0000,
        i <= 1000,
        j <= 1000,
    ensures
        mean(list) is Some <==> list.len() > 0,
        list.len() > 0 ==> {
            let parts = list.len() * pow2(i);
            &&& m * parts <= added(numbers) * pow2(j) ==> dyadic(m as int, j).at_most(
                mean(list).unwrap(),
            )
            &&& added(numbers) * pow2(j) <= m * parts ==> mean(list).unwrap().at_most(
                dyadic(m as int, j),
            )
            &&& added(numbers) * pow2(j) == m * parts ==> mean(list) == Some(dyadic(m as int, j))
        },
{
    if list.len() > 0 {
        means_are_bracketed(list, numbers, i, m, j);
    }
}

/// The mean of one figure is that figure, and that of two is half of their sum.
pub proof fn means_of_few(a: nat, b: nat, i: nat)
    requires
        a < 0x1_0000_0000,
        b < 0x1_0000_0000,
        i <= 40,
    ensures
        mean(seq![dyadic(a as int, i)]) == Some(dyadic(a as int, i)),
        mean(seq![dyadic(a as int, i), dyadic(b as int, i)]) == Some(
            dyadic((a + b) as int, i + 1),
        ),
{
    lemma2_to64();
    lemma2_to64_rest();
    vstd::arithmetic::power2::lemma_pow2_adds(i, (40 - i) as nat);
    vstd::arithmetic::power2::lemma_pow2_pos((40 - i) as nat);
    let d = pow2(i);
    assert(d <= 0x100_0000_0000) by (nonlinear_arith)
        requires
            d * pow2((40 - i) as nat) == 0x100_0000_0000,
            pow2((40 - i) as nat) > 0,
            d >= 0,
    ;
    let one = seq![a];
    assert(one.drop_last() =~= Seq::empty());
    reveal_with_fuel(added, 3);
    assert(added(one) == a);
    assert(1 * d == d);
    means_are_in_the_middle(seq![dyadic(a as int, i)], one, i, a, i);
    let two = seq![a, b];
    assert(two.drop_last() =~= one);
    assert(added(two) == a + b);
    crate::exact::dyadics_total(seq![dyadic(a as int, i), dyadic(b as int, i)], two, i);
    crate::exact::dyadics_halve(a + b, i);
}

/// A probe was lost where its value is below zero.
pub proof fn lost_values_are_negative(p: PingPoint, v: int, j: nat)
    requires
        -0x20_0000_0000_0000 < v < 0x20_0000_0000_0000,
        j <= 1000,
        p.v == dyadic(v, j),
    ensures
        lost(p) <==> v < 0,
{
    dyadics_order(v, 0, j);
    dyadics_are_exact(0, j);
}

/// One more point that was lost is one more loss; one that was not is one more
/// answer: of its own task, at its own time, as late as its value.
pub proof fn points_are_answers_or_losses(points: Seq<PingPoint>, p: PingPoint)
    ensures
        lost(p) ==> lost_in(points.push(p)) == lost_in(points) + 1 && answers_in(points.push(p))
            == answers_in(points),
        !lost(p) ==> lost_in(points.push(p)) == lost_in(points) && answers_in(points.push(p)).len()
            == answers_in(points).len() + 1 && answers_in(points.push(p)).drop_last() == answers_in(
            points,
        ) && answers_in(points.push(p)).last().task_id == p.task_id && answers_in(
            points.push(p),
        ).last().at == p.t && answers_in(points.push(p)).last().latency == p.v,
        lost_in(Seq::empty()) == 0,
        answers_in(Seq::empty()).len() == 0,
{
    reveal(Seq::filter);
    assert(points.push(p).drop_last() =~= points);
    if !lost(p) {
        let out = answers_in(points.push(p));
        assert(out.drop_last() =~= answers_in(points));
    }
}

/// Of each target the newest answer counts, and of two at the same time the
/// later one: an answer that is not older than those before it and newer than
/// those after it is among them.
pub proof fn the_newest_answer_counts(answers: Seq<Answer>, i: int)
    requires
        0 <= i < answers.len(),
        forall|k: int|
            0 <= k < i && (#[trigger] answers[k]).task_id == answers[i].task_id ==> answers[k].at
                <= answers[i].at,
        forall|k: int|
            i < k < answers.len() && (#[trigger] answers[k]).task_id == answers[i].task_id
                ==> answers[k].at < answers[i].at,
    ensures
        newest(answers).contains(answers[i]),
        forall|k: int|
            0 <= k < newest(answers).len() && (#[trigger] newest(answers)[k]).task_id
                == answers[i].task_id ==> newest(answers)[k] == answers[i],
    decreases answers.len(),
{
    let front = answers.drop_last();
    let last = answers.last();
    newest_answers_are_the_newest(front);
    newest_answers_are_the_newest(answers);
    if i < front.len() {
        assert forall|k: int|
            0 <= k < i && (#[trigger] front[k]).task_id == front[i].task_id implies front[k].at
            <= front[i].at by {
            assert(front[k] == answers[k]);
        }
        assert forall|k: int|
            i < k < front.len() && (#[trigger] front[k]).task_id == front[i].task_id implies front[k].at
            < front[i].at by {
            assert(front[k] == answers[k]);
        }
        the_newest_answer_counts(front, i);
        assert(answers[answers.len() - 1] == last);
        kept_beside(newest(front), last, answers[i]);
    } else {
        let before = newest(front);
        assert forall|k: int| 0 <= k < before.len() && (#[trigger] before[k]).task_id
            == last.task_id implies before[k].at <= last.at by {
            assert(is_newest_of(front, before[k]));
            let j = choose|j: int| 0 <= j < front.len() && front[j] == before[k];
            assert(answers[j] == front[j]);
        }
        put_in(before, last);
    }
    let out = newest(answers);
    let at = choose|at: int| 0 <= at < out.len() && out[at] == answers[i];
    assert forall|k: int|
        0 <= k < out.len() && (#[trigger] out[k]).task_id == answers[i].task_id implies out[k]
        == answers[i] by {
        assert(out[at].task_id == out[k].task_id);
    }
}

proof fn kept_beside(list: Seq<Answer>, answer: Answer, kept: Answer)
    requires
        probes_rise(list),
        list.contains(kept),
        answer.task_id == kept.task_id ==> answer.at < kept.at,
    ensures
        with_answer(list, answer).contains(kept),
    decreases list.len(),
{
    let i = choose|i: int| 0 <= i < list.len() && list[i] == kept;
    let out = with_answer(list, answer);
    if answer.task_id < list[0].task_id {
        assert(out[i + 1] == kept);
    } else if answer.task_id == list[0].task_id {
        if answer.at >= list[0].at {
            assert(i > 0);
            assert(out[i] == list.drop_first()[i - 1]);
        }
    } else if i == 0 {
        assert(out[0] == kept);
    } else {
        let rest = list.drop_first();
        assert(rest[i - 1] == kept);
        assert forall|a: int, b: int|
            #![trigger rest[a], rest[b]]
            0 <= a < b < rest.len() implies rest[a].task_id < rest[b].task_id by {
            assert(list[a + 1].task_id < list[b + 1].task_id);
        }
        kept_beside(rest, answer, kept);
        let k = choose|k: int| 0 <= k < with_answer(rest, answer).len() && with_answer(rest, answer)[k] == kept;
        assert(out[k + 1] == kept);
    }
}

proof fn put_in(list: Seq<Answer>, answer: Answer)
    requires
        forall|k: int|
            0 <= k < list.len() && (#[trigger] list[k]).task_id == answer.task_id ==> list[k].at
                <= answer.at,
    ensures
        with_answer(list, answer).contains(answer),
    decreases list.len(),
{
    let out = with_answer(list, answer);
    if list.len() == 0 || answer.task_id <= list[0].task_id {
        assert(list.len() > 0 ==> list[0] == list[0]);
        assert(out[0] == answer);
    } else {
        let rest = list.drop_first();
        assert forall|k: int| 0 <= k < rest.len() && (#[trigger] rest[k]).task_id
            == answer.task_id implies rest[k].at <= answer.at by {
            assert(rest[k] == list[k + 1]);
        }
        put_in(rest, answer);
        let k = choose|k: int| 0 <= k < with_answer(rest, answer).len() && with_answer(rest, answer)[k] == answer;
        assert(out[k + 1] == answer);
    }
}

proof fn one_task(answers: Seq<Answer>, task: u64)
    requires
        answers.len() > 0,
        forall|k: int| 0 <= k < answers.len() ==> (#[trigger] answers[k]).task_id == task,
    ensures
        newest(answers).len() == 1,
{
    newest_answers_are_the_newest(answers);
    let out = newest(answers);
    assert(has_probe(out, answers[0].task_id));
    assert forall|k: int| 0 <= k < out.len() implies (#[trigger] out[k]).task_id == task by {
        assert(is_newest_of(answers, out[k]));
    }
    if out.len() > 1 {
        assert(out[0].task_id < out[1].task_id);
    }
}

proof fn answers_come_from_points(points: Seq<PingPoint>, i: int)
    requires
        0 <= i < answers_in(points).len(),
    ensures
        exists|k: int|
            0 <= k < points.len() && (#[trigger] points[k]).task_id == answers_in(points)[i].task_id
                && points[k].t == answers_in(points)[i].at && points[k].v == answers_in(
                points,
            )[i].latency && !lost(points[k]),
    decreases points.len(),
{
    let front = points.drop_last();
    let before = answers_in(front);
    let last = points[points.len() - 1];
    if i < before.len() {
        answers_come_from_points(front, i);
        let k = choose|k: int|
            0 <= k < front.len() && (#[trigger] front[k]).task_id == before[i].task_id && front[k].t
                == before[i].at && front[k].v == before[i].latency && !lost(front[k]);
        assert(points[k] == front[k]);
    } else {
        assert(!lost(last));
        assert(points[points.len() - 1].task_id == answers_in(points)[i].task_id);
    }
}

/// Where one target was asked, the latency is that of its newest answer alone:
/// what came before it does not count.
pub proof fn latency_is_the_newest_answer(points: Seq<PingPoint>, p: PingPoint, v: nat, i: nat)
    requires
        v < 0x1_0000_0000,
        i <= 40,
        p.v == dyadic(v as int, i),
        forall|k: int|
            0 <= k < points.len() ==> (#[trigger] points[k]).task_id == p.task_id && points[k].t
                <= p.t,
    ensures
        summary_of(points.push(p)).latency == Some(dyadic(v as int, i)),
{
    let all = points.push(p);
    lost_values_are_negative(p, v as int, i);
    points_are_answers_or_losses(points, p);
    let answers = answers_in(all);
    let n = answers.len() - 1;
    assert forall|k: int| 0 <= k < answers.len() implies (#[trigger] answers[k]).task_id
        == p.task_id && answers[k].at <= p.t by {
        answers_come_from_points(all, k);
        let j = choose|j: int|
            0 <= j < all.len() && (#[trigger] all[j]).task_id == answers[k].task_id && all[j].t
                == answers[k].at && all[j].v == answers[k].latency && !lost(all[j]);
        if j < points.len() {
            assert(all[j] == points[j]);
        }
    }
    assert(answers[n].latency == p.v);
    one_task(answers, p.task_id);
    the_newest_answer_counts(answers, n);
    let out = newest(answers);
    assert(out[0] == answers[n]) by {
        let at = choose|at: int| 0 <= at < out.len() && out[at] == answers[n];
    }
    assert(latencies(out) =~= seq![dyadic(v as int, i)]);
    means_of_few(v, 0, i);
}

/// The loss is the share of the points that were lost: it lies between any two
/// numbers of parts that the exact share lies between.
pub proof fn loss_is_the_share_lost(points: Seq<PingPoint>, m: nat, j: nat)
    requires
        0 < points.len() < 0x1_0000_0000,
        m < 0x20_0000_0000_0000,
        j <= 1000,
    ensures
        ({
            let loss = summary_of(points).loss;
            &&& loss is Some
            &&& m * points.len() <= lost_in(points) * pow2(j) ==> dyadic(m as int, j).at_most(
                loss.unwrap(),
            )
            &&& lost_in(points) * pow2(j) <= m * points.len() ==> loss.unwrap().at_most(
                dyadic(m as int, j),
            )
            &&& lost_in(points) == 0 ==> loss == Some(whole(0))
            &&& lost_in(points) == points.len() ==> loss == Some(whole(1))
        }),
{
    points.lemma_filter_len(|p: PingPoint| lost(p));
    quotients_are_bracketed(lost_in(points), points.len(), m, j);
    if lost_in(points) == 0 {
        dyadics_divide(0, 0, points.len());
    }
    if lost_in(points) == points.len() {
        dyadics_divide(1, 0, points.len());
    }
}

/// Without points there is neither.
pub proof fn no_points_no_summary()
    ensures
        summary_of(Seq::empty()).latency is None,
        summary_of(Seq::empty()).loss is None,
{
    assert(latencies(newest(answers_in(Seq::<PingPoint>::empty()))).len() == 0);
}

// ---------------------------------------------------------------------------
// The hub's windows
// ---------------------------------------------------------------------------

/// A share is a hundredth of its percentage, whole or in parts of `1 / 2^i`.
pub proof fn shares_are_hundredths(p: nat, i: nat, m: nat, j: nat)
    requires
        p < 0x20_0000_0000_0000,
        m < 0x20_0000_0000_0000,
        i <= 40,
        j <= 1000,
    ensures
        m * (100 * pow2(i)) <= p * pow2(j) ==> dyadic(m as int, j).at_most(
            share(dyadic(p as int, i)),
        ),
        p * pow2(j) <= m * (100 * pow2(i)) ==> share(dyadic(p as int, i)).at_most(
            dyadic(m as int, j),
        ),
        p * pow2(j) == m * (100 * pow2(i)) ==> share(dyadic(p as int, i)) == dyadic(m as int, j),
{
    icon_marks();
    lemma2_to64();
    lemma2_to64_rest();
    vstd::arithmetic::power2::lemma_pow2_adds(i, (40 - i) as nat);
    vstd::arithmetic::power2::lemma_pow2_pos((40 - i) as nat);
    let d = pow2(i);
    assert(d <= 0x100_0000_0000) by (nonlinear_arith)
        requires
            d * pow2((40 - i) as nat) == 0x100_0000_0000,
            pow2((40 - i) as nat) > 0,
            d >= 0,
    ;
    parts_are_bracketed(p, i, 100, m, j);
}

/// A row's point: its seconds in milliseconds, its latency or -1 where it has
/// none, its own task, and the share of it that was lost.
pub proof fn rows_are_points(row: PingRow)
    requires
        row.ts * 1000 <= u64::MAX,
    ensures
        ({
            let p = row_point(row);
            &&& p.t == 1000 * row.ts
            &&& p.task_id == row.task_id
            &&& row.latency is Some ==> p.v == row.latency.unwrap()
            &&& row.latency is None ==> p.v == dyadic(-1, 0) && lost(p)
            &&& p.loss is Some
            &&& row.loss is Some ==> p.loss == Some(share(row.loss.unwrap()))
            &&& row.loss is None && row.latency is None ==> p.loss == Some(whole(1))
            &&& row.loss is None && row.latency is Some ==> p.loss == Some(whole(0))
        }),
{
    icon_marks();
    minus_one();
    if row.latency is None {
        lost_values_are_negative(row_point(row), -1, 0);
    }
}

proof fn minus_one()
    ensures
        figure_of(MINUS_ONE_BITS) == dyadic(-1, 0),
{
    icon_marks();
    dyadics_are_exact(1, 0);
    assert(dyadic(1, 0).bits == ONE_BITS);
}

/// A row that was answered is one more answer, and one that was not is none.
pub proof fn rows_are_answers(rows: Seq<PingRow>, row: PingRow)
    ensures
        row.latency is None ==> row_answers(rows.push(row)) == row_answers(rows),
        row.latency is Some ==> row_answers(rows.push(row)).len() == row_answers(rows).len() + 1
            && row_answers(rows.push(row)).drop_last() == row_answers(rows) && row_answers(
            rows.push(row),
        ).last().task_id == row.task_id && row_answers(rows.push(row)).last().at == row.ts
            && row_answers(rows.push(row)).last().latency == row.latency.unwrap(),
        row_answers(Seq::empty()).len() == 0,
        row_points(rows.push(row)).len() == row_points(rows).len() + 1,
        row_points(rows.push(row)).last() == row_point(row),
{
    assert(rows.push(row).drop_last() =~= rows);
    if row.latency is Some {
        assert(row_answers(rows.push(row)).drop_last() =~= row_answers(rows));
    }
}

/// The targets of a window without a roster are those that its rows name.
pub proof fn rows_name_their_targets(rows: Seq<PingRow>, task: Seq<char>)
    ensures
        row_tasks(rows).contains_key(task) <==> exists|i: int|
            0 <= i < rows.len() && digits((#[trigger] rows[i]).task_id as nat) == task,
    decreases rows.len(),
{
    if rows.len() > 0 {
        let front = rows.drop_last();
        rows_name_their_targets(front, task);
        assert(rows.last() == rows[rows.len() - 1]);
        if exists|i: int| 0 <= i < front.len() && digits((#[trigger] front[i]).task_id as nat) == task {
            let i = choose|i: int|
                0 <= i < front.len() && digits((#[trigger] front[i]).task_id as nat) == task;
            assert(rows[i] == front[i]);
        }
        if exists|i: int| 0 <= i < rows.len() && digits((#[trigger] rows[i]).task_id as nat) == task {
            let i = choose|i: int|
                0 <= i < rows.len() && digits((#[trigger] rows[i]).task_id as nat) == task;
            if i < front.len() {
                assert(front[i] == rows[i]);
            }
        }
    }
}

/// A target that the hub gives no loss for lost nothing.
pub proof fn targets_without_loss_lost_nothing(body: PingBody, task: Seq<char>)
    ensures
        !body.loss@.contains_key(task) ==> loss_share(body, task) == whole(0),
        body.loss@.contains_key(task) ==> loss_share(body, task) == share(body.loss@[task]),
{
    icon_marks();
    lemma2_to64();
    shares_are_hundredths(0, 0, 0, 0);
}

/// The loss of a window is the mean over all targets of the roster: in parts of
/// `1 / 2^i` it lies between any two numbers of parts that the exact mean lies
/// between, and is exact where that is such a number.
pub proof fn window_loss_is_the_mean_over_targets(
    body: PingBody,
    losses: Seq<nat>,
    i: nat,
    m: nat,
    j: nat,
)
    requires
        0 < roster(body).len() < 0x1_0000_0000,
        losses.len() == roster(body).len(),
        forall|k: int|
            0 <= k < losses.len() ==> loss_share(body, #[trigger] roster(body)[k]) == dyadic(
                losses[k] as int,
                i,
            ),
        losses.len() * pow2(i) < 0x20_0000_0000_0000,
        added(losses) < 0x20_0000_0000_0000,
        m < 0x20_0000_0000_0000,
        i <= 1000,
        j <= 1000,
    ensures
        ({
            let loss = window_summary(body).loss;
            let parts = losses.len() * pow2(i);
            &&& loss is Some
            &&& m * parts <= added(losses) * pow2(j) ==> dyadic(m as int, j).at_most(loss.unwrap())
            &&& added(losses) * pow2(j) <= m * parts ==> loss.unwrap().at_most(dyadic(m as int, j))
            &&& added(losses) * pow2(j) == m * parts ==> loss == Some(dyadic(m as int, j))
        }),
{
    let list = loss_shares(body, roster(body));
    assert forall|k: int| 0 <= k < list.len() implies #[trigger] list[k] == dyadic(
        losses[k] as int,
        i,
    ) by {
        assert(loss_share(body, roster(body)[k]) == dyadic(losses[k] as int, i));
    }
    means_are_in_the_middle(list, losses, i, m, j);
}

/// The roster is the hub's list of targets where it sends one.
pub proof fn rosters_come_first(body: PingBody)
    ensures
        body.probes.rows().len() > 0 ==> roster(body) == keys_of(body.probes.rows()),
        body.probes.rows().len() == 0 ==> roster(body) == keys_of(rows_of(row_tasks(body.ping@))),
{
}

/// The latency of a window in which one target answered is that of its newest
/// row.
pub proof fn window_latency_is_the_newest_row(
    body: PingBody,
    rows: Seq<PingRow>,
    row: PingRow,
    v: nat,
    i: nat,
)
    requires
        body.ping@ == rows.push(row),
        v < 0x1_0000_0000,
        i <= 40,
        row.latency == Some(dyadic(v as int, i)),
        forall|k: int|
            0 <= k < rows.len() ==> (#[trigger] rows[k]).task_id == row.task_id && rows[k].ts
                <= row.ts,
    ensures
        window_summary(body).latency == Some(dyadic(v as int, i)),
{
    rows_are_answers(rows, row);
    let answers = row_answers(rows.push(row));
    let n = answers.len() - 1;
    assert forall|k: int| 0 <= k < answers.len() implies (#[trigger] answers[k]).task_id
        == row.task_id && answers[k].at <= row.ts by {
        if k < n {
            assert(answers.drop_last()[k] == answers[k]);
            answers_come_from_rows(rows, k);
        }
    }
    one_task(answers, row.task_id);
    the_newest_answer_counts(answers, n);
    let out = newest(answers);
    assert(out[0] == answers[n]) by {
        let at = choose|at: int| 0 <= at < out.len() && out[at] == answers[n];
    }
    assert(latencies(out) =~= seq![dyadic(v as int, i)]);
    means_of_few(v, 0, i);
}

proof fn answers_come_from_rows(rows: Seq<PingRow>, i: int)
    requires
        0 <= i < row_answers(rows).len(),
    ensures
        exists|k: int|
            0 <= k < rows.len() && (#[trigger] rows[k]).task_id == row_answers(rows)[i].task_id
                && rows[k].ts == row_answers(rows)[i].at && rows[k].latency == Some(
                row_answers(rows)[i].latency,
            ),
    decreases rows.len(),
{
    let front = rows.drop_last();
    let before = row_answers(front);
    if i < before.len() {
        answers_come_from_rows(front, i);
        let k = choose|k: int|
            0 <= k < front.len() && (#[trigger] front[k]).task_id == before[i].task_id && front[k].ts
                == before[i].at && front[k].latency == Some(before[i].latency);
        assert(rows[k] == front[k]);
    } else {
        assert(rows[rows.len() - 1].task_id == row_answers(rows)[i].task_id);
    }
}

// ---------------------------------------------------------------------------
// Komari's records
// ---------------------------------------------------------------------------

/// A record's point is lost altogether where its value is below zero, and not at
/// all elsewhere.
pub proof fn records_are_lost_or_not(record: Json, v: int)
    requires
        -0x20_0000_0000_0000 < v < 0x20_0000_0000_0000,
        record_point(record) is Some,
        record_point(record).unwrap().v == dyadic(v, 0),
    ensures
        v < 0 ==> record_point(record).unwrap().loss == Some(whole(1)),
        v >= 0 ==> record_point(record).unwrap().loss == Some(whole(0)),
        lost(record_point(record).unwrap()) <==> v < 0,
{
    icon_marks();
    lost_values_are_negative(record_point(record).unwrap(), v, 0);
}

/// A record that has a value and a time is one more point, and else none.
pub proof fn records_are_points(records: Seq<Json>, record: Json)
    ensures
        record_point(record) is None ==> record_points(records.push(record)) == record_points(
            records,
        ),
        record_point(record) is Some ==> record_points(records.push(record)) == record_points(
            records,
        ).push(record_point(record).unwrap()),
        record_points(Seq::empty()).len() == 0,
{
    assert(records.push(record).drop_last() =~= records);
}

/// The points that are drawn are those of the records, with their times, values
/// and tasks.
pub proof fn drawn_points_are_the_points(points: Seq<PingPoint>, i: int)
    requires
        0 <= i < points.len(),
    ensures
        drawn(points).len() == points.len(),
        drawn(points)[i].t == points[i].t,
        drawn(points)[i].v == points[i].v,
        drawn(points)[i].task_id == points[i].task_id,
{
}

/// Records stand in order of time, and are those that were given.
pub proof fn points_stand_by_time(before: Seq<PingPoint>, after: Seq<PingPoint>, i: int, j: int, x: PingPoint)
    requires
        sorted_from::<PingPoint>(before, after),
    ensures
        0 <= i <= j < after.len() ==> after[i].t <= after[j].t,
        after.len() == before.len(),
        before.contains(x) <==> after.contains(x),
{
    before.to_multiset_ensures();
    after.to_multiset_ensures();
    if 0 <= i <= j < after.len() {
        assert(PingPoint::ranked_le(after[i], after[j]));
    }
    assert(before.to_multiset().count(x) > 0 <==> before.contains(x));
    assert(after.to_multiset().count(x) > 0 <==> after.contains(x));
}

/// The records of a body are the list under its data's records.
pub proof fn records_stand_under_data(
    outer: Map<Seq<char>, Json>,
    inner: Map<Seq<char>, Json>,
    list: Seq<Json>,
)
    ensures
        outer.contains_key("data"@) && outer["data"@] == Json::Object(inner) && inner.contains_key(
            "records"@,
        ) && inner["records"@] == Json::List(list) ==> records_in(Json::Object(outer)) == list,
        !outer.contains_key("data"@) ==> records_in(Json::Object(outer)).len() == 0,
        outer.contains_key("data"@) && outer["data"@] == Json::Object(inner) && !inner.contains_key(
            "records"@,
        ) ==> records_in(Json::Object(outer)).len() == 0,
{
}

/// The targets of rows are their keys, one for one.
pub proof fn rows_are_named_by_their_keys<V>(rows: Seq<(Seq<char>, V)>, i: int)
    requires
        0 <= i < rows.len(),
    ensures
        keys_of(rows).len() == rows.len(),
        keys_of(rows)[i] == rows[i].0,
{
}

} // verus!
