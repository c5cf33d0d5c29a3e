//! Ping records and what they come to.

use vstd::prelude::*;

use crate::arithmetic::{divide_figures, quotient, total, total_of, whole, whole_figure};
use crate::figure::{figure_of, Figure, ONE_BITS, ZERO_BITS};
use crate::order::Ranked;
use crate::rounding::parts_are_shares;

verus! {

/// One probe, or one bucket of probes.
#[derive(Debug, Clone, Copy, PartialEq, Eq, Structural)]
pub struct PingPoint {
    /// Epoch milliseconds.
    pub t: u64,
    /// Latency in ms; negative means the probe was lost.
    pub v: Figure,
    /// Ping task identity, used to average the latest result per target.
    pub task_id: u64,
    /// The share lost, from 0 to 1.
    pub loss: Option<Figure>,
}

impl View for PingPoint {
    type V = PingPoint;

    open spec fn view(&self) -> PingPoint {
        *self
    }
}

/// Points are put in order of time.
impl Ranked for PingPoint {
    open spec fn ranked_le(a: PingPoint, b: PingPoint) -> bool {
        a.t <= b.t
    }

    proof fn rank_is_an_order(a: PingPoint, b: PingPoint, c: PingPoint) {
    }

    fn not_after(&self, other: &PingPoint) -> (res: bool) {
        self.t <= other.t
    }
}

/// What a node's ping records come to.
#[derive(Debug, Clone, Copy, PartialEq, Eq, Structural)]
pub struct PingSummary {
    pub latency: Option<Figure>,
    pub loss: Option<Figure>,
}

impl Default for PingSummary {
    fn default() -> (res: Self)
        ensures
            res == (PingSummary { latency: None, loss: None }),
    {
        PingSummary { latency: None, loss: None }
    }
}

/// A node's ping records with their summary.
#[derive(Debug, Clone)]
pub struct PingData {
    pub points: Vec<PingPoint>,
    pub summary: PingSummary,
}

// ---------------------------------------------------------------------------
// The newest answer of each probe
// ---------------------------------------------------------------------------

/// An answer: which probe, when and how fast.
#[derive(Debug, Clone, Copy)]
pub struct Answer {
    pub task_id: u64,
    pub at: u64,
    pub latency: Figure,
}

/// A list with one answer for each probe, in rising order of probes, after one
/// more: it takes the place of an older one of its probe.
pub open spec fn with_answer(list: Seq<Answer>, answer: Answer) -> Seq<Answer>
    decreases list.len(),
{
    if list.len() == 0 {
        seq![answer]
    } else if answer.task_id < list[0].task_id {
        seq![answer] + list
    } else if answer.task_id == list[0].task_id {
        if answer.at >= list[0].at {
            seq![answer] + list.drop_first()
        } else {
            list
        }
    } else {
        seq![list[0]] + with_answer(list.drop_first(), answer)
    }
}

/// The newest answer of each probe, in rising order of probes.
pub open spec fn newest(answers: Seq<Answer>) -> Seq<Answer>
    decreases answers.len(),
{
    if answers.len() == 0 {
        Seq::empty()
    } else {
        with_answer(newest(answers.drop_last()), answers.last())
    }
}

proof fn with_answer_skips(list: Seq<Answer>, answer: Answer, i: int)
    requires
        0 <= i <= list.len(),
        forall|j: int| 0 <= j < i ==> (#[trigger] list[j]).task_id < answer.task_id,
    ensures
        with_answer(list, answer) == list.take(i) + with_answer(list.skip(i), answer),
    decreases i,
{
    if i == 0 {
        assert(list.skip(0) =~= list);
        assert(list.take(0) + with_answer(list, answer) =~= with_answer(list, answer));
    } else {
        let rest = list.drop_first();
        assert forall|j: int| 0 <= j < i - 1 implies (#[trigger] rest[j]).task_id
            < answer.task_id by {
            assert(rest[j] == list[j + 1]);
        }
        with_answer_skips(rest, answer, i - 1);
        assert(list[0].task_id < answer.task_id);
        assert(rest.skip(i - 1) =~= list.skip(i));
        assert(seq![list[0]] + (rest.take(i - 1) + with_answer(rest.skip(i - 1), answer))
            =~= list.take(i) + with_answer(list.skip(i), answer));
    }
}

/// Take one more answer into account.
pub fn add_answer(list: &mut Vec<Answer>, answer: Answer)
    ensures
        final(list)@ == with_answer(old(list)@, answer),
{
    let ghost before = list@;
    let mut i: usize = 0;
    while i < list.len() && list[i].task_id < answer.task_id
        invariant
            i <= list@.len(),
            list@ == before,
            forall|j: int| 0 <= j < i ==> (#[trigger] before[j]).task_id < answer.task_id,
        decreases list@.len() - i,
    {
        i = i + 1;
    }
    proof {
        with_answer_skips(before, answer, i as int);
        if i < before.len() {
            assert(before.skip(i as int)[0] == before[i as int]);
        }
    }
    if i < list.len() && list[i].task_id == answer.task_id {
        if answer.at >= list[i].at {
            list.remove(i);
            list.insert(i, answer);
            assert(list@ =~= before.take(i as int) + (seq![answer] + before.skip(
                i as int,
            ).drop_first()));
        } else {
            assert(list@ =~= before.take(i as int) + before.skip(i as int));
        }
    } else {
        list.insert(i, answer);
        assert(list@ =~= before.take(i as int) + (seq![answer] + before.skip(i as int)));
    }
}

/// Probes rise through a list, so each has one answer in it.
pub open spec fn probes_rise(list: Seq<Answer>) -> bool {
    forall|i: int, j: int|
        #![trigger list[i], list[j]]
        0 <= i < j < list.len() ==> list[i].task_id < list[j].task_id
}

/// An answer is no older than any of its probe.
pub open spec fn is_newest_of(answers: Seq<Answer>, answer: Answer) -> bool {
    &&& answers.contains(answer)
    &&& forall|j: int|
        0 <= j < answers.len() && (#[trigger] answers[j]).task_id == answer.task_id ==> answers[j].at
            <= answer.at
}

/// Whether a list has an answer of a probe.
pub open spec fn has_probe(list: Seq<Answer>, task_id: u64) -> bool {
    exists|i: int| 0 <= i < list.len() && (#[trigger] list[i]).task_id == task_id
}

/// Where an entry of the list with one more answer comes from.
spec fn kept_or_new(list: Seq<Answer>, answer: Answer, a: Answer) -> bool {
    a == answer || (list.contains(a) && (a.task_id == answer.task_id ==> a.at >= answer.at))
}

proof fn with_answer_is_sound(list: Seq<Answer>, answer: Answer)
    requires
        probes_rise(list),
    ensures
        probes_rise(with_answer(list, answer)),
        forall|i: int|
            0 <= i < with_answer(list, answer).len() ==> kept_or_new(
                list,
                answer,
                #[trigger] with_answer(list, answer)[i],
            ),
        has_probe(with_answer(list, answer), answer.task_id),
        forall|id: u64| #[trigger]
            has_probe(list, id) ==> has_probe(with_answer(list, answer), id),
    decreases list.len(),
{
    let out = with_answer(list, answer);
    if list.len() == 0 {
        assert(out[0] == answer);
    } else if answer.task_id < list[0].task_id {
        assert(out[0] == answer);
        assert forall|i: int, j: int|
            #![trigger out[i], out[j]]
            0 <= i < j < out.len() implies out[i].task_id < out[j].task_id by {
            assert(out[j] == list[j - 1]);
            if i > 0 {
                assert(out[i] == list[i - 1]);
            } else {
                assert(list[0].task_id <= list[j - 1].task_id);
            }
        }
        assert forall|i: int| 0 <= i < out.len() implies kept_or_new(
            list,
            answer,
            #[trigger] out[i],
        ) by {
            if i > 0 {
                assert(out[i] == list[i - 1]);
                assert(list[0].task_id <= list[i - 1].task_id);
            }
        }
        assert forall|id: u64| #[trigger] has_probe(list, id) implies has_probe(out, id) by {
            let j = choose|j: int| 0 <= j < list.len() && (#[trigger] list[j]).task_id == id;
            assert(out[j + 1] == list[j]);
        }
    } else if answer.task_id == list[0].task_id {
        if answer.at >= list[0].at {
            assert(out[0] == answer);
            assert forall|i: int, j: int|
                #![trigger out[i], out[j]]
                0 <= i < j < out.len() implies out[i].task_id < out[j].task_id by {
                assert(out[j] == list[j]);
                if i > 0 {
                    assert(out[i] == list[i]);
                } else {
                    assert(list[0].task_id < list[j].task_id);
                }
            }
            assert forall|i: int| 0 <= i < out.len() implies kept_or_new(
                list,
                answer,
                #[trigger] out[i],
            ) by {
                if i > 0 {
                    assert(out[i] == list[i]);
                    assert(list[0].task_id < list[i].task_id);
                }
            }
            assert forall|id: u64| #[trigger] has_probe(list, id) implies has_probe(out, id) by {
                let j = choose|j: int| 0 <= j < list.len() && (#[trigger] list[j]).task_id == id;
                assert(out[j].task_id == list[j].task_id);
            }
        } else {
            assert(out == list);
            assert(out[0].task_id == answer.task_id);
            assert forall|i: int| 0 <= i < out.len() implies kept_or_new(
                list,
                answer,
                #[trigger] out[i],
            ) by {
                if i > 0 {
                    assert(list[0].task_id < list[i].task_id);
                }
            }
        }
    } else {
        let rest = list.drop_first();
        let tail = with_answer(rest, answer);
        assert forall|i: int, j: int|
            #![trigger rest[i], rest[j]]
            0 <= i < j < rest.len() implies rest[i].task_id < rest[j].task_id by {
            assert(rest[i] == list[i + 1] && rest[j] == list[j + 1]);
        }
        with_answer_is_sound(rest, answer);
        assert(out[0] == list[0]);
        assert forall|i: int| 0 <= i < tail.len() implies list[0].task_id < (
        #[trigger] tail[i]).task_id by {
            assert(kept_or_new(rest, answer, tail[i]));
            if tail[i] != answer {
                let k = choose|k: int| 0 <= k < rest.len() && rest[k] == tail[i];
                assert(list[k + 1] == tail[i]);
                assert(list[0].task_id < list[k + 1].task_id);
            }
        }
        assert forall|i: int, j: int|
            #![trigger out[i], out[j]]
            0 <= i < j < out.len() implies out[i].task_id < out[j].task_id by {
            assert(out[j] == tail[j - 1]);
            if i > 0 {
                assert(out[i] == tail[i - 1]);
            }
        }
        assert forall|i: int| 0 <= i < out.len() implies kept_or_new(
            list,
            answer,
            #[trigger] out[i],
        ) by {
            if i > 0 {
                assert(out[i] == tail[i - 1]);
                assert(kept_or_new(rest, answer, tail[i - 1]));
                if tail[i - 1] != answer {
                    let k = choose|k: int| 0 <= k < rest.len() && rest[k] == tail[i - 1];
                    assert(list[k + 1] == tail[i - 1]);
                }
            }
        }
        let w = choose|i: int|
            0 <= i < tail.len() && (#[trigger] tail[i]).task_id == answer.task_id;
        assert(out[w + 1] == tail[w]);
        assert forall|id: u64| #[trigger] has_probe(list, id) implies has_probe(out, id) by {
            let j = choose|j: int| 0 <= j < list.len() && (#[trigger] list[j]).task_id == id;
            if j > 0 {
                assert(rest[j - 1] == list[j]);
                assert(has_probe(rest, id));
                let i = choose|i: int| 0 <= i < tail.len() && (#[trigger] tail[i]).task_id == id;
                assert(out[i + 1] == tail[i]);
            }
        }
    }
}

/// The list of newest answers holds one answer for each probe that answered at
/// all, in rising order of probes, and none that a newer one supersedes.
pub proof fn newest_answers_are_the_newest(answers: Seq<Answer>)
    ensures
        probes_rise(newest(answers)),
        forall|i: int|
            0 <= i < newest(answers).len() ==> is_newest_of(answers, #[trigger] newest(answers)[i]),
        forall|j: int|
            0 <= j < answers.len() ==> has_probe(newest(answers), (#[trigger] answers[j]).task_id),
    decreases answers.len(),
{
    if answers.len() > 0 {
        let front = answers.drop_last();
        let before = newest(front);
        let last = answers.last();
        let out = newest(answers);
        newest_answers_are_the_newest(front);
        with_answer_is_sound(before, last);
        assert forall|i: int| 0 <= i < out.len() implies is_newest_of(
            answers,
            #[trigger] out[i],
        ) by {
            assert(kept_or_new(before, last, out[i]));
            if out[i] != last {
                let k = choose|k: int| 0 <= k < before.len() && before[k] == out[i];
                assert(is_newest_of(front, before[k]));
                still_newest(front, last, out[i]);
                assert(front.push(last) =~= answers);
            } else {
                assert(out.contains(last));
                newest_now(front, last);
                assert(front.push(last) =~= answers);
            }
        }
        assert forall|j: int| 0 <= j < answers.len() implies has_probe(
            out,
            (#[trigger] answers[j]).task_id,
        ) by {
            if j < front.len() {
                assert(front[j] == answers[j]);
                assert(has_probe(before, front[j].task_id));
            } else {
                assert(answers[j] == last);
            }
        }
    }
}

proof fn still_newest(front: Seq<Answer>, last: Answer, a: Answer)
    requires
        is_newest_of(front, a),
        a.task_id == last.task_id ==> a.at >= last.at,
    ensures
        is_newest_of(front.push(last), a),
{
    let all = front.push(last);
    let p = choose|p: int| 0 <= p < front.len() && front[p] == a;
    assert(all[p] == a);
    assert forall|j: int|
        0 <= j < all.len() && (#[trigger] all[j]).task_id == a.task_id implies all[j].at <= a.at by {
        if j < front.len() {
            assert(front[j] == all[j]);
        }
    }
}

/// Where an answer has got into the list, it is no older than what was known of
/// its probe.
proof fn newest_now(front: Seq<Answer>, last: Answer)
    requires
        probes_rise(newest(front)),
        with_answer(newest(front), last).contains(last),
        forall|i: int|
            0 <= i < newest(front).len() ==> is_newest_of(front, #[trigger] newest(front)[i]),
        forall|j: int|
            0 <= j < front.len() ==> has_probe(newest(front), (#[trigger] front[j]).task_id),
    ensures
        is_newest_of(front.push(last), last),
{
    let all = front.push(last);
    let before = newest(front);
    assert(all[front.len() as int] == last);
    assert forall|j: int|
        0 <= j < all.len() && (#[trigger] all[j]).task_id == last.task_id implies all[j].at
        <= last.at by {
        if j < front.len() {
            assert(front[j] == all[j]);
            assert(has_probe(before, front[j].task_id));
            let k = choose|k: int|
                0 <= k < before.len() && (#[trigger] before[k]).task_id == front[j].task_id;
            assert(is_newest_of(front, before[k]));
            replaced_only_by_newer(before, last, k);
        }
    }
}

proof fn replaced_only_by_newer(list: Seq<Answer>, answer: Answer, k: int)
    requires
        probes_rise(list),
        0 <= k < list.len(),
        list[k].task_id == answer.task_id,
        with_answer(list, answer).contains(answer),
    ensures
        list[k].at <= answer.at,
    decreases list.len(),
{
    if k == 0 {
        if answer.at < list[0].at {
            let w = choose|w: int| 0 <= w < list.len() && list[w] == answer;
            assert(list[0].task_id < list[w].task_id || w == 0);
        }
    } else {
        assert(list[0].task_id < list[k].task_id);
        let rest = list.drop_first();
        assert forall|i: int, j: int|
            #![trigger rest[i], rest[j]]
            0 <= i < j < rest.len() implies rest[i].task_id < rest[j].task_id by {
            assert(rest[i] == list[i + 1] && rest[j] == list[j + 1]);
        }
        let out = with_answer(list, answer);
        let tail = with_answer(rest, answer);
        let w = choose|w: int| 0 <= w < out.len() && out[w] == answer;
        assert(out[0] == list[0]);
        assert(w > 0);
        assert(tail[w - 1] == answer);
        assert(rest[k - 1] == list[k]);
        replaced_only_by_newer(rest, answer, k - 1);
    }
}

// ---------------------------------------------------------------------------
// Means
// ---------------------------------------------------------------------------

/// The mean of some figures; nothing for none.
pub open spec fn mean(list: Seq<Figure>) -> Option<Figure> {
    if list.len() == 0 {
        None
    } else {
        Some(quotient(total(list), whole(list.len())))
    }
}

pub fn mean_of(list: &Vec<Figure>) -> (res: Option<Figure>)
    ensures
        res == mean(list@),
{
    if list.len() == 0 {
        None
    } else {
        Some(divide_figures(total_of(list), whole_figure(list.len() as u64)))
    }
}

/// The latencies of some answers.
pub open spec fn latencies(list: Seq<Answer>) -> Seq<Figure> {
    list.map_values(|a: Answer| a.latency)
}

/// The mean latency of the newest answer of each probe.
pub fn mean_latency(list: &Vec<Answer>) -> (res: Option<Figure>)
    ensures
        res == mean(latencies(list@)),
{
    let mut values: Vec<Figure> = Vec::new();
    let mut i: usize = 0;
    while i < list.len()
        invariant
            i <= list@.len(),
            values@ == latencies(list@.take(i as int)),
        decreases list@.len() - i,
    {
        values.push(list[i].latency);
        i = i + 1;
        assert(list@.take(i as int) =~= list@.take(i - 1).push(list@[i - 1]));
        assert(latencies(list@.take(i as int)) =~= latencies(list@.take(i - 1)).push(
            list@[i - 1].latency,
        ));
    }
    assert(list@.take(i as int) =~= list@);
    mean_of(&values)
}

// ---------------------------------------------------------------------------
// Records of single probes
// ---------------------------------------------------------------------------

/// Whether a probe was lost.
pub open spec fn lost(point: PingPoint) -> bool {
    point.v.below(figure_of(ZERO_BITS))
}

/// The points that answered, as answers.
pub open spec fn answers_in(points: Seq<PingPoint>) -> Seq<Answer>
    decreases points.len(),
{
    if points.len() == 0 {
        Seq::empty()
    } else {
        let before = answers_in(points.drop_last());
        let p = points.last();
        if lost(p) {
            before
        } else {
            before.push(Answer { task_id: p.task_id, at: p.t, latency: p.v })
        }
    }
}

/// How many points were lost.
pub open spec fn lost_in(points: Seq<PingPoint>) -> nat {
    points.filter(|p: PingPoint| lost(p)).len()
}

/// What records of single probes come to: the mean of each probe's newest
/// answer, and the share of all records that were lost.
pub open spec fn summary_of(points: Seq<PingPoint>) -> PingSummary {
    PingSummary {
        latency: mean(latencies(newest(answers_in(points)))),
        loss: if points.len() == 0 {
            None
        } else {
            Some(quotient(whole(lost_in(points)), whole(points.len())))
        },
    }
}

/// The loss is a share from 0 to 1.
pub proof fn loss_is_a_share(points: Seq<PingPoint>)
    requires
        0 < points.len() <= u64::MAX,
    ensures
        summary_of(points).loss is Some,
        figure_of(ZERO_BITS).at_most(summary_of(points).loss.unwrap()),
        summary_of(points).loss.unwrap().at_most(figure_of(ONE_BITS)),
{
    points.lemma_filter_len(|p: PingPoint| lost(p));
    parts_are_shares(lost_in(points), points.len());
}

/// Latency is the mean of each probe's newest answer; loss is the share of
/// records with a negative latency.
pub fn summarize_ping(points: &Vec<PingPoint>) -> (res: PingSummary)
    ensures
        res == summary_of(points@),
{
    let ghost is_lost = |p: PingPoint| lost(p);
    let mut list: Vec<Answer> = Vec::new();
    let mut missed: usize = 0;
    let mut i: usize = 0;
    proof {
        reveal(Seq::filter);
        assert(points@.take(0) =~= Seq::<PingPoint>::empty());
    }
    while i < points.len()
        invariant
            i <= points@.len(),
            missed <= i,
            list@ == newest(answers_in(points@.take(i as int))),
            missed == lost_in(points@.take(i as int)),
        decreases points@.len() - i,
    {
        let p = points[i];
        proof {
            reveal(Seq::filter);
            assert(points@.take(i + 1).drop_last() =~= points@.take(i as int));
            assert(points@.take(i + 1).last() == p);
        }
        if p.v.lt(Figure { bits: ZERO_BITS }) {
            missed = missed + 1;
        } else {
            let answer = Answer { task_id: p.task_id, at: p.t, latency: p.v };
            proof {
                let before = answers_in(points@.take(i as int));
                assert(before.push(answer).drop_last() =~= before);
            }
            add_answer(&mut list, answer);
        }
        i = i + 1;
    }
    assert(points@.take(i as int) =~= points@);
    let loss = if points.len() == 0 {
        None
    } else {
        Some(divide_figures(whole_figure(missed as u64), whole_figure(points.len() as u64)))
    };
    PingSummary { latency: mean_latency(&list), loss }
}

} // verus!
