//! Laws of the bandwidth estimation and of the filter behind it.

use super::bw_estimation::{rate, BandwidthEstimation};
use super::min_max::{MinMax, MinMaxSample};
use crate::time::Instant;
use vstd::prelude::*;

verus! {

/// An ACK as the estimation sees it.
pub struct Delivery {
    pub now: Instant,
    pub bytes: u64,
    pub round: u64,
    pub app_limited: bool,
}

/// The estimation after the deliveries, from the first to the last.
pub open spec fn after_deliveries(e: BandwidthEstimation, ds: Seq<Delivery>) -> BandwidthEstimation
    decreases ds.len(),
{
    if ds.len() == 0 {
        e
    } else {
        let d = ds.last();
        after_deliveries(e, ds.drop_last()).with_ack(d.now, d.bytes, d.round, d.app_limited)
    }
}

/// The bytes delivered.
pub open spec fn total_bytes(ds: Seq<Delivery>) -> int
    decreases ds.len(),
{
    if ds.len() == 0 {
        0
    } else {
        total_bytes(ds.drop_last()) + ds.last().bytes
    }
}

/// Within a sampling interval the estimate stands still and every byte is counted: ACKs that
/// share a timestamp, or follow each other closely, neither make samples of their own nor
/// drop out, and the sample that ends the interval is made of all that was ACKed in it.
pub proof fn law_interval_counts_every_byte(
    e: BandwidthEstimation,
    ds: Seq<Delivery>,
    start: Instant,
    acked: u64,
    now: Instant,
    bytes: u64,
)
    requires
        e.interval_start == Some((start, acked)),
        acked <= e.total_acked,
        forall|i: int|
            0 <= i < ds.len() ==> start.micros <= (#[trigger] ds[i]).now.micros < start.micros
                + e.sample_interval.micros,
        e.total_acked + total_bytes(ds) <= u64::MAX,
        now.micros - start.micros >= e.sample_interval.micros,
    ensures
        after_deliveries(e, ds).max_filter == e.max_filter,
        after_deliveries(e, ds).interval_start == e.interval_start,
        after_deliveries(e, ds).total_acked == e.total_acked + total_bytes(ds),
        after_deliveries(e, ds).sample(now, bytes) == Some(
            rate(e.total_acked - acked + total_bytes(ds) + bytes, now.micros - start.micros) as u64,
        ),
{
    lemma_interval_goes_on(e, ds, start, acked);
}

proof fn lemma_interval_goes_on(
    e: BandwidthEstimation,
    ds: Seq<Delivery>,
    start: Instant,
    acked: u64,
)
    requires
        e.interval_start == Some((start, acked)),
        forall|i: int|
            0 <= i < ds.len() ==> start.micros <= (#[trigger] ds[i]).now.micros < start.micros
                + e.sample_interval.micros,
        e.total_acked + total_bytes(ds) <= u64::MAX,
    ensures
        after_deliveries(e, ds).max_filter == e.max_filter,
        after_deliveries(e, ds).interval_start == e.interval_start,
        after_deliveries(e, ds).sample_interval == e.sample_interval,
        after_deliveries(e, ds).total_acked == e.total_acked + total_bytes(ds),
        total_bytes(ds) >= 0,
    decreases ds.len(),
{
    if ds.len() > 0 {
        let before = ds.drop_last();
        let d = ds.last();
        assert(ds[ds.len() - 1] == d);
        assert forall|i: int| 0 <= i < before.len() implies start.micros <= (
        #[trigger] before[i]).now.micros < start.micros + e.sample_interval.micros by {
            assert(before[i] == ds[i]);
        }
        assert(total_bytes(ds) == total_bytes(before) + d.bytes);
        lemma_interval_goes_on(e, before, start, acked);
    }
}

/// A sample counts: afterwards the estimate is no lower than it, and higher only where it was
/// higher before.
pub proof fn law_estimate_reaches_the_sample(
    e: BandwidthEstimation,
    now: Instant,
    bytes: u64,
    round: u64,
)
    requires
        e.wf(),
        e.sample(now, bytes) is Some,
        e.max_filter.takes(round, e.sample(now, bytes)->0),
    ensures
        e.with_ack(now, bytes, round, false).estimate() >= e.sample(now, bytes)->0,
        e.with_ack(now, bytes, round, false).estimate() == e.sample(now, bytes)->0 || e.with_ack(
            now,
            bytes,
            round,
            false,
        ).estimate() <= e.estimate(),
{
}

/// While the application limits the flow the estimate is never lowered; it changes only when
/// a sample exceeds it, and then to that sample.
pub proof fn law_app_limited_samples_only_raise(
    e: BandwidthEstimation,
    now: Instant,
    bytes: u64,
    round: u64,
)
    ensures
        e.with_ack(now, bytes, round, true).estimate() == match e.sample(now, bytes) {
            Some(sample) => if sample > e.estimate() {
                sample
            } else {
                e.estimate()
            },
            None => e.estimate(),
        },
{
}

/// A sampling interval starts with the first ACK, which it counts. An ACK from before it starts
/// it anew. While it is shorter than the sampling interval is to be, it goes on. In none of
/// these cases is there a sample, and the estimate stands still; in all of them, and where the
/// interval ends, the bytes are counted.
pub proof fn law_interval_starts_and_goes_on(
    e: BandwidthEstimation,
    now: Instant,
    bytes: u64,
    round: u64,
    app_limited: bool,
)
    requires
        e.total_acked + bytes <= u64::MAX,
    ensures
        ({
            let t = e.with_ack(now, bytes, round, app_limited);
            &&& t.total_acked == e.total_acked + bytes
            &&& t.prev_total_acked == e.total_acked
            &&& t.acked_time == Some(now)
            &&& t.prev_acked_time == e.acked_time
            &&& t == (BandwidthEstimation {
                total_acked: t.total_acked,
                prev_total_acked: t.prev_total_acked,
                acked_time: t.acked_time,
                prev_acked_time: t.prev_acked_time,
                interval_start: t.interval_start,
                max_filter: t.max_filter,
                ..e
            })
            &&& match e.interval_start {
                None => t.interval_start == Some((now, e.total_acked)) && t.max_filter
                    == e.max_filter,
                Some((start, acked)) => {
                    &&& now.micros < start.micros ==> t.interval_start == Some(
                        (now, e.total_acked),
                    ) && t.max_filter == e.max_filter
                    &&& 0 <= now.micros - start.micros < e.sample_interval.micros
                        ==> t.interval_start == e.interval_start && t.max_filter == e.max_filter
                    &&& now.micros >= start.micros && now.micros - start.micros
                        >= e.sample_interval.micros ==> t.interval_start == Some(
                        (now, t.total_acked),
                    )
                },
            }
        }),
{
}

/// A sample is what was ACKed in the interval over the time that it lasted, in whole bytes per
/// second: the estimate is afterwards no lower than that, and where it has risen no higher.
/// Without the application as the limit, a first estimate, and one that the sample reaches, is
/// the sample.
pub proof fn law_sample_is_bytes_over_time(
    e: BandwidthEstimation,
    now: Instant,
    bytes: u64,
    round: u64,
    app_limited: bool,
    start: Instant,
    acked: u64,
)
    requires
        e.wf(),
        e.interval_start == Some((start, acked)),
        now.micros - start.micros >= e.sample_interval.micros,
        e.max_filter.third.time <= round,
        e.total_acked + bytes <= u64::MAX,
        (e.total_acked + bytes - acked) * 1_000_000 <= u64::MAX,
    ensures
        ({
            let t = e.with_ack(now, bytes, round, app_limited);
            let before = e.max_filter.first.value;
            let after = t.max_filter.first.value;
            let elapsed = now.micros - start.micros;
            let delivered = (e.total_acked + bytes - acked) * 1_000_000;
            &&& (after + 1) * elapsed > delivered
            &&& after > before ==> after * elapsed <= delivered
            &&& before * elapsed <= delivered ==> after * elapsed <= delivered
            &&& app_limited ==> after >= before
            &&& app_limited && before * elapsed > delivered ==> t.max_filter == e.max_filter
        }),
{
    let elapsed = now.micros - start.micros;
    let delivered = (e.total_acked + bytes - acked) * 1_000_000;
    let sample = rate(e.total_acked + bytes - acked, elapsed);
    let before = e.max_filter.first.value;
    assert(sample == delivered / elapsed);
    assert(0 <= sample <= delivered && sample * elapsed <= delivered < (sample + 1) * elapsed)
        by (nonlinear_arith)
        requires
            sample == delivered / elapsed,
            elapsed >= 1000,
            delivered >= 0,
    ;
    assert(e.sample(now, bytes) == Some(sample as u64));
    let after = e.with_ack(now, bytes, round, app_limited).max_filter.first.value;
    assert(after >= sample);
    assert((after + 1) * elapsed >= (sample + 1) * elapsed) by (nonlinear_arith)
        requires
            after >= sample,
            elapsed >= 0,
    ;
    assert(before * elapsed > delivered <==> before > sample) by (nonlinear_arith)
        requires
            sample * elapsed <= delivered < (sample + 1) * elapsed,
            elapsed > 0,
    ;
    assert(after == sample || after <= before);
}

/// The sampling interval is the least round-trip time, and at least a millisecond.
pub proof fn law_sampling_interval(s: super::Bbr, rtt: crate::rtt::RttEstimator)
    ensures
        s.paced_estimation(rtt) == (BandwidthEstimation {
            sample_interval: s.paced_estimation(rtt).sample_interval,
            ..s.max_bandwidth
        }),
        s.paced_estimation(rtt).sample_interval.micros == if rtt.min.micros >= 1000 {
            rtt.min.micros
        } else {
            1000
        },
{
}

/// The maximum is held for as many rounds as the window is long: a lower measurement does not
/// displace it in that time, and one that reaches it takes its place.
pub proof fn law_filter_holds_the_maximum(f: MinMax, round: u64, measurement: u64)
    requires
        f.wf(),
        f.third.time <= round,
    ensures
        ({
            let g = f.with_max(round, measurement);
            &&& g.window == f.window
            &&& measurement >= f.first.value ==> g.first.value == measurement && g.first.time
                == round && g.second == g.first && g.third == g.first
            &&& measurement < f.first.value && round - f.first.time <= f.window ==> g.first
                == f.first
        }),
{
}

/// When the maximum has left the window, the next choice within it takes its place, or the new
/// measurement where that reaches the choice, or no choice is left.
pub proof fn law_filter_falls_back_to_the_next_choice(f: MinMax, round: u64, measurement: u64)
    requires
        f.wf(),
        f.third.time <= round,
        measurement < f.first.value,
        round - f.first.time > f.window,
    ensures
        ({
            let g = f.with_max(round, measurement);
            let second_left = round - f.second.time <= f.window;
            let third_left = round - f.third.time <= f.window;
            g.first.value == (if second_left && f.second.value > measurement {
                f.second.value
            } else if third_left && f.third.value > measurement {
                f.third.value
            } else {
                measurement
            })
        }),
{
}

/// A later choice is kept at hand: when more than a quarter of the window has passed since the
/// maximum, there is a second choice from after it, and when more than half has passed since
/// the maximum, a third from after the second.
pub proof fn law_filter_keeps_later_choices(f: MinMax, round: u64, measurement: u64)
    requires
        f.wf(),
        f.third.time <= round,
        0 < measurement < f.first.value,
        round - f.first.time <= f.window,
    ensures
        ({
            let g = f.with_max(round, measurement);
            let age = round - f.first.time;
            &&& age > f.window / 4 ==> g.second.time > g.first.time
            &&& measurement >= f.second.value ==> g.second.value == measurement && g.second.time
                == round
            &&& measurement >= f.third.value ==> g.third.value == measurement && g.third.time
                == round
            &&& measurement < f.second.value && f.second.time > f.first.time ==> g.second
                == f.second
            &&& measurement < f.third.value && f.third.time > f.second.time && f.second.time
                > f.first.time ==> g.third == f.third
            &&& age > f.window / 2 && f.second.time > f.first.time && f.third.time == f.second.time
                ==> g.third.time == round
        }),
{
}

/// The filter after the measurements, from the first to the last.
pub open spec fn after_measurements(window: u64, ms: Seq<MinMaxSample>) -> MinMax
    decreases ms.len(),
{
    if ms.len() == 0 {
        MinMax::empty(window)
    } else {
        let m = ms.last();
        after_measurements(window, ms.drop_last()).with_max(m.time, m.value)
    }
}

/// The measurement at `at`, and none from there on exceeds it.
pub open spec fn tops_from(ms: Seq<MinMaxSample>, choice: MinMaxSample, at: int) -> bool {
    &&& 0 <= at < ms.len()
    &&& ms[at] == choice
    &&& forall|k: int| at <= k < ms.len() ==> (#[trigger] ms[k]).value <= choice.value
}

/// The maximum is always one of the measurements, none that was made since exceeds it, and it
/// is no older, at the last measurement, than the window is long.
pub proof fn law_filter_holds_a_recent_maximum(window: u64, ms: Seq<MinMaxSample>)
    requires
        ms.len() > 0,
        forall|i: int, j: int| 0 <= i <= j < ms.len() ==> ms[i].time <= ms[j].time,
    ensures
        exists|at: int| #[trigger]
            tops_from(ms, after_measurements(window, ms).first, at),
        ms.last().time - after_measurements(window, ms).first.time <= window,
{
    lemma_choices(window, ms);
    let (a, b, c) = choose|a: int, b: int, c: int|
        chosen(after_measurements(window, ms), ms, a, b, c);
    assert(tops_from(ms, after_measurements(window, ms).first, a));
}

/// The three choices are the measurements at `a`, `b` and `c`, each topping those after it.
spec fn chosen(f: MinMax, ms: Seq<MinMaxSample>, a: int, b: int, c: int) -> bool {
    &&& a <= b <= c
    &&& tops_from(ms, f.first, a)
    &&& tops_from(ms, f.second, b)
    &&& tops_from(ms, f.third, c)
}

proof fn lemma_choices(window: u64, ms: Seq<MinMaxSample>)
    requires
        ms.len() > 0,
        forall|i: int, j: int| 0 <= i <= j < ms.len() ==> ms[i].time <= ms[j].time,
    ensures
        exists|a: int, b: int, c: int|
            chosen(after_measurements(window, ms), ms, a, b, c),
        after_measurements(window, ms).window == window,
        ms.last().time - after_measurements(window, ms).first.time <= window,
    decreases ms.len(),
{
    let m = ms.last();
    let n = ms.len() - 1;
    let before = ms.drop_last();
    let f = after_measurements(window, before);
    let g = after_measurements(window, ms);
    assert(g == f.with_max(m.time, m.value));
    assert(ms[n] == m);
    if before.len() == 0 {
        assert(f == MinMax::empty(window));
        assert(g == f.filled(m));
        assert(chosen(g, ms, n, n, n));
    } else {
        assert forall|i: int, j: int| 0 <= i <= j < before.len() implies before[i].time
            <= before[j].time by {
            assert(before[i] == ms[i] && before[j] == ms[j]);
        }
        lemma_choices(window, before);
        let (a, b, c) = choose|a: int, b: int, c: int| chosen(f, before, a, b, c);
        lemma_measurement(f, before, ms, a, b, c);
    }
}

/// One measurement more.
proof fn lemma_measurement(
    f: MinMax,
    before: Seq<MinMaxSample>,
    ms: Seq<MinMaxSample>,
    a: int,
    b: int,
    c: int,
)
    requires
        ms.len() > 1,
        before == ms.drop_last(),
        chosen(f, before, a, b, c),
        forall|i: int, j: int| 0 <= i <= j < ms.len() ==> ms[i].time <= ms[j].time,
    ensures
        exists|x: int, y: int, z: int|
            chosen(f.with_max(ms.last().time, ms.last().value), ms, x, y, z),
        f.with_max(ms.last().time, ms.last().value).window == f.window,
        ms.last().time - f.with_max(ms.last().time, ms.last().value).first.time <= f.window,
{
    let m = ms.last();
    let n = ms.len() - 1;
    let g = f.with_max(m.time, m.value);
    let sample = MinMaxSample { time: m.time, value: m.value };
    assert(sample == m && ms[n] == m);
    assert(forall|k: int| 0 <= k < n ==> before[k] == ms[k]);
    assert(ms[a].time <= ms[b].time <= ms[c].time <= ms[n].time);
    assert(tops_from(ms, m, n));
    assert(m.value <= f.first.value ==> tops_from(ms, f.first, a));
    assert(m.value <= f.second.value ==> tops_from(ms, f.second, b));
    assert(m.value <= f.third.value ==> tops_from(ms, f.third, c));
    assert(before[b].value <= f.first.value && before[c].value <= f.second.value);
    if f.first.value == 0 || m.value >= f.first.value || m.time - f.third.time > f.window {
        assert(chosen(g, ms, n, n, n));
    } else {
        let p = f.placed(m);
        let (x, y, z) = if m.value >= f.second.value {
            (a, n, n)
        } else if m.value >= f.third.value {
            (a, b, n)
        } else {
            (a, b, c)
        };
        assert(chosen(p, ms, x, y, z));
        assert(g == p.aged(m));
        let age = m.time - p.first.time;
        if age > p.window {
            let next = p.shifted(m);
            if m.time - next.first.time > p.window {
                assert(chosen(g, ms, z, n, n));
            } else {
                assert(chosen(g, ms, y, z, n));
            }
        } else if p.second.time == p.first.time && age > p.window / 4 {
            assert(chosen(g, ms, x, n, n));
        } else if p.third.time == p.second.time && age > p.window / 2 {
            assert(chosen(g, ms, x, y, n));
        } else {
            assert(chosen(g, ms, x, y, z));
        }
    }
}

} // verus!
