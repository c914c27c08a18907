//! What holds of the delays that a batch brings.
use vstd::prelude::*;

use crate::figures::Differences;
use crate::ingest::{
    entered, intake, lag_record, lag_uid_of, lags_entered, observation_row, taken_in, twin_of,
};
use crate::model::{BatchInputView, LagInputView, ObservationInputView};
use crate::store::{knows_batch, knows_lag, knows_observation, LagRecordView, StoreView};

verus! {

/// The delay `j` of an observation as it is kept.
pub open spec fn delay_of(batch: BatchInputView, o: ObservationInputView, j: int) -> LagRecordView {
    lag_record(batch, o, lag_uid_of(batch.batch_uid, o.obs_uid, j, o.lags[j]), o.lags[j])
}

/// A delay lacks no number.
pub open spec fn is_whole(l: LagInputView) -> bool {
    !l.lag_sec.nan() && !l.peak_band_hz.nan() && !l.snr_db.nan()
}

/// `r` is one of the first `n` delays of an observation, with all its numbers.
pub open spec fn brought_by(
    batch: BatchInputView,
    o: ObservationInputView,
    n: int,
    r: LagRecordView,
) -> bool {
    exists|j: int|
        0 <= j < n && is_whole(#[trigger] o.lags[j]) && r == delay_of(batch, o, j)
}

/// `r` is a delay, with all its numbers, of one of the first `n` observations of
/// a batch.
pub open spec fn brought(batch: BatchInputView, n: int, r: LagRecordView) -> bool {
    exists|i: int|
        0 <= i < n && brought_by(
            batch,
            #[trigger] batch.observations[i],
            batch.observations[i].lags.len() as int,
            r,
        )
}

/// A delay of this name is there or is brought.
spec fn named_by(
    lags: Seq<LagRecordView>,
    batch: BatchInputView,
    o: ObservationInputView,
    n: int,
    u: Seq<char>,
) -> bool {
    knows_lag(lags, u) || exists|r: LagRecordView|
        #[trigger] brought_by(batch, o, n, r) && r.lag.lag_uid == u
}

spec fn named(v: StoreView, batch: BatchInputView, n: int, u: Seq<char>) -> bool {
    knows_lag(v.lags, u) || exists|r: LagRecordView|
        #[trigger] brought(batch, n, r) && r.lag.lag_uid == u
}

proof fn delays_are_entered(
    v: StoreView,
    batch: BatchInputView,
    lags: Seq<LagRecordView>,
    idx: int,
    n: int,
)
    requires
        0 <= idx < batch.observations.len(),
        0 <= n <= batch.observations[idx].lags.len(),
        lags_entered(lags, v.stations, batch, idx, n) is Ok,
    ensures
        ({
            let t = lags_entered(lags, v.stations, batch, idx, n)->Ok_0;
            let o = batch.observations[idx];
            &&& forall|u: Seq<char>| #[trigger] knows_lag(t, u) <==> named_by(lags, batch, o, n, u)
            &&& forall|k: int|
                0 <= k < t.len() ==> lags.contains(#[trigger] t[k]) || brought_by(
                    batch,
                    o,
                    n,
                    t[k],
                )
            &&& lags.len() <= t.len()
            &&& forall|k: int| 0 <= k < lags.len() ==> #[trigger] t[k] == lags[k]
        }),
    decreases n,
{
    let o = batch.observations[idx];
    if n <= 0 {
        assert forall|u: Seq<char>| #[trigger] knows_lag(lags, u) <==> named_by(
            lags,
            batch,
            o,
            n,
            u,
        ) by {}
        assert forall|k: int| 0 <= k < lags.len() implies lags.contains(#[trigger] lags[k]) by {}
    } else {
        delays_are_entered(v, batch, lags, idx, n - 1);
        let before = lags_entered(lags, v.stations, batch, idx, n - 1)->Ok_0;
        let t = lags_entered(lags, v.stations, batch, idx, n)->Ok_0;
        let r = delay_of(batch, o, n - 1);
        assert forall|x: LagRecordView| #[trigger] brought_by(batch, o, n, x) <==> brought_by(
            batch,
            o,
            n - 1,
            x,
        ) || (is_whole(o.lags[n - 1]) && x == r) by {
            if is_whole(o.lags[n - 1]) && x == r {
                assert(is_whole(o.lags[n - 1]));
            }
        }
        if is_whole(o.lags[n - 1]) {
            assert(brought_by(batch, o, n, r));
        }
        if t != before {
            assert(t == before.push(r));
        }
        assert forall|u: Seq<char>| #[trigger] knows_lag(t, u) <==> named_by(
            lags,
            batch,
            o,
            n,
            u,
        ) by {
            assert(knows_lag(before, u) <==> named_by(lags, batch, o, n - 1, u));
            if knows_lag(t, u) {
                let k = choose|k: int| 0 <= k < t.len() && (#[trigger] t[k]).lag.lag_uid == u;
                if k < before.len() {
                    assert(before[k].lag.lag_uid == u);
                    if !knows_lag(lags, u) {
                        let x = choose|x: LagRecordView|
                            #[trigger] brought_by(batch, o, n - 1, x) && x.lag.lag_uid == u;
                        assert(brought_by(batch, o, n, x));
                    }
                } else {
                    assert(t[k] == r);
                    assert(brought_by(batch, o, n, r));
                }
            }
            if knows_lag(before, u) {
                let k = choose|k: int|
                    0 <= k < before.len() && (#[trigger] before[k]).lag.lag_uid == u;
                assert(t[k].lag.lag_uid == u);
            }
            if named_by(lags, batch, o, n, u) && !knows_lag(lags, u) {
                let x = choose|x: LagRecordView|
                    #[trigger] brought_by(batch, o, n, x) && x.lag.lag_uid == u;
                if !brought_by(batch, o, n - 1, x) {
                    assert(x == r);
                    if t != before {
                        assert(t[before.len() as int].lag.lag_uid == u);
                    } else {
                        assert(knows_lag(before, u));
                    }
                }
            }
        }
        assert forall|k: int| 0 <= k < t.len() implies lags.contains(#[trigger] t[k]) || brought_by(
            batch,
            o,
            n,
            t[k],
        ) by {
            if k < before.len() {
                assert(t[k] == before[k]);
            }
        }
    }
}

/// The observations of a batch are all new, and none is listed twice.
pub open spec fn brings_news(v: StoreView, batch: BatchInputView) -> bool {
    &&& forall|i: int|
        0 <= i < batch.observations.len() ==> !knows_observation(
            v.observations,
            (#[trigger] batch.observations[i]).obs_uid,
        )
    &&& forall|i: int, j: int|
        0 <= i < j < batch.observations.len() ==> (#[trigger] batch.observations[i]).obs_uid != (
        #[trigger] batch.observations[j]).obs_uid
}

proof fn news_is_entered(v: StoreView, batch: BatchInputView, minus: Differences, n: int)
    requires
        brings_news(v, batch),
        0 <= n <= batch.observations.len(),
        entered(v, batch, minus, n) is Ok,
    ensures
        ({
            let t = entered(v, batch, minus, n)->Ok_0;
            &&& forall|u: Seq<char>| #[trigger] knows_lag(t.lags, u) <==> named(v, batch, n, u)
            &&& forall|k: int|
                0 <= k < t.lags.len() ==> v.lags.contains(#[trigger] t.lags[k]) || brought(
                    batch,
                    n,
                    t.lags[k],
                )
            &&& forall|k: int| 0 <= k < t.observations.len() ==> knows_observation(
                v.observations,
                (#[trigger] t.observations[k]).obs_uid,
            ) || exists|i: int|
                0 <= i < n && (#[trigger] batch.observations[i]).obs_uid
                    == t.observations[k].obs_uid
            &&& v.lags.len() <= t.lags.len()
            &&& forall|k: int| 0 <= k < v.lags.len() ==> #[trigger] t.lags[k] == v.lags[k]
        }),
    decreases n,
{
    if n <= 0 {
        let t = entered(v, batch, minus, n)->Ok_0;
        assert(t.lags == v.lags);
        assert forall|u: Seq<char>| #[trigger] knows_lag(t.lags, u) <==> named(v, batch, n, u) by {}
        assert forall|k: int| 0 <= k < t.lags.len() implies v.lags.contains(
            #[trigger] t.lags[k],
        ) by {}
        assert forall|k: int| 0 <= k < t.observations.len() implies knows_observation(
            v.observations,
            (#[trigger] t.observations[k]).obs_uid,
        ) by {
            assert(v.observations[k] == t.observations[k]);
        }
    } else {
        news_is_entered(v, batch, minus, n - 1);
        let before = entered(v, batch, minus, n - 1)->Ok_0;
        let t = entered(v, batch, minus, n)->Ok_0;
        let o = batch.observations[n - 1];
        assert(!knows_observation(before.observations, o.obs_uid)) by {
            if knows_observation(before.observations, o.obs_uid) {
                let k = choose|k: int|
                    0 <= k < before.observations.len() && (
                    #[trigger] before.observations[k]).obs_uid == o.obs_uid;
                assert(!knows_observation(v.observations, o.obs_uid));
                let i = choose|i: int|
                    0 <= i < n - 1 && (#[trigger] batch.observations[i]).obs_uid
                        == before.observations[k].obs_uid;
                assert(batch.observations[i].obs_uid != batch.observations[n - 1].obs_uid);
            }
        }
        let m = o.lags.len() as int;
        delays_are_entered(v, batch, before.lags, n - 1, m);
        assert forall|x: LagRecordView| brought(batch, n, x) <==> brought(batch, n - 1, x)
            || brought_by(batch, o, m, x) by {
            if brought(batch, n - 1, x) {
                let i = choose|i: int|
                    0 <= i < n - 1 && brought_by(
                        batch,
                        #[trigger] batch.observations[i],
                        batch.observations[i].lags.len() as int,
                        x,
                    );
                assert(0 <= i < n && brought_by(
                    batch,
                    batch.observations[i],
                    batch.observations[i].lags.len() as int,
                    x,
                ));
            }
            if brought_by(batch, o, m, x) {
                assert(brought_by(
                    batch,
                    batch.observations[n - 1],
                    batch.observations[n - 1].lags.len() as int,
                    x,
                ));
            }
        }
        assert forall|u: Seq<char>| #[trigger] knows_lag(t.lags, u) <==> named(v, batch, n, u) by {
            assert(knows_lag(t.lags, u) <==> named_by(before.lags, batch, o, m, u));
            assert(knows_lag(before.lags, u) <==> named(v, batch, n - 1, u));
            if named(v, batch, n - 1, u) && !knows_lag(v.lags, u) {
                let x = choose|x: LagRecordView|
                    #[trigger] brought(batch, n - 1, x) && x.lag.lag_uid == u;
                assert(brought(batch, n, x));
            }
            if named_by(before.lags, batch, o, m, u) && !knows_lag(before.lags, u) {
                let x = choose|x: LagRecordView|
                    #[trigger] brought_by(batch, o, m, x) && x.lag.lag_uid == u;
                assert(brought(batch, n, x));
            }
            if named(v, batch, n, u) && !knows_lag(v.lags, u) {
                let x = choose|x: LagRecordView|
                    #[trigger] brought(batch, n, x) && x.lag.lag_uid == u;
                if brought(batch, n - 1, x) {
                } else {
                    assert(brought_by(batch, o, m, x));
                }
            }
        }
        assert forall|k: int| 0 <= k < t.lags.len() implies v.lags.contains(#[trigger] t.lags[k])
            || brought(batch, n, t.lags[k]) by {
            if before.lags.contains(t.lags[k]) {
                let l = choose|l: int| 0 <= l < before.lags.len() && before.lags[l] == t.lags[k];
                assert(v.lags.contains(before.lags[l]) || brought(batch, n - 1, before.lags[l]));
            } else {
                assert(brought_by(batch, o, m, t.lags[k]));
            }
        }
        assert forall|k: int| 0 <= k < t.observations.len() implies knows_observation(
            v.observations,
            (#[trigger] t.observations[k]).obs_uid,
        ) || exists|i: int|
            0 <= i < n && (#[trigger] batch.observations[i]).obs_uid
                == t.observations[k].obs_uid by {
            if k < before.observations.len() {
                assert(t.observations[k] == before.observations[k]);
            } else {
                assert(t.observations[k] == observation_row(
                    batch,
                    o,
                    twin_of(before.observations, batch.event_id, o, minus),
                ));
                assert(batch.observations[n - 1].obs_uid == t.observations[k].obs_uid);
            }
        }
        assert forall|k: int| 0 <= k < v.lags.len() implies #[trigger] t.lags[k] == v.lags[k] by {
            assert(before.lags[k] == v.lags[k]);
        }
    }
}

/// Two batches say the same but for the order of their observations.
pub open spec fn same_but_for_order(a: BatchInputView, b: BatchInputView) -> bool {
    &&& a.batch_uid == b.batch_uid
    &&& a.event_id == b.event_id
    &&& a.observations.to_multiset() == b.observations.to_multiset()
}

/// Whatever the order of the observations, a batch brings the same delays under
/// the same names.
pub proof fn the_order_of_observations_names_no_delay(
    a: BatchInputView,
    b: BatchInputView,
    r: LagRecordView,
)
    requires
        same_but_for_order(a, b),
    ensures
        brought(a, a.observations.len() as int, r) <==> brought(
            b,
            b.observations.len() as int,
            r,
        ),
{
    order_does_not_name(a, b, r);
    order_does_not_name(b, a, r);
}

proof fn order_does_not_name(a: BatchInputView, b: BatchInputView, r: LagRecordView)
    requires
        same_but_for_order(a, b),
    ensures
        brought(a, a.observations.len() as int, r) ==> brought(b, b.observations.len() as int, r),
{
    broadcast use vstd::seq_lib::group_to_multiset_ensures;

    if brought(a, a.observations.len() as int, r) {
        let i = choose|i: int|
            0 <= i < a.observations.len() && brought_by(
                a,
                #[trigger] a.observations[i],
                a.observations[i].lags.len() as int,
                r,
            );
        let o = a.observations[i];
        assert(a.observations.contains(o));
        assert(b.observations.to_multiset().count(o) > 0);
        assert(b.observations.contains(o));
        let k = choose|k: int| 0 <= k < b.observations.len() && b.observations[k] == o;
        let j = choose|j: int|
            0 <= j < o.lags.len() && is_whole(#[trigger] o.lags[j]) && r == delay_of(a, o, j);
        assert(is_whole(o.lags[j]) && r == delay_of(b, o, j));
        assert(brought_by(b, b.observations[k], b.observations[k].lags.len() as int, r));
    }
}

/// The delays that a batch brings have names of their own, which are new.
pub open spec fn names_are_free(v: StoreView, batch: BatchInputView) -> bool {
    let n = batch.observations.len() as int;
    &&& forall|r: LagRecordView| #[trigger]
        brought(batch, n, r) ==> !knows_lag(v.lags, r.lag.lag_uid)
    &&& forall|r: LagRecordView, s: LagRecordView|
        #[trigger] brought(batch, n, r) && #[trigger] brought(batch, n, s) && r.lag.lag_uid
            == s.lag.lag_uid ==> r == s
}

/// The same batch with its observations in another order leads to delays of the
/// same names; and to the same delays, where no two of them are of one name.
pub proof fn the_order_of_observations_does_not_matter_to_delays(
    v: StoreView,
    a: BatchInputView,
    b: BatchInputView,
    payload_a: Seq<char>,
    payload_b: Seq<char>,
    received_a: Seq<char>,
    received_b: Seq<char>,
    minus_a: Differences,
    minus_b: Differences,
)
    requires
        same_but_for_order(a, b),
        !knows_batch(v.batches, a.batch_uid),
        brings_news(v, a),
        brings_news(v, b),
        intake(v, a, minus_a) is Ok,
        intake(v, b, minus_b) is Ok,
    ensures
        ({
            let x = taken_in(v, a, payload_a, received_a, minus_a).lags;
            let y = taken_in(v, b, payload_b, received_b, minus_b).lags;
            &&& forall|u: Seq<char>| #[trigger] knows_lag(x, u) <==> knows_lag(y, u)
            &&& names_are_free(v, a) ==> forall|r: LagRecordView| #[trigger]
                x.contains(r) <==> y.contains(r)
        }),
{
    let x = taken_in(v, a, payload_a, received_a, minus_a).lags;
    let y = taken_in(v, b, payload_b, received_b, minus_b).lags;
    let (m, n) = (a.observations.len() as int, b.observations.len() as int);
    news_is_entered(v, a, minus_a, m);
    news_is_entered(v, b, minus_b, n);
    assert forall|r: LagRecordView| #[trigger] brought(a, m, r) <==> brought(b, n, r) by {
        the_order_of_observations_names_no_delay(a, b, r);
    }
    assert forall|u: Seq<char>| #[trigger] knows_lag(x, u) <==> knows_lag(y, u) by {
        assert(knows_lag(x, u) <==> named(v, a, m, u));
        assert(knows_lag(y, u) <==> named(v, b, n, u));
        if named(v, a, m, u) && !knows_lag(v.lags, u) {
            let r = choose|r: LagRecordView| #[trigger] brought(a, m, r) && r.lag.lag_uid == u;
            assert(brought(b, n, r));
        }
        if named(v, b, n, u) && !knows_lag(v.lags, u) {
            let r = choose|r: LagRecordView| #[trigger] brought(b, n, r) && r.lag.lag_uid == u;
            assert(brought(a, m, r));
        }
    }
    if names_are_free(v, a) {
        assert forall|r: LagRecordView| #[trigger] x.contains(r) <==> y.contains(r) by {
            if x.contains(r) {
                carried_over(v, a, x, y, r);
            }
            if y.contains(r) {
                carried_over(v, a, y, x, r);
            }
        }
    }
}

/// A delay of one table is in another that has a delay of its name.
proof fn carried_over(
    v: StoreView,
    a: BatchInputView,
    x: Seq<LagRecordView>,
    y: Seq<LagRecordView>,
    r: LagRecordView,
)
    requires
        names_are_free(v, a),
        x.contains(r),
        forall|u: Seq<char>| #[trigger] knows_lag(x, u) <==> knows_lag(y, u),
        forall|k: int|
            0 <= k < x.len() ==> v.lags.contains(#[trigger] x[k]) || brought(
                a,
                a.observations.len() as int,
                x[k],
            ),
        forall|k: int|
            0 <= k < y.len() ==> v.lags.contains(#[trigger] y[k]) || brought(
                a,
                a.observations.len() as int,
                y[k],
            ),
        v.lags.len() <= y.len(),
        forall|k: int| 0 <= k < v.lags.len() ==> #[trigger] y[k] == v.lags[k],
    ensures
        y.contains(r),
{
    let n = a.observations.len() as int;
    let i = choose|i: int| 0 <= i < x.len() && x[i] == r;
    if v.lags.contains(x[i]) {
        let k = choose|k: int| 0 <= k < v.lags.len() && v.lags[k] == r;
        assert(y[k] == r);
    } else {
        assert(brought(a, n, r));
        assert(x[i].lag.lag_uid == r.lag.lag_uid);
        assert(knows_lag(x, r.lag.lag_uid));
        let k = choose|k: int|
            0 <= k < y.len() && (#[trigger] y[k]).lag.lag_uid == r.lag.lag_uid;
        if v.lags.contains(y[k]) {
            let l = choose|l: int| 0 <= l < v.lags.len() && v.lags[l] == y[k];
            assert(v.lags[l].lag.lag_uid == r.lag.lag_uid);
            assert(knows_lag(v.lags, r.lag.lag_uid));
        } else {
            assert(brought(a, n, y[k]));
            assert(y[k] == r);
        }
    }
}

} // verus!
