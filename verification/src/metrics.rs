//! Metrics aggregation: turns per-realm statistics into a point-in-time
//! snapshot of gauges, tolerating the failure of individual realms. The
//! snapshot is computed freshly on every call and never cached.

use vstd::prelude::*;
use crate::errors::Error;
use crate::realms::StatResult;

verus! {

/// The view of a list of published gauges.
pub open spec fn gauges_v(s: Seq<(String, StatResult)>) -> Seq<(Seq<char>, StatResult)> {
    s.map_values(|p: (String, StatResult)| (p.0@, p.1))
}

/// The gauges a list of per-realm results publishes: the successful
/// entries, in order, with exactly their values; failed entries vanish.
pub open spec fn spec_collect(rs: Seq<(String, Result<StatResult, Error>)>) -> Seq<
    (Seq<char>, StatResult),
>
    decreases rs.len(),
{
    if rs.len() == 0 {
        Seq::<(Seq<char>, StatResult)>::empty()
    } else {
        let rest = spec_collect(rs.drop_first());
        match rs[0].1 {
            Ok(st) => seq![(rs[0].0@, st)] + rest,
            Err(_) => rest,
        }
    }
}

/// A point-in-time snapshot of the per-realm gauges plus a liveness
/// indicator.
#[derive(Debug, PartialEq, Eq)]
pub struct MetricsSnapshot {
    pub up: i64,
    pub realms: Vec<(String, StatResult)>,
}

/// Aggregates per-realm stat results into a snapshot: every realm whose
/// statistics are at hand is published with exactly its values, in order;
/// a failed realm is skipped without affecting the rest; the liveness
/// gauge is set.
#[verifier::loop_isolation(false)]
pub fn collect(results: Vec<(String, Result<StatResult, Error>)>) -> (snap: MetricsSnapshot)
    ensures
        snap.up == 1,
        gauges_v(snap.realms@) == spec_collect(results@),
{
    let mut out: Vec<(String, StatResult)> = Vec::new();
    let mut i: usize = 0;
    let n = results.len();
    proof {
        assert(gauges_v(out@) =~= Seq::<(Seq<char>, StatResult)>::empty());
        assert(results@.skip(0) =~= results@);
    }
    while i < n
        invariant
            i <= n,
            gauges_v(out@) + spec_collect(results@.skip(i as int)) == spec_collect(results@),
        decreases n - i,
    {
        proof {
            assert(results@.skip(i as int)[0] == results@[i as int]);
            assert(results@.skip(i as int).drop_first() =~= results@.skip(i + 1));
        }
        let entry = &results[i];
        match &entry.1 {
            Ok(st) => {
                let ghost old_out = out@;
                out.push((entry.0.clone(), *st));
                proof {
                    assert(gauges_v(old_out.push((results@[i as int].0, results@[i as int].1->Ok_0)))
                        =~= gauges_v(old_out).push(
                        (results@[i as int].0@, results@[i as int].1->Ok_0),
                    ));
                    assert(gauges_v(out@) + spec_collect(results@.skip(i + 1)) =~= gauges_v(old_out)
                        + spec_collect(results@.skip(i as int)));
                }
            },
            Err(_) => {},
        }
        i += 1;
    }
    proof {
        assert(results@.skip(n as int) =~= Seq::<(String, Result<StatResult, Error>)>::empty());
        assert(gauges_v(out@) + spec_collect(results@.skip(n as int)) =~= gauges_v(out@));
    }
    MetricsSnapshot { up: 1, realms: out }
}

/// LAW (partial-failure isolation, published side): a realm whose
/// statistics are at hand is published with exactly its values, whatever
/// happens to every other realm.
pub proof fn lemma_collect_publishes_ok(rs: Seq<(String, Result<StatResult, Error>)>, i: int)
    requires
        0 <= i < rs.len(),
        rs[i].1 is Ok,
    ensures
        spec_collect(rs).contains((rs[i].0@, rs[i].1->Ok_0)),
    decreases rs.len(),
{
    if i == 0 {
        assert(spec_collect(rs)[0] == (rs[0].0@, rs[0].1->Ok_0));
    } else {
        assert(rs.drop_first()[i - 1] == rs[i]);
        lemma_collect_publishes_ok(rs.drop_first(), i - 1);
        let rest = spec_collect(rs.drop_first());
        let k = choose|k: int| 0 <= k < rest.len() && rest[k] == (rs[i].0@, rs[i].1->Ok_0);
        match rs[0].1 {
            Ok(_) => {
                assert(spec_collect(rs)[k + 1] == (rs[i].0@, rs[i].1->Ok_0));
            },
            Err(_) => {
                assert(spec_collect(rs)[k] == (rs[i].0@, rs[i].1->Ok_0));
            },
        }
    }
}

/// LAW (partial-failure isolation, failed side): a realm whose statistics
/// failed contributes nothing — dropping its entry leaves the published
/// gauges unchanged, so the aggregation never aborts for it.
pub proof fn lemma_collect_skips_failed(rs: Seq<(String, Result<StatResult, Error>)>, i: int)
    requires
        0 <= i < rs.len(),
        rs[i].1 is Err,
    ensures
        spec_collect(rs.remove(i)) == spec_collect(rs),
    decreases rs.len(),
{
    if i == 0 {
        assert(rs.remove(0) =~= rs.drop_first());
    } else {
        assert(rs.remove(i).drop_first() =~= rs.drop_first().remove(i - 1));
        assert(rs.drop_first()[i - 1] == rs[i]);
        lemma_collect_skips_failed(rs.drop_first(), i - 1);
        assert(rs.remove(i)[0] == rs[0]);
    }
}

} // verus!
