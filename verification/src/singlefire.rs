//! The grouping of the clusters of one fire into hours of scan time, for the time series
//! of a single fire.

use crate::fire::{trunc_div, trunc_rem};
use vstd::prelude::*;

verus! {

/// The start of the hour that holds the time `ts` (seconds since the Unix epoch), rounding
/// toward the epoch as Rust's `%` does.
pub open spec fn hour_start(ts: int) -> int {
    ts - trunc_rem(ts, 3600)
}

/// The start of the hour of a time is a whole number of hours (3600 seconds) from the epoch,
/// less than an hour away from the time, and on the epoch's side of it: at or before the time
/// for times at or after the epoch, at or after it for times before.
pub proof fn lemma_hour_start_bounds(ts: int)
    ensures
        hour_start(ts) % 3600 == 0,
        ts >= 0 ==> 0 <= ts - hour_start(ts) < 3600,
        ts < 0 ==> 0 <= hour_start(ts) - ts < 3600,
{
    let q = trunc_div(ts, 3600);
    assert(hour_start(ts) == 3600 * q);
    assert((3600 * q) % 3600 == 0) by (nonlinear_arith);
    if ts >= 0 {
        assert(0 <= ts - 3600 * (ts / 3600) < 3600) by (nonlinear_arith);
    } else {
        assert(0 <= (-ts) - 3600 * ((-ts) / 3600) < 3600) by (nonlinear_arith) requires ts < 0;
    }
}

/// One step of the hourly grouping: from the hour being collected and its clusters, taking in a
/// cluster that starts at `start`, the group handed back (if any), the new hour and the new
/// clusters collected.
pub open spec fn hourly_step<R>(hour: i64, collected: Seq<R>, start: i64, cluster: R) -> (Option<Seq<R>>, i64, Seq<R>) {
    if hour_start(start as int) != hour {
        (Some(collected), hour_start(start as int) as i64, seq![cluster])
    } else {
        (None, hour, collected.push(cluster))
    }
}

/// The groups handed back, the hour and the clusters collected after taking in the clusters
/// `clusters`, starting at `starts`, one after another.
pub open spec fn hourly_run<R>(hour: i64, collected: Seq<R>, starts: Seq<i64>, clusters: Seq<R>) -> (Seq<Seq<R>>, i64, Seq<R>)
    decreases clusters.len(),
{
    if clusters.len() == 0 || starts.len() == 0 {
        (Seq::empty(), hour, collected)
    } else {
        let (emitted, h, c) = hourly_run(hour, collected, starts.drop_last(), clusters.drop_last());
        let (g, h2, c2) = hourly_step(h, c, starts.last(), clusters.last());
        (match g {
            Some(group) => emitted.push(group),
            None => emitted,
        }, h2, c2)
    }
}

/// All the clusters of a sequence of groups, in order.
pub open spec fn concat_groups<R>(groups: Seq<Seq<R>>) -> Seq<R>
    decreases groups.len(),
{
    if groups.len() == 0 {
        Seq::empty()
    } else {
        concat_groups(groups.drop_last()) + groups.last()
    }
}

/// The hourly grouping loses no cluster and keeps their order: the groups handed back,
/// followed by the clusters still collected, are the clusters collected at the start followed
/// by all the clusters taken in.
pub proof fn lemma_hourly_keeps_every_cluster<R>(hour: i64, collected: Seq<R>, starts: Seq<i64>, clusters: Seq<R>)
    requires
        starts.len() == clusters.len(),
    ensures
        ({
            let (emitted, h, c) = hourly_run(hour, collected, starts, clusters);
            concat_groups(emitted) + c == collected + clusters
        }),
    decreases clusters.len(),
{
    if clusters.len() == 0 {
        assert(collected + clusters =~= collected);
        assert(concat_groups(Seq::<Seq<R>>::empty()) + collected =~= collected);
    } else {
        lemma_hourly_keeps_every_cluster(hour, collected, starts.drop_last(), clusters.drop_last());
        let (emitted, h, c) = hourly_run(hour, collected, starts.drop_last(), clusters.drop_last());
        let x = clusters.last();
        assert(collected + clusters =~= (collected + clusters.drop_last()).push(x));
        if hour_start(starts.last() as int) != h {
            assert(concat_groups(emitted.push(c)) =~= concat_groups(emitted) + c) by {
                assert(emitted.push(c).drop_last() =~= emitted);
            }
            assert(concat_groups(emitted) + c + seq![x] =~= (concat_groups(emitted) + c).push(x));
        } else {
            assert(concat_groups(emitted) + c.push(x) =~= (concat_groups(emitted) + c).push(x));
        }
    }
}

/// Collects the clusters of a fire, read in scan-start order, into groups by hour.
pub struct HourlyGroups<R> {
    current_hour_ts: i64,
    hour_of_data: Vec<R>,
}

impl<R> HourlyGroups<R> {
    /// The start of the hour being collected.
    pub closed spec fn hour(&self) -> i64 {
        self.current_hour_ts
    }

    /// The clusters collected for the current hour.
    pub closed spec fn collected(&self) -> Seq<R> {
        self.hour_of_data@
    }

    /// Start at the hour of the Unix epoch with nothing collected.
    pub fn new() -> (r: Self)
        ensures
            r.hour() == 0,
            r.collected() == Seq::<R>::empty(),
    {
        HourlyGroups { current_hour_ts: 0, hour_of_data: Vec::new() }
    }

    /// Take in the next cluster, which starts at `start`.
    ///
    /// A cluster of another hour than the current one closes the current group, which is handed
    /// back (it may be empty), and starts the group of its own hour. A cluster of the current
    /// hour joins its group.
    pub fn push(&mut self, start: i64, cluster: R) -> (r: Option<Vec<R>>)
        ensures
            ({
                let (g, h, c) = hourly_step(old(self).hour(), old(self).collected(), start, cluster);
                &&& match r {
                    Some(group) => g == Some(group@),
                    None => g is None,
                }
                &&& final(self).hour() == h
                &&& final(self).collected() == c
            }),
    {
        let magnitude: u64 = if start == i64::MIN {
            9223372036854775808u64
        } else if start < 0 {
            (-start) as u64
        } else {
            start as u64
        };
        let rest = (magnitude % 3600) as i64;
        let cluster_hour_ts: i64 = if start < 0 {
            start + rest
        } else {
            start - rest
        };
        proof {
            if start < 0 {
                assert(trunc_rem(start as int, 3600) == -(rest as int));
            } else {
                assert(trunc_rem(start as int, 3600) == rest as int);
            }
        }
        if self.current_hour_ts != cluster_hour_ts {
            let mut to_ret = Vec::new();
            std::mem::swap(&mut to_ret, &mut self.hour_of_data);
            self.hour_of_data.push(cluster);
            self.current_hour_ts = cluster_hour_ts;
            assert(self.hour_of_data@ =~= seq![cluster]);
            Some(to_ret)
        } else {
            self.hour_of_data.push(cluster);
            None
        }
    }
}

} // verus!
