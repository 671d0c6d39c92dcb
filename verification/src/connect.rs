//! The decisions of the program that connects clusters into fires: where to start reading
//! clusters, how the clusters read in scan-start order are grouped into time steps, and when
//! the list of active fires is merged and drained.

use crate::satellite::{operational_time, Satellite};
use crate::singlefire::concat_groups;
use crate::utc::{parse_utc_time, parsed_utc_time};
use vstd::prelude::*;

verus! {

/// The format of a command line time once the minutes and seconds are added to it.
pub open spec fn command_line_format() -> Seq<char> {
    "%Y-%m-%d-%H:%M:%S"@
}

/// Parse a command line time, given to the hour as `YYYY-MM-DD-HH`: the text with `:00:00`
/// added, read with the format `%Y-%m-%d-%H:%M:%S`.
pub fn parse_datetime(dt_str: &str) -> (r: Option<i64>)
    ensures
        r == parsed_utc_time(dt_str@ + ":00:00"@, command_line_format()),
{
    let mut t_str = String::new();
    t_str.append(dt_str);
    t_str.append(":00:00");
    assert(t_str@ =~= dt_str@ + ":00:00"@);
    parse_utc_time(t_str.as_str(), "%Y-%m-%d-%H:%M:%S")
}

/// The time to start connecting clusters, from the requested start and the last time the fires
/// database already saw for the satellite.
pub open spec fn start_time(requested: Option<i64>, last_observed: Option<i64>, operational: i64) -> i64 {
    match (requested, last_observed) {
        (Some(start), None) => start,
        (None, Some(last)) => last,
        (Some(start), Some(last)) => if last > start { last } else { start },
        (None, None) => operational,
    }
}

/// The database has been filled up to `last_observed` but not from the requested start on: the
/// program cannot continue from there.
pub open spec fn start_conflicts(requested: Option<i64>, last_observed: Option<i64>) -> bool {
    match (requested, last_observed) {
        (Some(start), Some(last)) => last < start,
        _ => false,
    }
}

/// The start never comes before the requested start or before the last observation already in
/// the database, and is one of them when either is given: with both given, it is the later of
/// the two; with neither, it is the time the satellite became operational.
pub proof fn lemma_start_is_latest_known(requested: Option<i64>, last_observed: Option<i64>, operational: i64)
    ensures
        requested matches Some(s) ==> start_time(requested, last_observed, operational) >= s,
        last_observed matches Some(l) ==> start_time(requested, last_observed, operational) >= l,
        (requested is Some || last_observed is Some) ==> (requested == Some(
            start_time(requested, last_observed, operational),
        ) || last_observed == Some(start_time(requested, last_observed, operational))),
        (requested is None && last_observed is None) ==> start_time(requested, last_observed, operational)
            == operational,
{
}

/// Choose where to start connecting clusters for a satellite: the later of the requested start
/// and the last observation in the fires database, whichever of them there is, or the time the
/// satellite became operational when there is neither.
pub fn choose_start_time(requested: Option<i64>, last_observed: Option<i64>, sat: Satellite) -> (r: i64)
    requires
        !start_conflicts(requested, last_observed),
    ensures
        r == start_time(requested, last_observed, operational_time(sat)),
{
    match (requested, last_observed) {
        (Some(start), None) => start,
        (None, Some(last)) => last,
        (Some(start), Some(last)) => {
            if last > start {
                last
            } else {
                start
            }
        },
        (None, None) => sat.operational(),
    }
}

/// One step of the grouping into time steps: from the time step being collected and its
/// clusters, taking in a cluster that starts at `start`, the group handed back with its time
/// step (if any), the new time step and the new clusters collected.
pub open spec fn schedule_step<R>(time_step: i64, collected: Seq<R>, start: i64, cluster: R) -> (Option<(i64, Seq<R>)>, i64, Seq<R>) {
    if start != time_step {
        (Some((time_step, collected)), start, seq![cluster])
    } else {
        (None, time_step, collected.push(cluster))
    }
}

/// The groups handed back, the time step and the clusters collected after taking in the
/// clusters `clusters`, starting at `starts`, one after another.
pub open spec fn schedule_run<R>(time_step: i64, collected: Seq<R>, starts: Seq<i64>, clusters: Seq<R>) -> (Seq<(i64, Seq<R>)>, i64, Seq<R>)
    decreases clusters.len(),
{
    if clusters.len() == 0 || starts.len() == 0 {
        (Seq::empty(), time_step, collected)
    } else {
        let (emitted, t, c) = schedule_run(time_step, collected, starts.drop_last(), clusters.drop_last());
        let (g, t2, c2) = schedule_step(t, c, starts.last(), clusters.last());
        (match g {
            Some(group) => emitted.push(group),
            None => emitted,
        }, t2, c2)
    }
}

/// The clusters of the groups handed back, in order, without their time steps.
pub open spec fn group_clusters<R>(groups: Seq<(i64, Seq<R>)>) -> Seq<Seq<R>> {
    groups.map_values(|g: (i64, Seq<R>)| g.1)
}

/// The grouping into time steps loses no cluster and keeps their order: the groups handed
/// back, followed by the clusters still collected, are the clusters collected at the start
/// followed by all the clusters taken in.
pub proof fn lemma_schedule_keeps_every_cluster<R>(time_step: i64, collected: Seq<R>, starts: Seq<i64>, clusters: Seq<R>)
    requires
        starts.len() == clusters.len(),
    ensures
        ({
            let (emitted, t, c) = schedule_run(time_step, collected, starts, clusters);
            concat_groups(group_clusters(emitted)) + c == collected + clusters
        }),
    decreases clusters.len(),
{
    if clusters.len() == 0 {
        assert(collected + clusters =~= collected);
        assert(group_clusters(Seq::<(i64, Seq<R>)>::empty()) =~= Seq::<Seq<R>>::empty());
        assert(concat_groups(Seq::<Seq<R>>::empty()) + collected =~= collected);
    } else {
        lemma_schedule_keeps_every_cluster(time_step, collected, starts.drop_last(), clusters.drop_last());
        let (emitted, t, c) = schedule_run(time_step, collected, starts.drop_last(), clusters.drop_last());
        let x = clusters.last();
        assert(collected + clusters =~= (collected + clusters.drop_last()).push(x));
        if starts.last() != t {
            let pushed = group_clusters(emitted.push((t, c)));
            assert(pushed.drop_last() =~= group_clusters(emitted));
            assert(pushed.last() == c);
            assert(concat_groups(pushed) =~= concat_groups(group_clusters(emitted)) + c);
            assert(concat_groups(group_clusters(emitted)) + c + seq![x] =~= (concat_groups(group_clusters(emitted)) + c).push(x));
        } else {
            assert(concat_groups(group_clusters(emitted)) + c.push(x) =~= (concat_groups(group_clusters(emitted)) + c).push(x));
        }
    }
}

/// Groups the clusters read in scan-start order into time steps, and decides when the active
/// fires are merged and drained, at most once an hour of scan time.
pub struct ConnectSchedule<R> {
    current_time_step: i64,
    group: Vec<R>,
    last_merge: i64,
}

impl<R> ConnectSchedule<R> {
    /// The scan start time of the time step being collected.
    pub closed spec fn time_step(&self) -> i64 {
        self.current_time_step
    }

    /// The clusters collected for the current time step.
    pub closed spec fn collected(&self) -> Seq<R> {
        self.group@
    }

    /// The scan time of the last merge.
    pub closed spec fn merged_at(&self) -> i64 {
        self.last_merge
    }

    /// A schedule at the Unix epoch, with nothing collected and the last merge at the epoch.
    pub fn new() -> (r: Self)
        ensures
            r.time_step() == 0,
            r.collected() == Seq::<R>::empty(),
            r.merged_at() == 0,
    {
        ConnectSchedule { current_time_step: 0, group: Vec::new(), last_merge: 0 }
    }

    /// The scan start time of the time step being collected.
    pub fn current_time_step(&self) -> (r: i64)
        ensures
            r == self.time_step(),
    {
        self.current_time_step
    }

    /// Take in the next cluster, which starts at `start`.
    ///
    /// A cluster of the current time step joins the group. A cluster that starts another time
    /// step closes the group: the group and its time step are handed back, and the new time
    /// step begins with that cluster alone.
    pub fn push(&mut self, start: i64, cluster: R) -> (r: Option<(i64, Vec<R>)>)
        ensures
            ({
                let (g, t, c) = schedule_step(old(self).time_step(), old(self).collected(), start, cluster);
                &&& match r {
                    Some((rt, rg)) => g == Some((rt, rg@)),
                    None => g is None,
                }
                &&& final(self).time_step() == t
                &&& final(self).collected() == c
            }),
            final(self).merged_at() == old(self).merged_at(),
    {
        if start != self.current_time_step {
            let mut next_group = Vec::new();
            std::mem::swap(&mut next_group, &mut self.group);
            self.group.push(cluster);
            let group_time = self.current_time_step;
            self.current_time_step = start;
            assert(self.group@ =~= seq![cluster]);
            Some((group_time, next_group))
        } else {
            self.group.push(cluster);
            None
        }
    }

    /// Hand back the group being collected, with its time step, once no cluster is left to
    /// take in. The time step stays; nothing is collected afterwards.
    pub fn finish(&mut self) -> (r: (i64, Vec<R>))
        ensures
            r.0 == old(self).time_step(),
            r.1@ == old(self).collected(),
            final(self).time_step() == old(self).time_step(),
            final(self).collected() == Seq::<R>::empty(),
            final(self).merged_at() == old(self).merged_at(),
    {
        let mut last_group = Vec::new();
        std::mem::swap(&mut last_group, &mut self.group);
        (self.current_time_step, last_group)
    }

    /// Whether the active fires are due to be merged and drained for the group at
    /// `group_time`: more than an hour after the last merge. When they are, the merge is
    /// recorded at `group_time`.
    pub fn merge_due(&mut self, group_time: i64) -> (r: bool)
        ensures
            r == (group_time - old(self).merged_at() > 3600),
            final(self).merged_at() == (if r { group_time } else { old(self).merged_at() }),
            final(self).time_step() == old(self).time_step(),
            final(self).collected() == old(self).collected(),
    {
        if group_time as i128 - self.last_merge as i128 > 3600 {
            self.last_merge = group_time;
            true
        } else {
            false
        }
    }
}

} // verus!
