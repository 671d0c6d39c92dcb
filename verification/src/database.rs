//! The decisions around the two databases: whether an image was already processed, which
//! fires are worth recording, the associations between fires and clusters that wait for their
//! fire to be recorded, and how far back ongoing fires are looked for.

use crate::fire::Fire;
use std::collections::HashMap;
use vstd::prelude::*;

verus! {

broadcast use vstd::std_specs::hash::group_hash_axioms;

/// Whether an image counts as processed, given the number of its clusters in the database:
/// `Some(true)` when there is at least one, and `None` when the database must still be asked
/// whether the image was recorded as having no fire.
pub fn present_by_clusters(num_clusters: i64) -> (r: Option<bool>)
    ensures
        r == (if num_clusters > 0 { Some(true) } else { None }),
{
    if num_clusters <= 0 {
        None
    } else {
        Some(true)
    }
}

/// Whether an image without clusters counts as processed, given the number of records saying
/// that it had no fire.
pub fn present_without_clusters(no_fire: i64) -> (r: bool)
    ensures
        r == (no_fire > 0),
{
    no_fire > 0
}

/// How far back, in seconds, ongoing fires are looked for before the last observation.
pub open spec fn ongoing_lookback() -> int {
    175int * 86400
}

/// Ongoing fires are looked for over the 175 days (of 86400 seconds) before the latest
/// observation: the window starts 15120000 seconds before it.
pub proof fn lemma_ongoing_window_is_175_days(latest: int)
    ensures
        latest - (latest - ongoing_lookback()) == 175 * 24 * 3600,
        175 * 24 * 3600 == 15120000,
{
}

/// The earliest last observation of a fire that may still be ongoing, given the latest
/// observation in the database.
pub fn ongoing_window_start(latest: i64) -> (r: i64)
    requires
        latest - ongoing_lookback() >= i64::MIN,
    ensures
        r == latest - ongoing_lookback(),
{
    latest - 15120000
}

/// Fires that burned for more than an hour are recorded in the database.
pub open spec fn worth_recording<T>(f: Fire<T>) -> bool {
    f.last_observed - f.first_observed > 3600
}

/// The positions, in order, of the fires that are worth recording.
pub open spec fn recorded_positions<T>(fires: Seq<Fire<T>>) -> Seq<usize>
    decreases fires.len(),
{
    if fires.len() == 0 {
        Seq::empty()
    } else {
        let rest = recorded_positions(fires.drop_last());
        if worth_recording(fires.last()) {
            rest.push((fires.len() - 1) as usize)
        } else {
            rest
        }
    }
}

/// What [`recorded_positions`] holds of the fires seen so far: the positions in increasing
/// order of the fires whose last observation is more than an hour after their first.
proof fn lemma_recorded_positions<T>(fires: Seq<Fire<T>>)
    requires
        fires.len() <= usize::MAX + 1,
    ensures
        ({
            let r = recorded_positions(fires);
            &&& forall|a: int| #![trigger r[a]] 0 <= a < r.len() ==> r[a] < fires.len()
                && fires[r[a] as int].last_observed - fires[r[a] as int].first_observed > 3600
            &&& forall|a: int, b: int| #![trigger r[a], r[b]] 0 <= a < b < r.len() ==> r[a] < r[b]
            &&& forall|k: int|
                0 <= k < fires.len() && #[trigger] fires[k].last_observed - fires[k].first_observed > 3600
                    ==> r.contains(k as usize)
        }),
    decreases fires.len(),
{
    if fires.len() > 0 {
        let init = fires.drop_last();
        lemma_recorded_positions(init);
        let rest = recorded_positions(init);
        let r = recorded_positions(fires);
        let n = fires.len() - 1;
        assert forall|a: int| #![trigger rest[a]] 0 <= a < rest.len() implies fires[rest[a] as int] == init[rest[a] as int] by {}
        if fires[n].last_observed - fires[n].first_observed > 3600 {
            assert(r == rest.push(n as usize));
            assert(r[rest.len() as int] == n as usize);
            assert forall|a: int| #![trigger r[a]] 0 <= a < r.len() implies r[a] < fires.len()
                && fires[r[a] as int].last_observed - fires[r[a] as int].first_observed > 3600 by {
                if a < rest.len() {
                    assert(r[a] == rest[a]);
                }
            }
            assert forall|a: int, b: int| #![trigger r[a], r[b]] 0 <= a < b < r.len() implies r[a] < r[b] by {
                assert(r[a] == rest[a]);
                if b < rest.len() {
                    assert(r[b] == rest[b]);
                }
            }
            assert forall|k: int|
                0 <= k < fires.len() && #[trigger] fires[k].last_observed - fires[k].first_observed > 3600
                    implies r.contains(k as usize) by {
                if k < n {
                    assert(init[k] == fires[k]);
                    assert(rest.contains(k as usize));
                    let a = choose|a: int| 0 <= a < rest.len() && rest[a] == k as usize;
                    assert(r[a] == rest[a]);
                }
            }
        } else {
            assert(r == rest);
            assert forall|k: int|
                0 <= k < fires.len() && #[trigger] fires[k].last_observed - fires[k].first_observed > 3600
                    implies r.contains(k as usize) by {
                assert(k != n);
                assert(init[k] == fires[k]);
            }
        }
    }
}

/// [`fires_to_record`] lists, in increasing order, exactly the positions of the fires whose
/// last observation comes more than an hour (3600 seconds) after their first, however long
/// they burned.
pub proof fn lemma_fires_recorded_after_an_hour<T>(fires: Seq<Fire<T>>, r: Seq<usize>)
    requires
        fires.len() <= usize::MAX + 1,
        r == recorded_positions(fires),
    ensures
        forall|a: int| #![trigger r[a]] 0 <= a < r.len() ==> r[a] < fires.len()
            && fires[r[a] as int].last_observed - fires[r[a] as int].first_observed > 3600,
        forall|a: int, b: int| #![trigger r[a], r[b]] 0 <= a < b < r.len() ==> r[a] < r[b],
        forall|k: int|
            0 <= k < fires.len() && #[trigger] fires[k].last_observed - fires[k].first_observed > 3600
                ==> r.contains(k as usize),
{
    lemma_recorded_positions(fires);
}

/// The positions, in order, of the fires that burned long enough to be recorded.
pub fn fires_to_record<T>(fires: &[Fire<T>]) -> (r: Vec<usize>)
    ensures
        r@ == recorded_positions(fires@),
{
    let mut out: Vec<usize> = Vec::new();
    let mut k: usize = 0;
    while k < fires.len()
        invariant
            k <= fires@.len(),
            out@ == recorded_positions(fires@.take(k as int)),
        decreases fires@.len() - k,
    {
        let f = &fires[k];
        proof {
            assert(fires@.take(k + 1).drop_last() =~= fires@.take(k as int));
        }
        if f.last_observed as i128 - f.first_observed as i128 > 3600 {
            out.push(k);
        }
        k += 1;
    }
    assert(fires@.take(fires@.len() as int) =~= fires@);
    out
}

/// The association pairs `(fire, cluster)` written for the fires `ids`, in order, and the
/// clusters waiting for each fire in the order they were associated.
pub open spec fn association_pairs(m: Map<u64, Seq<u64>>, ids: Seq<u64>) -> Seq<(u64, u64)>
    decreases ids.len(),
{
    if ids.len() == 0 {
        Seq::empty()
    } else {
        let id = ids[0];
        let clusters = if m.contains_key(id) { m[id] } else { Seq::empty() };
        clusters.map_values(|c: u64| (id, c)) + association_pairs(m.remove(id), ids.drop_first())
    }
}

/// The clusters associated with each fire that is not recorded yet.
pub struct FireAssociations {
    associations: HashMap<u64, Vec<u64>>,
}

impl View for FireAssociations {
    type V = Map<u64, Seq<u64>>;

    closed spec fn view(&self) -> Map<u64, Seq<u64>> {
        self.associations@.map_values(|v: Vec<u64>| v@)
    }
}

impl FireAssociations {
    /// No associations.
    pub fn new() -> (r: Self)
        ensures
            r@ == Map::<u64, Seq<u64>>::empty(),
    {
        let r = FireAssociations { associations: HashMap::new() };
        assert(r@ =~= Map::<u64, Seq<u64>>::empty());
        r
    }

    /// Associate a cluster with a fire, after the clusters already associated with it.
    pub fn add_association(&mut self, fireid: u64, clusterid: u64)
        ensures
            final(self)@ == old(self)@.insert(
                fireid,
                (if old(self)@.contains_key(fireid) { old(self)@[fireid] } else { Seq::empty() }).push(clusterid),
            ),
    {
        let ghost before = self.associations@;
        let mut cluster_ids = match self.associations.remove(&fireid) {
            Some(v) => v,
            None => Vec::new(),
        };
        cluster_ids.push(clusterid);
        self.associations.insert(fireid, cluster_ids);
        assert(self@ =~= old(self)@.insert(
            fireid,
            (if old(self)@.contains_key(fireid) { old(self)@[fireid] } else { Seq::empty() }).push(clusterid),
        ));
    }

    /// Take out the clusters associated with a fire, in the order they were associated.
    pub fn take(&mut self, fireid: u64) -> (r: Vec<u64>)
        ensures
            r@ == (if old(self)@.contains_key(fireid) { old(self)@[fireid] } else { Seq::empty() }),
            final(self)@ == old(self)@.remove(fireid),
    {
        let r = match self.associations.remove(&fireid) {
            Some(v) => v,
            None => Vec::new(),
        };
        assert(self@ =~= old(self)@.remove(fireid));
        r
    }

    /// Take out the associations of the fires `ids`, as `(fire, cluster)` pairs: the fires in
    /// the order given, the clusters of each in the order they were associated.
    pub fn take_pairs(&mut self, ids: &[u64]) -> (r: Vec<(u64, u64)>)
        ensures
            r@ == association_pairs(old(self)@, ids@),
            final(self)@ == old(self)@.remove_keys(ids@.to_set()),
    {
        let mut out: Vec<(u64, u64)> = Vec::new();
        let mut k: usize = 0;
        proof {
            assert(ids@.skip(0) =~= ids@);
            assert(out@ + association_pairs(self@, ids@) =~= association_pairs(self@, ids@));
        }
        while k < ids.len()
            invariant
                k <= ids@.len(),
                out@ + association_pairs(self@, ids@.skip(k as int)) == association_pairs(old(self)@, ids@),
                self@ == old(self)@.remove_keys(ids@.take(k as int).to_set()),
            decreases ids@.len() - k,
        {
            let id = ids[k];
            let ghost m = self@;
            let clusters = self.take(id);
            let ghost before = out@;
            let mut j: usize = 0;
            while j < clusters.len()
                invariant
                    j <= clusters@.len(),
                    out@ == before + clusters@.take(j as int).map_values(|c: u64| (id, c)),
                decreases clusters@.len() - j,
            {
                out.push((id, clusters[j]));
                assert(out@ =~= before + clusters@.take(j + 1).map_values(|c: u64| (id, c)));
                j += 1;
            }
            proof {
                assert(clusters@.take(clusters@.len() as int) =~= clusters@);
                let rest = ids@.skip(k as int);
                assert(rest[0] == id);
                assert(rest.drop_first() =~= ids@.skip(k + 1));
                assert(out@ + association_pairs(self@, ids@.skip(k + 1)) =~= before + association_pairs(m, rest));
                assert(ids@.take(k + 1).to_set() =~= ids@.take(k as int).to_set().insert(id)) by {
                    assert(ids@.take(k + 1) =~= ids@.take(k as int).push(id));
                    broadcast use vstd::seq_lib::group_seq_properties;
                }
                assert(self@ =~= old(self)@.remove_keys(ids@.take(k + 1).to_set()));
            }
            k += 1;
        }
        proof {
            assert(ids@.skip(ids@.len() as int) =~= Seq::<u64>::empty());
            assert(ids@.take(ids@.len() as int) =~= ids@);
            assert(out@ + Seq::<(u64, u64)>::empty() =~= out@);
        }
        out
    }
}

} // verus!
