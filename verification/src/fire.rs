//! Fires: temporally connected groups of clusters, and lists of them.
//!
//! A fire carries the times it was first and last observed (seconds since the Unix epoch, UTC),
//! its id and satellite, and a payload `T` with the rest of what the program tracks about it.

use crate::decimal::{append_decimal, append_signed_decimal, decimal, signed_decimal};
use crate::satellite::Satellite;
use vstd::prelude::*;

verus! {

/// A fire: what the list operations read of it, and a payload.
pub struct Fire<T> {
    /// An unique id number for this fire.
    pub id: u64,
    /// The scan start time of the first cluster where this fire was detected.
    pub first_observed: i64,
    /// The scan end time of the last cluster where this fire was detected.
    pub last_observed: i64,
    /// The satellite the clusters of this fire were observed with.
    pub sat: Satellite,
    /// Everything else known about the fire.
    pub data: T,
}

/// Integer division rounding toward zero, as Rust's `/` does.
pub open spec fn trunc_div(a: int, b: int) -> int {
    if a >= 0 {
        a / b
    } else {
        -((-a) / b)
    }
}

/// The remainder that goes with `trunc_div`, as Rust's `%` gives it.
pub open spec fn trunc_rem(a: int, b: int) -> int {
    a - b * trunc_div(a, b)
}

/// The text of a duration of `d` seconds: whole weeks if there are any, the days left over if
/// any, and the hours left over, always.
pub open spec fn duration_text(d: int) -> Seq<char> {
    let days = trunc_div(d, 86400);
    let weeks = trunc_div(days, 7);
    let day_rest = trunc_rem(days, 7);
    let hour_rest = trunc_rem(trunc_div(d, 3600), 24);
    (if weeks > 0 { decimal(weeks as nat) + " weeks "@ } else { Seq::empty() })
        + (if day_rest > 0 { decimal(day_rest as nat) + " days "@ } else { Seq::empty() })
        + signed_decimal(hour_rest) + " hours"@
}

/// A fire last observed at `last` and first observed at `first` is stale at time `now` when
/// it has not been seen for at least four days, and either for more than thirty days or for
/// longer than it burned.
pub open spec fn stale_at(first: int, last: int, now: int) -> bool {
    let since = now - last;
    if since < 4 * 86400 {
        false
    } else {
        since > 30 * 86400 || last - first < since
    }
}

/// Whether a fire is stale at time `now`.
pub open spec fn fire_is_stale<T>(f: Fire<T>, now: i64) -> bool {
    stale_at(f.first_observed as int, f.last_observed as int, now as int)
}

impl<T> Fire<T> {
    /// Create a new fire.
    pub fn new(id: u64, first_observed: i64, last_observed: i64, sat: Satellite, data: T) -> (r: Self)
        ensures
            r.id == id,
            r.first_observed == first_observed,
            r.last_observed == last_observed,
            r.sat == sat,
            r.data == data,
    {
        Fire { id, first_observed, last_observed, sat, data }
    }

    /// The id number of the fire.
    pub fn id(&self) -> (r: u64)
        ensures
            r == self.id,
    {
        self.id
    }

    /// The time this fire was first observed.
    pub fn first_observed(&self) -> (r: i64)
        ensures
            r == self.first_observed,
    {
        self.first_observed
    }

    /// The last time this fire was observed.
    pub fn last_observed(&self) -> (r: i64)
        ensures
            r == self.last_observed,
    {
        self.last_observed
    }

    /// The satellite this fire was observed from.
    pub fn satellite(&self) -> (r: Satellite)
        ensures
            r == self.sat,
    {
        self.sat
    }

    /// The duration of this fire as observed by the satellite, in seconds.
    pub fn duration(&self) -> (r: i64)
        requires
            i64::MIN <= self.last_observed - self.first_observed <= i64::MAX,
        ensures
            r == self.last_observed - self.first_observed,
    {
        self.last_observed - self.first_observed
    }

    /// Format the duration in an easy to read way, replacing what `buffer` held.
    pub fn format_duration(&self, buffer: &mut String)
        requires
            i64::MIN <= self.last_observed - self.first_observed <= i64::MAX,
        ensures
            final(buffer)@ == duration_text(self.last_observed - self.first_observed),
    {
        *buffer = String::new();
        let d = self.duration();
        let negative = d < 0;
        let magnitude: u64 = if d == i64::MIN {
            9223372036854775808u64
        } else if d < 0 {
            (-d) as u64
        } else {
            d as u64
        };
        let days = magnitude / 86400;
        let weeks = days / 7;
        let day_rest = days % 7;
        let hour_rest = (magnitude / 3600) % 24;
        proof {
            let di = d as int;
            if negative {
                assert(trunc_div(di, 86400) == -(days as int));
                assert(trunc_div(di, 3600) == -((magnitude / 3600) as int));
                assert(trunc_div(-(days as int), 7) == -(weeks as int));
                assert(trunc_rem(-(days as int), 7) == -(day_rest as int));
                assert(trunc_rem(-((magnitude / 3600) as int), 24) == -(hour_rest as int));
            } else {
                assert(trunc_div(di, 86400) == days as int);
                assert(trunc_rem(days as int, 7) == day_rest as int);
                assert(trunc_rem((magnitude / 3600) as int, 24) == hour_rest as int);
            }
        }
        if !negative && weeks > 0 {
            append_decimal(buffer, weeks);
            proof {
                reveal_strlit(" weeks ");
            }
            buffer.append(" weeks ");
        }
        if !negative && day_rest > 0 {
            append_decimal(buffer, day_rest);
            proof {
                reveal_strlit(" days ");
            }
            buffer.append(" days ");
        }
        let hours: i64 = if negative {
            -(hour_rest as i64)
        } else {
            hour_rest as i64
        };
        append_signed_decimal(buffer, hours);
        proof {
            reveal_strlit(" hours");
        }
        buffer.append(" hours");
        assert(buffer@ =~= duration_text(self.last_observed - self.first_observed));
    }
}

/// When a fire counts as stale: a fire seen within the last four days (345600 seconds) never
/// is; a fire unseen for more than thirty days (2592000 seconds) always is; in between, it is
/// stale exactly when it has been unseen for longer than it burned.
pub proof fn lemma_staleness_rule<T>(f: Fire<T>, now: i64)
    ensures
        now - f.last_observed < 345600 ==> !fire_is_stale(f, now),
        now - f.last_observed > 2592000 ==> fire_is_stale(f, now),
        345600 <= now - f.last_observed <= 2592000 ==> (fire_is_stale(f, now) <==> f.last_observed
            - f.first_observed < now - f.last_observed),
{
}

/// Whether a fire is likely no longer burning at `current_time`.
pub fn wildfire_is_stale<T>(fire: &Fire<T>, current_time: i64) -> (r: bool)
    ensures
        r == fire_is_stale(*fire, current_time),
{
    let since = current_time as i128 - fire.last_observed as i128;
    let burned = fire.last_observed as i128 - fire.first_observed as i128;
    if since < 4 * 86400 {
        return false;
    }
    since > 30 * 86400 || burned < since
}

/// The lists that draining stale fires leaves, examining the fires from position `i` on: a
/// stale fire is moved to the end of `moved` and the last fire of the list takes its place.
pub open spec fn drain_from<T>(s: Seq<Fire<T>>, i: int, moved: Seq<Fire<T>>, now: i64) -> (Seq<Fire<T>>, Seq<Fire<T>>)
    decreases s.len() - i,
{
    if i < 0 || i >= s.len() {
        (s, moved)
    } else if fire_is_stale(s[i], now) {
        drain_from(s.update(i, s.last()).drop_last(), i, moved.push(s[i]), now)
    } else {
        drain_from(s, i + 1, moved, now)
    }
}

/// Taking out the element at `i` by moving the last one into its place removes one copy of
/// that element from the multiset of the sequence.
proof fn lemma_swap_remove_multiset<A>(s: Seq<A>, i: int)
    requires
        0 <= i < s.len(),
    ensures
        s.update(i, s.last()).drop_last().to_multiset() == s.to_multiset().remove(s[i]),
{
    broadcast use vstd::seq_lib::to_multiset_remove, vstd::seq_lib::to_multiset_update, vstd::multiset::group_multiset_properties;

    let n = s.len() - 1;
    if i == n {
        assert(s.update(i, s.last()).drop_last() =~= s.remove(n));
    } else {
        let u = s.update(i, s.last());
        assert(u.drop_last() =~= u.remove(n));
        assert(u[n] == s.last());
        assert(u.to_multiset() == s.to_multiset().insert(s.last()).remove(s[i]));
        assert(u.drop_last().to_multiset() == u.to_multiset().remove(s.last()));
        assert(s.to_multiset().insert(s.last()).remove(s[i]).remove(s.last()) =~= s.to_multiset().remove(s[i]));
    }
}

/// What draining keeps and moves: the kept fires are not stale, the moved ones are stale and
/// follow what was already in `moved`, and no fire is lost or copied.
proof fn lemma_drain_partition<T>(s: Seq<Fire<T>>, i: int, moved: Seq<Fire<T>>, now: i64)
    requires
        0 <= i <= s.len(),
        forall|k: int| 0 <= k < i ==> !fire_is_stale(#[trigger] s[k], now),
    ensures
        ({
            let (kept, out) = drain_from(s, i, moved, now);
            &&& forall|k: int| 0 <= k < kept.len() ==> !fire_is_stale(#[trigger] kept[k], now)
            &&& out.len() >= moved.len()
            &&& out.take(moved.len() as int) == moved
            &&& forall|k: int| moved.len() <= k < out.len() ==> fire_is_stale(#[trigger] out[k], now)
            &&& kept.to_multiset().add(out.to_multiset()) == s.to_multiset().add(moved.to_multiset())
        }),
    decreases s.len() - i,
{
    broadcast use vstd::seq_lib::to_multiset_build, vstd::multiset::group_multiset_properties;

    if i >= s.len() {
        assert(moved.take(moved.len() as int) =~= moved);
    } else if fire_is_stale(s[i], now) {
        let t = s.update(i, s.last()).drop_last();
        assert forall|k: int| 0 <= k < i implies !fire_is_stale(#[trigger] t[k], now) by {
            assert(t[k] == s[k]);
        }
        lemma_drain_partition(t, i, moved.push(s[i]), now);
        lemma_swap_remove_multiset(s, i);
        let (kept, out) = drain_from(t, i, moved.push(s[i]), now);
        assert(out.take(moved.len() as int) =~= moved) by {
            assert(out.take(moved.len() + 1int) == moved.push(s[i]));
            assert forall|k: int| 0 <= k < moved.len() implies out.take(moved.len() as int)[k] == moved[k] by {
                assert(out.take(moved.len() + 1int)[k] == moved.push(s[i])[k]);
            }
        }
        assert forall|k: int| moved.len() <= k < out.len() implies fire_is_stale(#[trigger] out[k], now) by {
            if k == moved.len() {
                assert(out.take(moved.len() + 1int)[k] == moved.push(s[i])[k]);
            }
        }
        assert(t.to_multiset().add(moved.push(s[i]).to_multiset()) =~= s.to_multiset().add(moved.to_multiset())) by {
            broadcast use vstd::seq_lib::to_multiset_contains;
            assert(s.contains(s[i]));
            assert(s.to_multiset().count(s[i]) > 0);
            assert(s.to_multiset() =~= s.to_multiset().remove(s[i]).insert(s[i]));
        }
    } else {
        lemma_drain_partition(s, i + 1, moved, now);
    }
}

/// How long a fire burned, in seconds.
pub open spec fn burn_time<T>(f: Fire<T>) -> int {
    f.last_observed - f.first_observed
}

/// The fires are in order of how long they burned, longest first.
pub open spec fn longest_first<T>(s: Seq<Fire<T>>) -> bool {
    forall|a: int, b: int| 0 <= a < b < s.len() ==> burn_time(#[trigger] s[a]) >= burn_time(#[trigger] s[b])
}

fn burn<T>(f: &Fire<T>) -> (r: i128)
    ensures
        r == burn_time(*f),
{
    f.last_observed as i128 - f.first_observed as i128
}

/// A list of fires.
pub struct FireList<T> {
    fires: Vec<Fire<T>>,
}

impl<T> View for FireList<T> {
    type V = Seq<Fire<T>>;

    closed spec fn view(&self) -> Seq<Fire<T>> {
        self.fires@
    }
}

impl<T> FireList<T> {
    /// Create a new, empty list.
    pub fn new() -> (r: Self)
        ensures
            r@ == Seq::<Fire<T>>::empty(),
    {
        FireList { fires: Vec::new() }
    }

    /// A list holding the given fires, in order.
    pub fn from_vec(fires: Vec<Fire<T>>) -> (r: Self)
        ensures
            r@ == fires@,
    {
        FireList { fires }
    }

    /// The fires of the list, in order.
    pub fn into_vec(self) -> (r: Vec<Fire<T>>)
        ensures
            r@ == self@,
    {
        self.fires
    }

    /// The fires of the list, in order, for reading.
    pub fn as_slice(&self) -> (r: &[Fire<T>])
        ensures
            r@ == self@,
    {
        self.fires.as_slice()
    }

    /// Add a fire to the end of the list.
    pub fn add_fire(&mut self, fire: Fire<T>)
        ensures
            final(self)@ == old(self)@.push(fire),
    {
        self.fires.push(fire);
    }

    /// The number of fires in the list.
    pub fn len(&self) -> (r: usize)
        ensures
            r == self@.len(),
    {
        self.fires.len()
    }

    /// Whether the list is empty.
    pub fn is_empty(&self) -> (r: bool)
        ensures
            r == (self@.len() == 0),
    {
        self.fires.len() == 0
    }

    /// Move all the fires of `src` to the end of this list, leaving `src` empty.
    ///
    /// Returns the number of fires added to this list.
    pub fn extend(&mut self, src: &mut Self) -> (r: usize)
        ensures
            final(self)@ == old(self)@ + old(src)@,
            final(src)@ == Seq::<Fire<T>>::empty(),
            r == old(src)@.len(),
    {
        let n = src.fires.len();
        self.fires.append(&mut src.fires);
        n
    }

    /// Remove the fires that are likely no longer burning at `current_time`, moving them to the
    /// end of `removed`. A removed fire's place is taken by the last fire of the list.
    ///
    /// Returns the number of fires moved.
    pub fn drain_stale_fires(&mut self, removed: &mut Self, current_time: i64) -> (r: usize)
        ensures
            (final(self)@, final(removed)@) == drain_from(old(self)@, 0, old(removed)@, current_time),
            r == old(self)@.len() - final(self)@.len(),
            forall|k: int| 0 <= k < final(self)@.len() ==> !fire_is_stale(#[trigger] final(self)@[k], current_time),
            final(removed)@.take(old(removed)@.len() as int) == old(removed)@,
            forall|k: int| old(removed)@.len() <= k < final(removed)@.len()
                ==> fire_is_stale(#[trigger] final(removed)@[k], current_time),
            final(self)@.to_multiset().add(final(removed)@.to_multiset())
                == old(self)@.to_multiset().add(old(removed)@.to_multiset()),
    {
        proof {
            lemma_drain_partition(old(self)@, 0, old(removed)@, current_time);
        }
        let starting_size = self.fires.len();
        let mut i: usize = 0;
        while i < self.fires.len()
            invariant
                i <= self.fires@.len() <= starting_size,
                drain_from(self.fires@, i as int, removed.fires@, current_time)
                    == drain_from(old(self)@, 0, old(removed)@, current_time),
            decreases self.fires@.len() - i,
        {
            if wildfire_is_stale(&self.fires[i], current_time) {
                let temp = self.fires.swap_remove(i);
                removed.fires.push(temp);
            } else {
                i += 1;
            }
        }
        starting_size - self.fires.len()
    }

    /// Order the fires by how long they burned, longest first. Fires that burned equally long
    /// may come in any order.
    pub fn sort_longest_first(&mut self)
        ensures
            longest_first(final(self)@),
            final(self)@.to_multiset() == old(self)@.to_multiset(),
            final(self)@.len() == old(self)@.len(),
    {
        broadcast use vstd::multiset::group_multiset_properties;

        let n = self.fires.len();
        let mut i: usize = 1;
        if n == 0 {
            return;
        }
        while i < n
            invariant
                1 <= i <= n,
                n == self.fires@.len(),
                longest_first(self.fires@.take(i as int)),
                self.fires@.to_multiset() == old(self)@.to_multiset(),
            decreases n - i,
        {
            let ghost before = self.fires@;
            let x = self.fires.remove(i);
            let dx = x.last_observed as i128 - x.first_observed as i128;
            let mut j: usize = 0;
            while j < i && burn(&self.fires[j]) >= dx
                invariant
                    j <= i < n,
                    before.len() == n,
                    self.fires@ == before.remove(i as int),
                    dx == burn_time(x),
                    forall|k: int| 0 <= k < j ==> burn_time(#[trigger] self.fires@[k]) >= dx,
                decreases i - j,
            {
                j += 1;
            }
            proof {
                assert(self.fires@.take(i as int) =~= before.take(i as int));
                assert(j < i ==> burn_time(self.fires@[j as int]) < dx);
            }
            let ghost mid = self.fires@;
            self.fires.insert(j, x);
            proof {
                let v = self.fires@;
                assert(v == mid.insert(j as int, x));
                assert(v.to_multiset() =~= old(self)@.to_multiset()) by {
                    assert(before.contains(before[i as int]));
                    vstd::seq_lib::to_multiset_contains(before, before[i as int]);
                    vstd::seq_lib::to_multiset_remove(before, i as int);
                    vstd::seq_lib::to_multiset_insert(mid, j as int, x);
                    assert(before.to_multiset() =~= before.to_multiset().remove(before[i as int]).insert(before[i as int]));
                }
                assert forall|a: int, b: int| 0 <= a < b < i + 1 implies burn_time(#[trigger] v.take(i + 1)[a]) >= burn_time(#[trigger] v.take(i + 1)[b]) by {
                    let t = v.take(i + 1);
                    assert(t[a] == v[a] && t[b] == v[b]);
                    if b < j {
                        assert(v[a] == mid[a] && v[b] == mid[b]);
                        assert(mid[a] == before.take(i as int)[a] && mid[b] == before.take(i as int)[b]);
                    } else if b == j {
                        assert(v[a] == mid[a]);
                    } else if a < j {
                        assert(v[a] == mid[a] && v[b] == mid[b - 1]);
                        assert(mid[a] == before.take(i as int)[a] && mid[b - 1] == before.take(i as int)[b - 1]);
                    } else if a == j {
                        assert(v[b] == mid[b - 1]);
                        assert(mid[j as int] == before.take(i as int)[j as int]);
                        assert(mid[b - 1] == before.take(i as int)[b - 1]);
                    } else {
                        assert(v[a] == mid[a - 1] && v[b] == mid[b - 1]);
                        assert(mid[a - 1] == before.take(i as int)[a - 1] && mid[b - 1] == before.take(i as int)[b - 1]);
                    }
                }
            }
            i += 1;
        }
        assert(self.fires@.take(n as int) =~= self.fires@);
    }
}

} // verus!
