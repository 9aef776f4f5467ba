//! The modification times that make the files give the load order.
//!
//! The times that the files have now are used again, lowest first, as far as
//! they go; where several files share a time, new times follow the highest, a
//! minute apart.
use crate::load_order::plugin_views;
use crate::plugin::{Plugin, PluginView};
use vstd::prelude::*;

verus! {

/// How many seconds lie between two times that are made up.
pub const PADDING_SECONDS: u64 = 60;

/// The modification times of `plugins`, in their order.
pub open spec fn times_of(plugins: Seq<PluginView>) -> Seq<int> {
    plugins.map_values(|plugin: PluginView| plugin.modification_time as int)
}

/// Whether each of `times` is lower than the next.
pub open spec fn ascending(times: Seq<int>) -> bool {
    forall|earlier: int, later: int|
        0 <= earlier < later < times.len() ==> times[earlier] < times[later]
}

/// Whether the same times occur in `left` and in `right`, however often.
pub open spec fn same_values(left: Seq<int>, right: Seq<int>) -> bool {
    forall|time: int| left.contains(time) <==> right.contains(time)
}

/// The times that occur in `times`, each once, lowest first.
pub open spec fn distinct_ascending(times: Seq<int>) -> Seq<int> {
    choose|distinct: Seq<int>| ascending(distinct) && same_values(distinct, times)
}

/// The times to give to as many plugins as `times` has entries, in load order:
/// the distinct ones of `times`, lowest first, and behind them times that
/// follow the highest, each 60 seconds after the one before.
pub open spec fn padded_timestamps(times: Seq<int>) -> Seq<int> {
    let distinct = distinct_ascending(times);
    Seq::new(
        times.len(),
        |index: int|
            if index < distinct.len() {
                distinct[index]
            } else {
                distinct.last() + PADDING_SECONDS * (index - distinct.len() + 1)
            },
    )
}

/// Whether the times to give are times that a file can have.
pub open spec fn padded_timestamps_fit(times: Seq<int>) -> bool {
    forall|index: int|
        0 <= index < times.len() ==> #[trigger] padded_timestamps(times)[index] <= u64::MAX
}

/// Two ascending sequences of the same times are one sequence.
pub proof fn lemma_ascending_unique(left: Seq<int>, right: Seq<int>)
    requires
        ascending(left),
        ascending(right),
        same_values(left, right),
    ensures
        left == right,
    decreases left.len(),
{
    if left.len() == 0 {
        if right.len() > 0 {
            assert(right.contains(right[0]));
        }
        assert(left =~= right);
    } else {
        assert(left.contains(left.last()));
        assert(right.contains(left.last()));
        assert(right.contains(right.last()));
        assert(left.contains(right.last()));
        assert(left.last() == right.last());
        let left_rest = left.drop_last();
        let right_rest = right.drop_last();
        assert forall|time: int| left_rest.contains(time) <==> right_rest.contains(time) by {
            if left_rest.contains(time) {
                let at = choose|at: int| 0 <= at < left_rest.len() && left_rest[at] == time;
                assert(left[at] == time);
                assert(left.contains(time));
                let other = choose|other: int| 0 <= other < right.len() && right[other] == time;
                assert(right_rest[other] == time);
            }
            if right_rest.contains(time) {
                let at = choose|at: int| 0 <= at < right_rest.len() && right_rest[at] == time;
                assert(right[at] == time);
                assert(right.contains(time));
                let other = choose|other: int| 0 <= other < left.len() && left[other] == time;
                assert(left_rest[other] == time);
            }
        }
        lemma_ascending_unique(left_rest, right_rest);
        assert(left =~= left_rest.push(left.last()));
        assert(right =~= right_rest.push(right.last()));
    }
}

/// An ascending sequence takes one more time and stays ascending.
proof fn lemma_ascending_with(distinct: Seq<int>, time: int) -> (with: Seq<int>)
    requires
        ascending(distinct),
    ensures
        ascending(with),
        forall|other: int| with.contains(other) <==> distinct.contains(other) || other == time,
    decreases distinct.len(),
{
    if distinct.len() == 0 {
        let with = seq![time];
        assert(with[0] == time);
        with
    } else if distinct.last() < time {
        let with = distinct.push(time);
        assert(with[distinct.len() as int] == time);
        assert forall|other: int| with.contains(other) implies distinct.contains(other) || other
            == time by {
            let at = choose|at: int| 0 <= at < with.len() && with[at] == other;
            if at < distinct.len() {
                assert(distinct[at] == other);
            }
        }
        assert forall|other: int| distinct.contains(other) implies with.contains(other) by {
            let at = choose|at: int| 0 <= at < distinct.len() && distinct[at] == other;
            assert(with[at] == other);
        }
        with
    } else if distinct.last() == time {
        assert(distinct.contains(time));
        distinct
    } else {
        let rest = distinct.drop_last();
        let rest_with = lemma_ascending_with(rest, time);
        let with = rest_with.push(distinct.last());
        assert forall|earlier: int, later: int| 0 <= earlier < later < with.len() implies with[earlier]
            < with[later] by {
            if later == rest_with.len() {
                assert(rest_with.contains(rest_with[earlier]));
                if rest.contains(rest_with[earlier]) {
                    let at = choose|at: int| 0 <= at < rest.len() && rest[at] == rest_with[earlier];
                    assert(distinct[at] < distinct.last());
                }
            }
        }
        assert forall|other: int| with.contains(other) implies distinct.contains(other) || other
            == time by {
            let at = choose|at: int| 0 <= at < with.len() && with[at] == other;
            if at < rest_with.len() {
                assert(rest_with.contains(other));
                if rest.contains(other) {
                    let from = choose|from: int| 0 <= from < rest.len() && rest[from] == other;
                    assert(distinct[from] == other);
                }
            } else {
                assert(distinct[distinct.len() - 1] == other);
            }
        }
        assert forall|other: int| distinct.contains(other) || other == time implies with.contains(
            other,
        ) by {
            if other == time {
                assert(rest_with.contains(other));
                let at = choose|at: int| 0 <= at < rest_with.len() && rest_with[at] == other;
                assert(with[at] == other);
            } else {
                let from = choose|from: int| 0 <= from < distinct.len() && distinct[from] == other;
                if from < rest.len() {
                    assert(rest[from] == other);
                    assert(rest_with.contains(other));
                    let at = choose|at: int| 0 <= at < rest_with.len() && rest_with[at] == other;
                    assert(with[at] == other);
                } else {
                    assert(with[rest_with.len() as int] == other);
                }
            }
        }
        with
    }
}

/// Whatever the times, there is an ascending sequence of them.
proof fn lemma_distinct_ascending_exists(times: Seq<int>) -> (distinct: Seq<int>)
    ensures
        ascending(distinct),
        same_values(distinct, times),
    decreases times.len(),
{
    if times.len() == 0 {
        let distinct = Seq::<int>::empty();
        assert forall|time: int| distinct.contains(time) <==> times.contains(time) by {}
        distinct
    } else {
        let rest = times.drop_last();
        let rest_distinct = lemma_distinct_ascending_exists(rest);
        let distinct = lemma_ascending_with(rest_distinct, times.last());
        assert forall|time: int| distinct.contains(time) <==> times.contains(time) by {
            if times.contains(time) {
                let at = choose|at: int| 0 <= at < times.len() && times[at] == time;
                if at < rest.len() {
                    assert(rest[at] == time);
                    assert(rest.contains(time));
                }
            }
            if rest.contains(time) {
                let at = choose|at: int| 0 <= at < rest.len() && rest[at] == time;
                assert(times[at] == time);
            }
            if time == times.last() {
                assert(times[times.len() - 1] == time);
            }
        }
        distinct
    }
}

/// What [`distinct_ascending`] is: the times of `times` and no others, each
/// lower than the next, and so as many as `times` has different ones.
pub proof fn lemma_distinct_ascending(times: Seq<int>)
    ensures
        ascending(distinct_ascending(times)),
        same_values(distinct_ascending(times), times),
        distinct_ascending(times).len() == times.to_set().len(),
        distinct_ascending(times).len() <= times.len(),
        times.len() > 0 ==> distinct_ascending(times).len() > 0,
{
    let witness = lemma_distinct_ascending_exists(times);
    let distinct = distinct_ascending(times);
    assert(ascending(distinct) && same_values(distinct, times));
    assert(distinct.no_duplicates());
    distinct.unique_seq_to_set();
    assert(distinct.to_set() =~= times.to_set());
    times.lemma_cardinality_of_set();
    if times.len() > 0 {
        assert(times.contains(times[0]));
        assert(distinct.contains(times[0]));
    }
}

/// What [`padded_timestamps`] gives to plugins of which several share a
/// time, and to any others: as many times as there are plugins, each lower
/// than the next and so no two alike. The first are the distinct times of the
/// plugins, lowest first; each further one is 60 seconds after the one before
/// it.
pub proof fn lemma_padded_timestamps(times: Seq<int>)
    ensures
        padded_timestamps(times).len() == times.len(),
        ascending(padded_timestamps(times)),
        padded_timestamps(times).no_duplicates(),
        padded_timestamps(times).take(times.to_set().len() as int) == distinct_ascending(times),
        forall|index: int|
            times.to_set().len() <= index < times.len() ==> #[trigger] padded_timestamps(
                times,
            )[index] == padded_timestamps(times)[index - 1] + PADDING_SECONDS,
{
    lemma_distinct_ascending(times);
    let distinct = distinct_ascending(times);
    let padded = padded_timestamps(times);
    assert(padded.take(distinct.len() as int) =~= distinct);
    assert forall|earlier: int, later: int| 0 <= earlier < later < padded.len() implies padded[earlier]
        < padded[later] by {
        if earlier < distinct.len() && later >= distinct.len() {
            assert(distinct[earlier] <= distinct.last());
        }
    }
}

/// Times of which no two are alike are all used again, and giving times a
/// second time changes nothing.
pub proof fn lemma_padded_timestamps_idempotent(times: Seq<int>)
    ensures
        padded_timestamps(padded_timestamps(times)) == padded_timestamps(times),
        times.no_duplicates() ==> padded_timestamps(times) == distinct_ascending(times),
        ascending(times) ==> padded_timestamps(times) == times,
{
    lemma_padded_timestamps(times);
    lemma_distinct_ascending(times);
    let padded = padded_timestamps(times);
    lemma_distinct_ascending(padded);
    lemma_ascending_unique(distinct_ascending(padded), padded);
    assert(padded_timestamps(padded) =~= padded);
    if times.no_duplicates() {
        times.unique_seq_to_set();
        assert(padded =~= distinct_ascending(times));
    }
    if ascending(times) {
        lemma_ascending_unique(distinct_ascending(times), times);
        assert(padded =~= times);
    }
}

/// `times` as numbers without bound.
pub open spec fn seconds(times: Seq<u64>) -> Seq<int> {
    times.map_values(|time: u64| time as int)
}

/// What a sequence holds once `time` is put into it at `place`.
proof fn lemma_insert_contains(times: Seq<int>, place: int, time: int)
    requires
        0 <= place <= times.len(),
    ensures
        forall|other: int|
            times.insert(place, time).contains(other) <==> times.contains(other) || other == time,
{
    let with = times.insert(place, time);
    assert forall|other: int| with.contains(other) implies times.contains(other) || other
        == time by {
        let at = choose|at: int| 0 <= at < with.len() && with[at] == other;
        if at < place {
            assert(times[at] == other);
        } else if at > place {
            assert(times[at - 1] == other);
        }
    }
    assert forall|other: int| times.contains(other) || other == time implies with.contains(
        other,
    ) by {
        if other == time {
            assert(with[place] == other);
        } else {
            let at = choose|at: int| 0 <= at < times.len() && times[at] == other;
            if at < place {
                assert(with[at] == other);
            } else {
                assert(with[at + 1] == other);
            }
        }
    }
}

/// What the first `count + 1` of `times` hold, given what the first `count`
/// hold.
proof fn lemma_take_contains(times: Seq<int>, count: int)
    requires
        0 <= count < times.len(),
    ensures
        forall|other: int|
            times.take(count + 1).contains(other) <==> times.take(count).contains(other) || other
                == times[count],
{
    let more = times.take(count + 1);
    let fewer = times.take(count);
    assert forall|other: int| more.contains(other) implies fewer.contains(other) || other
        == times[count] by {
        let at = choose|at: int| 0 <= at < more.len() && more[at] == other;
        if at < count {
            assert(fewer[at] == other);
        }
    }
    assert forall|other: int| fewer.contains(other) || other == times[count] implies more.contains(
        other,
    ) by {
        if fewer.contains(other) {
            let at = choose|at: int| 0 <= at < fewer.len() && fewer[at] == other;
            assert(more[at] == other);
        } else {
            assert(more[count] == other);
        }
    }
}

/// The modification times of `plugins`, each once, lowest first.
fn distinct_times(plugins: &[Plugin]) -> (distinct: Vec<u64>)
    ensures
        seconds(distinct@) == distinct_ascending(times_of(plugin_views(plugins@))),
{
    let ghost times = times_of(plugin_views(plugins@));
    let mut distinct: Vec<u64> = Vec::new();
    let mut index: usize = 0;
    assert(same_values(seconds(distinct@), times.take(0))) by {
        assert forall|time: int| !seconds(distinct@).contains(time) && !times.take(0).contains(
            time,
        ) by {}
    }
    while index < plugins.len()
        invariant
            index <= plugins@.len(),
            times == times_of(plugin_views(plugins@)),
            ascending(seconds(distinct@)),
            same_values(seconds(distinct@), times.take(index as int)),
        decreases plugins@.len() - index,
    {
        let time = plugins[index].modification_time();
        assert(times[index as int] == time);
        let mut place: usize = distinct.len();
        while place > 0 && distinct[place - 1] > time
            invariant
                place <= distinct@.len(),
                forall|later: int| place <= later < distinct@.len() ==> distinct@[later] > time,
            decreases place,
        {
            place -= 1;
        }
        let ghost before = seconds(distinct@);
        proof {
            lemma_take_contains(times, index as int);
        }
        if place == 0 || distinct[place - 1] < time {
            distinct.insert(place, time);
            proof {
                assert(seconds(distinct@) =~= before.insert(place as int, time as int));
                lemma_insert_contains(before, place as int, time as int);
                assert forall|earlier: int| 0 <= earlier < place implies before[earlier] < time by {
                    assert(before[earlier] <= before[place - 1]);
                }
                assert forall|later: int| place <= later < before.len() implies before[later]
                    > time by {
                    assert(before[later] == distinct@[later + 1]);
                }
            }
        } else {
            assert(before[place - 1] == time);
            assert(before.contains(time as int));
        }
        assert forall|other: int|
            seconds(distinct@).contains(other) <==> times.take(index + 1).contains(other) by {
            assert(before.contains(other) <==> times.take(index as int).contains(other));
            assert(times.take(index + 1).contains(other) <==> times.take(index as int).contains(other)
                || other == time);
        }
        index += 1;
    }
    proof {
        assert(times.take(index as int) =~= times);
        lemma_distinct_ascending(times);
        lemma_ascending_unique(seconds(distinct@), distinct_ascending(times));
    }
    distinct
}

/// Whether times can be given to `plugins` without leaving the range of the
/// times that a file can have.
pub fn timestamps_fit(plugins: &[Plugin]) -> (fit: bool)
    ensures
        fit == padded_timestamps_fit(times_of(plugin_views(plugins@))),
{
    let ghost times = times_of(plugin_views(plugins@));
    let distinct = distinct_times(plugins);
    proof {
        lemma_distinct_ascending(times);
        lemma_padded_timestamps(times);
    }
    if distinct.len() >= plugins.len() {
        assert(padded_timestamps(times) =~= seconds(distinct@));
        true
    } else {
        let highest: u128 = distinct[distinct.len() - 1] as u128;
        let missing: u128 = (plugins.len() - distinct.len()) as u128;
        assert(PADDING_SECONDS * missing <= 60 * u64::MAX);
        let last: u128 = highest + PADDING_SECONDS as u128 * missing;
        let fit = last <= u64::MAX as u128;
        proof {
            let padded = padded_timestamps(times);
            assert(padded[times.len() - 1] == last);
            if fit {
                assert forall|index: int| 0 <= index < times.len() implies #[trigger] padded[index]
                    <= u64::MAX by {
                    if index < times.len() - 1 {
                        assert(padded[index] < padded[times.len() - 1]);
                    }
                }
            }
        }
        fit
    }
}

/// The modification times to give to `plugins`, in load order, so that the
/// files give that order: see [`padded_timestamps`].
pub fn padded_unique_timestamps(plugins: &[Plugin]) -> (timestamps: Vec<u64>)
    requires
        padded_timestamps_fit(times_of(plugin_views(plugins@))),
    ensures
        seconds(timestamps@) == padded_timestamps(times_of(plugin_views(plugins@))),
{
    let ghost times = times_of(plugin_views(plugins@));
    let ghost padded = padded_timestamps(times);
    let mut timestamps = distinct_times(plugins);
    proof {
        lemma_distinct_ascending(times);
        lemma_padded_timestamps(times);
        assert(padded.take(timestamps@.len() as int) =~= seconds(timestamps@));
    }
    while timestamps.len() < plugins.len()
        invariant
            times == times_of(plugin_views(plugins@)),
            padded == padded_timestamps(times),
            padded_timestamps_fit(times),
            times.to_set().len() <= timestamps@.len() <= times.len(),
            times.len() > 0 ==> timestamps@.len() > 0,
            seconds(timestamps@) == padded.take(timestamps@.len() as int),
            forall|index: int|
                times.to_set().len() <= index < times.len() ==> #[trigger] padded[index] == padded[index
                    - 1] + PADDING_SECONDS,
        decreases plugins@.len() - timestamps@.len(),
    {
        let ghost before = seconds(timestamps@);
        let count = timestamps.len();
        let last = timestamps[count - 1];
        assert(before[count - 1] == last);
        assert(padded[count as int] == padded[count - 1] + PADDING_SECONDS);
        assert(padded[count as int] <= u64::MAX);
        timestamps.push(last + PADDING_SECONDS);
        assert(seconds(timestamps@) =~= padded.take(count + 1));
    }
    assert(padded.take(times.len() as int) =~= padded);
    timestamps
}

} // verus!
