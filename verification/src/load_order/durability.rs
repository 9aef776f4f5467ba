//! What a load finds again of what a save left: the order of the plugins, and
//! which of them are active.
use crate::enums::GameId;
use crate::lines::are_single_lines;
use crate::load_order::active_plugins_file::{
    active_plugins_file_content, all_encodable, entry_lines, file_prelude, kept_lines,
    lemma_written_names_are_read, reads_as, KEYED_LINE_PATTERN,
};
use crate::load_order::mutable::{
    all_inactive, is_listed, lemma_without_excess, with_listed_active, MAX_ACTIVE_PLUGINS,
};
use crate::load_order::timestamp_based::{names_in_file, with_loaded_activity};
use crate::load_order::{
    active_plugins, count_active, lemma_first_position_found, lemma_position_of_same_names,
    names_of, position_of,
};
use crate::plugin::caseless_eq;
use crate::load_order::order::{
    bytes_precede, in_file_order, lemma_bytes_precede_asymmetric, lemma_bytes_precede_connected,
    lemma_bytes_precede_irreflexive, lemma_bytes_precede_transitive, lemma_precedes_asymmetric,
    masters_first, precedes,
};
use crate::load_order::timestamp_based::with_times;
use crate::load_order::timestamps::{
    lemma_padded_timestamps, padded_timestamps, padded_timestamps_fit, times_of,
};
use crate::plugin::PluginView;
use vstd::prelude::*;
use vstd::relations::{sorted_by, total_ordering};
use vstd::seq_lib::lemma_sorted_unique;
use vstd::utf8::{encode_utf8, encode_utf8_decode_utf8};

verus! {

/// An order of all plugins that agrees with the file order where kind or
/// time differ: a master file first, then the earlier time, then the name as
/// it is written, then an inactive plugin before an active one.
pub open spec fn may_stand_before(left: PluginView, right: PluginView) -> bool {
    if left.is_master_file != right.is_master_file {
        left.is_master_file
    } else if left.modification_time != right.modification_time {
        left.modification_time < right.modification_time
    } else if left.name != right.name {
        bytes_precede(encode_utf8(left.name), encode_utf8(right.name))
    } else {
        !left.active || right.active
    }
}

/// [`may_stand_before`] orders all plugins.
pub proof fn lemma_may_stand_before_orders()
    ensures
        total_ordering(|left: PluginView, right: PluginView| may_stand_before(left, right)),
{
    let order = |left: PluginView, right: PluginView| may_stand_before(left, right);
    assert forall|plugin: PluginView| #[trigger] order(plugin, plugin) by {}
    assert forall|left: PluginView, right: PluginView| #[trigger]
        order(left, right) && #[trigger] order(right, left) implies left == right by {
        if left.name != right.name {
            lemma_bytes_precede_asymmetric(encode_utf8(left.name), encode_utf8(right.name));
        }
    }
    assert forall|left: PluginView, middle: PluginView, right: PluginView| #[trigger]
        order(left, middle) && #[trigger] order(middle, right) implies order(left, right) by {
        if left.is_master_file == middle.is_master_file && middle.is_master_file
            == right.is_master_file && left.modification_time == middle.modification_time
            && middle.modification_time == right.modification_time {
            if left.name != middle.name && middle.name != right.name {
                lemma_bytes_precede_transitive(
                    encode_utf8(left.name),
                    encode_utf8(middle.name),
                    encode_utf8(right.name),
                );
                lemma_bytes_precede_irreflexive(encode_utf8(left.name));
            }
        }
    }
    assert forall|left: PluginView, right: PluginView| #[trigger]
        order(left, right) || #[trigger] order(right, left) by {
        if left.name != right.name {
            encode_utf8_decode_utf8(left.name);
            encode_utf8_decode_utf8(right.name);
            lemma_bytes_precede_connected(encode_utf8(left.name), encode_utf8(right.name));
        }
    }
}

/// Plugins in file order that are those of `files`, of which each has a time
/// of its own among its kind, stand as [`may_stand_before`] asks.
proof fn lemma_in_file_order_sorted(plugins: Seq<PluginView>, files: Seq<PluginView>)
    requires
        in_file_order(plugins),
        plugins.to_multiset() == files.to_multiset(),
        forall|first: int, second: int|
            0 <= first < second < files.len() ==> precedes(
                #[trigger] files[first],
                #[trigger] files[second],
            ) && (files[first].is_master_file != files[second].is_master_file
                || files[first].modification_time != files[second].modification_time),
    ensures
        sorted_by(plugins, |left: PluginView, right: PluginView| may_stand_before(left, right)),
{
    broadcast use vstd::seq_lib::group_to_multiset_ensures;

    assert forall|earlier: int, later: int| 0 <= earlier < later < plugins.len() implies may_stand_before(
        plugins[earlier],
        plugins[later],
    ) by {
        let left = plugins[earlier];
        let right = plugins[later];
        assert(!precedes(right, left));
        if left.is_master_file == right.is_master_file && left.modification_time
            == right.modification_time {
            assert(plugins.contains(left) && plugins.contains(right));
            assert(files.to_multiset().count(left) > 0);
            assert(files.to_multiset().count(right) > 0);
            assert(files.contains(left) && files.contains(right));
            let first = choose|first: int| 0 <= first < files.len() && files[first] == left;
            let second = choose|second: int| 0 <= second < files.len() && files[second] == right;
            if first < second {
                assert(files[first].is_master_file != files[second].is_master_file
                    || files[first].modification_time != files[second].modification_time);
            } else if second < first {
                assert(files[second].is_master_file != files[first].is_master_file
                    || files[second].modification_time != files[first].modification_time);
            }
            assert(left == right);
        }
    }
}

/// A load after a save finds the plugins in the order in which they were
/// saved, whatever times their files had before, if the master files stood
/// first. `before` is the load order that was saved, `installed` the plugins
/// as the load came upon their files, and `loaded` what the load made of them.
///
/// Where a plugin that is no master file stands before a master file, the
/// load puts the master file first, and the order is another.
pub proof fn lemma_load_after_save_keeps_order(
    before: Seq<PluginView>,
    installed: Seq<PluginView>,
    loaded: Seq<PluginView>,
)
    requires
        masters_first(before),
        padded_timestamps_fit(times_of(before)),
        all_inactive(installed).to_multiset() == all_inactive(
            with_times(before, padded_timestamps(times_of(before))),
        ).to_multiset(),
        in_file_order(loaded),
        all_inactive(loaded).to_multiset() == all_inactive(installed).to_multiset(),
    ensures
        all_inactive(loaded) == all_inactive(
            with_times(before, padded_timestamps(times_of(before))),
        ),
        names_of(loaded) == names_of(before),
{
    let times = padded_timestamps(times_of(before));
    let saved = with_times(before, times);
    let order = |left: PluginView, right: PluginView| may_stand_before(left, right);
    lemma_padded_timestamps(times_of(before));
    assert forall|earlier: int, later: int| 0 <= earlier < later < saved.len() implies precedes(
        #[trigger] saved[earlier],
        #[trigger] saved[later],
    ) by {
        assert(before[later].is_master_file ==> before[earlier].is_master_file);
        assert(times[earlier] < times[later]);
        assert(0 <= times[earlier] && times[later] <= u64::MAX) by {
            lemma_times_are_times(times_of(before), earlier);
        }
    }
    let files = all_inactive(saved);
    let found = all_inactive(loaded);
    assert forall|first: int, second: int| 0 <= first < second < files.len() implies precedes(
        #[trigger] files[first],
        #[trigger] files[second],
    ) && (files[first].is_master_file != files[second].is_master_file
        || files[first].modification_time != files[second].modification_time) by {
        assert(precedes(saved[first], saved[second]));
        assert(times[first] < times[second]);
        lemma_times_are_times(times_of(before), first);
        lemma_times_are_times(times_of(before), second);
    }
    assert(in_file_order(files)) by {
        assert forall|earlier: int, later: int| 0 <= earlier < later < files.len() implies !precedes(
            #[trigger] files[later],
            #[trigger] files[earlier],
        ) by {
            lemma_precedes_asymmetric(files[earlier], files[later]);
        }
    }
    assert(in_file_order(found)) by {
        assert forall|earlier: int, later: int| 0 <= earlier < later < found.len() implies !precedes(
            #[trigger] found[later],
            #[trigger] found[earlier],
        ) by {
            assert(!precedes(loaded[later], loaded[earlier]));
        }
    }
    lemma_in_file_order_sorted(files, files);
    lemma_in_file_order_sorted(found, files);
    lemma_may_stand_before_orders();
    lemma_sorted_unique(all_inactive(loaded), all_inactive(saved), order);
    assert(names_of(loaded) =~= names_of(before)) by {
        assert forall|index: int| 0 <= index < loaded.len() implies loaded[index].name
            == before[index].name by {
            assert(all_inactive(loaded)[index].name == all_inactive(saved)[index].name);
        }
        assert(all_inactive(loaded).len() == all_inactive(saved).len());
    }
}

/// None of the times that are given lies before the epoch.
proof fn lemma_times_are_times(times: Seq<int>, index: int)
    requires
        0 <= index < times.len(),
        forall|at: int| 0 <= at < times.len() ==> 0 <= #[trigger] times[at],
    ensures
        0 <= padded_timestamps(times)[index],
{
    lemma_padded_timestamps(times);
    crate::load_order::timestamps::lemma_distinct_ascending(times);
    let distinct = crate::load_order::timestamps::distinct_ascending(times);
    let padded = padded_timestamps(times);
    assert(distinct.contains(distinct[0]));
    assert(times.contains(distinct[0]));
    assert(0 <= distinct[0]);
    assert(padded[0] == distinct[0]);
    if index > 0 {
        assert(padded[0] < padded[index]);
    }
}

/// Whether no two of `plugins` go by one name.
pub open spec fn have_distinct_names(plugins: Seq<PluginView>) -> bool {
    forall|first: int, second: int|
        0 <= first < second < plugins.len() ==> !caseless_eq(
            (#[trigger] plugins[first]).name,
            (#[trigger] plugins[second]).name,
        )
}

/// Whether every plugin of `plugins` that the game loads in any case is
/// active.
pub open spec fn implicit_are_active(plugins: Seq<PluginView>, implicit: Seq<Seq<char>>) -> bool {
    forall|at: int, index: int|
        0 <= at < implicit.len() && position_of(plugins, #[trigger] implicit[at]) == Some(index)
            ==> (#[trigger] plugins[index]).active
}

/// Among plugins of distinct names each is the one that its name is looked
/// up to.
proof fn lemma_position_of_own_name(plugins: Seq<PluginView>, index: int)
    requires
        have_distinct_names(plugins),
        0 <= index < plugins.len(),
    ensures
        position_of(plugins, plugins[index].name) == Some(index),
{
    let name = plugins[index].name;
    let wanted = |plugin: PluginView| plugin.name_matches(name);
    assert(wanted(plugins[index]));
    assert forall|earlier: int| 0 <= earlier < index implies !wanted(#[trigger] plugins[earlier]) by {
        assert(!caseless_eq(plugins[earlier].name, plugins[index].name));
    }
    lemma_first_position_found(plugins, wanted, index);
}

/// A load that is given the names of the active plugins makes the same
/// plugins active again: where the plugins have distinct names, no more of
/// them are active than a game loads, and those that the game loads in any
/// case are active, the load leaves them as they are.
pub proof fn lemma_listed_plugins_are_active_again(plugins: Seq<PluginView>, implicit: Seq<Seq<char>>)
    requires
        have_distinct_names(plugins),
        count_active(plugins) <= MAX_ACTIVE_PLUGINS,
        implicit_are_active(plugins, implicit),
    ensures
        with_loaded_activity(plugins, names_of(active_plugins(plugins)), implicit) == plugins,
{
    broadcast use vstd::seq_lib::group_filter_ensures;

    let is_active = |plugin: PluginView| plugin.active;
    let active = plugins.filter(is_active);
    let names = names_of(active_plugins(plugins));
    let inactive = all_inactive(plugins);
    let listed = with_listed_active(inactive, names);
    assert(names_of(inactive) =~= names_of(plugins));
    assert forall|index: int| 0 <= index < plugins.len() implies is_listed(inactive, names, index)
        == plugins[index].active by {
        if plugins[index].active {
            plugins.lemma_filter_contains(is_active, index);
            let at = choose|at: int| 0 <= at < active.len() && active[at] == plugins[index];
            assert(names[at] == plugins[index].name);
            lemma_position_of_own_name(plugins, index);
            lemma_position_of_same_names(inactive, plugins, names[at]);
        }
        if is_listed(inactive, names, index) {
            let at = choose|at: int|
                0 <= at < names.len() && position_of(inactive, #[trigger] names[at]) == Some(index);
            plugins.lemma_filter_pred(is_active, at);
            assert(active.contains(active[at]));
            plugins.lemma_filter_contains_rev(is_active, active[at]);
            let from = choose|from: int| 0 <= from < plugins.len() && plugins[from] == active[at];
            lemma_position_of_own_name(plugins, from);
            lemma_position_of_same_names(inactive, plugins, names[at]);
        }
    }
    assert(listed =~= plugins);
    let marked = with_listed_active(listed, implicit);
    assert forall|index: int| 0 <= index < plugins.len() implies marked[index]
        == plugins[index] by {
        if is_listed(plugins, implicit, index) {
            let at = choose|at: int|
                0 <= at < implicit.len() && position_of(plugins, #[trigger] implicit[at]) == Some(
                    index,
                );
            assert(plugins[index].active);
        }
    }
    assert(marked =~= plugins);
    lemma_without_excess(plugins, implicit);
}

/// A load after a save finds the load order that was saved, active plugins
/// and all, up to the times that the save gave. The master files stood first
/// and the plugins had distinct names; no more were active than a game loads,
/// and those that the game loads in any case were active; and each line of the
/// file that was written, read for itself, gives back the name that it was
/// written for, while each line that was kept of the file before gives none.
///
/// `before` is the load order that was saved, `existing_content` what the
/// active plugins file held before, and `loaded` what a load makes of the
/// plugins and the file as the save left them.
pub proof fn lemma_load_after_save_keeps_load_order(
    game_id: GameId,
    implicit: Seq<Seq<char>>,
    before: Seq<PluginView>,
    existing_content: Option<Seq<u8>>,
    loaded: Seq<PluginView>,
)
    requires
        masters_first(before),
        have_distinct_names(before),
        count_active(before) <= MAX_ACTIVE_PLUGINS,
        implicit_are_active(before, implicit),
        padded_timestamps_fit(times_of(before)),
        ({
            let names = names_of(active_plugins(before));
            &&& all_encodable(names)
            &&& are_single_lines(entry_lines(game_id, names))
            &&& forall|index: int|
                0 <= index < kept_lines(game_id, existing_content).len() ==> reads_as(
                    game_id,
                    KEYED_LINE_PATTERN@,
                    #[trigger] kept_lines(game_id, existing_content)[index],
                    None,
                )
            &&& forall|index: int|
                0 <= index < names.len() ==> reads_as(
                    game_id,
                    KEYED_LINE_PATTERN@,
                    #[trigger] entry_lines(game_id, names)[index],
                    Some(names[index]),
                )
        }),
        in_file_order(loaded),
        all_inactive(loaded).to_multiset() == all_inactive(
            with_times(before, padded_timestamps(times_of(before))),
        ).to_multiset(),
        loaded == with_loaded_activity(
            loaded,
            names_in_file(
                game_id,
                active_plugins_file_content(
                    game_id,
                    file_prelude(game_id, existing_content),
                    names_of(active_plugins(before)),
                ),
            ),
            implicit,
        ),
    ensures
        loaded == with_times(before, padded_timestamps(times_of(before))),
{
    let saved = with_times(before, padded_timestamps(times_of(before)));
    let names = names_of(active_plugins(before));
    lemma_load_after_save_keeps_order(before, saved, loaded);
    lemma_written_names_are_read(game_id, KEYED_LINE_PATTERN@, existing_content, names);
    lemma_padded_timestamps(times_of(before));
    assert(saved.len() == before.len());
    assert(names_of(saved) =~= names_of(before));
    assert forall|first: int, second: int| 0 <= first < second < saved.len() implies !caseless_eq(
        (#[trigger] saved[first]).name,
        (#[trigger] saved[second]).name,
    ) by {
        assert(!caseless_eq(before[first].name, before[second].name));
    }
    lemma_same_activity(before, saved);
    assert forall|at: int, index: int|
        0 <= at < implicit.len() && position_of(saved, #[trigger] implicit[at]) == Some(
            index,
        ) implies (#[trigger] saved[index]).active by {
        lemma_position_of_same_names(saved, before, implicit[at]);
        assert(before[index].active);
    }
    lemma_listed_plugins_are_active_again(saved, implicit);
    assert(all_inactive(loaded) == all_inactive(saved));
    assert(with_loaded_activity(loaded, names, implicit) == with_loaded_activity(
        saved,
        names,
        implicit,
    ));
}

/// Plugins that differ in their times at most have the same active plugins,
/// by name and number.
proof fn lemma_same_activity(before: Seq<PluginView>, after: Seq<PluginView>)
    requires
        before.len() == after.len(),
        forall|index: int|
            0 <= index < before.len() ==> (#[trigger] after[index]).name == before[index].name
                && after[index].active == before[index].active,
    ensures
        names_of(active_plugins(after)) == names_of(active_plugins(before)),
        count_active(after) == count_active(before),
    decreases before.len(),
{
    let is_active = |plugin: PluginView| plugin.active;
    if before.len() == 0 {
        assert(before =~= after);
    } else {
        lemma_same_activity(before.drop_last(), after.drop_last());
        assert(before =~= before.drop_last().push(before.last()));
        assert(after =~= after.drop_last().push(after.last()));
        before.drop_last().lemma_filter_push(before.last(), is_active);
        after.drop_last().lemma_filter_push(after.last(), is_active);
        let fewer_before = before.drop_last().filter(is_active);
        let fewer_after = after.drop_last().filter(is_active);
        assert(names_of(fewer_after) == names_of(fewer_before));
        if before.last().active {
            assert(names_of(fewer_after.push(after.last())) =~= names_of(fewer_after).push(
                after.last().name,
            ));
            assert(names_of(fewer_before.push(before.last())) =~= names_of(fewer_before).push(
                before.last().name,
            ));
        }
    }
}

} // verus!
