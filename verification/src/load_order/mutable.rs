//! Changing which plugins of a load order are active.
use crate::game_settings::string_views;
use crate::load_order::readable::index_of;
use crate::load_order::{
    count_active, lemma_first_position, lemma_position_of_same_names, names_of, plugin_views,
    position_of,
};
use crate::plugin::{Plugin, PluginView};
use vstd::prelude::*;

verus! {

/// How many plugins a game loads at most.
pub const MAX_ACTIVE_PLUGINS: usize = 255;

/// `plugins` with none of them active.
pub open spec fn all_inactive(plugins: Seq<PluginView>) -> Seq<PluginView> {
    plugins.map_values(|plugin: PluginView| plugin.with_active(false))
}

/// Makes every plugin inactive.
pub fn deactivate_all(plugins: &mut Vec<Plugin>)
    ensures
        plugin_views(final(plugins)@) == all_inactive(plugin_views(old(plugins)@)),
{
    let mut index: usize = 0;
    while index < plugins.len()
        invariant
            index <= plugins@.len(),
            plugins@.len() == old(plugins)@.len(),
            forall|earlier: int|
                0 <= earlier < index ==> (#[trigger] plugins@[earlier])@ == old(
                    plugins,
                )@[earlier]@.with_active(false),
            forall|later: int|
                index <= later < plugins@.len() ==> #[trigger] plugins@[later] == old(plugins)@[later],
        decreases plugins@.len() - index,
    {
        plugins[index].deactivate();
        index += 1;
    }
    assert(plugin_views(plugins@) =~= all_inactive(plugin_views(old(plugins)@)));
}

/// Whether one of `names` is the name of the plugin at `index` of `plugins`:
/// whether that plugin is the one that the name is looked up to.
pub open spec fn is_listed(plugins: Seq<PluginView>, names: Seq<Seq<char>>, index: int) -> bool {
    exists|at: int| 0 <= at < names.len() && position_of(plugins, #[trigger] names[at]) == Some(index)
}

/// `plugins` with those active that were or that `names` lists. A name that
/// no plugin goes by changes nothing.
pub open spec fn with_listed_active(plugins: Seq<PluginView>, names: Seq<Seq<char>>) -> Seq<
    PluginView,
> {
    Seq::new(
        plugins.len(),
        |index: int|
            plugins[index].with_active(plugins[index].active || is_listed(plugins, names, index)),
    )
}

/// Makes the plugins active that `names` lists: see [`with_listed_active`].
pub fn activate_listed(plugins: &mut Vec<Plugin>, names: &Vec<String>)
    ensures
        plugin_views(final(plugins)@) == with_listed_active(
            plugin_views(old(plugins)@),
            string_views(names@),
        ),
{
    let ghost before = plugin_views(old(plugins)@);
    let ghost all = string_views(names@);
    let mut at: usize = 0;
    assert(plugin_views(plugins@) =~= with_listed_active(before, all.take(0)));
    while at < names.len()
        invariant
            at <= names@.len(),
            all == string_views(names@),
            before == plugin_views(old(plugins)@),
            plugin_views(plugins@) == with_listed_active(before, all.take(at as int)),
        decreases names@.len() - at,
    {
        let ghost current = plugin_views(plugins@);
        let ghost name = all[at as int];
        assert(names@[at as int]@ == name);
        proof {
            assert(names_of(current) =~= names_of(before));
            lemma_position_of_same_names(current, before, name);
        }
        match index_of(plugins, names[at].as_str()) {
            Some(index) => {
                plugins[index].activate();
                assert(plugin_views(plugins@) =~= current.update(
                    index as int,
                    current[index as int].with_active(true),
                ));
            },
            None => {},
        }
        proof {
            let next = with_listed_active(before, all.take(at + 1));
            assert forall|index: int| 0 <= index < before.len() implies is_listed(
                before,
                all.take(at + 1),
                index,
            ) == (is_listed(before, all.take(at as int), index) || position_of(before, name)
                == Some(index)) by {
                if is_listed(before, all.take(at + 1), index) {
                    let from = choose|from: int|
                        0 <= from < all.take(at + 1).len() && position_of(
                            before,
                            #[trigger] all.take(at + 1)[from],
                        ) == Some(index);
                    if from < at {
                        assert(all.take(at as int)[from] == all.take(at + 1)[from]);
                    }
                }
                if is_listed(before, all.take(at as int), index) {
                    let from = choose|from: int|
                        0 <= from < all.take(at as int).len() && position_of(
                            before,
                            #[trigger] all.take(at as int)[from],
                        ) == Some(index);
                    assert(all.take(at + 1)[from] == all.take(at as int)[from]);
                }
                if position_of(before, name) == Some(index) {
                    assert(all.take(at + 1)[at as int] == name);
                }
            }
            lemma_first_position(before, |plugin: PluginView| plugin.name_matches(name));
            assert(plugin_views(plugins@) =~= next);
        }
        at += 1;
    }
    assert(all.take(at as int) =~= all);
}

/// Whether the game loads `plugin` whether or not it is listed as active:
/// whether it goes by one of the names of `implicit`.
pub open spec fn is_implicitly_active(plugin: PluginView, implicit: Seq<Seq<char>>) -> bool {
    exists|at: int| 0 <= at < implicit.len() && plugin.name_matches(#[trigger] implicit[at])
}

/// Whether `plugin` is active and could be otherwise.
pub open spec fn can_deactivate(plugin: PluginView, implicit: Seq<Seq<char>>) -> bool {
    plugin.active && !is_implicitly_active(plugin, implicit)
}

/// How many of `plugins` can be deactivated.
pub open spec fn count_deactivatable(plugins: Seq<PluginView>, implicit: Seq<Seq<char>>) -> nat {
    plugins.filter(|plugin: PluginView| can_deactivate(plugin, implicit)).len()
}

/// How many of the plugins behind `index` can be deactivated.
pub open spec fn count_deactivatable_behind(
    plugins: Seq<PluginView>,
    implicit: Seq<Seq<char>>,
    index: int,
) -> int {
    count_deactivatable(plugins, implicit) - count_deactivatable(plugins.take(index + 1), implicit)
}

/// `plugins` with no more of them active than a game loads, as far as that
/// can be had: where too many are active, those that can be deactivated are,
/// from the end of the load order, until no more than [`MAX_ACTIVE_PLUGINS`]
/// are left or none but implicitly active ones.
pub open spec fn without_excess(plugins: Seq<PluginView>, implicit: Seq<Seq<char>>) -> Seq<
    PluginView,
> {
    Seq::new(
        plugins.len(),
        |index: int|
            if can_deactivate(plugins[index], implicit) && count_deactivatable_behind(
                plugins,
                implicit,
                index,
            ) < count_active(plugins) - MAX_ACTIVE_PLUGINS {
                plugins[index].with_active(false)
            } else {
                plugins[index]
            },
    )
}

/// How many of the first `count` of `plugins` are no longer active once the
/// excess is taken off.
spec fn deactivated_among(plugins: Seq<PluginView>, implicit: Seq<Seq<char>>, count: int) -> int {
    let spared = count_deactivatable(plugins, implicit) - (count_active(plugins)
        - MAX_ACTIVE_PLUGINS);
    let bound = if spared > 0 {
        spared
    } else {
        0
    };
    let seen = count_deactivatable(plugins.take(count), implicit);
    if seen > bound {
        seen - bound
    } else {
        0
    }
}

proof fn lemma_without_excess_among(plugins: Seq<PluginView>, implicit: Seq<Seq<char>>, count: int)
    requires
        0 <= count <= plugins.len(),
    ensures
        count_active(without_excess(plugins, implicit).take(count)) == count_active(
            plugins.take(count),
        ) - deactivated_among(plugins, implicit, count),
    decreases count,
{
    let capped = without_excess(plugins, implicit);
    let is_active = |plugin: PluginView| plugin.active;
    let removable = |plugin: PluginView| can_deactivate(plugin, implicit);
    if count == 0 {
        reveal(Seq::filter);
        assert(capped.take(0).filter(is_active) =~= Seq::empty());
        assert(plugins.take(0).filter(is_active) =~= Seq::empty());
        assert(plugins.take(0).filter(removable) =~= Seq::empty());
    } else {
        let at = count - 1;
        lemma_without_excess_among(plugins, implicit, at);
        assert(plugins.take(count) =~= plugins.take(at).push(plugins[at]));
        assert(capped.take(count) =~= capped.take(at).push(capped[at]));
        plugins.take(at).lemma_filter_push(plugins[at], is_active);
        plugins.take(at).lemma_filter_push(plugins[at], removable);
        capped.take(at).lemma_filter_push(capped[at], is_active);
    }
}

/// What taking off the excess changes, and what it leaves: the plugins and
/// their order stay, and nothing happens but that active plugins become
/// inactive. Where enough of the active plugins can be deactivated, no more
/// than [`MAX_ACTIVE_PLUGINS`] are active afterwards, and exactly that many
/// where there were more before. Of the plugins that could be deactivated,
/// those that were not stand before those that were.
pub proof fn lemma_without_excess(plugins: Seq<PluginView>, implicit: Seq<Seq<char>>)
    ensures
        names_of(without_excess(plugins, implicit)) == names_of(plugins),
        forall|index: int|
            0 <= index < plugins.len() ==> (#[trigger] without_excess(plugins, implicit)[index])
                == plugins[index] || (plugins[index].active && without_excess(
                plugins,
                implicit,
            )[index] == plugins[index].with_active(false)),
        count_active(plugins) <= MAX_ACTIVE_PLUGINS ==> without_excess(plugins, implicit)
            == plugins,
        count_active(plugins) - count_deactivatable(plugins, implicit) <= MAX_ACTIVE_PLUGINS
            ==> count_active(without_excess(plugins, implicit)) <= MAX_ACTIVE_PLUGINS,
        count_active(plugins) - count_deactivatable(plugins, implicit) <= MAX_ACTIVE_PLUGINS
            < count_active(plugins) ==> count_active(without_excess(plugins, implicit))
            == MAX_ACTIVE_PLUGINS,
        forall|earlier: int, later: int|
            0 <= earlier < later < plugins.len() && can_deactivate(plugins[earlier], implicit)
                && can_deactivate(plugins[later], implicit) && (#[trigger] without_excess(
                plugins,
                implicit,
            )[later]).active ==> (#[trigger] without_excess(plugins, implicit)[earlier]).active,
{
    let capped = without_excess(plugins, implicit);
    let removable = |plugin: PluginView| can_deactivate(plugin, implicit);
    assert(names_of(capped) =~= names_of(plugins));
    lemma_without_excess_among(plugins, implicit, plugins.len() as int);
    assert(plugins.take(plugins.len() as int) =~= plugins);
    assert(capped.take(plugins.len() as int) =~= capped);
    if count_active(plugins) <= MAX_ACTIVE_PLUGINS {
        assert forall|index: int| 0 <= index < plugins.len() implies capped[index]
            == plugins[index] by {
            plugins.lemma_filter_take_len(removable, index + 1);
        }
        assert(capped =~= plugins);
    }
    assert forall|earlier: int, later: int|
        0 <= earlier < later < plugins.len() && can_deactivate(plugins[earlier], implicit)
            && can_deactivate(plugins[later], implicit) && (#[trigger] capped[later]).active implies (
    #[trigger] capped[earlier]).active by {
        plugins.take(later + 1).lemma_filter_take_len(removable, earlier + 1);
        assert(plugins.take(later + 1).take(earlier + 1) =~= plugins.take(earlier + 1));
    }
}

/// How many plugins are active.
pub fn count_active_plugins(plugins: &Vec<Plugin>) -> (count: usize)
    ensures
        count == count_active(plugin_views(plugins@)),
{
    let ghost is_active = |plugin: PluginView| plugin.active;
    let mut count: usize = 0;
    let mut index: usize = 0;
    assert(plugin_views(plugins@.take(0)).filter(is_active) =~= Seq::empty()) by {
        reveal(Seq::filter);
    }
    while index < plugins.len()
        invariant
            index <= plugins@.len(),
            count <= index,
            is_active == |plugin: PluginView| plugin.active,
            count == plugin_views(plugins@.take(index as int)).filter(is_active).len(),
        decreases plugins@.len() - index,
    {
        proof {
            let seen = plugin_views(plugins@.take(index as int));
            assert(plugin_views(plugins@.take(index + 1)) =~= seen.push(plugins@[index as int]@));
            seen.lemma_filter_push(plugins@[index as int]@, is_active);
        }
        if plugins[index].is_active() {
            count += 1;
        }
        index += 1;
    }
    assert(plugins@.take(index as int) =~= plugins@);
    count
}

/// Whether `plugin` goes by one of the names of `implicit`.
pub fn goes_by_one_of(plugin: &Plugin, implicit: &Vec<String>) -> (found: bool)
    ensures
        found == is_implicitly_active(plugin@, string_views(implicit@)),
{
    let ghost names = string_views(implicit@);
    let mut at: usize = 0;
    while at < implicit.len()
        invariant
            at <= implicit@.len(),
            names == string_views(implicit@),
            forall|earlier: int| 0 <= earlier < at ==> !plugin@.name_matches(#[trigger] names[earlier]),
        decreases implicit@.len() - at,
    {
        assert(implicit@[at as int]@ == names[at as int]);
        if plugin.name_matches(implicit[at].as_str()) {
            return true;
        }
        at += 1;
    }
    false
}

/// Deactivates plugins until no more are active than a game loads: see
/// [`without_excess`].
pub fn deactivate_excess_plugins(plugins: &mut Vec<Plugin>, implicit: &Vec<String>)
    ensures
        plugin_views(final(plugins)@) == without_excess(
            plugin_views(old(plugins)@),
            string_views(implicit@),
        ),
{
    let ghost before = plugin_views(old(plugins)@);
    let ghost names = string_views(implicit@);
    let ghost removable = |plugin: PluginView| can_deactivate(plugin, names);
    let ghost expected = without_excess(before, names);
    let mut count = count_active_plugins(plugins);
    let mut index: usize = plugins.len();
    assert(before.take(index as int) =~= before);
    while index > 0 && count > MAX_ACTIVE_PLUGINS
        invariant
            index <= plugins@.len(),
            plugins@.len() == old(plugins)@.len(),
            before == plugin_views(old(plugins)@),
            names == string_views(implicit@),
            removable == |plugin: PluginView| can_deactivate(plugin, names),
            expected == without_excess(before, names),
            forall|earlier: int|
                0 <= earlier < index ==> #[trigger] plugins@[earlier] == old(plugins)@[earlier],
            forall|later: int|
                index <= later < plugins@.len() ==> (#[trigger] plugins@[later])@ == expected[later],
            count == count_active(before) - (before.filter(removable).len() - before.take(
                index as int,
            ).filter(removable).len()),
        decreases index,
    {
        index -= 1;
        proof {
            let seen = before.take(index as int);
            assert(before.take(index + 1) =~= seen.push(before[index as int]));
            seen.lemma_filter_push(before[index as int], removable);
        }
        if plugins[index].is_active() && !goes_by_one_of(&plugins[index], implicit) {
            plugins[index].deactivate();
            count -= 1;
        }
    }
    proof {
        assert forall|earlier: int| 0 <= earlier < index implies (#[trigger] plugins@[earlier])@
            == expected[earlier] by {
            before.take(index as int).lemma_filter_take_len(removable, earlier + 1);
            assert(before.take(index as int).take(earlier + 1) =~= before.take(earlier + 1));
        }
        assert(plugin_views(plugins@) =~= expected);
    }
}

} // verus!
