//! Changing the order of the plugins of a load order.
//!
//! A change is checked before anything is altered: where it is refused, the
//! load order is as it was.
use crate::enums::LoadOrderError;
use crate::load_order::order::masters_first;
use crate::load_order::readable::{find_first_non_master_position, index_of, str_views};
use crate::load_order::{
    first_position, lemma_first_position, lemma_first_position_found,
    lemma_first_position_missing, plugin_views, position_of,
};
use crate::plugin::{caseless_eq, is_same_name, Plugin, PluginView};
use vstd::prelude::*;

verus! {

/// The plugin that `name` names: the one of the load order that goes by it
/// or, where there is none, the installed one, which is inactive.
pub open spec fn named_plugin(
    plugins: Seq<PluginView>,
    installed: Seq<PluginView>,
    name: Seq<char>,
) -> Option<PluginView> {
    match position_of(plugins, name) {
        Some(index) => Some(plugins[index]),
        None => match position_of(installed, name) {
            Some(index) => Some(installed[index].with_active(false)),
            None => None,
        },
    }
}

/// Whether no two of `names` are one name.
pub open spec fn are_distinct_names(names: Seq<Seq<char>>) -> bool {
    forall|first: int, second: int|
        0 <= first < second < names.len() ==> !caseless_eq(
            #[trigger] names[first],
            #[trigger] names[second],
        )
}

/// Whether `name` names no plugin.
pub open spec fn is_unknown(
    plugins: Seq<PluginView>,
    installed: Seq<PluginView>,
    name: Seq<char>,
) -> bool {
    named_plugin(plugins, installed, name) is None
}

/// Where in `names` the first name stands that names no plugin.
pub open spec fn first_unknown(
    plugins: Seq<PluginView>,
    installed: Seq<PluginView>,
    names: Seq<Seq<char>>,
) -> Option<int> {
    first_position(names, |name: Seq<char>| is_unknown(plugins, installed, name))
}

/// The plugins that `names` name, in the order of the names.
pub open spec fn named_plugins(
    plugins: Seq<PluginView>,
    installed: Seq<PluginView>,
    names: Seq<Seq<char>>,
) -> Seq<PluginView> {
    Seq::new(names.len(), |index: int| named_plugin(plugins, installed, names[index])->0)
}

/// Why a change of the load order is refused.
pub enum Refusal {
    /// A name occurs twice.
    DuplicatePlugin,
    /// The name at this place of the names that were given names no plugin.
    InvalidPlugin(int),
    /// A master file would stand behind a plugin that is none.
    NonMasterBeforeMaster,
    /// More plugins would be active than a game loads.
    TooManyActivePlugins,
}

/// Whether `error` tells of `refusal`, where `names` are the names that were
/// given.
pub open spec fn tells_of(error: LoadOrderError, refusal: Refusal, names: Seq<Seq<char>>) -> bool {
    match refusal {
        Refusal::DuplicatePlugin => error is DuplicatePlugin,
        Refusal::InvalidPlugin(index) => error matches LoadOrderError::InvalidPlugin(name) && name@
            == names[index],
        Refusal::NonMasterBeforeMaster => error is NonMasterBeforeMaster,
        Refusal::TooManyActivePlugins => error is TooManyActivePlugins,
    }
}

/// Whether a change came out as `expected`: either the plugins are the
/// expected ones, or the change was refused for the expected reason and the
/// plugins are as `before`.
pub open spec fn came_out_as(
    expected: Result<Seq<PluginView>, Refusal>,
    result: Result<(), LoadOrderError>,
    before: Seq<PluginView>,
    after: Seq<PluginView>,
    names: Seq<Seq<char>>,
) -> bool {
    match expected {
        Ok(plugins) => result is Ok && after == plugins,
        Err(refusal) => result matches Err(error) && tells_of(error, refusal, names) && after
            == before,
    }
}

/// The load order of the plugins that `names` name, in the order of the
/// names: `plugins` is the load order as it is, `installed` are the valid
/// plugins that are installed. The order is refused where a name occurs
/// twice; else where a name names no plugin, for the first such name; else
/// where a master file would stand behind a plugin that is none.
pub open spec fn replaced(
    plugins: Seq<PluginView>,
    installed: Seq<PluginView>,
    names: Seq<Seq<char>>,
) -> Result<Seq<PluginView>, Refusal> {
    if !are_distinct_names(names) {
        Err(Refusal::DuplicatePlugin)
    } else {
        match first_unknown(plugins, installed, names) {
            Some(index) => Err(Refusal::InvalidPlugin(index)),
            None => if masters_first(named_plugins(plugins, installed, names)) {
                Ok(named_plugins(plugins, installed, names))
            } else {
                Err(Refusal::NonMasterBeforeMaster)
            },
        }
    }
}

/// What a plugin stands for, if there is one.
pub open spec fn option_plugin_view(plugin: Option<Plugin>) -> Option<PluginView> {
    match plugin {
        Some(plugin) => Some(plugin@),
        None => None,
    }
}

/// The plugin that `name` names: see [`named_plugin`].
pub fn find_named_plugin(plugins: &Vec<Plugin>, installed: &Vec<Plugin>, name: &str) -> (found:
    Option<Plugin>)
    ensures
        option_plugin_view(found) == named_plugin(
            plugin_views(plugins@),
            plugin_views(installed@),
            name@,
        ),
{
    match index_of(plugins, name) {
        Some(index) => Some(plugins[index].copy_of()),
        None => match index_of(installed, name) {
            Some(index) => {
                let mut plugin = installed[index].copy_of();
                plugin.deactivate();
                Some(plugin)
            },
            None => None,
        },
    }
}

/// Whether no two of `names` are one name.
pub fn are_plugin_names_unique(names: &[&str]) -> (unique: bool)
    ensures
        unique == are_distinct_names(str_views(names@)),
{
    let ghost all = str_views(names@);
    let mut first: usize = 0;
    while first < names.len()
        invariant
            first <= names@.len(),
            all == str_views(names@),
            forall|earlier: int, second: int|
                0 <= earlier < first && earlier < second < all.len() ==> !caseless_eq(
                    #[trigger] all[earlier],
                    #[trigger] all[second],
                ),
        decreases names@.len() - first,
    {
        let mut second: usize = first + 1;
        while second < names.len()
            invariant
                first < second <= names@.len(),
                all == str_views(names@),
                forall|other: int|
                    first < other < second ==> !caseless_eq(all[first as int], #[trigger] all[other]),
            decreases names@.len() - second,
        {
            assert(names@[first as int]@ == all[first as int]);
            assert(names@[second as int]@ == all[second as int]);
            if is_same_name(names[first], names[second]) {
                return false;
            }
            second += 1;
        }
        first += 1;
    }
    true
}

/// Whether every master file stands before every plugin that is none.
pub fn is_partitioned_by_master_flag(plugins: &Vec<Plugin>) -> (partitioned: bool)
    ensures
        partitioned == masters_first(plugin_views(plugins@)),
{
    let ghost views = plugin_views(plugins@);
    match find_first_non_master_position(plugins) {
        Some(first) => {
            let count = plugins.len();
            assert(first < views.len() == count);
            let mut index: usize = first + 1;
            while index < plugins.len()
                invariant
                    first < index <= plugins@.len(),
                    views == plugin_views(plugins@),
                    !views[first as int].is_master_file,
                    forall|earlier: int| 0 <= earlier < first ==> views[earlier].is_master_file,
                    forall|later: int| first < later < index ==> !views[later].is_master_file,
                decreases plugins@.len() - index,
            {
                if plugins[index].is_master_file() {
                    assert(views[index as int].is_master_file);
                    return false;
                }
                index += 1;
            }
            true
        },
        None => {
            assert forall|index: int| 0 <= index < views.len() implies views[index].is_master_file by {
                assert(plugins@[index]@.is_master_file);
            }
            true
        },
    }
}

/// Makes the load order the plugins that `plugin_names` name, in the order
/// of the names: see [`replaced`]. `installed` are the valid plugins that are
/// installed: a name that no plugin of the load order goes by names the
/// installed plugin that does. A plugin of the load order stays active or
/// inactive as it is, and one that is not named leaves the load order.
pub fn replace_plugins(
    plugins: &mut Vec<Plugin>,
    plugin_names: &[&str],
    installed: &Vec<Plugin>,
) -> (result: Result<(), LoadOrderError>)
    ensures
        came_out_as(
            replaced(
                plugin_views(old(plugins)@),
                plugin_views(installed@),
                str_views(plugin_names@),
            ),
            result,
            plugin_views(old(plugins)@),
            plugin_views(final(plugins)@),
            str_views(plugin_names@),
        ),
{
    if !are_plugin_names_unique(plugin_names) {
        return Err(LoadOrderError::DuplicatePlugin);
    }
    let ghost before = plugin_views(plugins@);
    let ghost found = plugin_views(installed@);
    let ghost names = str_views(plugin_names@);
    let ghost unknown = |name: Seq<char>| is_unknown(before, found, name);
    let mut named: Vec<Plugin> = Vec::new();
    let mut index: usize = 0;
    assert(plugin_views(named@) =~= named_plugins(before, found, names.take(0)));
    while index < plugin_names.len()
        invariant
            index <= plugin_names@.len(),
            plugins@ == old(plugins)@,
            before == plugin_views(plugins@),
            found == plugin_views(installed@),
            names == str_views(plugin_names@),
            unknown == |name: Seq<char>| is_unknown(before, found, name),
            are_distinct_names(names),
            forall|earlier: int| 0 <= earlier < index ==> !unknown(#[trigger] names[earlier]),
            plugin_views(named@) == named_plugins(before, found, names.take(index as int)),
        decreases plugin_names@.len() - index,
    {
        let ghost listed = plugin_views(named@);
        assert(plugin_names@[index as int]@ == names[index as int]);
        match find_named_plugin(plugins, installed, plugin_names[index]) {
            Some(plugin) => {
                named.push(plugin);
                assert(plugin_views(named@) =~= listed.push(plugin@));
                assert(plugin_views(named@) =~= named_plugins(
                    before,
                    found,
                    names.take(index + 1),
                ));
            },
            None => {
                proof {
                    assert(unknown(names[index as int]));
                    lemma_first_position_found(names, unknown, index as int);
                }
                return Err(LoadOrderError::InvalidPlugin(plugin_names[index].to_owned()));
            },
        }
        index += 1;
    }
    proof {
        assert(names.take(index as int) =~= names);
        lemma_first_position_missing(names, unknown);
    }
    if !is_partitioned_by_master_flag(&named) {
        return Err(LoadOrderError::NonMasterBeforeMaster);
    }
    *plugins = named;
    Ok(())
}

/// `plugins` without the plugin that goes by `name`, if there is one.
pub open spec fn without_named(plugins: Seq<PluginView>, name: Seq<char>) -> Seq<PluginView> {
    match position_of(plugins, name) {
        Some(index) => plugins.remove(index),
        None => plugins,
    }
}

/// Where a plugin that is to stand at `position` comes to stand among
/// `count` others: at `position`, or behind them all where there are fewer.
pub open spec fn place_at(count: nat, position: int) -> int {
    if position < count {
        position
    } else {
        count as int
    }
}

/// Whether `plugin` can be put at `place` among `others` and stand neither as
/// a master file behind a plugin that is none, nor before a master file
/// without being one.
pub open spec fn can_stand_at(others: Seq<PluginView>, plugin: PluginView, place: int) -> bool {
    if plugin.is_master_file {
        forall|earlier: int|
            0 <= earlier < place && earlier < others.len() ==> (#[trigger] others[earlier]).is_master_file
    } else {
        forall|later: int| place <= later < others.len() ==> !(#[trigger] others[later]).is_master_file
    }
}

/// Whether `plugin` can be put at `place`: see [`can_stand_at`].
pub fn validate_index(others: &Vec<Plugin>, plugin: &Plugin, place: usize) -> (valid: bool)
    ensures
        valid == can_stand_at(plugin_views(others@), plugin@, place as int),
{
    let ghost views = plugin_views(others@);
    if plugin.is_master_file() {
        let mut index: usize = 0;
        while index < place && index < others.len()
            invariant
                index <= place,
                index <= others@.len(),
                views == plugin_views(others@),
                plugin@.is_master_file,
                forall|earlier: int| 0 <= earlier < index ==> (#[trigger] views[earlier]).is_master_file,
            decreases others@.len() - index,
        {
            if !others[index].is_master_file() {
                assert(!views[index as int].is_master_file);
                return false;
            }
            index += 1;
        }
        true
    } else {
        let mut index: usize = place;
        while index < others.len()
            invariant
                place <= index,
                views == plugin_views(others@),
                !plugin@.is_master_file,
                forall|later: int| place <= later < index ==> !(#[trigger] views[later]).is_master_file,
            decreases others@.len() - index,
        {
            if others[index].is_master_file() {
                assert(views[index as int].is_master_file);
                return false;
            }
            index += 1;
        }
        true
    }
}

/// The load order with the plugin that `name` names at `position`, or at
/// the end where the load order is shorter: `plugins` is the load order as it
/// is, `installed` are the valid plugins that are installed. A plugin that
/// stands at `position` already stays there. The change is refused where the
/// name names no plugin, and where the plugin cannot stand at its place (see
/// [`can_stand_at`]).
pub open spec fn moved(
    plugins: Seq<PluginView>,
    installed: Seq<PluginView>,
    name: Seq<char>,
    position: int,
) -> Result<Seq<PluginView>, Refusal> {
    let others = without_named(plugins, name);
    let place = place_at(others.len(), position);
    if position_of(plugins, name) == Some(position) {
        Ok(plugins)
    } else {
        match named_plugin(plugins, installed, name) {
            Some(plugin) => if can_stand_at(others, plugin, place) {
                Ok(others.insert(place, plugin))
            } else {
                Err(Refusal::NonMasterBeforeMaster)
            },
            None => Err(Refusal::InvalidPlugin(0)),
        }
    }
}

/// Puts the plugin that `plugin_name` names at `position` of the load order:
/// see [`moved`]. A plugin of the load order is moved there and stays active
/// or inactive as it is; `installed` are the valid plugins that are installed,
/// of which one that the load order lacks is put in.
pub fn move_or_insert_plugin_with_index(
    plugins: &mut Vec<Plugin>,
    plugin_name: &str,
    position: usize,
    installed: &Vec<Plugin>,
) -> (result: Result<(), LoadOrderError>)
    ensures
        came_out_as(
            moved(
                plugin_views(old(plugins)@),
                plugin_views(installed@),
                plugin_name@,
                position as int,
            ),
            result,
            plugin_views(old(plugins)@),
            plugin_views(final(plugins)@),
            seq![plugin_name@],
        ),
{
    let ghost before = plugin_views(plugins@);
    let existing = index_of(plugins, plugin_name);
    let plugin = match existing {
        Some(index) => {
            if index == position {
                return Ok(());
            }
            let plugin = plugins.remove(index);
            assert(plugin_views(plugins@) =~= before.remove(index as int));
            plugin
        },
        None => match find_named_plugin(plugins, installed, plugin_name) {
            Some(plugin) => plugin,
            None => {
                return Err(LoadOrderError::InvalidPlugin(plugin_name.to_owned()));
            },
        },
    };
    let ghost others = plugin_views(plugins@);
    let place = if position < plugins.len() {
        position
    } else {
        plugins.len()
    };
    if validate_index(plugins, &plugin, place) {
        plugins.insert(place, plugin);
        assert(plugin_views(plugins@) =~= others.insert(place as int, plugin@));
        Ok(())
    } else {
        match existing {
            Some(index) => {
                plugins.insert(index, plugin);
                assert(plugin_views(plugins@) =~= before);
            },
            None => {},
        }
        Err(LoadOrderError::NonMasterBeforeMaster)
    }
}

/// A change of the order that is not refused leaves the master files in
/// front of all others, where they were in front before.
pub proof fn lemma_moved_keeps_masters_first(
    plugins: Seq<PluginView>,
    installed: Seq<PluginView>,
    name: Seq<char>,
    position: int,
)
    requires
        masters_first(plugins),
        0 <= position,
    ensures
        masters_first(without_named(plugins, name)),
        moved(plugins, installed, name, position) matches Ok(after) ==> masters_first(after),
{
    let others = without_named(plugins, name);
    let place = place_at(others.len(), position);
    lemma_first_position(plugins, |other: PluginView| other.name_matches(name));
    assert forall|earlier: int, later: int|
        0 <= earlier < later < others.len() && (#[trigger] others[later]).is_master_file implies (
    #[trigger] others[earlier]).is_master_file by {
        match position_of(plugins, name) {
            Some(index) => {
                let from = if earlier < index {
                    earlier
                } else {
                    earlier + 1
                };
                let to = if later < index {
                    later
                } else {
                    later + 1
                };
                assert(plugins[to].is_master_file ==> plugins[from].is_master_file);
            },
            None => {},
        }
    }
    if position_of(plugins, name) != Some(position) {
        match named_plugin(plugins, installed, name) {
            Some(plugin) => {
                if can_stand_at(others, plugin, place) {
                    let after = others.insert(place, plugin);
                    assert forall|earlier: int, later: int|
                        0 <= earlier < later < after.len() && (
                        #[trigger] after[later]).is_master_file implies (
                    #[trigger] after[earlier]).is_master_file by {
                        if later == place {
                            assert(others[earlier].is_master_file);
                        } else if earlier == place {
                            assert(after[later] == others[later - 1]);
                            if !plugin.is_master_file {
                                assert(!others[later - 1].is_master_file);
                            }
                        } else {
                            let from = if earlier < place {
                                earlier
                            } else {
                                earlier - 1
                            };
                            let to = if later < place {
                                later
                            } else {
                                later - 1
                            };
                            assert(others[to].is_master_file ==> others[from].is_master_file);
                        }
                    }
                }
            },
            None => {},
        }
    }
}

} // verus!
