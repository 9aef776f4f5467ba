//! Changing, one by one or all at once, which plugins are active.
//!
//! A change is checked before anything is altered: where it is refused, the
//! load order is as it was. A plugin that is made active and that the load
//! order lacks is put into it.
use crate::enums::LoadOrderError;
use crate::load_order::mutable::{
    all_inactive, count_active_plugins, deactivate_all, MAX_ACTIVE_PLUGINS,
};
use crate::load_order::readable::{find_first_non_master_position, index_of, str_views};
use crate::load_order::reordering::{came_out_as, first_unknown, is_unknown, Refusal};
use crate::load_order::timestamp_based::with_inserted;
use crate::load_order::{
    count_active, lemma_first_position_found, lemma_first_position_missing, plugin_views,
    position_of,
};
use crate::plugin::{Plugin, PluginView};
use vstd::prelude::*;

verus! {

/// `plugins` with the plugin active that `name` names: the plugin of the load
/// order that goes by the name or, where there is none, the installed one,
/// which is put where [`with_inserted`] says. A name that names no plugin
/// changes nothing.
pub open spec fn activated(
    plugins: Seq<PluginView>,
    installed: Seq<PluginView>,
    name: Seq<char>,
) -> Seq<PluginView> {
    match position_of(plugins, name) {
        Some(index) => plugins.update(index, plugins[index].with_active(true)),
        None => match position_of(installed, name) {
            Some(index) => with_inserted(plugins, installed[index].with_active(true)),
            None => plugins,
        },
    }
}

/// Whether the plugin of the load order that goes by `name` is active.
pub open spec fn is_active_plugin(plugins: Seq<PluginView>, name: Seq<char>) -> bool {
    match position_of(plugins, name) {
        Some(index) => plugins[index].active,
        None => false,
    }
}

/// The load order with the plugin active that `name` names. The change is
/// refused where the name names no plugin, and where the plugin is not active
/// while as many plugins are as a game loads.
pub open spec fn activation(
    plugins: Seq<PluginView>,
    installed: Seq<PluginView>,
    name: Seq<char>,
) -> Result<Seq<PluginView>, Refusal> {
    if is_unknown(plugins, installed, name) {
        Err(Refusal::InvalidPlugin(0))
    } else if !is_active_plugin(plugins, name) && count_active(plugins) >= MAX_ACTIVE_PLUGINS {
        Err(Refusal::TooManyActivePlugins)
    } else {
        Ok(activated(plugins, installed, name))
    }
}

/// The load order with the plugin inactive that goes by `name`. The change is
/// refused where no plugin of the load order goes by the name.
pub open spec fn deactivation(plugins: Seq<PluginView>, name: Seq<char>) -> Result<
    Seq<PluginView>,
    Refusal,
> {
    match position_of(plugins, name) {
        Some(index) => Ok(plugins.update(index, plugins[index].with_active(false))),
        None => Err(Refusal::InvalidPlugin(0)),
    }
}

/// `plugins` with the plugins active that `names` name, made active one after
/// the other in the order of the names.
pub open spec fn with_all_activated(
    plugins: Seq<PluginView>,
    installed: Seq<PluginView>,
    names: Seq<Seq<char>>,
) -> Seq<PluginView>
    decreases names.len(),
{
    if names.len() == 0 {
        plugins
    } else {
        activated(with_all_activated(plugins, installed, names.drop_last()), installed, names.last())
    }
}

/// The load order with the plugins active that `names` name, and no others.
/// The change is refused where there are more names than a game loads
/// plugins; else where a name names no plugin, for the first such name.
pub open spec fn activation_of_all(
    plugins: Seq<PluginView>,
    installed: Seq<PluginView>,
    names: Seq<Seq<char>>,
) -> Result<Seq<PluginView>, Refusal> {
    if names.len() > MAX_ACTIVE_PLUGINS {
        Err(Refusal::TooManyActivePlugins)
    } else {
        match first_unknown(plugins, installed, names) {
            Some(index) => Err(Refusal::InvalidPlugin(index)),
            None => Ok(with_all_activated(all_inactive(plugins), installed, names)),
        }
    }
}

/// Puts `plugin` into the load order: a master file before the first plugin
/// that is none, any other plugin at the end.
pub fn insert(plugins: &mut Vec<Plugin>, plugin: Plugin)
    ensures
        plugin_views(final(plugins)@) == with_inserted(plugin_views(old(plugins)@), plugin@),
{
    let ghost before = plugin_views(plugins@);
    let ghost not_master = |other: PluginView| !other.is_master_file;
    let position = if plugin.is_master_file() {
        find_first_non_master_position(plugins)
    } else {
        None
    };
    proof {
        if plugin@.is_master_file {
            match position {
                Some(index) => lemma_first_position_found(before, not_master, index as int),
                None => {
                    assert forall|index: int| 0 <= index < before.len() implies !not_master(
                        #[trigger] before[index],
                    ) by {
                        assert(plugins@[index]@.is_master_file);
                    }
                    lemma_first_position_missing(before, not_master);
                },
            }
        }
    }
    match position {
        Some(index) => {
            let count = plugins.len();
            assert(index < before.len() == count);
            plugins.insert(index, plugin);
            assert(plugin_views(plugins@) =~= before.insert(index as int, plugin@));
        },
        None => {
            plugins.push(plugin);
            assert(plugin_views(plugins@) =~= before.push(plugin@));
        },
    }
}

/// Makes the plugin active that `plugin_name` names: see [`activated`].
pub fn activate_unvalidated(plugins: &mut Vec<Plugin>, plugin_name: &str, installed: &Vec<Plugin>)
    ensures
        plugin_views(final(plugins)@) == activated(
            plugin_views(old(plugins)@),
            plugin_views(installed@),
            plugin_name@,
        ),
{
    let ghost before = plugin_views(plugins@);
    match index_of(plugins, plugin_name) {
        Some(index) => {
            plugins[index].activate();
            assert(plugin_views(plugins@) =~= before.update(
                index as int,
                before[index as int].with_active(true),
            ));
        },
        None => match index_of(installed, plugin_name) {
            Some(index) => {
                let mut plugin = installed[index].copy_of();
                plugin.activate();
                insert(plugins, plugin);
            },
            None => {},
        },
    }
}

/// Makes the plugin active that `plugin_name` names: see [`activation`].
/// `installed` are the valid plugins that are installed, of which one that
/// the load order lacks is put into it.
pub fn activate(plugins: &mut Vec<Plugin>, plugin_name: &str, installed: &Vec<Plugin>) -> (result:
    Result<(), LoadOrderError>)
    ensures
        came_out_as(
            activation(plugin_views(old(plugins)@), plugin_views(installed@), plugin_name@),
            result,
            plugin_views(old(plugins)@),
            plugin_views(final(plugins)@),
            seq![plugin_name@],
        ),
{
    let is_active = match index_of(plugins, plugin_name) {
        Some(index) => plugins[index].is_active(),
        None => {
            if index_of(installed, plugin_name).is_none() {
                return Err(LoadOrderError::InvalidPlugin(plugin_name.to_owned()));
            }
            false
        },
    };
    if !is_active && count_active_plugins(plugins) >= MAX_ACTIVE_PLUGINS {
        return Err(LoadOrderError::TooManyActivePlugins);
    }
    activate_unvalidated(plugins, plugin_name, installed);
    Ok(())
}

/// Makes the plugin inactive that goes by `plugin_name`: see [`deactivation`].
pub fn deactivate(plugins: &mut Vec<Plugin>, plugin_name: &str) -> (result: Result<
    (),
    LoadOrderError,
>)
    ensures
        came_out_as(
            deactivation(plugin_views(old(plugins)@), plugin_name@),
            result,
            plugin_views(old(plugins)@),
            plugin_views(final(plugins)@),
            seq![plugin_name@],
        ),
{
    let ghost before = plugin_views(plugins@);
    match index_of(plugins, plugin_name) {
        Some(index) => {
            plugins[index].deactivate();
            assert(plugin_views(plugins@) =~= before.update(
                index as int,
                before[index as int].with_active(false),
            ));
            Ok(())
        },
        None => Err(LoadOrderError::InvalidPlugin(plugin_name.to_owned())),
    }
}

/// Makes the plugins active that `active_plugin_names` name, and no others:
/// see [`activation_of_all`]. `installed` are the valid plugins that are
/// installed, of which those that the load order lacks are put into it.
pub fn set_active_plugins(
    plugins: &mut Vec<Plugin>,
    active_plugin_names: &[&str],
    installed: &Vec<Plugin>,
) -> (result: Result<(), LoadOrderError>)
    ensures
        came_out_as(
            activation_of_all(
                plugin_views(old(plugins)@),
                plugin_views(installed@),
                str_views(active_plugin_names@),
            ),
            result,
            plugin_views(old(plugins)@),
            plugin_views(final(plugins)@),
            str_views(active_plugin_names@),
        ),
{
    if active_plugin_names.len() > MAX_ACTIVE_PLUGINS {
        return Err(LoadOrderError::TooManyActivePlugins);
    }
    let ghost before = plugin_views(plugins@);
    let ghost found = plugin_views(installed@);
    let ghost names = str_views(active_plugin_names@);
    let ghost unknown = |name: Seq<char>| is_unknown(before, found, name);
    let mut index: usize = 0;
    while index < active_plugin_names.len()
        invariant
            index <= active_plugin_names@.len(),
            active_plugin_names@.len() <= MAX_ACTIVE_PLUGINS,
            plugins@ == old(plugins)@,
            before == plugin_views(plugins@),
            found == plugin_views(installed@),
            names == str_views(active_plugin_names@),
            unknown == |name: Seq<char>| is_unknown(before, found, name),
            forall|earlier: int| 0 <= earlier < index ==> !unknown(#[trigger] names[earlier]),
        decreases active_plugin_names@.len() - index,
    {
        assert(active_plugin_names@[index as int]@ == names[index as int]);
        let name = active_plugin_names[index];
        if index_of(plugins, name).is_none() && index_of(installed, name).is_none() {
            proof {
                assert(unknown(names[index as int]));
                lemma_first_position_found(names, unknown, index as int);
            }
            return Err(LoadOrderError::InvalidPlugin(name.to_owned()));
        }
        assert(!unknown(names[index as int]));
        index += 1;
    }
    proof {
        lemma_first_position_missing(names, unknown);
    }
    deactivate_all(plugins);
    let ghost inactive = all_inactive(before);
    let mut index: usize = 0;
    while index < active_plugin_names.len()
        invariant
            index <= active_plugin_names@.len(),
            found == plugin_views(installed@),
            names == str_views(active_plugin_names@),
            plugin_views(plugins@) == with_all_activated(inactive, found, names.take(index as int)),
        decreases active_plugin_names@.len() - index,
    {
        assert(active_plugin_names@[index as int]@ == names[index as int]);
        assert(names.take(index + 1).drop_last() =~= names.take(index as int));
        activate_unvalidated(plugins, active_plugin_names[index], installed);
        index += 1;
    }
    assert(names.take(index as int) =~= names);
    Ok(())
}

} // verus!
