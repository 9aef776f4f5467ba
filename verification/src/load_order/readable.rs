//! Looking things up in a load order.
use crate::load_order::{
    active_plugins, is_first_position, lemma_first_position_found, lemma_first_position_missing,
    names_of, plugin_views, position_of,
};
use crate::plugin::{Plugin, PluginView};
use vstd::prelude::*;

verus! {

/// What the string slices of `names` hold, in their order.
pub open spec fn str_views(names: Seq<&str>) -> Seq<Seq<char>> {
    names.map_values(|name: &str| name@)
}

/// The names of the plugins, in load order.
pub fn plugin_names(plugins: &Vec<Plugin>) -> (names: Vec<&str>)
    ensures
        str_views(names@) == names_of(plugin_views(plugins@)),
{
    let mut names: Vec<&str> = Vec::new();
    let mut index: usize = 0;
    while index < plugins.len()
        invariant
            index <= plugins@.len(),
            str_views(names@) == names_of(plugin_views(plugins@.take(index as int))),
        decreases plugins@.len() - index,
    {
        let ghost before = str_views(names@);
        names.push(plugins[index].name());
        assert(str_views(names@) =~= before.push(plugins@[index as int]@.name));
        assert(plugins@.take(index + 1) =~= plugins@.take(index as int).push(plugins@[index as int]));
        assert(names_of(plugin_views(plugins@.take(index + 1))) =~= names_of(
            plugin_views(plugins@.take(index as int)),
        ).push(plugins@[index as int]@.name));
        index += 1;
    }
    assert(plugins@.take(index as int) =~= plugins@);
    names
}

/// Where the plugin that goes by `plugin_name` stands in the load order.
pub fn index_of(plugins: &Vec<Plugin>, plugin_name: &str) -> (index: Option<usize>)
    ensures
        match index {
            Some(index) => position_of(plugin_views(plugins@), plugin_name@) == Some(index as int),
            None => position_of(plugin_views(plugins@), plugin_name@) is None,
        },
{
    let ghost views = plugin_views(plugins@);
    let ghost wanted = |plugin: PluginView| plugin.name_matches(plugin_name@);
    let mut index: usize = 0;
    while index < plugins.len()
        invariant
            index <= plugins@.len(),
            views == plugin_views(plugins@),
            wanted == |plugin: PluginView| plugin.name_matches(plugin_name@),
            forall|earlier: int| 0 <= earlier < index ==> !wanted(#[trigger] views[earlier]),
        decreases plugins@.len() - index,
    {
        if plugins[index].name_matches(plugin_name) {
            proof {
                assert(wanted(views[index as int]));
                lemma_first_position_found(views, wanted, index as int);
            }
            return Some(index);
        }
        assert(!wanted(views[index as int]));
        index += 1;
    }
    proof {
        lemma_first_position_missing(views, wanted);
    }
    None
}

/// The name of the plugin at `index` of the load order.
pub fn plugin_at(plugins: &Vec<Plugin>, index: usize) -> (name: Option<&str>)
    ensures
        match name {
            Some(name) => index < plugins@.len() && name@ == plugins@[index as int]@.name,
            None => index >= plugins@.len(),
        },
{
    if index < plugins.len() {
        Some(plugins[index].name())
    } else {
        None
    }
}

/// The names of the active plugins, in load order.
pub fn active_plugin_names(plugins: &Vec<Plugin>) -> (names: Vec<&str>)
    ensures
        str_views(names@) == names_of(active_plugins(plugin_views(plugins@))),
{
    let mut names: Vec<&str> = Vec::new();
    let mut index: usize = 0;
    let ghost is_active = |plugin: PluginView| plugin.active;
    assert(plugin_views(plugins@.take(0)).filter(is_active) =~= Seq::empty()) by {
        reveal(Seq::filter);
    }
    while index < plugins.len()
        invariant
            index <= plugins@.len(),
            is_active == |plugin: PluginView| plugin.active,
            str_views(names@) == names_of(
                plugin_views(plugins@.take(index as int)).filter(is_active),
            ),
        decreases plugins@.len() - index,
    {
        let ghost before = str_views(names@);
        let ghost seen = plugin_views(plugins@.take(index as int));
        proof {
            assert(plugin_views(plugins@.take(index + 1)) =~= seen.push(plugins@[index as int]@));
            seen.lemma_filter_push(plugins@[index as int]@, is_active);
        }
        if plugins[index].is_active() {
            names.push(plugins[index].name());
            assert(str_views(names@) =~= before.push(plugins@[index as int]@.name));
            assert(names_of(seen.filter(is_active).push(plugins@[index as int]@)) =~= names_of(
                seen.filter(is_active),
            ).push(plugins@[index as int]@.name));
        }
        index += 1;
    }
    assert(plugins@.take(index as int) =~= plugins@);
    names
}

/// Whether the plugin that goes by `plugin_name` is in the load order and
/// active.
pub fn is_active(plugins: &Vec<Plugin>, plugin_name: &str) -> (active: bool)
    ensures
        active == match position_of(plugin_views(plugins@), plugin_name@) {
            Some(index) => plugins@[index]@.active,
            None => false,
        },
{
    match index_of(plugins, plugin_name) {
        Some(index) => plugins[index].is_active(),
        None => false,
    }
}

/// Where the first plugin stands that is no master file.
pub fn find_first_non_master_position(plugins: &Vec<Plugin>) -> (position: Option<usize>)
    ensures
        match position {
            Some(index) => is_first_position(
                plugin_views(plugins@),
                |plugin: PluginView| !plugin.is_master_file,
                index as int,
            ),
            None => forall|index: int|
                0 <= index < plugins@.len() ==> (#[trigger] plugins@[index])@.is_master_file,
        },
{
    let mut index: usize = 0;
    while index < plugins.len()
        invariant
            index <= plugins@.len(),
            forall|earlier: int|
                0 <= earlier < index ==> (#[trigger] plugins@[earlier])@.is_master_file,
        decreases plugins@.len() - index,
    {
        if !plugins[index].is_master_file() {
            assert forall|earlier: int| 0 <= earlier < index implies !(|plugin: PluginView|
                !plugin.is_master_file)(#[trigger] plugin_views(plugins@)[earlier]) by {
                assert(plugins@[earlier]@.is_master_file);
            }
            return Some(index);
        }
        index += 1;
    }
    None
}

} // verus!
