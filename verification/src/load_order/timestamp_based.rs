//! The load order of the games that keep it in the modification times of the
//! plugin files.
use crate::enums::{GameId, LoadOrderError};
use crate::game_settings::{string_views, GameSettings, GameSettingsView};
use crate::lines::{content_view, lines};
use crate::load_order::active_plugins_file::{
    active_plugins_file_content, decoded_lines, file_prelude, listed_names, read_plugin_names,
    regex_compiles, save_active_plugins, KEYED_LINE_PATTERN,
};
use crate::load_order::mutable::{
    activate_listed, all_inactive, deactivate_all, deactivate_excess_plugins, with_listed_active,
    without_excess,
};
use crate::load_order::order::{in_file_order, masters_first, precedes};
use crate::load_order::sorting::sort_plugins;
use crate::load_order::timestamps::{
    padded_timestamps, padded_timestamps_fit, padded_unique_timestamps, seconds, times_of,
};
use crate::load_order::reordering::{
    came_out_as, move_or_insert_plugin_with_index, moved, replace_plugins, replaced,
};
use crate::load_order::writable::{
    activate, activation, activation_of_all, deactivate, deactivation, set_active_plugins,
};
use crate::load_order::readable::{
    active_plugin_names, find_first_non_master_position, index_of, is_active, plugin_at,
    plugin_names, str_views,
};
use crate::load_order::{
    active_plugins, first_position, is_first_position, lemma_first_position,
    lemma_first_position_found, lemma_first_position_missing, names_of, plugin_views, position_of,
};
use crate::plugin::{Plugin, PluginView};
use vstd::prelude::*;

verus! {

/// What a [`TimestampBasedLoadOrder`] stands for in contracts.
pub struct LoadOrderView {
    pub game_settings: GameSettingsView,
    /// The plugins, in load order.
    pub plugins: Seq<PluginView>,
}

/// The plugins of a game in the order in which it loads them. Any sequence of
/// plugins is a load order: that master files come first is brought about by
/// `load` and kept by `insert_position`, not demanded of every state.
#[derive(Clone, Debug)]
pub struct TimestampBasedLoadOrder {
    game_settings: GameSettings,
    plugins: Vec<Plugin>,
}

impl View for TimestampBasedLoadOrder {
    type V = LoadOrderView;

    closed spec fn view(&self) -> LoadOrderView {
        LoadOrderView {
            game_settings: self.game_settings@,
            plugins: plugin_views(self.plugins@),
        }
    }
}

/// The plugins that discovery found valid, in the order in which it came upon
/// their files. A file that is no valid plugin is a `None`.
pub open spec fn valid_plugins(candidates: Seq<Option<Plugin>>) -> Seq<PluginView> {
    candidates.filter_map(
        |candidate: Option<Plugin>|
            match candidate {
                Some(plugin) => Some(plugin@),
                None => None,
            },
    )
}

/// Keeps the plugins among the files that were found in the plugins
/// directory: a file that is no valid plugin is left out, and stops nothing.
pub fn load_plugins_from_dir(candidates: Vec<Option<Plugin>>) -> (plugins: Vec<Plugin>)
    ensures
        plugin_views(plugins@) == valid_plugins(candidates@),
{
    let ghost all = candidates@;
    let ghost valid = |candidate: Option<Plugin>|
        match candidate {
            Some(plugin) => Some(plugin@),
            None => None,
        };
    let mut candidates = candidates;
    let mut plugins: Vec<Plugin> = Vec::new();
    let mut index: usize = 0;
    assert(all.take(0).filter_map(valid) =~= Seq::empty());
    assert(plugin_views(plugins@) =~= Seq::empty());
    while index < candidates.len()
        invariant
            index <= candidates@.len(),
            candidates@.len() == all.len(),
            valid == |candidate: Option<Plugin>|
                match candidate {
                    Some(plugin) => Some(plugin@),
                    None => None,
                },
            forall|later: int| index <= later < all.len() ==> candidates@[later] == all[later],
            plugin_views(plugins@) == all.take(index as int).filter_map(valid),
        decreases candidates@.len() - index,
    {
        let ghost before = plugin_views(plugins@);
        proof {
            all.lemma_filter_map_take_succ(valid, index as int);
        }
        match candidates[index].take() {
            Some(plugin) => {
                plugins.push(plugin);
                assert(plugin_views(plugins@) =~= before.push(plugin@));
            },
            None => {},
        }
        index += 1;
    }
    assert(all.take(index as int) =~= all);
    plugins
}

/// The names that the active plugins file lists, given all that the file
/// holds (`None`: there is no file, which lists nothing).
pub open spec fn names_in_file(game_id: GameId, content: Option<Seq<u8>>) -> Seq<Seq<char>> {
    match content {
        Some(content) => listed_names(game_id, KEYED_LINE_PATTERN@, decoded_lines(content)),
        None => Seq::empty(),
    }
}

/// Whether the active plugins file cannot be read: it is a keyed list with a
/// line in it, and the pattern for such lines does not compile.
pub open spec fn is_unreadable(game_id: GameId, content: Option<Seq<u8>>) -> bool {
    match content {
        Some(content) => game_id.uses_keyed_list() && lines(content).len() > 0 && !regex_compiles(
            KEYED_LINE_PATTERN@,
        ),
        None => false,
    }
}

/// The plugins `sorted` with those active that a load makes active: the ones
/// that the active plugins file lists and the ones that the game loads in any
/// case, less those that are more than the game loads.
pub open spec fn with_loaded_activity(
    sorted: Seq<PluginView>,
    listed: Seq<Seq<char>>,
    implicit: Seq<Seq<char>>,
) -> Seq<PluginView> {
    without_excess(
        with_listed_active(with_listed_active(all_inactive(sorted), listed), implicit),
        implicit,
    )
}

/// Where a plugin that `plugins` lack is to be put, if anywhere in particular:
/// a master file at the place of the first plugin that is none.
pub open spec fn preferred_position(plugins: Seq<PluginView>, plugin: PluginView) -> Option<int> {
    if plugin.is_master_file {
        first_position(plugins, |other: PluginView| !other.is_master_file)
    } else {
        None
    }
}

/// `plugins` with `plugin` put where [`preferred_position`] says, or at the
/// end where it names no place.
pub open spec fn with_inserted(plugins: Seq<PluginView>, plugin: PluginView) -> Seq<PluginView> {
    match preferred_position(plugins, plugin) {
        Some(index) => plugins.insert(index, plugin),
        None => plugins.push(plugin),
    }
}

/// A plugin that is put where [`preferred_position`] says leaves the master
/// files in front of all others.
pub proof fn lemma_insertion_keeps_masters_first(plugins: Seq<PluginView>, plugin: PluginView)
    requires
        masters_first(plugins),
    ensures
        masters_first(with_inserted(plugins, plugin)),
{
    let not_master = |other: PluginView| !other.is_master_file;
    let after = with_inserted(plugins, plugin);
    lemma_first_position(plugins, not_master);
    assert forall|earlier: int, later: int|
        0 <= earlier < later < after.len() && (#[trigger] after[later]).is_master_file implies (
    #[trigger] after[earlier]).is_master_file by {
        match preferred_position(plugins, plugin) {
            Some(index) => {
                if earlier < index {
                    assert(!not_master(plugins[earlier]));
                } else if earlier > index {
                    assert(plugins[later - 1].is_master_file ==> plugins[earlier - 1].is_master_file);
                }
            },
            None => {
                if later < plugins.len() {
                    assert(plugins[later].is_master_file ==> plugins[earlier].is_master_file);
                } else {
                    assert(!not_master(plugins[earlier]));
                }
            },
        }
    }
}

/// `plugins` with the modification times `times`, one for each in their order.
pub open spec fn with_times(plugins: Seq<PluginView>, times: Seq<int>) -> Seq<PluginView> {
    Seq::new(plugins.len(), |index: int| plugins[index].with_modification_time(times[index] as u64))
}

impl TimestampBasedLoadOrder {
    /// An empty load order.
    pub fn new(game_settings: GameSettings) -> (load_order: Self)
        ensures
            load_order@ == (LoadOrderView {
                game_settings: game_settings@,
                plugins: Seq::empty(),
            }),
    {
        let load_order = Self { game_settings, plugins: Vec::new() };
        assert(plugin_views(load_order.plugins@) =~= Seq::empty());
        load_order
    }

    /// The load order of `plugins`, in the order in which they are given.
    pub fn with_plugins(game_settings: GameSettings, plugins: Vec<Plugin>) -> (load_order: Self)
        ensures
            load_order@ == (LoadOrderView {
                game_settings: game_settings@,
                plugins: plugin_views(plugins@),
            }),
    {
        Self { game_settings, plugins }
    }

    /// The game whose load order it is.
    pub fn game_settings(&self) -> (game_settings: &GameSettings)
        ensures
            game_settings@ == self@.game_settings,
    {
        &self.game_settings
    }

    /// The plugins, in load order.
    pub fn plugins(&self) -> (plugins: &Vec<Plugin>)
        ensures
            plugin_views(plugins@) == self@.plugins,
    {
        &self.plugins
    }

    /// The plugins, in load order, to be changed at will: any sequence of
    /// plugins is a load order.
    pub fn plugins_mut(&mut self) -> (plugins: &mut Vec<Plugin>)
        ensures
            plugin_views(plugins@) == old(self)@.plugins,
            final(self)@ == (LoadOrderView {
                game_settings: old(self)@.game_settings,
                plugins: plugin_views(final(plugins)@),
            }),
    {
        &mut self.plugins
    }

    /// The names of the plugins, in load order.
    pub fn plugin_names(&self) -> (names: Vec<&str>)
        ensures
            str_views(names@) == names_of(self@.plugins),
    {
        plugin_names(&self.plugins)
    }

    /// Where the plugin that goes by `plugin_name` stands.
    pub fn index_of(&self, plugin_name: &str) -> (index: Option<usize>)
        ensures
            match index {
                Some(index) => position_of(self@.plugins, plugin_name@) == Some(index as int),
                None => position_of(self@.plugins, plugin_name@) is None,
            },
    {
        index_of(&self.plugins, plugin_name)
    }

    /// The name of the plugin at `index`.
    pub fn plugin_at(&self, index: usize) -> (name: Option<&str>)
        ensures
            match name {
                Some(name) => index < self@.plugins.len() && name@ == self@.plugins[index as int].name,
                None => index >= self@.plugins.len(),
            },
    {
        plugin_at(&self.plugins, index)
    }

    /// The names of the active plugins, in load order.
    pub fn active_plugin_names(&self) -> (names: Vec<&str>)
        ensures
            str_views(names@) == names_of(active_plugins(self@.plugins)),
    {
        active_plugin_names(&self.plugins)
    }

    /// Whether the plugin that goes by `plugin_name` is installed and active.
    pub fn is_active(&self, plugin_name: &str) -> (active: bool)
        ensures
            active == match position_of(self@.plugins, plugin_name@) {
                Some(index) => self@.plugins[index].active,
                None => false,
            },
    {
        is_active(&self.plugins, plugin_name)
    }

    /// Replaces the load order by what is installed. `candidates` are the files
    /// that were found in the plugins directory, each as the plugin it is or as
    /// `None` where it is no valid plugin; `active_plugins_content` is all that
    /// the active plugins file holds, or `None` where there is no such file.
    ///
    /// The valid plugins are put into the order that their files give. Active
    /// are then the plugins that the file lists and those that the game loads
    /// in any case, as far as the game loads so many: see
    /// [`with_loaded_activity`]. Where the file cannot be read (see
    /// [`is_unreadable`]), all are inactive.
    pub fn load(
        &mut self,
        candidates: Vec<Option<Plugin>>,
        active_plugins_content: Option<&[u8]>,
    ) -> (result: Result<(), LoadOrderError>)
        ensures
            final(self)@.game_settings == old(self)@.game_settings,
            in_file_order(final(self)@.plugins),
            all_inactive(final(self)@.plugins).to_multiset() == all_inactive(
                valid_plugins(candidates@),
            ).to_multiset(),
            result is Err <==> is_unreadable(
                old(self)@.game_settings.id,
                content_view(active_plugins_content),
            ),
            match result {
                Ok(()) => final(self)@.plugins == with_loaded_activity(
                    final(self)@.plugins,
                    names_in_file(
                        old(self)@.game_settings.id,
                        content_view(active_plugins_content),
                    ),
                    old(self)@.game_settings.implicitly_active_plugins,
                ),
                Err(error) => error is InvalidRegex && final(self)@.plugins == all_inactive(
                    final(self)@.plugins,
                ),
            },
    {
        self.plugins = load_plugins_from_dir(candidates);
        sort_plugins(&mut self.plugins);
        let ghost ordered = plugin_views(self.plugins@);
        deactivate_all(&mut self.plugins);
        let ghost sorted = plugin_views(self.plugins@);
        proof {
            assert(all_inactive(sorted) =~= sorted);
            assert forall|earlier: int, later: int|
                0 <= earlier < later < sorted.len() implies !precedes(
                #[trigger] sorted[later],
                #[trigger] sorted[earlier],
            ) by {
                assert(!precedes(ordered[later], ordered[earlier]));
            }
            crate::load_order::lemma_map_values_to_multiset(
                valid_plugins(candidates@),
                ordered,
                |plugin: PluginView| plugin.with_active(false),
            );
        }
        let names = match active_plugins_content {
            Some(content) => read_plugin_names(content, KEYED_LINE_PATTERN, self.game_settings.id())?,
            None => {
                let names: Vec<String> = Vec::new();
                assert(string_views(names@) =~= Seq::empty());
                names
            },
        };
        activate_listed(&mut self.plugins, &names);
        let ghost listed = plugin_views(self.plugins@);
        activate_listed(&mut self.plugins, self.game_settings.implicitly_active_plugins());
        let ghost marked = plugin_views(self.plugins@);
        deactivate_excess_plugins(&mut self.plugins, self.game_settings.implicitly_active_plugins());
        proof {
            let loaded = plugin_views(self.plugins@);
            assert forall|index: int| 0 <= index < sorted.len() implies (#[trigger] loaded[index]).with_active(
                false,
            ) == sorted[index] by {
                assert(listed[index].with_active(false) == sorted[index]);
                assert(marked[index].with_active(false) == sorted[index]);
            }
            assert(all_inactive(loaded) =~= sorted);
        }
        Ok(())
    }

    /// Gives the plugins the modification times that make their files give the
    /// load order (see [`padded_timestamps`]), and hands back the active
    /// plugins file that lists the active ones (see
    /// [`active_plugins_file_content`]). `existing_content` is all that the
    /// active plugins file holds now, or `None` where there is no such file.
    ///
    /// The times are given whether or not the file can be made.
    pub fn save(&mut self, existing_content: Option<&[u8]>) -> (content: Result<
        Vec<u8>,
        LoadOrderError,
    >)
        requires
            padded_timestamps_fit(times_of(old(self)@.plugins)),
        ensures
            final(self)@.game_settings == old(self)@.game_settings,
            final(self)@.plugins == with_times(
                old(self)@.plugins,
                padded_timestamps(times_of(old(self)@.plugins)),
            ),
            ({
                let game_id = old(self)@.game_settings.id;
                let expected = active_plugins_file_content(
                    game_id,
                    file_prelude(game_id, content_view(existing_content)),
                    names_of(active_plugins(final(self)@.plugins)),
                );
                match content {
                    Ok(bytes) => expected == Some(bytes@),
                    Err(error) => error is EncodeError && expected is None,
                }
            }),
    {
        let timestamps = padded_unique_timestamps(self.plugins.as_slice());
        let ghost before = plugin_views(self.plugins@);
        let ghost times = padded_timestamps(times_of(before));
        let mut index: usize = 0;
        assert(seconds(timestamps@).len() == timestamps@.len() && times.len() == before.len());
        while index < self.plugins.len()
            invariant
                index <= self.plugins@.len(),
                self.plugins@.len() == before.len(),
                self.game_settings == old(self).game_settings,
                timestamps@.len() == before.len(),
                seconds(timestamps@) == times,
                forall|earlier: int|
                    0 <= earlier < index ==> (#[trigger] self.plugins@[earlier])@
                        == before[earlier].with_modification_time(timestamps@[earlier]),
                forall|later: int|
                    index <= later < before.len() ==> (#[trigger] self.plugins@[later])@
                        == before[later],
            decreases self.plugins@.len() - index,
        {
            self.plugins[index].set_modification_time(timestamps[index]);
            index += 1;
        }
        proof {
            assert forall|at: int| 0 <= at < before.len() implies times[at] as u64
                == timestamps@[at] by {
                assert(seconds(timestamps@)[at] == timestamps@[at]);
            }
            assert(plugin_views(self.plugins@) =~= with_times(before, times));
        }
        save_active_plugins(self, existing_content)
    }

    /// Makes the load order the plugins that `plugin_names` name, in the order
    /// of the names: see [`replaced`]. `installed` are the valid plugins that
    /// are installed.
    pub fn set_load_order(&mut self, plugin_names: &[&str], installed: &Vec<Plugin>) -> (result:
        Result<(), LoadOrderError>)
        ensures
            final(self)@.game_settings == old(self)@.game_settings,
            came_out_as(
                replaced(old(self)@.plugins, plugin_views(installed@), str_views(plugin_names@)),
                result,
                old(self)@.plugins,
                final(self)@.plugins,
                str_views(plugin_names@),
            ),
    {
        replace_plugins(&mut self.plugins, plugin_names, installed)
    }

    /// Puts the plugin that `plugin_name` names at `position` of the load
    /// order: see [`moved`]. `installed` are the valid plugins that are
    /// installed.
    pub fn set_plugin_index(
        &mut self,
        plugin_name: &str,
        position: usize,
        installed: &Vec<Plugin>,
    ) -> (result: Result<(), LoadOrderError>)
        ensures
            final(self)@.game_settings == old(self)@.game_settings,
            came_out_as(
                moved(
                    old(self)@.plugins,
                    plugin_views(installed@),
                    plugin_name@,
                    position as int,
                ),
                result,
                old(self)@.plugins,
                final(self)@.plugins,
                seq![plugin_name@],
            ),
    {
        move_or_insert_plugin_with_index(&mut self.plugins, plugin_name, position, installed)
    }

    /// Makes the plugin active that `plugin_name` names: see [`activation`].
    /// `installed` are the valid plugins that are installed.
    pub fn activate(&mut self, plugin_name: &str, installed: &Vec<Plugin>) -> (result: Result<
        (),
        LoadOrderError,
    >)
        ensures
            final(self)@.game_settings == old(self)@.game_settings,
            came_out_as(
                activation(old(self)@.plugins, plugin_views(installed@), plugin_name@),
                result,
                old(self)@.plugins,
                final(self)@.plugins,
                seq![plugin_name@],
            ),
    {
        activate(&mut self.plugins, plugin_name, installed)
    }

    /// Makes the plugin inactive that goes by `plugin_name`: see
    /// [`deactivation`].
    pub fn deactivate(&mut self, plugin_name: &str) -> (result: Result<(), LoadOrderError>)
        ensures
            final(self)@.game_settings == old(self)@.game_settings,
            came_out_as(
                deactivation(old(self)@.plugins, plugin_name@),
                result,
                old(self)@.plugins,
                final(self)@.plugins,
                seq![plugin_name@],
            ),
    {
        deactivate(&mut self.plugins, plugin_name)
    }

    /// Makes the plugins active that `active_plugin_names` name, and no
    /// others: see [`activation_of_all`]. `installed` are the valid plugins
    /// that are installed.
    pub fn set_active_plugins(
        &mut self,
        active_plugin_names: &[&str],
        installed: &Vec<Plugin>,
    ) -> (result: Result<(), LoadOrderError>)
        ensures
            final(self)@.game_settings == old(self)@.game_settings,
            came_out_as(
                activation_of_all(
                    old(self)@.plugins,
                    plugin_views(installed@),
                    str_views(active_plugin_names@),
                ),
                result,
                old(self)@.plugins,
                final(self)@.plugins,
                str_views(active_plugin_names@),
            ),
    {
        set_active_plugins(&mut self.plugins, active_plugin_names, installed)
    }

    /// Whether the load order agrees with itself. It always does: the order is
    /// kept nowhere but in the files' modification times, so there is nothing
    /// that it could be at odds with.
    pub fn is_self_consistent(&self) -> (consistent: Result<bool, LoadOrderError>)
        ensures
            consistent == Ok::<bool, LoadOrderError>(true),
    {
        Ok(true)
    }

    /// Where a plugin that the load order lacks is to be put: a master file
    /// before the first plugin that is none, so that master files stay in
    /// front. `None` leaves the place to the caller, who then appends: for a
    /// plugin that is no master file, and for a master file where the load
    /// order holds master files only.
    pub fn insert_position(&self, plugin: &Plugin) -> (position: Option<usize>)
        ensures
            match position {
                Some(index) => preferred_position(self@.plugins, plugin@) == Some(index as int),
                None => preferred_position(self@.plugins, plugin@) is None,
            },
            match position {
                Some(index) => plugin@.is_master_file && is_first_position(
                    self@.plugins,
                    |other: PluginView| !other.is_master_file,
                    index as int,
                ),
                None => !plugin@.is_master_file || forall|index: int|
                    0 <= index < self@.plugins.len() ==> (#[trigger] self@.plugins[index]).is_master_file,
            },
    {
        if plugin.is_master_file() {
            let position = find_first_non_master_position(&self.plugins);
            proof {
                let not_master = |other: PluginView| !other.is_master_file;
                match position {
                    Some(index) => lemma_first_position_found(
                        self@.plugins,
                        not_master,
                        index as int,
                    ),
                    None => {
                        assert forall|index: int| 0 <= index < self@.plugins.len() implies !not_master(
                            #[trigger] self@.plugins[index],
                        ) by {
                            assert(self.plugins@[index]@.is_master_file);
                        }
                        lemma_first_position_missing(self@.plugins, not_master);
                    },
                }
            }
            position
        } else {
            None
        }
    }
}

} // verus!
