//! What the load order needs to know of the game it belongs to.
use crate::enums::GameId;
use vstd::prelude::*;

verus! {

/// What a [`GameSettings`] stands for in contracts.
pub struct GameSettingsView {
    pub id: GameId,
    /// The name of the game's own master file.
    pub master_file: Seq<char>,
    /// The names of the plugins that the game loads whether or not they are
    /// listed as active.
    pub implicitly_active_plugins: Seq<Seq<char>>,
}

/// The game whose plugins are managed.
#[derive(Clone, Debug)]
pub struct GameSettings {
    id: GameId,
    master_file: String,
    implicitly_active_plugins: Vec<String>,
}

/// What the strings of `names` hold, in their order.
pub open spec fn string_views(names: Seq<String>) -> Seq<Seq<char>> {
    names.map_values(|name: String| name@)
}

impl View for GameSettings {
    type V = GameSettingsView;

    closed spec fn view(&self) -> GameSettingsView {
        GameSettingsView {
            id: self.id,
            master_file: self.master_file@,
            implicitly_active_plugins: string_views(self.implicitly_active_plugins@),
        }
    }
}

impl GameSettings {
    /// The settings of the game `id`, whose own master file is `master_file`
    /// and which loads the plugins named in `implicitly_active_plugins` whether
    /// or not they are listed as active.
    pub fn new(id: GameId, master_file: &str, implicitly_active_plugins: Vec<String>) -> (settings:
        GameSettings)
        ensures
            settings@ == (GameSettingsView {
                id,
                master_file: master_file@,
                implicitly_active_plugins: string_views(implicitly_active_plugins@),
            }),
    {
        GameSettings { id, master_file: master_file.to_owned(), implicitly_active_plugins }
    }

    /// Which game it is.
    pub fn id(&self) -> (id: GameId)
        ensures
            id == self@.id,
    {
        self.id
    }

    /// The name of the game's own master file.
    pub fn master_file(&self) -> (name: &str)
        ensures
            name@ == self@.master_file,
    {
        self.master_file.as_str()
    }

    /// The names of the plugins that the game loads whether or not they are
    /// listed as active.
    pub fn implicitly_active_plugins(&self) -> (names: &Vec<String>)
        ensures
            string_views(names@) == self@.implicitly_active_plugins,
    {
        &self.implicitly_active_plugins
    }
}

} // verus!
