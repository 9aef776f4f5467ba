//! The games that are told apart, and what can go wrong.
use vstd::prelude::*;

verus! {

/// A game whose plugins are managed.
#[derive(Clone, Copy, Debug, PartialEq, Eq, Structural)]
pub enum GameId {
    Morrowind,
    Oblivion,
    Skyrim,
    Fallout3,
    FalloutNV,
    Fallout4,
    SkyrimSE,
}

impl GameId {
    /// Whether the game lists its active plugins as numbered `GameFile` keys
    /// below a header line, as Morrowind does in its ini file. Every other game
    /// lists one bare name per line.
    pub open spec fn spec_uses_keyed_list(self) -> bool {
        self == GameId::Morrowind
    }

    /// Whether the game lists its active plugins as numbered keys below a
    /// header line.
    #[verifier::when_used_as_spec(spec_uses_keyed_list)]
    pub fn uses_keyed_list(self) -> (keyed: bool)
        ensures
            keyed == self.spec_uses_keyed_list(),
    {
        self == GameId::Morrowind
    }
}

/// Why an operation failed.
#[derive(Clone, Debug, PartialEq, Eq)]
pub enum LoadOrderError {
    /// A plugin name holds a character that Windows-1252 cannot represent.
    EncodeError(String),
    /// The pattern for keyed lines did not compile.
    InvalidRegex,
    /// A load order was asked for in which a plugin occurs twice.
    DuplicatePlugin,
    /// A load order was asked for in which a master file stands behind a
    /// plugin that is none.
    NonMasterBeforeMaster,
    /// The name is that of no plugin, neither of the load order nor installed.
    InvalidPlugin(String),
    /// More plugins would be active than a game loads.
    TooManyActivePlugins,
}

} // verus!
