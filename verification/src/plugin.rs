//! One installed plugin, as far as its place in the load order goes.
use vstd::prelude::*;
use vstd::utf8::is_ascii_chars;

verus! {

/// What a [`Plugin`] stands for in contracts.
pub struct PluginView {
    /// The file's name. Two names that differ only in case name the same plugin.
    pub name: Seq<char>,
    /// Whether the file is flagged as a master.
    pub is_master_file: bool,
    /// When the file was last modified, in seconds since the Unix epoch.
    pub modification_time: u64,
    /// Whether the game is to load the plugin.
    pub active: bool,
}

impl PluginView {
    /// The same plugin, active or not as `active` says.
    pub open spec fn with_active(self, active: bool) -> PluginView {
        PluginView { active, ..self }
    }

    /// The same plugin with another modification time.
    pub open spec fn with_modification_time(self, modification_time: u64) -> PluginView {
        PluginView { modification_time, ..self }
    }

    /// Whether the plugin goes by `name`.
    pub open spec fn name_matches(self, name: Seq<char>) -> bool {
        caseless_eq(self.name, name)
    }
}

/// An installed plugin: a file that was found valid when it was read.
#[derive(Clone, Debug)]
pub struct Plugin {
    name: String,
    is_master_file: bool,
    modification_time: u64,
    active: bool,
}

impl View for Plugin {
    type V = PluginView;

    closed spec fn view(&self) -> PluginView {
        PluginView {
            name: self.name@,
            is_master_file: self.is_master_file,
            modification_time: self.modification_time,
            active: self.active,
        }
    }
}

/// `text` with every character replaced by its Unicode case folding, as
/// `UniCase::to_folded_case` of the `unicase` crate gives it: letters that
/// differ only in case become one.
pub uninterp spec fn case_folded(text: Seq<char>) -> Seq<char>;

/// `text` with each of the letters `A` to `Z` replaced by its small letter.
pub open spec fn ascii_lowercase(text: Seq<char>) -> Seq<char> {
    text.map_values(
        |letter: char|
            if 'A' <= letter <= 'Z' {
                ((letter as u32) + 32) as char
            } else {
                letter
            },
    )
}

/// Calls `UniCase::new` and `UniCase::to_folded_case` of the `unicase` crate,
/// which give a copy of the string with each character mapped to its case
/// folding. The result is a function of the string alone. For a string of
/// ASCII characters the crate hands on what `str::to_ascii_lowercase` gives.
#[verifier::external_body]
fn to_folded_case(text: &str) -> (folded: String)
    ensures
        folded@ == case_folded(text@),
        is_ascii_chars(text@) ==> folded@ == ascii_lowercase(text@),
{
    unicase::UniCase::new(text).to_folded_case()
}

/// `name` as it is compared where case is not to count.
pub fn fold_case(name: &str) -> (folded: String)
    ensures
        folded@ == case_folded(name@),
        is_ascii_chars(name@) ==> folded@ == ascii_lowercase(name@),
{
    to_folded_case(name)
}

/// Whether two names are the same but for case: whether their case foldings
/// are the same.
pub open spec fn caseless_eq(left: Seq<char>, right: Seq<char>) -> bool {
    case_folded(left) == case_folded(right)
}

/// Whether `left` and `right` are one name, whatever the case of the letters.
pub fn is_same_name(left: &str, right: &str) -> (same: bool)
    ensures
        same == caseless_eq(left@, right@),
{
    fold_case(left) == fold_case(right)
}

impl Plugin {
    /// An inactive plugin.
    pub fn new(name: &str, is_master_file: bool, modification_time: u64) -> (plugin: Plugin)
        ensures
            plugin@ == (PluginView { name: name@, is_master_file, modification_time, active: false }),
    {
        Plugin::with_active(name, is_master_file, modification_time, false)
    }

    /// A plugin that is active or not as `active` says.
    pub fn with_active(
        name: &str,
        is_master_file: bool,
        modification_time: u64,
        active: bool,
    ) -> (plugin: Plugin)
        ensures
            plugin@ == (PluginView { name: name@, is_master_file, modification_time, active }),
    {
        Plugin { name: name.to_owned(), is_master_file, modification_time, active }
    }

    /// A plugin like this one.
    pub fn copy_of(&self) -> (copy: Plugin)
        ensures
            copy@ == self@,
    {
        Plugin {
            name: self.name.clone(),
            is_master_file: self.is_master_file,
            modification_time: self.modification_time,
            active: self.active,
        }
    }

    /// The name of the plugin's file.
    pub fn name(&self) -> (name: &str)
        ensures
            name@ == self@.name,
    {
        self.name.as_str()
    }

    /// Whether the plugin goes by `name`, whatever the case of the letters.
    pub fn name_matches(&self, name: &str) -> (matches: bool)
        ensures
            matches == self@.name_matches(name@),
    {
        is_same_name(self.name.as_str(), name)
    }

    /// Whether the plugin is flagged as a master file.
    pub fn is_master_file(&self) -> (is_master_file: bool)
        ensures
            is_master_file == self@.is_master_file,
    {
        self.is_master_file
    }

    /// When the plugin's file was last modified, in seconds since the Unix
    /// epoch.
    pub fn modification_time(&self) -> (modification_time: u64)
        ensures
            modification_time == self@.modification_time,
    {
        self.modification_time
    }

    /// Notes a new modification time. The file is not touched.
    pub fn set_modification_time(&mut self, modification_time: u64)
        ensures
            final(self)@ == old(self)@.with_modification_time(modification_time),
    {
        self.modification_time = modification_time;
    }

    /// Whether the game is to load the plugin.
    pub fn is_active(&self) -> (active: bool)
        ensures
            active == self@.active,
    {
        self.active
    }

    /// Makes the plugin active.
    pub fn activate(&mut self)
        ensures
            final(self)@ == old(self)@.with_active(true),
    {
        self.active = true;
    }

    /// Makes the plugin inactive.
    pub fn deactivate(&mut self)
        ensures
            final(self)@ == old(self)@.with_active(false),
    {
        self.active = false;
    }
}

} // verus!
