//! The extensions that a recipe enables.

use vstd::prelude::*;

#[allow(unused_imports)]
use crate::string_map::map_of;
use crate::string_map::StringMap;

verus! {

/// The environment variables that an extension sets for its command.
#[derive(Debug)]
pub struct Envs {
    map: StringMap,
}

impl Envs {
    /// The variables and their values, in the order in which they were given.
    pub closed spec fn entries(&self) -> Seq<(Seq<char>, Seq<char>)> {
        self.map.entries()
    }
}

impl View for Envs {
    type V = Map<Seq<char>, Seq<char>>;

    open spec fn view(&self) -> Map<Seq<char>, Seq<char>> {
        map_of(self.entries())
    }
}

impl Default for Envs {
    fn default() -> (r: Envs)
        ensures
            r.entries() == Seq::<(Seq<char>, Seq<char>)>::empty(),
            r@ == Map::<Seq<char>, Seq<char>>::empty(),
    {
        Envs { map: StringMap::new() }
    }
}

impl Clone for Envs {
    fn clone(&self) -> (r: Envs)
        ensures
            r.entries() == self.entries(),
            r@ == self@,
    {
        Envs { map: self.map.clone() }
    }
}

impl Envs {
    /// The variables of `map`.
    pub fn new(map: StringMap) -> (r: Envs)
        ensures
            r.entries() == map.entries(),
            r@ == map@,
    {
        Envs { map }
    }

    /// The variables and their values.
    pub fn get_env(&self) -> (r: StringMap)
        ensures
            r.entries() == self.entries(),
            r@ == self@,
    {
        self.map.clone()
    }
}

/// An extension that a recipe enables.
#[derive(Debug, Clone)]
pub enum ExtensionConfig {
    /// A local program that is started with a command line.
    Stdio {
        name: String,
        description: String,
        cmd: String,
        args: Vec<String>,
        envs: Envs,
        env_keys: Vec<String>,
        timeout: Option<u64>,
        cwd: Option<String>,
        bundled: Option<bool>,
        available_tools: Vec<String>,
    },
    /// An extension that comes with the program.
    Builtin {
        name: String,
        description: String,
        display_name: Option<String>,
        timeout: Option<u64>,
        bundled: Option<bool>,
        available_tools: Vec<String>,
    },
    /// An extension that runs inside the agent itself.
    Platform {
        name: String,
        description: String,
        display_name: Option<String>,
        bundled: Option<bool>,
        available_tools: Vec<String>,
    },
    /// An extension of another kind, of which only the name is looked at.
    Other { name: String, definition: serde_yaml::Value },
}

impl ExtensionConfig {
    /// The name of the extension.
    pub open spec fn name_text(&self) -> Seq<char> {
        match self {
            ExtensionConfig::Stdio { name, .. } => name@,
            ExtensionConfig::Builtin { name, .. } => name@,
            ExtensionConfig::Platform { name, .. } => name@,
            ExtensionConfig::Other { name, .. } => name@,
        }
    }

    /// The name of the extension.
    pub fn name(&self) -> (r: String)
        ensures
            r@ == self.name_text(),
    {
        match self {
            ExtensionConfig::Stdio { name, .. } => name.clone(),
            ExtensionConfig::Builtin { name, .. } => name.clone(),
            ExtensionConfig::Platform { name, .. } => name.clone(),
            ExtensionConfig::Other { name, .. } => name.clone(),
        }
    }
}

/// The name of an extension is the one it was given, whatever its kind.
pub proof fn lemma_extension_name(extension: ExtensionConfig)
    ensures
        extension matches ExtensionConfig::Stdio { name, .. } ==> extension.name_text() == name@,
        extension matches ExtensionConfig::Builtin { name, .. } ==> extension.name_text() == name@,
        extension matches ExtensionConfig::Platform { name, .. } ==> extension.name_text() == name@,
        extension matches ExtensionConfig::Other { name, .. } ==> extension.name_text() == name@,
{
}

/// The environment stands for its entries.
pub proof fn lemma_envs_of_their_entries(envs: Envs)
    ensures
        envs@ == map_of(envs.entries()),
{
}

} // verus!
