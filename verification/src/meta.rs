//! The name card a hosting runtime asks a game module for.

use vstd::prelude::*;

verus! {

/// What a hosting runtime displays about this game module.
#[derive(Clone, PartialEq, Eq, Debug)]
pub struct PluginMeta {
    pub name: String,
    pub version: String,
}

/// The name card of this module.
pub fn plugin_meta() -> (r: PluginMeta)
    ensures
        r.name@ == "career-poker"@,
        r.version@ == "0.1.0"@,
{
    PluginMeta { name: "career-poker".to_owned(), version: "0.1.0".to_owned() }
}

} // verus!
