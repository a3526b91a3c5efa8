//! The bodies of the daemon's requests. A client sends them as JSON; overrides are
//! (key, value) pairs with distinct keys.
use vstd::prelude::*;
use crate::properties::PropValue;

verus! {

/// Create a save from an installed version, with property overrides.
pub struct CreateSave {
    pub name: String,
    pub version: String,
    pub values: Vec<(String, PropValue)>,
}

/// Change properties of a save whose instance is not running.
pub struct ModifySave {
    pub name: String,
    pub values: Vec<(String, PropValue)>,
}

/// Delete a save whose instance is not running.
pub struct DeleteSave {
    pub name: String,
}

/// Start a save's instance.
pub struct StartSave {
    pub name: String,
}

/// Stop a save's instance.
pub struct StopSave {
    pub name: String,
}

/// Send a command to a save's running instance.
pub struct Command {
    pub name: String,
    pub command: String,
}

} // verus!
