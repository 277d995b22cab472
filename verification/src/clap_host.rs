//! CLAP plugin hosting. Only the plugin's description is kept so far; the
//! hosting itself is not implemented yet.

use vstd::prelude::*;
use crate::errors::PluginInfo;

verus! {

/// A CLAP plugin.
#[allow(dead_code)]
pub struct ClapPlugin {
    info: PluginInfo,
}

} // verus!
