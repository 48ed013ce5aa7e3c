//! Configuration-derived paths. Reading and writing the configuration file
//! is the caller's business; these functions only derive the well-known
//! locations under a given installation directory.

use vstd::prelude::*;

use crate::text::path_join;
use crate::text::path_join_spec;

verus! {

/// What the external configuration loader must supply.
pub struct Config {
    pub server_ip: String,
    pub server_username: String,
    pub server_password: String,
    pub project_path: String,
}

/// Where the configuration file lives under the installation directory.
pub fn get_config_path(exe_dir: &str) -> (r: String)
    ensures
        r@ == path_join_spec(exe_dir@, "config.json"@),
{
    path_join(exe_dir, "config.json")
}

/// The on-disk location of an extracted artifact: the flat per-installation
/// data directory plus the artifact's base name.
pub open spec fn class_full_path_spec(exe_dir: Seq<char>, class_name: Seq<char>) -> Seq<char> {
    path_join_spec(path_join_spec(exe_dir, "data"@), class_name)
}

/// Resolve the local path of an extracted artifact by its base name.
pub fn get_class_full_path(exe_dir: &str, class_name: &str) -> (r: String)
    ensures
        r@ == class_full_path_spec(exe_dir@, class_name@),
{
    let data_dir = path_join(exe_dir, "data");
    path_join(data_dir.as_str(), class_name)
}

} // verus!
