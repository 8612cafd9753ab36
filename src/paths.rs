//! Where the configuration lives.

use vstd::prelude::*;

verus! {

/// The directory that holds user configuration: `XDG_CONFIG_HOME` where it is
/// set, else `.config` under the home directory.
pub fn config_dir(xdg_config_home: Option<String>, home: Option<String>) -> (r: Option<String>)
    ensures
        match xdg_config_home {
            Some(x) => r is Some && r->0@ == x@,
            None => match home {
                Some(h) => r is Some && r->0@ == h@ + "/.config"@,
                None => r is None,
            },
        },
{
    match xdg_config_home {
        Some(x) => Some(x),
        None => match home {
            Some(h) => {
                let mut d = h;
                d.append("/.config");
                Some(d)
            },
            None => None,
        },
    }
}

} // verus!
