//! Registration of the `nxm://` protocol handler (freedesktop): the
//! `.desktop` entry that points the `x-scheme-handler/nxm` MIME type at the
//! modeman executable, and where such entries live.

use vstd::prelude::*;
use crate::error::Error;
use crate::paths::{join, path_join};
use crate::text::{owned, push_str};

verus! {

/// The desktop file's name.
pub const DESKTOP_ID: &'static str = "modeman-nxm.desktop";

/// The `.desktop` file text for the given modeman executable.
pub open spec fn desktop_text(exec: Seq<char>) -> Seq<char> {
    "[Desktop Entry]\nType=Application\nName=modeman (nxm handler)\nExec="@ + exec
        + " --nxm %u\nNoDisplay=true\nMimeType=x-scheme-handler/nxm;\nCategories=Game;\n"@
}

/// Renders the `.desktop` file contents for the given executable.
pub fn desktop_entry(exec_path: &str) -> (r: String)
    ensures
        r@ == desktop_text(exec_path@),
{
    let mut s = owned("[Desktop Entry]\nType=Application\nName=modeman (nxm handler)\nExec=");
    push_str(&mut s, exec_path);
    push_str(&mut s, " --nxm %u\nNoDisplay=true\nMimeType=x-scheme-handler/nxm;\nCategories=Game;\n");
    s
}

/// The user's data directory: `$XDG_DATA_HOME` when set and not empty,
/// else `$HOME/.local/share`; an error without `$HOME`.
pub fn data_home(xdg_data_home: Option<String>, home: Option<String>) -> (r: Result<String, Error>)
    ensures
        match xdg_data_home {
            Some(x) if x@.len() > 0 => r matches Ok(p) && p@ == x@,
            _ => match home {
                Some(h) => r matches Ok(p) && p@ == path_join(h@, ".local/share"@),
                None => r matches Err(Error::Other(m)) && m@ == "HOME not set"@,
            },
        },
{
    if let Some(x) = xdg_data_home {
        if !x.as_str().is_empty() {
            return Ok(x);
        }
    }
    match home {
        Some(h) => Ok(join(h.as_str(), ".local/share")),
        None => Err(Error::Other(owned("HOME not set"))),
    }
}

/// Where the handler's desktop file goes under the data directory.
pub fn desktop_file_path(data_home: &str) -> (r: String)
    ensures
        r@ == path_join(path_join(data_home@, "applications"@), DESKTOP_ID@),
{
    let apps = join(data_home, "applications");
    join(apps.as_str(), DESKTOP_ID)
}

} // verus!
