//! Resolution of the state-file path: the pure decisions.
//!
//! An explicit override path is honored as given, with a confirmation owed
//! when its name does not end in the expected extension; otherwise a fixed
//! file under the program's directory in the platform data location is
//! used.  Checking the filesystem, creating directories and prompting stay
//! with the caller; this module only decides.

use crate::error::MoreeError;
use vstd::prelude::*;

verus! {

/// The file-name extension the state file is expected to carry.
pub open spec fn json_suffix(s: Seq<char>) -> bool {
    s.len() >= 5 && s.subrange(s.len() - 5, s.len() as int) == ".json"@
}

/// Where the state file lives, and what the caller still owes before using
/// it.
#[derive(Debug, Clone)]
pub enum PathResolution {
    /// The override path, as given.  The caller must refuse it if it is an
    /// existing directory, create its missing parents, and — when
    /// `needs_confirmation` — ask before accepting the unusual name.
    Custom { path: String, needs_confirmation: bool },
    /// The fixed default under the platform data directory; the caller
    /// creates the directory if it is missing.
    Default { path: String },
}

/// Does `s` end in ".json"?
pub fn ends_with_json(s: &String) -> (r: bool)
    ensures
        r == json_suffix(s@),
{
    proof {
        reveal_strlit(".json");
    }
    let n = s.as_str().unicode_len();
    if n < 5 {
        return false;
    }
    let c0 = s.as_str().get_char(n - 5);
    let c1 = s.as_str().get_char(n - 4);
    let c2 = s.as_str().get_char(n - 3);
    let c3 = s.as_str().get_char(n - 2);
    let c4 = s.as_str().get_char(n - 1);
    let r = c0 == '.' && c1 == 'j' && c2 == 's' && c3 == 'o' && c4 == 'n';
    proof {
        let tail = s@.subrange(s@.len() - 5, s@.len() as int);
        assert(tail.len() == 5);
        assert(tail[0] == s@[s@.len() - 5]);
        assert(tail[1] == s@[s@.len() - 4]);
        assert(tail[2] == s@[s@.len() - 3]);
        assert(tail[3] == s@[s@.len() - 2]);
        assert(tail[4] == s@[s@.len() - 1]);
        if r {
            assert(tail =~= ".json"@);
        } else {
            assert(tail != ".json"@);
        }
    }
    r
}

/// The fixed location under the platform data directory.
pub open spec fn default_state_path(data_dir: Seq<char>) -> Seq<char> {
    data_dir + "/moree/state.json"@
}

/// Decide where the state file lives.  With an override, it is used as
/// given and a confirmation is owed exactly when its name does not end in
/// ".json"; without one, the fixed default under the data directory is
/// used, and a missing data directory is an error.
pub fn get_state_file_path(custom_path: &Option<String>, data_dir: &Option<String>) -> (r: Result<
    PathResolution,
    MoreeError,
>)
    ensures
        match custom_path {
            Some(p) => r matches Ok(res) && res matches PathResolution::Custom {
                path,
                needs_confirmation,
            } && path@ == p@ && needs_confirmation == !json_suffix(p@),
            None => match data_dir {
                Some(dir) => r matches Ok(res) && res matches PathResolution::Default { path }
                    && path@ == default_state_path(dir@),
                None => r matches Err(e) && e matches MoreeError::NoDataDirectory,
            },
        },
{
    match custom_path {
        Some(p) => {
            let needs_confirmation = !ends_with_json(p);
            Ok(PathResolution::Custom { path: p.clone(), needs_confirmation })
        },
        None => match data_dir {
            Some(dir) => {
                let path = dir.clone().concat("/moree/state.json");
                Ok(PathResolution::Default { path })
            },
            None => Err(MoreeError::NoDataDirectory),
        },
    }
}

} // verus!
