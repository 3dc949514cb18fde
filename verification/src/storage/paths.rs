//! Where the data lives: the layout of the data directory.
use vstd::prelude::*;
use crate::text::{chars_of, push_char, push_str, string_of, trim, trim_vec};

verus! {

/// Environment variable that overrides the data directory.
/// When set, attestations, keys, and the SQLite index all live under this path.
pub const HOME_ENV: &'static str = "SEL_DEPLOY_HOME";

/// `name` (a relative path) appended to `base` as `PathBuf::join` does on
/// Unix: a `/` goes between them unless `base` is empty or already ends
/// with one.
pub open spec fn joined_path(base: Seq<char>, name: Seq<char>) -> Seq<char> {
    if base.len() == 0 || base.last() == '/' {
        base + name
    } else {
        base + seq!['/'] + name
    }
}

fn join_path(base: &str, name: &str) -> (res: String)
    ensures
        res@ == joined_path(base@, name@),
{
    let cs = chars_of(base);
    let mut out = string_of(&cs);
    if cs.len() > 0 && cs[cs.len() - 1] != '/' {
        push_char(&mut out, '/');
    }
    push_str(&mut out, name);
    out
}

/// The files and directories under the data directory.
pub struct SelPaths {
    pub root: String,
    pub attestations: String,
    pub keys_dir: String,
    pub keys_archive: String,
    pub private_key: String,
    pub public_key: String,
    pub db: String,
}

impl SelPaths {
    /// The layout under `root`: `attestations/`, `keys/` with its `archive/`,
    /// `keys/default.pem`, `keys/default.pub` and `timeline.db`. The
    /// directories are created by the caller.
    pub fn from_root(root: &str) -> (res: Self)
        ensures
            res.root@ == root@,
            res.attestations@ == joined_path(root@, "attestations"@),
            res.keys_dir@ == joined_path(root@, "keys"@),
            res.keys_archive@ == joined_path(joined_path(root@, "keys"@), "archive"@),
            res.private_key@ == joined_path(joined_path(root@, "keys"@), "default.pem"@),
            res.public_key@ == joined_path(joined_path(root@, "keys"@), "default.pub"@),
            res.db@ == joined_path(root@, "timeline.db"@),
    {
        let keys_dir = join_path(root, "keys");
        SelPaths {
            root: string_of(&chars_of(root)),
            attestations: join_path(root, "attestations"),
            keys_archive: join_path(keys_dir.as_str(), "archive"),
            private_key: join_path(keys_dir.as_str(), "default.pem"),
            public_key: join_path(keys_dir.as_str(), "default.pub"),
            db: join_path(root, "timeline.db"),
            keys_dir,
        }
    }
}

/// The data directory named by the value of `HOME_ENV`: the value with
/// surrounding white space removed, or `None` when nothing is left (an
/// error for the caller).
pub fn home_override(raw: &str) -> (res: Option<String>)
    ensures
        res is None <==> trim(raw@).len() == 0,
        res matches Some(t) ==> t@ == trim(raw@),
{
    let t = trim_vec(&chars_of(raw));
    if t.len() == 0 {
        None
    } else {
        Some(string_of(&t))
    }
}

} // verus!
