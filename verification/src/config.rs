//! Where the settings and the data of the program lie.
use vstd::prelude::*;
use crate::text;

verus! {

/// The settings of the program.
pub struct AppConfig {
    pub api_key: Option<String>,
}

impl Default for AppConfig {
    fn default() -> (r: Self)
        ensures
            r.api_key is None,
    {
        AppConfig { api_key: None }
    }
}

/// The path of `name` in the directory `base`.
pub open spec fn within(base: Seq<char>, name: Seq<char>) -> Seq<char> {
    if base.len() == 0 || base.last() == '/' {
        base + name
    } else {
        base + seq!['/'] + name
    }
}

pub fn path_within(base: &str, name: &str) -> (r: String)
    ensures
        r@ == within(base@, name@),
{
    let v = text::chars_of(base);
    if v.len() == 0 || v[v.len() - 1] == '/' {
        text::cat2(base, name)
    } else {
        proof {
            reveal_strlit("/");
            assert("/"@ =~= seq!['/']);
        }
        text::cat3(base, "/", name)
    }
}

/// The directory of the program's data in the home directory `home`.
pub open spec fn data_dir(home: Seq<char>) -> Seq<char> {
    within(within(within(home, ".local"@), "share"@), "agent-engine"@)
}

pub fn config_dir(home: &str) -> (r: String)
    ensures
        r@ == data_dir(home@),
{
    let a = path_within(home, ".local");
    let b = path_within(a.as_str(), "share");
    path_within(b.as_str(), "agent-engine")
}

/// The file of the settings.
pub fn config_path(home: &str) -> (r: String)
    ensures
        r@ == within(data_dir(home@), "config.json"@),
{
    path_within(config_dir(home).as_str(), "config.json")
}

/// The file of the session database.
pub fn default_path(home: &str) -> (r: String)
    ensures
        r@ == within(data_dir(home@), "agent-engine.db"@),
{
    path_within(config_dir(home).as_str(), "agent-engine.db")
}

// ── Laws ──

/// A path within a directory starts with the directory and ends with the name,
/// with one slash between them, whether or not the directory ends in one.
pub proof fn paths_have_one_slash(base: Seq<char>, name: Seq<char>)
    ensures
        base.is_prefix_of(within(base, name)),
        name.is_suffix_of(within(base, name)),
        base.len() > 0 && base.last() != '/' ==> within(base, name) == base + seq!['/'] + name
            && within(base.push('/'), name) == within(base, name),
{
    let all = within(base, name);
    assert(all.subrange(0, base.len() as int) =~= base);
    assert(all.subrange(all.len() - name.len(), all.len() as int) =~= name);
    if base.len() > 0 && base.last() != '/' {
        assert(within(base.push('/'), name) =~= all);
    }
}

/// The data of the program lies under the home directory.
pub proof fn data_lies_at_home(home: Seq<char>)
    requires
        home.len() > 0,
        home.last() != '/',
    ensures
        data_dir(home) == home + "/.local/share/agent-engine"@,
{
    reveal_strlit(".local");
    reveal_strlit("share");
    reveal_strlit("agent-engine");
    reveal_strlit("/.local/share/agent-engine");
    assert(data_dir(home) =~= home + "/.local/share/agent-engine"@);
}

} // verus!
