//! Configuration: the default binary, per-version options and discovery overrides,
//! and where the configuration directory is.

use std::collections::BTreeMap;
use std::path::PathBuf;

use vstd::prelude::*;

verus! {

#[verifier::external_type_specification]
#[verifier::external_body]
pub struct ExPathBuf(PathBuf);

/// A version name as written in the configuration.
pub type Version = String;

/// Per-version options: each configuration key (a version such as `0.14`, or a raw name)
/// with its options, in the order in which the configuration map is walked.
pub type Opt = Vec<(String, Opts)>;

/// The whole configuration.
#[derive(Debug)]
pub struct Config {
    /// The binary used when no version is asked for.
    pub default: PathBuf,
    /// Options per version.
    pub opt: Opt,
    /// Settings for discovering binaries.
    pub discover: Discover,
}

/// Options for one version: the environment variables to add, in ascending order of
/// their names, each name once.
#[derive(Debug)]
pub struct Opts {
    pub env: Vec<(String, String)>,
}

/// Discovery settings: binaries whose version is given by name instead of asked for.
#[derive(Debug)]
pub struct Discover {
    pub named: BTreeMap<PathBuf, Version>,
}

impl Default for Discover {
    /// No binary is named.
    fn default() -> (d: Self)
        ensures
            d.named@ == Map::<PathBuf, Version>::empty(),
    {
        Discover { named: BTreeMap::new() }
    }
}

/// Lexicographic order of texts by code point, the order of `String`.
pub open spec fn text_lt(a: Seq<char>, b: Seq<char>) -> bool
    decreases a.len(),
{
    if a.len() == 0 {
        b.len() > 0
    } else if b.len() == 0 {
        false
    } else if a[0] != b[0] {
        (a[0] as u32) < (b[0] as u32)
    } else {
        text_lt(a.drop_first(), b.drop_first())
    }
}

/// An environment as pairs of texts.
pub open spec fn env_view(env: Seq<(String, String)>) -> Seq<(Seq<char>, Seq<char>)> {
    env.map_values(|e: (String, String)| (e.0@, e.1@))
}

/// Per-version options as keys with their environments.
pub open spec fn options_view(opt: Seq<(String, Opts)>) -> Seq<(Seq<char>, Seq<(Seq<char>, Seq<char>)>)> {
    opt.map_values(|e: (String, Opts)| (e.0@, env_view(e.1.env@)))
}

impl Opts {
    /// The variables come in strictly ascending order of their names, as a sorted map
    /// gives them.
    pub open spec fn wf(&self) -> bool {
        forall|i: int, j: int|
            0 <= i < j < self.env@.len() ==> text_lt(self.env@[i].0@, self.env@[j].0@)
    }
}

/// Each configuration key occurs once, as in a map.
pub open spec fn opt_wf(opt: Seq<(String, Opts)>) -> bool {
    &&& forall|i: int, j: int| 0 <= i < j < opt.len() ==> opt[i].0@ != opt[j].0@
    &&& forall|i: int| 0 <= i < opt.len() ==> (#[trigger] opt[i]).1.wf()
}

/// A `/` to put after `dir`, unless `dir` is empty or already ends with one.
pub open spec fn separator_after(dir: Seq<char>) -> Seq<char> {
    if dir.len() == 0 || dir.last() == '/' {
        seq![]
    } else {
        seq!['/']
    }
}

/// The configuration directory: `$XDG_CONFIG_HOME`, or else `$HOME/.config/` (with `~/`
/// standing in for an unset `$HOME`), then a `/` where that directory is not empty and
/// does not end with one, then `typface/`.
pub open spec fn config_dir_spec(xdg_config_home: Option<Seq<char>>, home: Option<Seq<char>>) -> Seq<char> {
    let home_dir = match home {
        Some(h) => h,
        None => "~/"@,
    };
    let base = match xdg_config_home {
        Some(x) => x,
        None => home_dir + "/.config/"@,
    };
    base + separator_after(base) + "typface/"@
}

/// The configuration directory, from the values of `$XDG_CONFIG_HOME` and `$HOME`
/// (`None` where a variable is unset or not Unicode).
pub fn config_dir(xdg_config_home: Option<&str>, home: Option<&str>) -> (d: String)
    ensures
        d@ == config_dir_spec(
            match xdg_config_home {
                Some(x) => Some(x@),
                None => None,
            },
            match home {
                Some(h) => Some(h@),
                None => None,
            },
        ),
{
    let mut base = match xdg_config_home {
        Some(x) => x.to_owned(),
        None => {
            let mut b = match home {
                Some(h) => h.to_owned(),
                None => "~/".to_owned(),
            };
            b.append("/.config/");
            b
        },
    };
    let cs = crate::text::chars_of(base.as_str());
    if cs.len() > 0 && cs[cs.len() - 1] != '/' {
        crate::text::push_char(&mut base, '/');
    }
    base.append("typface/");
    base
}

/// The path of the cache file: `cache` in the configuration directory.
pub fn cache_file(xdg_config_home: Option<&str>, home: Option<&str>) -> (f: String)
    ensures
        f@ == config_dir_spec(
            match xdg_config_home {
                Some(x) => Some(x@),
                None => None,
            },
            match home {
                Some(h) => Some(h@),
                None => None,
            },
        ) + "cache"@,
{
    let mut d = config_dir(xdg_config_home, home);
    d.append("cache");
    d
}

/// The path of the configuration file: `config.toml` in the configuration directory.
pub fn config_file(xdg_config_home: Option<&str>, home: Option<&str>) -> (f: String)
    ensures
        f@ == config_dir_spec(
            match xdg_config_home {
                Some(x) => Some(x@),
                None => None,
            },
            match home {
                Some(h) => Some(h@),
                None => None,
            },
        ) + "config.toml"@,
{
    let mut d = config_dir(xdg_config_home, home);
    d.append("config.toml");
    d
}

} // verus!
