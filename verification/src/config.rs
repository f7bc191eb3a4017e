//! Configuration: its defaults, where its file is found, and which terraform
//! binary is used.

use crate::text::texts;
use vstd::prelude::*;

verus! {

/// The settings of a run.
#[derive(Debug)]
pub struct Config {
    /// Path to the terraform or tofu binary.
    pub binary: String,
    /// Maximum number of concurrent terraform processes.
    pub parallelism: usize,
    /// Directories that module discovery ignores.
    pub ignore_dirs: Vec<String>,
    /// Whether modules without backend or lock signals are shown.
    pub show_library_modules: bool,
    /// Path of the `rug.toml` this came from; none for the defaults.
    pub source: Option<String>,
}

/// The directories that are ignored unless the configuration says otherwise.
pub open spec fn default_ignore_dirs() -> Seq<Seq<char>> {
    seq![".terraform"@, ".git"@, "node_modules"@, ".terragrunt-cache"@]
}

impl Default for Config {
    fn default() -> (r: Self)
        ensures
            r.binary@.len() == 0,
            r.parallelism == 4,
            texts(r.ignore_dirs@) == default_ignore_dirs(),
            !r.show_library_modules,
            r.source is None,
    {
        let mut dirs: Vec<String> = Vec::new();
        dirs.push(".terraform".to_owned());
        dirs.push(".git".to_owned());
        dirs.push("node_modules".to_owned());
        dirs.push(".terragrunt-cache".to_owned());
        assert(texts(dirs@) =~= default_ignore_dirs());
        Config {
            binary: String::new(),
            parallelism: 4,
            ignore_dirs: dirs,
            show_library_modules: false,
            source: None,
        }
    }
}

impl Config {
    /// The configuration of a run: what the file at a path says, or the
    /// defaults where no file was found. The binary is the one that the
    /// environment names, else the one that the file names, else the detected
    /// one. Fails only where a binary has to be detected and none was found.
    pub fn resolve(
        found: Option<(String, Config)>,
        env_override: Option<&str>,
        detected: Result<String, String>,
    ) -> (r: Result<Config, String>)
        ensures
            ({
                let overridden = env_override is Some && (env_override->0)@.len() > 0;
                let named = found is Some && (found->0).1.binary@.len() > 0;
                match r {
                    Ok(c) => {
                        &&& match found {
                            Some((path, file)) => {
                                &&& c.source == Some(path)
                                &&& c.parallelism == file.parallelism
                                &&& c.ignore_dirs == file.ignore_dirs
                                &&& c.show_library_modules == file.show_library_modules
                            },
                            None => {
                                &&& c.source is None
                                &&& c.parallelism == 4
                                &&& texts(c.ignore_dirs@) == default_ignore_dirs()
                                &&& !c.show_library_modules
                            },
                        }
                        &&& if overridden {
                            c.binary@ == (env_override->0)@
                        } else if named {
                            c.binary == (found->0).1.binary
                        } else {
                            detected == Ok::<String, String>(c.binary)
                        }
                    },
                    Err(e) => !overridden && !named && detected == Err::<String, String>(e),
                }
            }),
    {
        let mut cfg = match found {
            Some((path, file)) => {
                let mut file = file;
                file.source = Some(path);
                file
            },
            None => Config::default(),
        };
        if let Some(bin) = env_override {
            if !bin.is_empty() {
                cfg.binary = bin.to_owned();
                return Ok(cfg);
            }
        }
        if cfg.binary.as_str().is_empty() {
            match detected {
                Ok(b) => {
                    cfg.binary = b;
                },
                Err(e) => {
                    return Err(e);
                },
            }
        }
        Ok(cfg)
    }
}

/// What the search for a configuration file sees of a directory.
#[derive(Debug, Clone, Copy)]
pub struct DirFacts {
    /// It holds a `rug.toml`.
    pub has_config: bool,
    /// It holds a `.git`, as a directory or as a file.
    pub has_git: bool,
    /// It is the home directory.
    pub is_home: bool,
}

/// Whether the search goes no further up than this directory.
pub open spec fn is_boundary(d: DirFacts) -> bool {
    d.has_git || d.is_home
}

/// Whether the search reaches the `i`-th directory: none before it holds the
/// file or ends the search.
pub open spec fn is_reached(dirs: Seq<DirFacts>, i: int) -> bool {
    0 <= i < dirs.len() && forall|j: int|
        0 <= j < i ==> !(#[trigger] dirs[j]).has_config && !is_boundary(dirs[j])
}

/// Which directory's `rug.toml` configures a run. `dirs` is the start directory
/// and its ancestors, upwards.
///
/// The search ends with the repository root, with the home directory, or at the
/// filesystem root. The directory that ends it still counts itself, so a file
/// in an unrelated ancestor can never configure a run.
pub fn find_config_file_in(dirs: &[DirFacts]) -> (r: Option<usize>)
    ensures
        match r {
            Some(i) => is_reached(dirs@, i as int) && dirs@[i as int].has_config,
            None => forall|i: int| #[trigger] is_reached(dirs@, i) ==> !dirs@[i].has_config,
        },
{
    let mut i: usize = 0;
    while i < dirs.len()
        invariant
            i <= dirs@.len(),
            forall|j: int| 0 <= j < i ==> !(#[trigger] dirs@[j]).has_config && !is_boundary(dirs@[j]),
        decreases dirs@.len() - i,
    {
        if dirs[i].has_config {
            assert(is_reached(dirs@, i as int));
            return Some(i);
        }
        if dirs[i].has_git || dirs[i].is_home {
            assert forall|k: int| #[trigger] is_reached(dirs@, k) implies !dirs@[k].has_config by {
                if k > i {
                    assert(is_boundary(dirs@[i as int]));
                }
            }
            return None;
        }
        i += 1;
    }
    None
}

/// The message when no binary is found.
pub open spec fn no_binary_message() -> Seq<char> {
    "Neither 'tofu' nor 'terraform' found on PATH. Install one or set TF_BINARY env var."@
}

/// Which terraform binary is used: a non-empty override, else `tofu` if it is
/// on the path, else `terraform` if it is, else none. `on_path` tells what is on
/// the path.
pub fn detect_binary_impl(
    env_override: Option<&str>,
    on_path: impl Fn(&str) -> bool,
) -> (r: Result<String, String>)
    requires
        forall|s: &str| call_requires(on_path, (s,)),
    ensures
        env_override is Some && (env_override->0)@.len() > 0 ==> r is Ok && (r->Ok_0)@ == (
        env_override->0)@,
        !(env_override is Some && (env_override->0)@.len() > 0) ==> match r {
            Ok(b) => {
                ||| b@ == "tofu"@ && call_ensures(on_path, ("tofu",), true)
                ||| b@ == "terraform"@ && call_ensures(on_path, ("tofu",), false) && call_ensures(
                    on_path,
                    ("terraform",),
                    true,
                )
            },
            Err(m) => {
                &&& m@ == no_binary_message()
                &&& call_ensures(on_path, ("tofu",), false)
                &&& call_ensures(on_path, ("terraform",), false)
            },
        },
{
    if let Some(bin) = env_override {
        if !bin.is_empty() {
            return Ok(bin.to_owned());
        }
    }
    if on_path("tofu") {
        return Ok("tofu".to_owned());
    }
    if on_path("terraform") {
        return Ok("terraform".to_owned());
    }
    Err(
        "Neither 'tofu' nor 'terraform' found on PATH. Install one or set TF_BINARY env var.".to_owned(),
    )
}

} // verus!
