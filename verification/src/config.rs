//! The configuration of one run: what the command line gives, over what the
//! configuration file gives, over the defaults.

use crate::cli::Arguments;
use crate::text::text_views;
use vstd::prelude::*;
use vstd::string::StringExecFns;

verus! {

/// The configuration of one run.
#[derive(Debug, Clone)]
pub struct Config {
    /// The password, given in clear.
    pub password: Option<String>,
    /// The file to read the password from.
    pub password_file: Option<String>,
    /// Do not ask for a next action when one is done.
    pub dont_loop: Option<bool>,
    /// Ask for a next action when one is done.
    pub do_loop: Option<bool>,
    /// The file type under which entries are edited.
    pub file_type: Option<String>,
    /// The file that holds the journal.
    pub file_path: Option<String>,
}

/// A place where a configuration file may lie, and whether one lies there.
#[derive(Debug, Clone)]
pub struct ConfigProbe {
    /// The path.
    pub path: String,
    /// Whether a file exists at the path.
    pub exists: bool,
}

/// A copy of a text that may be missing.
fn copy_text(text: &Option<String>) -> (copy: Option<String>)
    ensures
        copy == *text,
{
    match text {
        Some(text) => Some(text.clone()),
        None => None,
    }
}

/// The first of two texts that is there.
fn first_of(first: &Option<String>, second: &Option<String>) -> (chosen: Option<String>)
    ensures
        chosen == (if first is Some {
            *first
        } else {
            *second
        }),
{
    match first {
        Some(_) => copy_text(first),
        None => copy_text(second),
    }
}

/// A switch of the command line where it is set, else what the file says.
fn switch_of(set: bool, fallback: Option<bool>) -> (chosen: Option<bool>)
    ensures
        chosen == (if set {
            Some(true)
        } else {
            fallback
        }),
{
    if set {
        Some(true)
    } else {
        fallback
    }
}

/// The path of the first probe, from position `from` on, at which a file
/// exists.
pub open spec fn first_existing(probes: Seq<ConfigProbe>, from: int) -> Option<String>
    decreases probes.len() - from,
{
    if from < 0 || from >= probes.len() {
        None
    } else if probes[from].exists {
        Some(probes[from].path)
    } else {
        first_existing(probes, from + 1)
    }
}

/// The paths at which a configuration file is looked for, in order: the
/// file that the environment names, the one under the configuration
/// directory, the one under the home directory, each as far as the
/// environment gives it.
pub open spec fn candidate_paths(
    env_file: Option<Seq<char>>,
    config_dir: Option<Seq<char>>,
    home_dir: Option<Seq<char>>,
) -> Seq<Seq<char>> {
    let first = match env_file {
        Some(file) => seq![file],
        None => seq![],
    };
    let second = match config_dir {
        Some(dir) => seq![dir + "/jrn/config.toml"@],
        None => seq![],
    };
    let third = match home_dir {
        Some(dir) => seq![dir + "/.config/jrn/config.toml"@],
        None => seq![],
    };
    first + second + third
}

impl Config {
    /// What the command line alone configures.
    pub fn from(value: Arguments) -> (config: Config)
        ensures
            config.password == value.password,
            config.password_file == value.password_file,
            config.dont_loop == Some(value.dont_loop),
            config.do_loop == Some(value.do_loop),
            config.file_type == value.file_type,
            config.file_path == value.file_path,
    {
        Config {
            password: value.password,
            password_file: value.password_file,
            dont_loop: Some(value.dont_loop),
            do_loop: Some(value.do_loop),
            file_type: value.file_type,
            file_path: value.file_path,
        }
    }

    /// The file that holds the journal where the command line names none:
    /// the one that the environment names, else the one of the
    /// configuration file or of the defaults.
    pub fn get_journal_path(default_config: &Config, journal_env: Option<String>) -> (path: String)
        requires
            journal_env is Some || default_config.file_path is Some,
        ensures
            path == (match journal_env {
                Some(file) => file,
                None => default_config.file_path->Some_0,
            }),
    {
        match journal_env {
            Some(file) => file,
            None => match &default_config.file_path {
                Some(file) => file.clone(),
                None => String::new(),
            },
        }
    }

    /// The paths at which a configuration file is looked for, in order.
    pub fn config_candidates(
        env_file: Option<&str>,
        config_dir: Option<&str>,
        home_dir: Option<&str>,
    ) -> (paths: Vec<String>)
        ensures
            text_views(paths@) == candidate_paths(
                match env_file {
                    Some(t) => Some(t@),
                    None => None,
                },
                match config_dir {
                    Some(t) => Some(t@),
                    None => None,
                },
                match home_dir {
                    Some(t) => Some(t@),
                    None => None,
                },
            ),
    {
        let mut paths: Vec<String> = Vec::new();
        if let Some(file) = env_file {
            paths.push(file.to_owned());
        }
        if let Some(dir) = config_dir {
            paths.push(dir.to_owned().concat("/jrn/config.toml"));
        }
        if let Some(dir) = home_dir {
            paths.push(dir.to_owned().concat("/.config/jrn/config.toml"));
        }
        assert(text_views(paths@) =~= candidate_paths(
            match env_file {
                Some(t) => Some(t@),
                None => None,
            },
            match config_dir {
                Some(t) => Some(t@),
                None => None,
            },
            match home_dir {
                Some(t) => Some(t@),
                None => None,
            },
        ));
        paths
    }

    /// The configuration file to read: the one that the command line
    /// names, whether it exists or not; else the first of the probed
    /// places at which a file exists; else none.
    pub fn get_config_path(args: &Arguments, probes: &Vec<ConfigProbe>) -> (path: Option<String>)
        ensures
            path == (if args.config_file is Some {
                args.config_file
            } else {
                first_existing(probes@, 0)
            }),
    {
        if args.config_file.is_some() {
            return copy_text(&args.config_file);
        }
        let mut i: usize = 0;
        while i < probes.len()
            invariant
                i <= probes@.len(),
                args.config_file is None,
                first_existing(probes@, 0) == first_existing(probes@, i as int),
            decreases probes@.len() - i,
        {
            if probes[i].exists {
                return Some(probes[i].path.clone());
            }
            i += 1;
        }
        None
    }

    /// The configuration under the command line: what the configuration
    /// file holds, where one was read and understood, else the defaults.
    pub fn get_default_config(from_file: Option<Config>) -> (config: Config)
        ensures
            match from_file {
                Some(file) => config == file,
                None => is_default(config),
            },
    {
        match from_file {
            Some(file) => file,
            None => Config::default(),
        }
    }

    /// The configuration of the run: each setting from the command line
    /// where it is given there, else from `default_config`. The journal's
    /// file, where the command line names none, is the one that the
    /// environment names, else that of `default_config`.
    pub fn get_config(args: &Arguments, default_config: &Config, journal_env: Option<String>) -> (config:
        Config)
        requires
            args.file_path is Some || journal_env is Some || default_config.file_path is Some,
        ensures
            config.password == (if args.password is Some {
                args.password
            } else {
                default_config.password
            }),
            config.password_file == (if args.password_file is Some {
                args.password_file
            } else {
                default_config.password_file
            }),
            config.do_loop == (if args.do_loop {
                Some(true)
            } else {
                default_config.do_loop
            }),
            config.dont_loop == (if args.dont_loop {
                Some(true)
            } else {
                default_config.dont_loop
            }),
            config.file_type == (if args.file_type is Some {
                args.file_type
            } else {
                default_config.file_type
            }),
            config.file_path == (if args.file_path is Some {
                args.file_path
            } else if journal_env is Some {
                journal_env
            } else {
                default_config.file_path
            }),
    {
        let password = first_of(&args.password, &default_config.password);
        let password_file = first_of(&args.password_file, &default_config.password_file);
        let do_loop = switch_of(args.do_loop, default_config.do_loop);
        let dont_loop = switch_of(args.dont_loop, default_config.dont_loop);
        let file_type = first_of(&args.file_type, &default_config.file_type);
        let file_path = match &args.file_path {
            Some(_) => copy_text(&args.file_path),
            None => Some(Config::get_journal_path(default_config, journal_env)),
        };
        Config { password, password_file, do_loop, dont_loop, file_type, file_path }
    }
}

/// The defaults: no password, no looping either way, entries edited as
/// Markdown, the journal in `./jrn.json`.
pub open spec fn is_default(config: Config) -> bool {
    &&& config.password is None
    &&& config.password_file is None
    &&& config.dont_loop == Some(false)
    &&& config.do_loop == Some(false)
    &&& config.file_type matches Some(t) && t@ == ".md"@
    &&& config.file_path matches Some(p) && p@ == "./jrn.json"@
}

impl Default for Config {
    fn default() -> (config: Config)
        ensures
            is_default(config),
    {
        Config {
            password: None,
            password_file: None,
            dont_loop: Some(false),
            do_loop: Some(false),
            file_type: Some(".md".to_owned()),
            file_path: Some("./jrn.json".to_owned()),
        }
    }
}

} // verus!
