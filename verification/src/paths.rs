//! Where the configuration file and the log file are looked for, computed
//! from the values of the environment variables that decide it.

use crate::config::Config;
use crate::error::Error;
use crate::grammar;
use crate::text::texts;
use vstd::prelude::*;

verus! {

/// The user's configuration directory: `$XDG_CONFIG_HOME` if it is set, else
/// `$HOME/.config`, and none if neither is set.
pub open spec fn local_dir(xdg_config_home: Option<Seq<char>>, home: Option<Seq<char>>) -> Option<
    Seq<char>,
> {
    match xdg_config_home {
        Some(dir) => Some(dir),
        None => match home {
            Some(dir) => Some(dir + "/.config"@),
            None => None,
        },
    }
}

/// The system's configuration directory: `$XDG_CONFIG_DIRS` if it is set,
/// else `/etc`.
pub open spec fn global_dir(xdg_config_dirs: Option<Seq<char>>) -> Seq<char> {
    match xdg_config_dirs {
        Some(dir) => dir,
        None => "/etc"@,
    }
}

/// The configuration file of a configuration directory.
pub open spec fn config_file(dir: Seq<char>) -> Seq<char> {
    dir + "/fpwm/fpwm.conf"@
}

/// The view of an optional string slice.
pub open spec fn text_of(s: Option<&str>) -> Option<Seq<char>> {
    match s {
        Some(t) => Some(t@),
        None => None,
    }
}

/// The places where the configuration file may be, in the order in which
/// they are tried: the user's, if there is one, then the system's.
pub open spec fn candidates(
    xdg_config_home: Option<Seq<char>>,
    home: Option<Seq<char>>,
    xdg_config_dirs: Option<Seq<char>>,
) -> Seq<Seq<char>> {
    match local_dir(xdg_config_home, home) {
        Some(dir) => seq![config_file(dir), config_file(global_dir(xdg_config_dirs))],
        None => seq![config_file(global_dir(xdg_config_dirs))],
    }
}

/// Returns the user's configuration directory.
pub fn get_local_config_path(xdg_config_home: Option<&str>, home: Option<&str>) -> (r: Option<
    String,
>)
    ensures
        match local_dir(text_of(xdg_config_home), text_of(home)) {
            Some(dir) => r matches Some(s) && s@ == dir,
            None => r is None,
        },
{
    match xdg_config_home {
        Some(dir) => Some(dir.to_owned()),
        None => match home {
            Some(dir) => Some(dir.to_owned().concat("/.config")),
            None => None,
        },
    }
}

/// Returns the system's configuration directory.
pub fn get_global_config_path(xdg_config_dirs: Option<&str>) -> (r: String)
    ensures
        r@ == global_dir(text_of(xdg_config_dirs)),
{
    match xdg_config_dirs {
        Some(dir) => dir.to_owned(),
        None => "/etc".to_owned(),
    }
}

/// Returns the paths at which the configuration file is looked for, the one
/// of highest priority first.
pub fn get_config_file(
    xdg_config_home: Option<&str>,
    home: Option<&str>,
    xdg_config_dirs: Option<&str>,
) -> (paths: Vec<String>)
    ensures
        texts(paths@) == candidates(
            text_of(xdg_config_home),
            text_of(home),
            text_of(xdg_config_dirs),
        ),
{
    let mut paths: Vec<String> = Vec::new();
    match get_local_config_path(xdg_config_home, home) {
        Some(dir) => {
            paths.push(dir.concat("/fpwm/fpwm.conf"));
        },
        None => {},
    }
    paths.push(get_global_config_path(xdg_config_dirs).concat("/fpwm/fpwm.conf"));
    assert(texts(paths@) =~= candidates(
        text_of(xdg_config_home),
        text_of(home),
        text_of(xdg_config_dirs),
    ));
    paths
}

/// The text of the first source that was found, if any was.
pub open spec fn first_found(sources: Seq<Option<String>>) -> Option<Seq<char>>
    decreases sources.len(),
{
    if sources.len() == 0 {
        None
    } else {
        match sources[0] {
            Some(text) => Some(text@),
            None => first_found(sources.drop_first()),
        }
    }
}

/// Loads the configuration. `sources` holds, for each place where the
/// configuration file may be, in the order of [`get_config_file`], the text
/// of the file there, or nothing if there is none. The first file that
/// exists is the configuration; that no file exists is an error.
pub fn load_config(sources: &Vec<Option<String>>) -> (r: Result<Config, Error>)
    ensures
        match first_found(sources@) {
            None => r == Err::<Config, Error>(Error::ConfigNotFound),
            Some(text) => match grammar::parse(text) {
                Ok(c) => r matches Ok(config) && config@ == c,
                Err((n, f)) => n <= usize::MAX && r == Err::<Config, Error>(
                    Error::ConfigParseError { line: n as usize, fault: f },
                ),
            },
        },
        r matches Ok(config) ==> crate::roundtrip::well_formed(
            config.variables(),
            config@.keybinds,
        ),
{
    let mut i: usize = 0;
    assert(sources@.skip(0) == sources@);
    while i < sources.len()
        invariant
            i <= sources.len(),
            first_found(sources@) == first_found(sources@.skip(i as int)),
        decreases sources.len() - i,
    {
        assert(sources@.skip(i as int)[0] == sources@[i as int]);
        assert(sources@.skip(i as int).drop_first() == sources@.skip(i + 1));
        match &sources[i] {
            Some(text) => {
                return Config::parse(text.as_str());
            },
            None => {},
        }
        i += 1;
    }
    Err(Error::ConfigNotFound)
}

/// The path of the log file below the user's home directory.
pub fn get_log_path(home: &str) -> (path: String)
    ensures
        path@ == home@ + "/.fpwm/fpwm.log"@,
{
    home.to_owned().concat("/.fpwm/fpwm.log")
}

} // verus!
