//! Where the configuration lives, given what the environment says.

use crate::text::push_str;
use crate::text::string_of;
use crate::utils::config::ConfigError;
use vstd::prelude::*;

verus! {

/// The operating systems that have a configuration directory of their own.
#[derive(Debug, PartialEq, Eq, Clone, Copy, Structural)]
pub enum Platform {
    MacOs,
    Windows,
    Linux,
}

/// What the environment says of the user's home: the values of `HOME` and
/// `USERPROFILE`, where they are set, and whether each names a directory.
#[derive(Debug)]
pub struct HomeLookup {
    pub home: Option<String>,
    pub home_is_dir: bool,
    pub userprofile: Option<String>,
    pub userprofile_is_dir: bool,
}

/// The home directory: `HOME` where it names a directory, else `USERPROFILE`
/// where it names one. Without `HOME` there is none.
pub open spec fn home_of(env: HomeLookup) -> Option<Seq<char>> {
    match env.home {
        None => None,
        Some(home) => if env.home_is_dir {
            Some(home@)
        } else {
            match env.userprofile {
                Some(profile) => if env.userprofile_is_dir {
                    Some(profile@)
                } else {
                    None
                },
                None => None,
            }
        },
    }
}

/// The character that parts the names of a path.
pub open spec fn separator(platform: Platform) -> char {
    match platform {
        Platform::Windows => '\\',
        _ => '/',
    }
}

/// Whether `c` parts the names of a path.
pub open spec fn is_separator(platform: Platform, c: char) -> bool {
    c == '/' || (platform == Platform::Windows && c == '\\')
}

/// The configuration directory below the home directory.
pub open spec fn config_subdir(platform: Platform) -> Seq<char> {
    match platform {
        Platform::MacOs => "Library/Application Support"@,
        Platform::Windows => "AppData\\Roaming"@,
        Platform::Linux => ".config"@,
    }
}

/// `base` and `rest` as one path: a separator stands between them unless
/// `base` is empty or ends with one.
pub open spec fn joined(platform: Platform, base: Seq<char>, rest: Seq<char>) -> Seq<char> {
    if base.len() == 0 || is_separator(platform, base.last()) {
        base + rest
    } else {
        base.push(separator(platform)) + rest
    }
}

/// The home directory, or `DirNotFound`.
pub fn home_dir(env: &HomeLookup) -> (r: Result<String, ConfigError>)
    ensures
        match home_of(*env) {
            Some(home) => r matches Ok(path) && path@ == home,
            None => r matches Err(ConfigError::DirNotFound),
        },
{
    match &env.home {
        None => Err(ConfigError::DirNotFound),
        Some(home) => {
            if env.home_is_dir {
                return Ok(home.clone());
            }
            match &env.userprofile {
                Some(profile) => {
                    if env.userprofile_is_dir {
                        Ok(profile.clone())
                    } else {
                        Err(ConfigError::DirNotFound)
                    }
                },
                None => Err(ConfigError::DirNotFound),
            }
        },
    }
}

/// The configuration directory of `platform` below the home directory, or
/// `DirNotFound` where there is no home directory.
pub fn config_dir(env: &HomeLookup, platform: Platform) -> (r: Result<String, ConfigError>)
    ensures
        match home_of(*env) {
            Some(home) => r matches Ok(path) && path@ == joined(
                platform,
                home,
                config_subdir(platform),
            ),
            None => r matches Err(ConfigError::DirNotFound),
        },
{
    let home = match home_dir(env) {
        Ok(path) => path,
        Err(e) => {
            return Err(e);
        },
    };
    let mut path: Vec<char> = Vec::new();
    push_str(&mut path, home.as_str());
    assert(path@ =~= home@);
    if path.len() > 0 {
        let last = path[path.len() - 1];
        let ends_with_separator = last == '/' || (platform == Platform::Windows && last == '\\');
        if !ends_with_separator {
            match platform {
                Platform::Windows => path.push('\\'),
                _ => path.push('/'),
            }
        }
    }
    match platform {
        Platform::MacOs => push_str(&mut path, "Library/Application Support"),
        Platform::Windows => push_str(&mut path, "AppData\\Roaming"),
        Platform::Linux => push_str(&mut path, ".config"),
    }
    Ok(string_of(&path))
}

} // verus!
