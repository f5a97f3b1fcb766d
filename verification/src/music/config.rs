//! Where the music lies: the one setting of the program.

use vstd::prelude::*;

verus! {

/// The settings: `base` is the directory from which the tree is built.
#[derive(Debug)]
pub struct Config {
    pub base: String,
}

/// The home directory as text; `..` where none is known.
pub open spec fn home_or_above(home: Option<&str>) -> Seq<char> {
    match home {
        Some(h) => h@,
        None => ".."@,
    }
}

/// The path of the settings file below `home`.
pub open spec fn settings_path(home: Option<&str>) -> Seq<char> {
    home_or_above(home) + "/.config/mpb/config.toml"@
}

/// The path of the music below `home`, which is the base where no settings
/// file names another.
pub open spec fn music_path(home: Option<&str>) -> Seq<char> {
    home_or_above(home) + "/Music/"@
}

/// The home directory as text; `..` where none is known.
fn home_text(home: Option<&str>) -> (r: String)
    ensures
        r@ == home_or_above(home),
{
    match home {
        Some(h) => String::from_str(h),
        None => String::from_str(".."),
    }
}

impl Config {
    /// The path at which the settings file is looked for.
    pub fn location(home: Option<&str>) -> (path: String)
        ensures
            path@ == settings_path(home),
    {
        home_text(home).concat("/.config/mpb/config.toml")
    }

    /// The settings, from the home directory, if one is known, and from the
    /// base that the settings file names, if there is such a file. Without
    /// the file the base is the music below the home directory.
    pub fn new(home: Option<&str>, stored: Option<String>) -> (config: Config)
        ensures
            config.base@ == match stored {
                Some(base) => base@,
                None => music_path(home),
            },
    {
        match stored {
            Some(base) => Config { base },
            None => Config { base: home_text(home).concat("/Music/") },
        }
    }
}

} // verus!
