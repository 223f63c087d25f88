//! The daemon's configuration.  No setting exists yet: the configuration
//! file is still parsed, so that an invalid one is noticed and the default
//! takes its place, and the rest of the program reads settings only
//! through [`with_config`].

use vstd::prelude::*;

verus! {

/// The configuration; it has no settings yet.
#[derive(Debug, PartialEq, Eq, Structural)]
pub struct Config {}

impl Default for Config {
    /// The default configuration.
    fn default() -> (c: Config)
        ensures
            c == (Config {  }),
    {
        Config {  }
    }
}

/// The text is a syntactically valid TOML document.
pub uninterp spec fn toml_valid(text: Seq<char>) -> bool;

/// Relies on toml::from_str::<toml::Table>: it succeeds exactly when the
/// text is a valid TOML document, a function of the text alone.
#[verifier::external_body]
fn toml_check(text: &String) -> (r: bool)
    ensures
        r == toml_valid(text@),
{
    toml::from_str::<toml::Table>(text.as_str()).is_ok()
}

/// Turns the configuration file's contents into the configuration: a
/// valid TOML document gives the settings it holds (today there are
/// none), anything else falls back to the default.
pub fn load_config(contents: &String) -> (c: Config)
    ensures
        c == (Config {  }),
{
    if toml_check(contents) {
        Config {  }
    } else {
        Config::default()
    }
}

/// Applies `f` to the configuration and hands back what it returned.
pub fn with_config<F: FnOnce(&Config) -> R, R>(cfg: &Config, f: F) -> (r: R)
    requires
        call_requires(f, (cfg,)),
    ensures
        call_ensures(f, (cfg,), r),
{
    f(cfg)
}

} // verus!
