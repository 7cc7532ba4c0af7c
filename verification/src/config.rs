//! Run configuration: the optional user configuration file's values, the
//! command-line choices, and the precedence rules that combine them into
//! the effective settings of one run.

use vstd::prelude::*;

use crate::period::{period_of, Period};
use crate::report::Depth;

verus! {

/// Values an optional user configuration file may supply; every field may
/// be absent.
#[derive(Debug)]
pub struct DevcapConfig {
    pub path: Option<String>,
    pub author: Option<String>,
    pub period: Option<String>,
    pub show_origin: Option<bool>,
    pub color: Option<bool>,
}

impl Default for DevcapConfig {
    /// The configuration with nothing set.
    fn default() -> (c: DevcapConfig)
        ensures
            c.path is None,
            c.author is None,
            c.period is None,
            c.show_origin is None,
            c.color is None,
    {
        DevcapConfig { path: None, author: None, period: None, show_origin: None, color: None }
    }
}

/// The command-line choices, already parsed into plain values.
#[derive(Debug)]
pub struct Cli {
    /// Time period: today, yesterday, 24h, 3d, 7d, week.
    pub period: Option<Period>,
    /// Root directory to scan for repositories.
    pub path: Option<String>,
    /// Output as JSON.
    pub json: bool,
    /// Disable colored output.
    pub no_color: bool,
    /// Interactive drill-down mode.
    pub interactive: bool,
    /// Output depth.
    pub depth: Depth,
    /// Filter by author name.
    pub author: Option<String>,
    /// Show repository origin.
    pub show_origin: bool,
    /// Copy output to clipboard as plain text.
    pub copy: bool,
}

/// The settings one run works with, after precedence is applied.
#[derive(Debug)]
pub struct Settings {
    pub period: Period,
    pub path: String,
    pub author: Option<String>,
    pub show_origin: bool,
    pub use_color: bool,
}

/// Both options hold the same characters, or both are absent.
pub open spec fn opt_str_eq(a: Option<String>, b: Option<String>) -> bool {
    match (a, b) {
        (Option::Some(x), Option::Some(y)) => x@ == y@,
        (Option::None, Option::None) => true,
        _ => false,
    }
}

/// Copies an optional string.
fn clone_opt_string(o: &Option<String>) -> (r: Option<String>)
    ensures
        opt_str_eq(r, *o),
{
    match o {
        Option::Some(s) => Some(s.clone()),
        Option::None => None,
    }
}

/// Combines command line, configuration file and fallbacks into the
/// effective settings: the command line wins, then the configuration file,
/// then the defaults (`today`, the current directory, the fallback author);
/// color is off for JSON output or when disabled, else the configuration
/// decides, else the terminal does.
pub fn effective_settings(
    cli: &Cli,
    cfg: &DevcapConfig,
    fallback_author: Option<String>,
    stdout_is_tty: bool,
) -> (s: Settings)
    ensures
        s.period == (match cli.period {
            Option::Some(p) => p,
            Option::None => match cfg.period {
                Option::Some(cs) => match period_of(cs@) {
                    Option::Some(p) => p,
                    Option::None => Period::Today,
                },
                Option::None => Period::Today,
            },
        }),
        s.path@ == (match cli.path {
            Option::Some(p) => p@,
            Option::None => match cfg.path {
                Option::Some(cp) => cp@,
                Option::None => "."@,
            },
        }),
        opt_str_eq(
            s.author,
            match cli.author {
                Option::Some(a) => Some(a),
                Option::None => match cfg.author {
                    Option::Some(ca) => Some(ca),
                    Option::None => fallback_author,
                },
            },
        ),
        s.show_origin == (cli.show_origin || cfg.show_origin == Some(true)),
        s.use_color == (if cli.no_color || cli.json {
            false
        } else {
            match cfg.color {
                Option::Some(c) => c,
                Option::None => stdout_is_tty,
            }
        }),
{
    let period = match &cli.period {
        Option::Some(p) => *p,
        Option::None => match &cfg.period {
            Option::Some(cs) => match Period::from_str(cs.as_str()) {
                Ok(p) => p,
                Err(_) => Period::Today,
            },
            Option::None => Period::Today,
        },
    };
    let path = match &cli.path {
        Option::Some(p) => p.clone(),
        Option::None => match &cfg.path {
            Option::Some(cp) => cp.clone(),
            Option::None => String::from_str("."),
        },
    };
    let author = match &cli.author {
        Option::Some(a) => Some(a.clone()),
        Option::None => match &cfg.author {
            Option::Some(ca) => Some(ca.clone()),
            Option::None => fallback_author,
        },
    };
    let show_origin = cli.show_origin || matches!(cfg.show_origin, Option::Some(true));
    let use_color = if cli.no_color || cli.json {
        false
    } else {
        match cfg.color {
            Option::Some(c) => c,
            Option::None => stdout_is_tty,
        }
    };
    Settings { period, path, author, show_origin, use_color }
}

} // verus!
