//! Command-line arguments of the pool.
use vstd::prelude::*;

verus! {

/// Where the configuration is read from when no path is given.
pub const DEFAULT_CONFIG_PATH: &'static str = "pool-config.toml";

/// The usage line shown for `-h` or `--help`.
pub const USAGE: &'static str = "Usage: -h/--help, -c/--config <path|default pool-config.toml>";

/// The parsed command line.
pub struct Args {
    pub config_path: String,
}

/// What a command line asks for.
pub enum ArgsOutcome {
    /// Read the configuration from this path.
    Config(Seq<char>),
    /// Use the default configuration path.
    Default,
    /// Show the usage line.
    Help,
}

/// Reads the arguments from position `i` on: `-c` or `--config` takes the
/// argument after it as the configuration path, `-h` or `--help` asks for
/// the usage line, whichever comes first; anything else is passed over.
pub open spec fn scan_args(items: Seq<Seq<char>>, i: int) -> ArgsOutcome
    decreases items.len() - i,
{
    if i < 0 || i >= items.len() {
        ArgsOutcome::Default
    } else if items[i] == "-c"@ || items[i] == "--config"@ {
        if i + 1 < items.len() {
            ArgsOutcome::Config(items[i + 1])
        } else {
            ArgsOutcome::Default
        }
    } else if items[i] == "-h"@ || items[i] == "--help"@ {
        ArgsOutcome::Help
    } else {
        scan_args(items, i + 1)
    }
}

pub open spec fn string_views(items: Seq<String>) -> Seq<Seq<char>> {
    items.map_values(|s: String| s@)
}

impl Args {
    /// Parses the command line `items` (program name included): the path
    /// after the first `-c`/`--config`, or the default path; `Err` with the
    /// usage line when `-h`/`--help` comes first.
    pub fn from_args(items: &Vec<String>) -> (r: Result<Args, String>)
        ensures
            match scan_args(string_views(items@), 0) {
                ArgsOutcome::Config(p) => r is Ok && r->Ok_0.config_path@ == p,
                ArgsOutcome::Default => r is Ok && r->Ok_0.config_path@ == DEFAULT_CONFIG_PATH@,
                ArgsOutcome::Help => r is Err && r->Err_0@ == USAGE@,
            },
    {
        let short_config = "-c".to_owned();
        let long_config = "--config".to_owned();
        let short_help = "-h".to_owned();
        let long_help = "--help".to_owned();
        let ghost v = string_views(items@);
        let mut i: usize = 0;
        while i < items.len()
            invariant
                i <= items@.len(),
                v == string_views(items@),
                short_config@ == "-c"@,
                long_config@ == "--config"@,
                short_help@ == "-h"@,
                long_help@ == "--help"@,
                scan_args(v, 0) == scan_args(v, i as int),
            decreases items@.len() - i,
        {
            let item = &items[i];
            assert(v[i as int] == item@);
            if *item == short_config || *item == long_config {
                if i + 1 < items.len() {
                    let path = items[i + 1].clone();
                    assert(v[i + 1] == items@[i + 1]@);
                    return Ok(Args { config_path: path });
                } else {
                    return Ok(Args { config_path: DEFAULT_CONFIG_PATH.to_owned() });
                }
            } else if *item == short_help || *item == long_help {
                return Err(USAGE.to_owned());
            }
            i = i + 1;
        }
        Ok(Args { config_path: DEFAULT_CONFIG_PATH.to_owned() })
    }
}

} // verus!
