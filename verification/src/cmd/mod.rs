//! The command surface: the parsed command-line data and the verified cores
//! of each subcommand. Argument parsing, terminal output and persistence
//! live outside the crate; they hand plain values in and take plain values
//! back.

pub mod compat;
pub mod config;
pub mod view;

use vstd::prelude::*;

use crate::strutil::{chars_eq_str, fold_chars, fold_spec};

verus! {

broadcast use vstd::string::group_string_axioms;

/// One parsed command invocation.
pub enum CmdOpts {
    /// List tweaks, configurations, et cetera.
    List(CmdList),
    /// Configure a target's tweak loading.
    Config {
        /// Only load selected tweaks.
        allow: bool,
        /// Deny loading selected tweaks.
        deny: bool,
        /// Whether custom configuration applies to the target at all.
        custom_config: Option<bool>,
        /// Whether tweaks are enabled for the target.
        enable_tweaks: Option<bool>,
        /// Tweaks to set "on" in the configuration.
        add: Vec<String>,
        /// Tweaks to set "off" in the configuration.
        remove: Vec<String>,
        /// The target to configure.
        target: String,
    },
    /// View an existing configuration.
    View {
        /// The target to view, or every stored configuration if absent.
        target: Option<String>,
    },
    /// Configure the compatibility mode for tweaks.
    Compat {
        /// Tweaks to run under the framework's native compatibility mode.
        libhooker: Vec<String>,
        /// Tweaks to run under the legacy substrate compatibility mode.
        substrate: Vec<String>,
    },
}

/// What the list subcommand enumerates.
pub enum CmdList {
    /// The installed tweaks that can be enabled or disabled.
    Tweaks,
    /// The available app bundles.
    Apps,
    /// The available daemons.
    Daemons,
}

/// The folded forms read as "yes".
pub open spec fn spec_yes(f: Seq<char>) -> bool {
    f == "true"@ || f == "yes"@ || f == "y"@ || f == "on"@
}

/// The folded forms read as "no".
pub open spec fn spec_no(f: Seq<char>) -> bool {
    f == "false"@ || f == "no"@ || f == "n"@ || f == "off"@
}

/// Parse a yes/no flag value, case-insensitively and ignoring surrounding
/// whitespace; anything outside the accepted forms is rejected.
pub fn parse_yes_no(s: &str) -> (r: Result<bool, &'static str>)
    ensures
        (r == Ok::<bool, &'static str>(true)) == spec_yes(fold_spec(s@)),
        (r == Ok::<bool, &'static str>(false)) == spec_no(fold_spec(s@)),
        r is Err == (!spec_yes(fold_spec(s@)) && !spec_no(fold_spec(s@))),
{
    proof {
        reveal_strlit("true");
        reveal_strlit("yes");
        reveal_strlit("y");
        reveal_strlit("on");
        reveal_strlit("false");
        reveal_strlit("no");
        reveal_strlit("n");
        reveal_strlit("off");
        assert("true"@.len() == 4 && "yes"@.len() == 3 && "y"@.len() == 1 && "on"@.len() == 2);
        assert("false"@.len() == 5 && "no"@.len() == 2 && "n"@.len() == 1 && "off"@.len() == 3);
        assert("yes"@[0] == 'y' && "off"@[0] == 'o');
        assert("y"@[0] == 'y' && "n"@[0] == 'n');
        assert("on"@[0] == 'o' && "no"@[0] == 'n');
    }
    let folded = fold_chars(s);
    if chars_eq_str(&folded, "true") || chars_eq_str(&folded, "yes") || chars_eq_str(&folded, "y")
        || chars_eq_str(&folded, "on") {
        Ok(true)
    } else if chars_eq_str(&folded, "false") || chars_eq_str(&folded, "no") || chars_eq_str(
        &folded,
        "n",
    ) || chars_eq_str(&folded, "off") {
        Ok(false)
    } else {
        Err("expected true/yes/y or false/no/n")
    }
}

} // verus!
