//! The shell that a terminal runs when no program is given.
use vstd::prelude::*;
use vstd::string::*;

use crate::paths::{file_name, final_name};
use crate::text::same_text;

verus! {

pub const HOMEBREW_ZSH: &'static str = "/opt/homebrew/bin/zsh";

pub const INTEL_HOMEBREW_ZSH: &'static str = "/usr/local/bin/zsh";

pub const SYSTEM_ZSH: &'static str = "/bin/zsh";

/// Select the real zsh executable used for terminals when no program is supplied.
/// A non-empty configured program is an explicit override for development and
/// integration tests; of the known executables, the first that is installed
/// is taken.
pub fn default_shell_program(
    configured: Option<String>,
    homebrew_installed: bool,
    intel_homebrew_installed: bool,
    system_installed: bool,
) -> (program: String)
    ensures
        program@ == if configured is Some && (configured->0)@.len() > 0 {
            (configured->0)@
        } else if homebrew_installed {
            HOMEBREW_ZSH@
        } else if intel_homebrew_installed {
            INTEL_HOMEBREW_ZSH@
        } else if system_installed {
            SYSTEM_ZSH@
        } else {
            "zsh"@
        },
{
    if let Some(program) = configured {
        if !program.as_str().is_empty() {
            return program;
        }
    }
    if homebrew_installed {
        HOMEBREW_ZSH.to_owned()
    } else if intel_homebrew_installed {
        INTEL_HOMEBREW_ZSH.to_owned()
    } else if system_installed {
        SYSTEM_ZSH.to_owned()
    } else {
        "zsh".to_owned()
    }
}

/// Launch zsh as a login shell so the user's normal environment and startup
/// configuration are available in every default terminal.
pub fn default_shell_args(program: &str) -> (args: Vec<String>)
    ensures
        if final_name(program@) == Some("zsh"@) {
            args@.len() == 1 && args@[0]@ == "-l"@
        } else {
            args@.len() == 0
        },
{
    let login: bool = match file_name(program) {
        Some(name) => same_text(name.as_str(), "zsh"),
        None => false,
    };
    let mut args: Vec<String> = Vec::new();
    if login {
        args.push("-l".to_owned());
    }
    args
}

} // verus!
