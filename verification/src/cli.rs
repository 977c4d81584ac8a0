//! The commands of the program, as plain values.
use vstd::prelude::*;

verus! {

/// The parsed command line.
pub struct Cli {
    pub command: Commands,
}

/// The commands of the program.
pub enum Commands {
    /// List every account: address, plan, quota, last activity.
    List,
    /// Log in and add the current account; `skip` reads the existing
    /// `auth.json` instead of logging in.
    Login { skip: bool },
    /// Switch the active account, interactively or by a part of its address.
    Switch { email: Option<String> },
    /// Import an authentication file, or every one in a directory.
    Import { path: String, alias: Option<String> },
    /// Remove accounts, chosen interactively.
    Remove,
    /// Watch the accounts' quota, in the terminal or on a web page.
    Watch { interval: u64, threshold: u64, auto_switch: bool, web: bool, port: u16 },
    /// The former name of `login`.
    Add { skip: bool, no_login: bool },
}

/// Whether the former `add` command skips logging in: it does when either
/// of its flags asks for it.
pub fn add_skips_login(skip: bool, no_login: bool) -> (r: bool)
    ensures
        r == (skip || no_login),
{
    skip || no_login
}

/// The warning that the former `add` command prints, pointing to the
/// `login` command it stands for.
pub open spec fn add_warning_text(skips: bool) -> Seq<char> {
    "\x1b[1;31mwarning:\x1b[0m `add` is deprecated; use \x1b[1;32m`cx-switch login"@ + (if skips {
        " --skip"@
    } else {
        ""@
    }) + "`\x1b[0m"@
}

/// Writes the warning of the former `add` command (see [`add_warning_text`]).
pub fn add_deprecation_warning(skips: bool) -> (r: String)
    ensures
        r@ == add_warning_text(skips),
{
    let mut w = String::from_str("\x1b[1;31mwarning:\x1b[0m `add` is deprecated; use \x1b[1;32m`cx-switch login");
    w.append(if skips { " --skip" } else { "" });
    w.append("`\x1b[0m");
    w
}

} // verus!
