//! Deciding which program an `Exec` field runs, for the validity check of a
//! desktop entry.

use vstd::prelude::*;

use crate::shellparse::{flattened, parse, parsed};
use crate::steam::{is_steam_app_view, steam_appid};

verus! {

/// Why an `Exec` field names no program to look up.
#[derive(Debug, Clone, Copy, PartialEq, Eq, Structural)]
pub enum ExecError {
    /// The entry has no `Exec` field.
    ExecFieldNotFound,
    /// The `Exec` field names no command.
    ExecParseError,
    /// The field launches a Steam game that is not installed.
    SteamAppNotInstalled,
}

/// The program that an `Exec` field runs, once an `env` wrapper is taken off,
/// or why there is none. A Steam game is first checked with
/// `is_app_installed`.
pub fn parse_exec<F: Fn(u64) -> bool>(exec: Option<&str>, is_app_installed: F) -> (r: Result<String, ExecError>)
    requires
        forall|id: u64| is_app_installed.requires((id,)),
    ensures
        match exec {
            None => r == Err::<String, ExecError>(ExecError::ExecFieldNotFound),
            Some(e) => match parsed(e@) {
                None => r == Err::<String, ExecError>(ExecError::ExecParseError),
                Some(c) => if is_steam_app_view(c.command, c.args) {
                    match r {
                        Ok(binary) => binary@ == flattened(c).command
                            && is_app_installed.ensures((steam_appid(c.args)->0,), true),
                        Err(err) => err == ExecError::SteamAppNotInstalled
                            && is_app_installed.ensures((steam_appid(c.args)->0,), false),
                    }
                } else {
                    r matches Ok(binary) && binary@ == flattened(c).command
                },
            },
        },
{
    let exec = match exec {
        Some(exec) => exec,
        None => return Err(ExecError::ExecFieldNotFound),
    };
    let mut command = match parse(exec) {
        Some(command) => command,
        None => return Err(ExecError::ExecParseError),
    };
    if command.is_steam_app() && !command.is_steam_app_installed(is_app_installed) {
        return Err(ExecError::SteamAppNotInstalled);
    }
    command.flatten_env();
    Ok(command.command)
}

} // verus!
