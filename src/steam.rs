//! Recognising commands that launch a Steam game.

use vstd::prelude::*;

use std::collections::BTreeMap;

use crate::shellparse::Command;
use crate::text::{has_prefix, parse_u64, starts_with, strip_prefixes, trim, trim_start_matches, trimmed, u64_of};

verus! {

/// The argument with which Steam is told to run a game, before the game's id.
pub const STEAM_ARG_FORMAT: &'static str = "steam://rungameid/";

/// The game id that the first argument of the form `steam://rungameid/<id>`
/// (surrounding whitespace aside) carries, if that argument holds a valid id.
pub open spec fn steam_appid(args: Seq<Seq<char>>) -> Option<u64>
    decreases args.len(),
{
    if args.len() == 0 {
        None
    } else {
        let arg = trimmed(args[0]);
        if has_prefix(arg, STEAM_ARG_FORMAT@) {
            u64_of(strip_prefixes(arg, STEAM_ARG_FORMAT@))
        } else {
            steam_appid(args.drop_first())
        }
    }
}

/// The command runs `steam` on an argument that names a game by a valid id.
pub open spec fn is_steam_app_view(command: Seq<char>, args: Seq<Seq<char>>) -> bool {
    command == "steam"@ && steam_appid(args) is Some
}

impl Command {
    /// The id of the game that the first `steam://rungameid/` argument names;
    /// `None` when there is no such argument or its id is not a valid number.
    pub fn find_steam_appid(&self) -> (r: Option<u64>)
        ensures
            r == steam_appid(self.args.deep_view()),
    {
        proof { reveal_strlit("steam://rungameid/"); }
        let mut i: usize = 0;
        assert(self.args.deep_view().skip(0) =~= self.args.deep_view());
        while i < self.args.len()
            invariant
                i <= self.args.len(),
                STEAM_ARG_FORMAT@.len() > 0,
                steam_appid(self.args.deep_view()) == steam_appid(self.args.deep_view().skip(i as int)),
            decreases self.args.len() - i,
        {
            let ghost rest = self.args.deep_view().skip(i as int);
            assert(rest.drop_first() =~= self.args.deep_view().skip(i + 1));
            assert(rest[0] == self.args[i as int]@);
            let arg = trim(self.args[i].as_str());
            if starts_with(arg, STEAM_ARG_FORMAT) {
                let appid = trim_start_matches(arg, STEAM_ARG_FORMAT);
                return parse_u64(appid);
            }
            i = i + 1;
        }
        None
    }

    /// Whether the command launches a Steam game: it runs `steam` with an
    /// argument naming a game by a valid id.
    pub fn is_steam_app(&self) -> (r: bool)
        ensures
            r == is_steam_app_view(self.command@, self.args.deep_view()),
    {
        self.command.as_str().eq("steam") && self.find_steam_appid().is_some()
    }

    /// Whether the command launches a Steam game that is installed, as
    /// `is_app_installed` answers for the game's id. A command that launches
    /// no Steam game gives `false` without asking.
    pub fn is_steam_app_installed<F: Fn(u64) -> bool>(&self, is_app_installed: F) -> (r: bool)
        requires
            forall|id: u64| is_app_installed.requires((id,)),
        ensures
            !is_steam_app_view(self.command@, self.args.deep_view()) ==> !r,
            is_steam_app_view(self.command@, self.args.deep_view()) ==> is_app_installed.ensures(
                (steam_appid(self.args.deep_view())->0,),
                r,
            ),
    {
        if !self.is_steam_app() {
            return false;
        }
        let app_id = match self.find_steam_appid() {
            Some(app_id) => app_id,
            None => return false,
        };
        is_app_installed(app_id)
    }
}

/// One Steam library folder, as Steam lists it in `libraryfolders.vdf`.
#[derive(Debug, PartialEq)]
pub struct LibraryFolder {
    pub path: String,
    pub label: String,
    pub content_id: u64,
    pub total_size: u64,
    pub update_clean_bytes_tally: u64,
    pub time_last_update_verified: u64,
    /// The games installed in the folder, by id, with their sizes.
    pub apps: BTreeMap<u64, u64>,
}

/// The Steam library folders of a user.
#[derive(Debug, PartialEq)]
pub struct LibraryFolders {
    pub folders: Vec<LibraryFolder>,
}

/// `base` with the relative path component `name` appended, a `/` between
/// them unless `base` is empty or already ends in one.
pub open spec fn join_component(base: Seq<char>, name: Seq<char>) -> Seq<char> {
    if base.len() == 0 || base.last() == '/' {
        base + name
    } else {
        base + seq!['/'] + name
    }
}

/// The `steamapps` directory of the first folder that holds the game `app_id`.
pub open spec fn steamapps_path_for(folders: Seq<LibraryFolder>, app_id: u64) -> Option<Seq<char>>
    decreases folders.len(),
{
    if folders.len() == 0 {
        None
    } else if folders[0].apps@.contains_key(app_id) {
        Some(join_component(folders[0].path@, "steamapps"@))
    } else {
        steamapps_path_for(folders.drop_first(), app_id)
    }
}

fn join_steamapps(base: &String) -> (r: String)
    ensures
        r@ == join_component(base@, "steamapps"@),
{
    let mut r = base.clone();
    let n = base.as_str().unicode_len();
    if n > 0 && base.as_str().get_char(n - 1) != '/' {
        r.push('/');
    }
    r.append("steamapps");
    r
}

/// The `steamapps` directory of the first library folder that holds the game
/// `app_id`, if any does.
pub fn find_steamapps_path_for_app(library_folders: &LibraryFolders, app_id: u64) -> (r: Option<String>)
    ensures
        r.deep_view() == steamapps_path_for(library_folders.folders@, app_id),
{
    broadcast use vstd::std_specs::btree::group_btree_axioms, vstd::laws_cmp::group_laws_cmp;
    let folders = &library_folders.folders;
    let mut i: usize = 0;
    assert(folders@.skip(0) =~= folders@);
    while i < folders.len()
        invariant
            i <= folders@.len(),
            folders@ == library_folders.folders@,
            steamapps_path_for(folders@, app_id) == steamapps_path_for(folders@.skip(i as int), app_id),
        decreases folders@.len() - i,
    {
        assert(folders@.skip(i as int).drop_first() =~= folders@.skip(i + 1));
        assert(folders@.skip(i as int)[0] == folders@[i as int]);
        if folders[i].apps.contains_key(&app_id) {
            let path = join_steamapps(&folders[i].path);
            return Some(path);
        }
        i = i + 1;
    }
    None
}

} // verus!
