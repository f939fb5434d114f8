use std::cmp::Ordering;
use std::collections::BTreeMap;

use desktop_file_editor::entry_order::{fixed_order_comparator, GROUPS_ORDER, KEYMAP_ORDER};
use desktop_file_editor::exec_check::{parse_exec, ExecError};
use desktop_file_editor::shellparse::{parse, Command};
use desktop_file_editor::steam::{find_steamapps_path_for_app, LibraryFolder, LibraryFolders};
use desktop_file_editor::text::{parse_u64, starts_with, trim, trim_start_matches};

fn owned(args: &[&str]) -> Vec<String> {
    args.iter().map(|s| s.to_string()).collect()
}

fn pairs(vars: &[(&str, &str)]) -> Vec<(String, String)> {
    vars.iter().map(|(a, b)| (a.to_string(), b.to_string())).collect()
}

#[test]
fn blank_inputs_parse_to_none() {
    for input in ["", " ", "   ", "\t\n ", "\u{3000}\u{2003} \u{85}"] {
        assert_eq!(parse(input), None);
    }
}

#[test]
fn only_assignments_parse_to_none() {
    assert_eq!(parse("A=1 B=2"), None);
}

#[test]
fn command_is_never_empty() {
    for input in ["x", "\"\" y", "A=1 '' b c", "  \"a b\"  "] {
        let c = parse(input).unwrap();
        assert!(!c.command.is_empty());
    }
    assert_eq!(parse("\"\" ''"), None);
}

#[test]
fn unicode_whitespace_separates_tokens() {
    let c = parse("cmd\u{3000}one\u{2028}two").unwrap();
    assert_eq!(c.command, "cmd");
    assert_eq!(c.args, owned(&["one", "two"]));
}

#[test]
fn unquoted_round_trip() {
    let input = "  A=1 B=x=y   prog  --flag=3 arg  ";
    let c = parse(input).unwrap();
    let joined = c.clone().into_tokens().join(" ");
    assert_eq!(joined, "A=1 B=x=y prog --flag=3 arg");
    assert_eq!(parse(&joined), Some(c));
}

#[test]
fn flatten_non_env_is_noop() {
    let mut c = parse("wine A=1 prog").unwrap();
    let before = c.clone();
    c.flatten_env();
    assert_eq!(c, before);
    c.flatten_env();
    assert_eq!(c, before);
}

#[test]
fn assignment_after_command_is_argument() {
    let c = parse("A=1 cmd B=2 C=3").unwrap();
    assert_eq!(c.command, "cmd");
    assert_eq!(c.variables, pairs(&[("A", "1")]));
    assert_eq!(c.args, owned(&["B=2", "C=3"]));
}

#[test]
fn variable_splits_on_first_equals() {
    let c = parse("A=b=c D= prog").unwrap();
    assert_eq!(c.variables, pairs(&[("A", "b=c"), ("D", "")]));
    assert_eq!(c.command, "prog");
}

#[test]
fn flatten_env_wine_shortcut() {
    let mut c = Command {
        command: "env".to_string(),
        args: owned(&["WINEPREFIX=/x", "wine", "target.lnk"]),
        variables: vec![],
    };
    c.flatten_env();
    assert_eq!(c.command, "wine");
    assert_eq!(c.args, owned(&["target.lnk"]));
    assert_eq!(c.variables, pairs(&[("WINEPREFIX", "/x")]));
}

#[test]
fn flatten_env_skips_flags_and_appends_variables() {
    let mut c = parse("X=0 env A=1 -i B=2 --unset=C bin arg1 arg2").unwrap();
    c.flatten_env();
    assert_eq!(c.command, "bin");
    assert_eq!(c.args, owned(&["arg1", "arg2"]));
    assert_eq!(
        c.variables,
        pairs(&[("X", "0"), ("A", "1"), ("B", "2"), ("--unset", "C")])
    );
}

#[test]
fn flatten_env_without_binary_is_noop() {
    let mut c = parse("env A=1 -i").unwrap();
    let before = c.clone();
    c.flatten_env();
    assert_eq!(c, before);
}

#[test]
fn is_env_checks_the_command() {
    assert!(parse("env a").unwrap().is_env());
    assert!(!parse("envy a").unwrap().is_env());
    assert!(!parse("a env").unwrap().is_env());
}

#[test]
fn dangling_escape_and_open_quote_are_absorbed() {
    assert_eq!(parse("cmd a\\").unwrap().args, owned(&["a"]));
    assert_eq!(parse("cmd \"a b").unwrap().args, owned(&["a b"]));
    assert_eq!(parse("cmd 'it\"s'").unwrap().args, owned(&["it\"s"]));
    assert_eq!(parse("cmd a\\\\b").unwrap().args, owned(&["a\\b"]));
}

#[test]
fn display_without_args_ends_with_space() {
    assert_eq!(parse("cmd").unwrap().to_string(), "cmd ");
}

#[test]
fn display_with_variables_and_args() {
    let c = parse("A=1 B=\"two words\" cmd x 'y z'").unwrap();
    assert_eq!(c.to_string(), "A=1 B=two words cmd x y z");
}

#[test]
fn tokens_list_variables_command_args() {
    let c = parse("A=1 cmd \"x y\" z").unwrap();
    assert_eq!(c.into_tokens(), owned(&["A=1", "cmd", "x y", "z"]));
}

#[test]
fn steam_id_with_repeated_prefix_and_whitespace() {
    let c = parse("steam ' steam://rungameid/steam://rungameid/42 '").unwrap();
    assert_eq!(c.find_steam_appid(), Some(42));
    assert!(c.is_steam_app());
}

#[test]
fn steam_id_uses_first_matching_arg() {
    let c = parse("steam steam://rungameid/x steam://rungameid/5").unwrap();
    assert_eq!(c.find_steam_appid(), None);
    let c = parse("steam -silent steam://rungameid/5").unwrap();
    assert_eq!(c.find_steam_appid(), Some(5));
}

#[test]
fn steam_installed_asks_for_the_id() {
    let c = parse("steam steam://rungameid/221380").unwrap();
    assert!(c.is_steam_app_installed(|id| id == 221380));
    assert!(!c.is_steam_app_installed(|id| id != 221380));
}

#[test]
fn non_steam_app_is_not_installed() {
    let c = parse("steam 221380").unwrap();
    assert!(!c.is_steam_app_installed(|_| panic!("no game to ask about")));
}

#[test]
fn parse_exec_missing_field() {
    assert_eq!(parse_exec(None, |_| true), Err(ExecError::ExecFieldNotFound));
}

#[test]
fn parse_exec_no_command() {
    assert_eq!(parse_exec(Some("  "), |_| true), Err(ExecError::ExecParseError));
}

#[test]
fn parse_exec_flattens_env() {
    assert_eq!(
        parse_exec(Some("env WINEPREFIX=/x wine game.lnk"), |_| true),
        Ok("wine".to_string())
    );
}

#[test]
fn parse_exec_steam_game() {
    assert_eq!(
        parse_exec(Some("steam steam://rungameid/7"), |id| id == 7),
        Ok("steam".to_string())
    );
    assert_eq!(
        parse_exec(Some("steam steam://rungameid/7"), |_| false),
        Err(ExecError::SteamAppNotInstalled)
    );
}

#[test]
fn keymap_order_puts_known_keys_first() {
    assert_eq!(fixed_order_comparator(&KEYMAP_ORDER, "Name", "Exec"), Ordering::Less);
    assert_eq!(fixed_order_comparator(&KEYMAP_ORDER, "Actions", "Icon"), Ordering::Greater);
    assert_eq!(fixed_order_comparator(&KEYMAP_ORDER, "Exec", "Exec"), Ordering::Equal);
    assert_eq!(fixed_order_comparator(&KEYMAP_ORDER, "X-Custom", "Actions"), Ordering::Greater);
    assert_eq!(fixed_order_comparator(&KEYMAP_ORDER, "Version", "X-Custom"), Ordering::Less);
}

#[test]
fn unknown_keys_sort_lexicographically() {
    assert_eq!(fixed_order_comparator(&KEYMAP_ORDER, "X-A", "X-B"), Ordering::Less);
    assert_eq!(fixed_order_comparator(&KEYMAP_ORDER, "X-Ab", "X-A"), Ordering::Greater);
    assert_eq!(fixed_order_comparator(&KEYMAP_ORDER, "\u{e9}", "z"), Ordering::Greater);
    assert_eq!(fixed_order_comparator(&GROUPS_ORDER, "Desktop Action a", "Desktop Entry"), Ordering::Greater);
    assert_eq!(fixed_order_comparator(&[], "b", "a"), "b".cmp("a"));
}

#[test]
fn decimal_parsing() {
    assert_eq!(parse_u64("0"), Some(0));
    assert_eq!(parse_u64("+17"), Some(17));
    assert_eq!(parse_u64("18446744073709551615"), Some(u64::MAX));
    assert_eq!(parse_u64("18446744073709551616"), None);
    assert_eq!(parse_u64("99999999999999999999x"), None);
    assert_eq!(parse_u64(""), None);
    assert_eq!(parse_u64("+"), None);
    assert_eq!(parse_u64("-1"), None);
    assert_eq!(parse_u64("1 "), None);
}

#[test]
fn string_helpers() {
    assert_eq!(trim(" \t a b \u{3000}"), "a b");
    assert_eq!(trim("   "), "");
    assert!(starts_with("steam://x", "steam:"));
    assert!(!starts_with("ste", "steam"));
    assert_eq!(trim_start_matches("ababc", "ab"), "c");
    assert_eq!(trim_start_matches("abc", "x"), "abc");
}

#[test]
fn steamapps_path_of_the_folder_holding_the_game() {
    let folder = |path: &str, apps: &[u64]| LibraryFolder {
        path: path.to_string(),
        label: String::new(),
        content_id: 0,
        total_size: 0,
        update_clean_bytes_tally: 0,
        time_last_update_verified: 0,
        apps: apps.iter().map(|&a| (a, 1)).collect::<BTreeMap<u64, u64>>(),
    };
    let folders = LibraryFolders {
        folders: vec![folder("/games", &[1, 2]), folder("/more/", &[3]), folder("", &[4])],
    };
    assert_eq!(find_steamapps_path_for_app(&folders, 2), Some("/games/steamapps".to_string()));
    assert_eq!(find_steamapps_path_for_app(&folders, 3), Some("/more/steamapps".to_string()));
    assert_eq!(find_steamapps_path_for_app(&folders, 4), Some("steamapps".to_string()));
    assert_eq!(find_steamapps_path_for_app(&folders, 5), None);
}

#[test]
fn quoted_argument_keeps_its_spaces() {
    let c = parse(r#"cmd "string with space in between""#).unwrap();
    assert_eq!(c.command, "cmd");
    assert_eq!(c.args, owned(&["string with space in between"]));
    assert!(c.variables.is_empty());
}

#[test]
fn two_leading_assignments() {
    let c = parse(r#"VAR1=value1 VAR2="value 2" bin"#).unwrap();
    assert_eq!(c.command, "bin");
    assert!(c.args.is_empty());
    assert_eq!(c.variables, pairs(&[("VAR1", "value1"), ("VAR2", "value 2")]));
}
