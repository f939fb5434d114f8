use desktop_file_editor::shellparse::{parse, Command};

fn cmd(command: &str, args: &[&str]) -> Option<Command> {
    cmd_vars(command, args, &[])
}

fn cmd_vars(command: &str, args: &[&str], vars: &[(&str, &str)]) -> Option<Command> {
    if command.is_empty() {
        return None;
    }

    Some(Command {
        command: command.to_string(),
        args: args.iter().map(|s| s.to_string()).collect(),
        variables: vars
            .iter()
            .map(|(name, val)| (name.to_string(), val.to_string()))
            .collect(),
    })
}

#[test]
fn empty() {
    let command = parse("");
    assert_eq!(command, None)
}

#[test]
fn single() {
    let command = parse("binary_name");
    assert_eq!(command, cmd("binary_name", &[]))
}

#[test]
fn simple_one_arg() {
    let command = parse("cmd one");
    assert_eq!(command, cmd("cmd", &["one"]))
}

#[test]
fn simple_two_args() {
    let command = parse("cmd one two");
    assert_eq!(command, cmd("cmd", &["one", "two"]))
}

#[test]
fn simple() {
    let command = parse("./bin how are you doing?");
    assert_eq!(command, cmd("./bin", &["how", "are", "you", "doing?"]))
}

#[test]
fn multi_whitespace() {
    let command = parse("./bin  how   are    you     doing?");
    assert_eq!(command, cmd("./bin", &["how", "are", "you", "doing?"]))
}

#[test]
fn leading_trailing_whitespace() {
    let command = parse("    ./bin  how   are    you     doing?       ");
    assert_eq!(command, cmd("./bin", &["how", "are", "you", "doing?"]))
}

#[test]
fn string() {
    let command = parse(r#"cmd "string" "string with space in between""#);
    assert_eq!(
        command,
        cmd("cmd", &["string", "string with space in between"])
    )
}

#[test]
fn string_escape_quotes() {
    let command = parse(r#"cmd "string with \"escaped\" quotes""#);
    assert_eq!(command, cmd("cmd", &["string with \"escaped\" quotes"]))
}

#[test]
fn string_different_delims() {
    let command = parse(
        r#"cmd "'single' quotes in doubly quoted string" '"double" quotes in singly quoted string'"#,
    );
    assert_eq!(
        command,
        cmd(
            "cmd",
            &[
                "'single' quotes in doubly quoted string",
                "\"double\" quotes in singly quoted string"
            ]
        )
    )
}

#[test]
fn escape_whitespace() {
    let command = parse(r#"cmd escaped\ whitespace"#);
    assert_eq!(command, cmd("cmd", &["escaped whitespace"]))
}

#[test]
fn vars() {
    let command = parse(r#"VAR1=value1 VAR2="value 2" VAR3=test"val" bin"#);
    assert_eq!(
        command,
        cmd_vars(
            "bin",
            &[],
            &[("VAR1", "value1"), ("VAR2", "value 2"), ("VAR3", "testval")]
        )
    )
}

#[test]
fn real_test1() {
    let command = parse(
        r#"/usr/bin/flatpak run --branch=stable --arch=x86_64 --command=amberol --file-forwarding io.bassi.Amberol @@u %U @@"#,
    );
    assert_eq!(
        command,
        cmd(
            "/usr/bin/flatpak",
            &[
                "run",
                "--branch=stable",
                "--arch=x86_64",
                "--command=amberol",
                "--file-forwarding",
                "io.bassi.Amberol",
                "@@u",
                "%U",
                "@@"
            ]
        )
    )
}

#[test]
fn real_test2() {
    let command = parse(r#"steam steam://rungameid/221380"#);
    assert_eq!(command, cmd("steam", &["steam://rungameid/221380"]))
}

#[test]
fn real_test3() {
    let command = parse(
        "env WINEPREFIX=\"/home/user/Games/league-of-legends\" wine C:\\\\ProgramData\\\\Microsoft\\\\Windows\\\\Start\\ Menu\\\\Programs\\\\Riot\\ Games\\\\League\\ of\\ Legends.lnk",
    );
    assert_eq!(
        command,
        cmd(
            "env",
            &[
                "WINEPREFIX=/home/user/Games/league-of-legends",
                "wine",
                "C:\\ProgramData\\Microsoft\\Windows\\Start Menu\\Programs\\Riot Games\\League of Legends.lnk"
            ]
        )
    );
}

#[test]
fn real_test4() {
    let command = parse("printf \"|||%%s|||\\\\n\" \"quoting terminal\" \"with 'complex' arguments,\" \"quotes \\\",\" \"\" 	\"empty args,\" \"new\nlines,\" \"and \\\"back\\\\slashes\\\"\"").unwrap();

    assert_eq!(
        command,
        cmd(
            "printf",
            &[
                "|||%%s|||\\n",
                "quoting terminal",
                "with 'complex' arguments,",
                "quotes \",",
                "empty args,",
                "new\nlines,",
                "and \"back\\slashes\"",
            ]
        )
        .unwrap()
    );
}

#[test]
fn not_steam() {
    let command = parse(r#"notsteam steam://rungameid/221380"#).unwrap();
    assert_eq!(
        command,
        cmd("notsteam", &["steam://rungameid/221380"]).unwrap()
    );
    assert!(!command.is_steam_app());
}

#[test]
fn steam() {
    let command = parse(r#"steam steam://rungameid/221380"#).unwrap();
    assert_eq!(
        command,
        cmd("steam", &["steam://rungameid/221380"]).unwrap()
    );
    assert!(command.is_steam_app());
    assert_eq!(command.find_steam_appid(), Some(221380));
}

#[test]
fn steam_invalid_appid() {
    let command = parse(r#"steam steam://rungameid/221380/asd"#).unwrap();
    assert_eq!(
        command,
        cmd("steam", &["steam://rungameid/221380/asd"]).unwrap()
    );
    assert!(!command.is_steam_app());
    assert_eq!(command.find_steam_appid(), None);
}

#[test]
fn steam_invalid_appid2() {
    let command = parse(r#"steam steam://rungameid/"#).unwrap();
    assert_eq!(command, cmd("steam", &["steam://rungameid/"]).unwrap());
    assert!(!command.is_steam_app());
    assert_eq!(command.find_steam_appid(), None);
}

#[test]
fn steam_invalid_appid3() {
    let command = parse(r#"steam steam://rungameid/aaabbb"#).unwrap();
    assert_eq!(
        command,
        cmd("steam", &["steam://rungameid/aaabbb"]).unwrap()
    );
    assert!(!command.is_steam_app());
    assert_eq!(command.find_steam_appid(), None);
}

#[test]
fn steam_invalid_appid4() {
    let command = parse(r#"steam 221380"#).unwrap();
    assert_eq!(command, cmd("steam", &["221380"]).unwrap());
    assert!(!command.is_steam_app());
    assert_eq!(command.find_steam_appid(), None);
}
