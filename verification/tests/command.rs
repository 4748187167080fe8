use sherlock::command::{parse_variables, split_as_command};

fn vars(pairs: &[(&str, &str)]) -> Vec<(String, String)> {
    pairs.iter().map(|(k, v)| (k.to_string(), v.to_string())).collect()
}

#[test]
fn splits_at_white_space() {
    assert_eq!(split_as_command("firefox --new-window  https://example.org"), vec!["firefox", "--new-window", "https://example.org"]);
    assert_eq!(split_as_command("  kitty\t-e\nvim  "), vec!["kitty", "-e", "vim"]);
    assert_eq!(split_as_command(""), Vec::<String>::new());
    assert_eq!(split_as_command("   "), Vec::<String>::new());
    assert_eq!(split_as_command("one"), vec!["one"]);
}

#[test]
fn quotes_keep_words_together() {
    assert_eq!(split_as_command(r#"sh -c "echo hello world""#), vec!["sh", "-c", "echo hello world"]);
    assert_eq!(split_as_command("sh -c 'echo \"hi\"'"), vec!["sh", "-c", "echo \"hi\""]);
    assert_eq!(split_as_command(r#"a"b c"d"#), vec!["ab cd"]);
    assert_eq!(split_as_command(r#""it's""#), vec!["it's"]);
    // empty quotes make no word
    assert_eq!(split_as_command(r#"a "" b"#), vec!["a", "b"]);
    // an open quote runs to the end
    assert_eq!(split_as_command(r#"a "b c"#), vec!["a", "b c"]);
}

#[test]
fn a_backslash_escapes() {
    assert_eq!(split_as_command(r"a\ b c"), vec!["a b", "c"]);
    assert_eq!(split_as_command(r#"say \"hi\""#), vec!["say", "\"hi\""]);
    assert_eq!(split_as_command(r#""a\"b""#), vec!["a\"b"]);
    assert_eq!(split_as_command(r"a\\b"), vec![r"a\b"]);
    // within single quotes a backslash is a character
    assert_eq!(split_as_command(r"'a\b'"), vec![r"a\b"]);
    // a backslash at the end escapes nothing
    assert_eq!(split_as_command(r"a\"), vec!["a"]);
}

#[test]
fn field_codes_are_dropped() {
    assert_eq!(split_as_command("firefox %u"), vec!["firefox"]);
    assert_eq!(split_as_command("%F vlc %U --x=%y"), vec!["vlc", "--x=%y"]);
    assert_eq!(split_as_command("a '%u' \"%f\" 100%"), vec!["a", "100%"]);
    assert_eq!(split_as_command("%"), Vec::<String>::new());
}

#[test]
fn placeholders_are_filled_in() {
    let v = vars(&[("name", "Ann"), ("empty", "")]);
    assert_eq!(parse_variables("{terminal} htop", "kw", &v, "kitty"), "kitty -e htop");
    assert_eq!(parse_variables("xdg-open {keyword}", "a b", &v, "kitty"), "xdg-open a b");
    assert_eq!(parse_variables("echo {variable:name}!", "kw", &v, "kitty"), "echo Ann!");
    assert_eq!(parse_variables("echo {variable:empty}!", "kw", &v, "kitty"), "echo !");
    assert_eq!(parse_variables("echo {variable:other}", "kw", &v, "kitty"), "echo {variable:other}");
    assert_eq!(parse_variables("echo {variable}", "kw", &v, "kitty"), "echo {variable}");
    assert_eq!(parse_variables("{meeting_url} {x:y}", "kw", &v, "kitty"), "{meeting_url} {x:y}");
    assert_eq!(parse_variables("{keyword}{keyword} {terminal}", "k", &v, "foot"), "kk foot -e");
    assert_eq!(parse_variables("plain", "kw", &v, "kitty"), "plain");
    assert_eq!(parse_variables("", "kw", &v, "kitty"), "");
    assert_eq!(parse_variables("{} {1} {a b}", "kw", &v, "kitty"), "{} {1} {a b}");
}

#[test]
fn prefixes_follow_their_variables() {
    let v = vars(&[("name", "Ann"), ("empty", "")]);
    assert_eq!(parse_variables("cmd {prefix[name]:--name }{variable:name}", "kw", &v, "t"), "cmd --name Ann");
    assert_eq!(parse_variables("cmd {prefix[empty]:--e }{variable:empty}", "kw", &v, "t"), "cmd ");
    assert_eq!(parse_variables("cmd {prefix[none]:--n }x", "kw", &v, "t"), "cmd x");
    // the keyword is filled in before the prefixes are read
    let v = vars(&[("kw", "1")]);
    assert_eq!(parse_variables("{prefix[{keyword}]:yes}", "kw", &v, "t"), "yes");
}

#[test]
fn the_first_value_of_a_variable_counts() {
    let v = vars(&[("a", "1"), ("a", "2")]);
    assert_eq!(parse_variables("{variable:a}", "", &v, ""), "1");
}
