use procinfo::cmdline::tokenize_command_line;

fn wstr(s: &str) -> Vec<u16> {
    s.encode_utf16().collect()
}

fn toks(s: &str) -> Vec<String> {
    tokenize_command_line(&wstr(s))
}

#[test]
fn round_trip_program_and_quoted_argument() {
    assert_eq!(toks("\"prog.exe\" arg1 \"arg two\""), vec!["prog.exe", "arg1", "arg two"]);
}

#[test]
fn empty_buffer_has_no_arguments() {
    assert!(toks("").is_empty());
}

#[test]
fn unquoted_program_name_ends_at_first_blank() {
    assert_eq!(toks("notepad.exe file.txt"), vec!["notepad.exe", "file.txt"]);
}

#[test]
fn quoted_program_name_may_hold_blanks() {
    assert_eq!(
        toks("\"C:\\Program Files\\app.exe\" -x"),
        vec!["C:\\Program Files\\app.exe", "-x"]
    );
}

#[test]
fn backslash_before_quote_escapes_it() {
    assert_eq!(toks("x.exe a\\\"b"), vec!["x.exe", "a\"b"]);
}

#[test]
fn doubled_backslashes_before_quote_collapse() {
    // two backslashes and a quote: one backslash, quote starts a group
    assert_eq!(toks("x.exe \\\\\"a b\""), vec!["x.exe", "\\a b"]);
}

#[test]
fn plain_backslashes_are_literal() {
    assert_eq!(toks("x.exe C:\\dir\\sub"), vec!["x.exe", "C:\\dir\\sub"]);
}

#[test]
fn blanks_and_tabs_separate_arguments() {
    assert_eq!(toks("x.exe a\tb  c"), vec!["x.exe", "a", "b", "c"]);
}

#[test]
fn buffer_is_cut_at_the_first_nul() {
    let mut v = wstr("x.exe one");
    v.push(0);
    v.extend(wstr(" two"));
    assert_eq!(tokenize_command_line(&v), vec!["x.exe", "one"]);
}

#[test]
fn empty_quotes_give_an_empty_argument() {
    assert_eq!(toks("x.exe \"\" b"), vec!["x.exe", "", "b"]);
}
