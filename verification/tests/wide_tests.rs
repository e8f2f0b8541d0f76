use procinfo::wide::{truncate_at_nul, wide_file_name, wide_to_string};

fn wstr(s: &str) -> Vec<u16> {
    s.encode_utf16().collect()
}

#[test]
fn truncation_stops_at_the_first_nul() {
    let mut v = wstr("abc");
    v.push(0);
    v.extend(wstr("junk"));
    assert_eq!(truncate_at_nul(&v), wstr("abc"));
}

#[test]
fn truncation_keeps_an_unterminated_buffer_whole() {
    assert_eq!(truncate_at_nul(&wstr("abc")), wstr("abc"));
}

#[test]
fn file_name_is_the_part_after_the_last_separator() {
    assert_eq!(wide_file_name(&wstr("C:\\Windows\\notepad.exe")), wstr("notepad.exe"));
    assert_eq!(wide_file_name(&wstr("a/b/c.txt")), wstr("c.txt"));
    assert_eq!(wide_file_name(&wstr("bare.exe")), wstr("bare.exe"));
    assert_eq!(wide_file_name(&wstr("dir\\")), wstr(""));
}

#[test]
fn decoding_handles_non_ascii_text() {
    assert_eq!(wide_to_string(&wstr("héllo wörld")), "héllo wörld");
}

#[test]
fn decoding_replaces_ill_formed_units() {
    // a lone high surrogate cannot be decoded and becomes the
    // replacement character
    let v: Vec<u16> = vec![0x61, 0xd800, 0x62];
    assert_eq!(wide_to_string(&v), "a\u{fffd}b");
}

#[test]
fn decoding_cuts_at_the_terminator_first() {
    let mut v = wstr("dir");
    v.push(0);
    v.extend(wstr("tail"));
    assert_eq!(wide_to_string(&v), "dir");
}
