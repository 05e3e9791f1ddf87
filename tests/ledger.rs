use talecast::download_tracker::{append_text, entry_text, DownloadedEpisodes};

#[test]
fn empty_ledger_holds_nothing() {
    let l = DownloadedEpisodes::from_text("");
    assert!(!l.contains_episode("x"));
    assert!(!DownloadedEpisodes::new().contains_episode(""));
}

#[test]
fn only_well_formed_lines_count() {
    let text = "abc 100 \"Title one\"\nneg -5 \"x\"\n  def 200 \"x\"\nnotime \"t\"\nbad x1 \"t\"\nnoquote 3 t\n\nghi 7 \"z\"";
    let l = DownloadedEpisodes::from_text(text);
    assert!(l.contains_episode("abc"));
    assert!(l.contains_episode("neg"));
    assert!(!l.contains_episode("def"));
    assert!(!l.contains_episode(""));
    assert!(!l.contains_episode("notime"));
    assert!(!l.contains_episode("bad"));
    assert!(!l.contains_episode("noquote"));
    assert!(l.contains_episode("ghi"));
    assert!(!l.contains_episode("100"));
}

#[test]
fn half_written_line_is_ignored() {
    assert!(!DownloadedEpisodes::from_text("ab").contains_episode("ab"));
    let mut file = entry_text("kept", 5, "t");
    file.push_str("abc");
    let l = DownloadedEpisodes::from_text(&file);
    assert!(l.contains_episode("kept"));
    assert!(!l.contains_episode("abc"));
}

#[test]
fn entry_line_format() {
    assert_eq!(entry_text("id_1", 1700000000, "My \"ep\""), "id_1 1700000000 \"My \"ep\"\"\n");
    assert_eq!(entry_text("z", -3, ""), "z -3 \"\"\n");
    assert_eq!(entry_text("n", 1, "two\nlines\r"), "n 1 \"two lines \"\n");
}

#[test]
fn append_then_load_contains() {
    let mut file = String::new();
    file.push_str(&append_text(&file, "first", 1, "One"));
    file.push_str(&append_text(&file, "second", 2, "Two words"));
    let l = DownloadedEpisodes::from_text(&file);
    assert!(l.contains_episode("first"));
    assert!(l.contains_episode("second"));
    assert!(!l.contains_episode("Two"));
}

#[test]
fn append_after_half_written_line() {
    let mut file = entry_text("old", 1, "x");
    file.push_str("abcdef 17");
    let add = append_text(&file, "new", 2, "y");
    assert_eq!(add, "\nnew 2 \"y\"\n");
    file.push_str(&add);
    let l = DownloadedEpisodes::from_text(&file);
    assert!(l.contains_episode("old"));
    assert!(l.contains_episode("new"));
    assert!(!l.contains_episode("abcdef"));
    assert_eq!(append_text("", "a", 0, "t"), "a 0 \"t\"\n");
}

#[test]
fn insert_records() {
    let mut l = DownloadedEpisodes::new();
    l.insert("a".to_string());
    assert!(l.contains_episode("a"));
    assert!(!l.contains_episode("b"));
}

#[test]
fn last_line_without_newline_and_crlf() {
    assert!(DownloadedEpisodes::from_text("abc 1 \"t\"").contains_episode("abc"));
    let l = DownloadedEpisodes::from_text("a 1 \"x\"\r\nb 2 \"y\"\r\n");
    assert!(l.contains_episode("a"));
    assert!(l.contains_episode("b"));
    let mut file = "done 3 \"t\"".to_string();
    let add = append_text(&file, "next", 4, "u");
    assert_eq!(add, "\nnext 4 \"u\"\n");
    file.push_str(&add);
    let l = DownloadedEpisodes::from_text(&file);
    assert!(l.contains_episode("done"));
    assert!(l.contains_episode("next"));
}
