use bread::text::{contains_exec, eq_str, find_exec, is_ws_char, remove_char_exec, skip_ws, split_exec, trim_range};

fn chars(s: &str) -> Vec<char> {
    s.chars().collect()
}

#[test]
fn whitespace_set() {
    assert!(is_ws_char(' '));
    assert!(is_ws_char('\t'));
    assert!(is_ws_char('\r'));
    assert!(is_ws_char('\u{3000}'));
    assert!(!is_ws_char('a'));
    assert!(!is_ws_char('\u{200B}'));
}

#[test]
fn trimming() {
    let s = chars("\u{a0} a b \n");
    let t: String = trim_range(&s, 0, s.len()).into_iter().collect();
    assert_eq!(t, "a b");
    assert_eq!(skip_ws(&s, 0, s.len()), 2);
    let blank = chars("   ");
    assert!(trim_range(&blank, 0, blank.len()).is_empty());
}

#[test]
fn searching() {
    let s = chars("ab\n---x\n---");
    assert_eq!(find_exec(&s, &chars("\n---"), 0), Some(2));
    assert_eq!(find_exec(&s, &chars("\n---"), 3), Some(7));
    assert_eq!(find_exec(&s, &chars("\n---"), 8), None);
    assert!(contains_exec(&chars("myindex.html"), &chars("index")));
    assert!(!contains_exec(&chars("ind.html"), &chars("index")));
    assert!(eq_str(&chars("tags"), "tags"));
    assert!(!eq_str(&chars("tag"), "tags"));
}

#[test]
fn splitting() {
    let pieces = split_exec(&chars("a,,b,"), ',');
    let texts: Vec<String> = pieces.into_iter().map(|p| p.into_iter().collect()).collect();
    assert_eq!(texts, vec!["a", "", "b", ""]);
    assert_eq!(split_exec(&[], ',').len(), 1);
    let bare: String = remove_char_exec(&chars(" a b c "), ' ').into_iter().collect();
    assert_eq!(bare, "abc");
}
