use bladedance::stringutils::TokenList;

#[test]
fn list_adds_and_removes_tokens() {
    let l = TokenList::from_list("a B\t-c");
    assert!(l.contains("A"));
    assert!(l.contains("b"));
    assert!(!l.contains("c"));
    assert_eq!(l.to_string(), "a b");
}

#[test]
fn wildcard_enters_permissive_mode() {
    let mut l = TokenList::new();
    l.add("x");
    l.add("*");
    assert!(l.contains("anything"));
    assert!(l.contains("x"));
    l.remove("X");
    assert!(!l.contains("x"));
    assert_eq!(l.to_string(), "* -x");
    l.remove("*");
    assert!(!l.contains("anything"));
    assert_eq!(l.to_string(), "");
}

#[test]
fn blank_tokens_are_ignored() {
    let mut l = TokenList::new();
    l.add("  ");
    l.add("");
    assert_eq!(l.to_string(), "");
    l.add("ok");
    l.add("ok");
    assert_eq!(l.to_string(), "ok");
    l.clear();
    assert!(!l.contains("ok"));
}

#[test]
fn lists_compare_by_mode_and_tokens() {
    let a = TokenList::from_list("x y");
    let b = TokenList::from_list("Y X");
    let c = TokenList::from_list("* -x -y");
    assert!(a.equals(&b));
    assert!(!a.equals(&c));
    let mut d = TokenList::from_list("x");
    assert!(!a.equals(&d));
    d.add("y");
    assert!(a.equals(&d));
}

#[test]
fn token_list_text_reads_back() {
    for text in ["ping pong quit", "* -away -part", "", "*"] {
        let list = TokenList::from_list(text);
        let again = TokenList::from_list(&list.to_string());
        assert!(list.equals(&again), "{}", text);
    }
}
