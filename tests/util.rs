use metallirc::util::{check_channame, check_label, label_to_lower, matches_mask, split_on, to_upper};

#[test]
fn test_matches_mask() {
    assert!(matches_mask("foo", "foo"));
    assert!(matches_mask("foo", "fo?"));
    assert!(matches_mask("foo", "f?o"));
    assert!(matches_mask("foo", "?oo"));
    assert!(matches_mask("foo", "f*"));
    assert!(matches_mask("foo", "*"));
    assert!(!matches_mask("foo", "foo?"));
    assert!(!matches_mask("foo", "bar"));
    assert!(!matches_mask("foo", "f?oo"));
    assert!(!matches_mask("foo", "oo"));
    assert!(!matches_mask("foo", "fo"));
}

#[test]
fn mask_matches_itself_and_star() {
    for s in ["", "a", "*", "a*b", "?x?", "Nick[away]", "**"] {
        assert!(matches_mask(s, s));
        assert!(matches_mask(s, "*"));
    }
    assert!(matches_mask("FOO", "foo"));
    assert!(matches_mask("", "**"));
    assert!(matches_mask("a", "a**"));
    assert!(!matches_mask("", "*?"));
}

#[test]
fn folding_is_idempotent() {
    for s in ["Alice", "A[b]\\c", "{x}|", "ZZ_top-`^", "already"] {
        let once = label_to_lower(s);
        assert_eq!(label_to_lower(&once), once);
    }
    assert_eq!(label_to_lower("Ab[]\\"), "ab{}|");
    assert_eq!(label_to_lower("ALICE"), label_to_lower("alice"));
}

#[test]
fn labels_are_checked() {
    assert!(check_label("alice"));
    assert!(check_label("[x]_-`^{}|\\"));
    assert!(check_label("a1"));
    assert!(!check_label(""));
    assert!(!check_label("1abc"));
    assert!(!check_label("a b"));
    assert!(!check_label("é"));
    assert!(check_channame("#chan"));
    assert!(!check_channame("chan"));
    assert!(!check_channame("#"));
    assert!(!check_channame("#1x"));
}

#[test]
fn split_and_upper() {
    assert_eq!(split_on("#a,,#b,", ','), vec!["#a".to_string(), "#b".to_string()]);
    assert_eq!(to_upper("privMsg"), "PRIVMSG");
}
