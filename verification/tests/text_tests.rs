use wikidump::text::{same_text, split_pair};

fn pair(a: &str, b: &str) -> Option<(String, String)> {
    Some((a.to_string(), b.to_string()))
}

#[test]
fn split_pair_takes_first_two_fields() {
    assert_eq!(split_pair("Q42,123"), pair("Q42", "123"));
    assert_eq!(split_pair("a,b,c"), pair("a", "b"));
    assert_eq!(split_pair(",x"), pair("", "x"));
    assert_eq!(split_pair("x,"), pair("x", ""));
    assert_eq!(split_pair("é,ü,"), pair("é", "ü"));
}

#[test]
fn split_pair_without_comma() {
    assert_eq!(split_pair(""), None);
    assert_eq!(split_pair("Q42"), None);
}

#[test]
fn split_pair_agrees_with_split() {
    for line in ["1,2", "a,b,c,d", ",,", "x,y"] {
        let parts: Vec<&str> = line.split(',').collect();
        assert_eq!(split_pair(line), pair(parts[0], parts[1]));
    }
}

#[test]
fn same_text_compares_characters() {
    assert!(same_text("revision", "revision"));
    assert!(!same_text("revision", "revisions"));
    assert!(!same_text("text", "Text"));
    assert!(same_text("", ""));
}
