use vidyut::sandhi::{
    is_good_first, is_good_second, is_good_split, split, try_split, SandhiMap, SplitError,
};

#[test]
fn test_split() {
    let mut rules = SandhiMap::new();
    rules.insert("e".to_string(), ("a".to_string(), "i".to_string()));
    let expected: Vec<(String, String)> = vec![
        ("ceti", ""),
        ("cet", "i"),
        ("ce", "ti"),
        ("c", "eti"),
        ("ca", "iti"),
    ]
    .iter()
    .map(|&(f, s)| (f.to_string(), s.to_string()))
    .collect();

    assert_eq!(split("ceti", &rules), expected);
}

#[test]
fn test_is_good_first() {
    for word in vec![
        "rAma", "rAjA", "iti", "nadI", "maDu", "gurU", "pitf", "F", "laBate", "vE", "aho",
        "narO", "naraH", "vAk", "rAw", "prAN", "vit", "narAn", "anuzWup", "naram",
    ] {
        assert!(is_good_first(word));
    }
    for word in vec!["PalaM", "zaz", "vAc"] {
        assert!(!is_good_first(word));
    }
}

#[test]
fn test_has_valid_start() {
    for word in vec![
        "yogena",
        "rAma",
        "leKaH",
        "vE",
        "kArtsnyam",
        "vraja",
        "vyajanam",
    ] {
        assert!(is_good_second(word));
    }
    for word in vec!["rmakzetre"] {
        assert!(!is_good_second(word));
    }
}

#[test]
fn empty_rule_table_is_fatal() {
    let rules = SandhiMap::new();
    assert_eq!(try_split("ceti", &rules), Err(SplitError::EmptyRuleTable));
}

#[test]
fn try_split_agrees_with_split() {
    let mut rules = SandhiMap::new();
    rules.insert("e".to_string(), ("a".to_string(), "i".to_string()));
    assert_eq!(try_split("ceti", &rules), Ok(split("ceti", &rules)));
}

#[test]
fn default_splits_always_present() {
    let mut rules = SandhiMap::new();
    rules.insert("zz".to_string(), ("y".to_string(), "y".to_string()));
    let res = split("abc", &rules);
    let abc = |f: &str, s: &str| (f.to_string(), s.to_string());
    assert!(res.contains(&abc("abc", "")));
    assert!(res.contains(&abc("ab", "c")));
    assert!(res.contains(&abc("a", "bc")));
}

#[test]
fn rule_matches_follow_insertion_order() {
    let mut rules = SandhiMap::new();
    rules.insert("e".to_string(), ("a".to_string(), "i".to_string()));
    rules.insert("e".to_string(), ("A".to_string(), "i".to_string()));
    let expected: Vec<(String, String)> = vec![
        ("ceti", ""),
        ("cet", "i"),
        ("ce", "ti"),
        ("c", "eti"),
        ("ca", "iti"),
        ("cA", "iti"),
    ]
    .iter()
    .map(|&(f, s)| (f.to_string(), s.to_string()))
    .collect();
    assert_eq!(split("ceti", &rules), expected);
}

#[test]
fn split_keeps_duplicates_and_scans_to_the_end() {
    let mut rules = SandhiMap::new();
    rules.insert("ti".to_string(), ("t".to_string(), "i".to_string()));
    // Position 2 matches "ti" against the tail of the input, repeating
    // the default cut of position 3: no deduplication is performed.
    let expected: Vec<(String, String)> = vec![
        ("ceti", ""),
        ("cet", "i"),
        ("ce", "ti"),
        ("cet", "i"),
        ("c", "eti"),
    ]
    .iter()
    .map(|&(f, s)| (f.to_string(), s.to_string()))
    .collect();
    assert_eq!(split("ceti", &rules), expected);
}

#[test]
fn split_of_empty_input_is_empty() {
    let mut rules = SandhiMap::new();
    rules.insert("e".to_string(), ("a".to_string(), "i".to_string()));
    assert!(split("", &rules).is_empty());
}

#[test]
fn split_slices_on_character_boundaries() {
    let mut rules = SandhiMap::new();
    rules.insert("ā".to_string(), ("a".to_string(), "a".to_string()));
    let expected: Vec<(String, String)> = vec![
        ("cāt", ""),
        ("cā", "t"),
        ("c", "āt"),
        ("ca", "at"),
    ]
    .iter()
    .map(|&(f, s)| (f.to_string(), s.to_string()))
    .collect();
    assert_eq!(split("cāt", &rules), expected);
}

#[test]
fn recursion_guard_rejects_no_progress() {
    assert!(!is_good_split("ceti", "", "ceti"));
    assert!(is_good_split("ceti", "ca", "iti"));
    assert!(!is_good_split("ceti", "cez", "iti"));
    assert!(!is_good_split("ceti", "ca", "rmiti"));
}
