use vidyut::counts::{process_sentence, FreqTable};
use vidyut::states::{Morph, StateError, TokenData};

fn bare_morph() -> Morph {
    Morph {
        gender: None,
        case: None,
        number: None,
        person: None,
    }
}

fn noun(lemma: &str) -> TokenData {
    TokenData {
        upos: Some("NOUN".to_string()),
        features: Morph {
            gender: Some("Masc".to_string()),
            case: Some("Nom".to_string()),
            number: Some("Sing".to_string()),
            person: None,
        },
        lemma: Some(lemma.to_string()),
    }
}

#[test]
fn increment_counts_observations() {
    let mut t = FreqTable::new();
    t.increment("a", "b");
    t.increment("a", "b");
    t.increment("a", "c");
    assert_eq!(t.get("a", "b"), Some(2));
    assert_eq!(t.get("a", "c"), Some(1));
    assert_eq!(t.get("b", "a"), None);
}

#[test]
fn row_total_sums_one_first_key() {
    let mut t = FreqTable::new();
    t.increment("a", "b");
    t.increment("a", "b");
    t.increment("a", "c");
    t.increment("b", "d");
    assert_eq!(t.row_total("a"), 3);
    assert_eq!(t.row_total("b"), 1);
    assert_eq!(t.row_total("c"), 0);
}

#[test]
fn process_sentence_counts_transitions_and_emissions() {
    let mut transitions = FreqTable::new();
    let mut emissions = FreqTable::new();
    let sentence = vec![noun("rāma"), noun("aśva")];
    let r = process_sentence(&sentence, &mut transitions, &mut emissions);
    assert_eq!(r, Ok(()));
    assert_eq!(transitions.get("START", "n-m-1-s"), Some(1));
    assert_eq!(transitions.get("n-m-1-s", "n-m-1-s"), Some(1));
    assert_eq!(emissions.get("n-m-1-s", "rAma"), Some(1));
    assert_eq!(emissions.get("n-m-1-s", "aSva"), Some(1));
}

#[test]
fn process_sentence_counts_missing_lemma_as_empty() {
    let mut transitions = FreqTable::new();
    let mut emissions = FreqTable::new();
    let sentence = vec![TokenData {
        upos: Some("CCONJ".to_string()),
        features: bare_morph(),
        lemma: None,
    }];
    let r = process_sentence(&sentence, &mut transitions, &mut emissions);
    assert_eq!(r, Ok(()));
    assert_eq!(transitions.get("START", "i"), Some(1));
    assert_eq!(emissions.get("i", ""), Some(1));
}

#[test]
fn process_sentence_reports_first_bad_token_and_keeps_tables() {
    let mut transitions = FreqTable::new();
    let mut emissions = FreqTable::new();
    let bad = TokenData {
        upos: Some("INTJ".to_string()),
        features: bare_morph(),
        lemma: None,
    };
    let sentence = vec![noun("rāma"), bad];
    let r = process_sentence(&sentence, &mut transitions, &mut emissions);
    assert_eq!(r, Err(StateError::UnknownUpos));
    assert_eq!(transitions.get("START", "n-m-1-s"), None);
    assert!(transitions.entries.is_empty());
    assert!(emissions.entries.is_empty());
}
