use vidyut::states::{
    avyaya_state, nominal_state, tinanta_state, token_state, unknown_state, Morph, StateError,
    TokenData,
};

fn morph(g: Option<&str>, c: Option<&str>, n: Option<&str>, p: Option<&str>) -> Morph {
    Morph {
        gender: g.map(|s| s.to_string()),
        case: c.map(|s| s.to_string()),
        number: n.map(|s| s.to_string()),
        person: p.map(|s| s.to_string()),
    }
}

fn token(upos: Option<&str>, features: Morph, lemma: Option<&str>) -> TokenData {
    TokenData {
        upos: upos.map(|s| s.to_string()),
        features,
        lemma: lemma.map(|s| s.to_string()),
    }
}

#[test]
fn nominal_state_formats_gender_case_number() {
    let f = morph(Some("Masc"), Some("Nom"), Some("Sing"), None);
    assert_eq!(nominal_state(&f), Ok("n-m-1-s".to_string()));
    let f = morph(Some("Fem"), Some("Loc"), Some("Plur"), None);
    assert_eq!(nominal_state(&f), Ok("n-f-7-p".to_string()));
    let f = morph(Some("Neut"), Some("Cpd"), Some("Dual"), None);
    assert_eq!(nominal_state(&f), Ok("n-n-comp-d".to_string()));
}

#[test]
fn nominal_state_defaults_missing_features() {
    let f = morph(None, None, None, None);
    assert_eq!(nominal_state(&f), Ok("n-_-_-_".to_string()));
}

#[test]
fn nominal_state_rejects_unknown_features() {
    let f = morph(Some("Common"), Some("Nom"), Some("Sing"), None);
    assert_eq!(nominal_state(&f), Err(StateError::UnknownGender));
    let f = morph(Some("Masc"), Some("Erg"), Some("Sing"), None);
    assert_eq!(nominal_state(&f), Err(StateError::UnknownCase));
    let f = morph(Some("Masc"), Some("Nom"), Some("Trial"), None);
    assert_eq!(nominal_state(&f), Err(StateError::UnknownNumber));
}

#[test]
fn tinanta_state_formats_person_number() {
    let f = morph(None, None, Some("Sing"), Some("3"));
    assert_eq!(tinanta_state(&f), Ok("v-3-s".to_string()));
    let f = morph(None, None, None, None);
    assert_eq!(tinanta_state(&f), Ok("v-_-_".to_string()));
}

#[test]
fn tinanta_state_rejects_unknown_person() {
    let f = morph(None, None, Some("Sing"), Some("4"));
    assert_eq!(tinanta_state(&f), Err(StateError::UnknownPerson));
}

#[test]
fn fixed_state_labels() {
    assert_eq!(avyaya_state(), "i".to_string());
    assert_eq!(unknown_state(), "START".to_string());
}

#[test]
fn token_state_dispatches_on_upos() {
    let t = token(Some("NOUN"), morph(Some("Masc"), Some("Acc"), Some("Sing"), None), None);
    assert_eq!(token_state(&t), Ok("n-m-2-s".to_string()));
    let t = token(Some("VERB"), morph(None, None, Some("Plur"), Some("1")), None);
    assert_eq!(token_state(&t), Ok("v-1-p".to_string()));
    let t = token(Some("CCONJ"), morph(None, None, None, None), None);
    assert_eq!(token_state(&t), Ok("i".to_string()));
    let t = token(Some("ADV"), morph(None, None, None, None), None);
    assert_eq!(token_state(&t), Ok("i".to_string()));
    let t = token(Some("MANTRA"), morph(None, None, None, None), None);
    assert_eq!(token_state(&t), Ok("START".to_string()));
    let t = token(None, morph(None, None, None, None), None);
    assert_eq!(token_state(&t), Ok("START".to_string()));
}

#[test]
fn token_state_rejects_unknown_upos() {
    let t = token(Some("INTJ"), morph(None, None, None, None), None);
    assert_eq!(token_state(&t), Err(StateError::UnknownUpos));
}
