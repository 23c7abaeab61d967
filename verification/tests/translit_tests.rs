use vidyut::translit::to_slp1;

#[test]
fn test_to_slp1() {
    assert_eq!(
        to_slp1("a ā i ī u ū ṛ ṝ ḷ ḹ e ai o au ṃ ḥ"),
        "a A i I u U f F x X e E o O M H"
    );
    assert_eq!(to_slp1("k kh g gh ṅ"), "k K g G N");
    assert_eq!(to_slp1("c ch j jh ñ"), "c C j J Y");
    assert_eq!(to_slp1("ṭ ṭh ḍ ḍh ṇ"), "w W q Q R");
    assert_eq!(to_slp1("t th d dh n"), "t T d D n");
    assert_eq!(to_slp1("p ph b bh m"), "p P b B m");
    assert_eq!(to_slp1("y r l v"), "y r l v");
    assert_eq!(to_slp1("ś ṣ s h ḻ"), "S z s h L");
}

#[test]
fn to_slp1_empty_is_empty() {
    assert_eq!(to_slp1(""), "");
}

#[test]
fn to_slp1_matches_digraphs_greedily() {
    assert_eq!(to_slp1("khaḍga"), "Kaqga");
    assert_eq!(to_slp1("dharma"), "Darma");
    assert_eq!(to_slp1("kaumāra"), "kOmAra");
}

#[test]
fn to_slp1_copies_unknown_characters() {
    assert_eq!(to_slp1("xyz-42"), "xyz-42");
}
