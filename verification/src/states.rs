//! State labels for corpus tokens.
//!
//! A hidden-Markov training pass labels every token of an annotated
//! corpus with a small state string derived from its part of speech and
//! morphological features. The features arrive as plain optional
//! strings; a combination outside the known tag set is reported as an
//! error rather than silently mislabelled.

use crate::text::str_eq;
use vstd::prelude::*;

verus! {

/// The morphological features a state label reads: each is the feature's
/// raw corpus value, or `None` when the token does not carry it.
#[derive(Clone, Debug)]
pub struct Morph {
    pub gender: Option<String>,
    pub case: Option<String>,
    pub number: Option<String>,
    pub person: Option<String>,
}

/// What a state label reads from one corpus token.
#[derive(Clone, Debug)]
pub struct TokenData {
    pub upos: Option<String>,
    pub features: Morph,
    pub lemma: Option<String>,
}

/// A feature value outside the known tag set.
#[derive(Clone, Copy, Debug, PartialEq, Eq, Structural)]
pub enum StateError {
    UnknownGender,
    UnknownCase,
    UnknownNumber,
    UnknownPerson,
    UnknownUpos,
}

/// The gender component of a nominal state label.
pub open spec fn gender_code(g: Option<String>) -> Option<Seq<char>> {
    match g {
        None => Some("_"@),
        Some(s) => if s@ == "Masc"@ {
            Some("m"@)
        } else if s@ == "Fem"@ {
            Some("f"@)
        } else if s@ == "Neut"@ {
            Some("n"@)
        } else {
            None
        },
    }
}

/// The case component of a nominal state label.
pub open spec fn case_code(c: Option<String>) -> Option<Seq<char>> {
    match c {
        None => Some("_"@),
        Some(s) => if s@ == "Nom"@ {
            Some("1"@)
        } else if s@ == "Acc"@ {
            Some("2"@)
        } else if s@ == "Ins"@ {
            Some("3"@)
        } else if s@ == "Dat"@ {
            Some("4"@)
        } else if s@ == "Abl"@ {
            Some("5"@)
        } else if s@ == "Gen"@ {
            Some("6"@)
        } else if s@ == "Loc"@ {
            Some("7"@)
        } else if s@ == "Voc"@ {
            Some("8"@)
        } else if s@ == "Cpd"@ {
            Some("comp"@)
        } else {
            None
        },
    }
}

/// The number component of a state label.
pub open spec fn number_code(n: Option<String>) -> Option<Seq<char>> {
    match n {
        None => Some("_"@),
        Some(s) => if s@ == "Sing"@ {
            Some("s"@)
        } else if s@ == "Dual"@ {
            Some("d"@)
        } else if s@ == "Plur"@ {
            Some("p"@)
        } else {
            None
        },
    }
}

/// The person component of a verbal state label.
pub open spec fn person_code(p: Option<String>) -> Option<Seq<char>> {
    match p {
        None => Some("_"@),
        Some(s) => if s@ == "3"@ {
            Some("3"@)
        } else if s@ == "2"@ {
            Some("2"@)
        } else if s@ == "1"@ {
            Some("1"@)
        } else {
            None
        },
    }
}

/// The state label of a nominal, or the first unrecognized feature.
pub open spec fn nominal_result(f: Morph) -> Result<Seq<char>, StateError> {
    match gender_code(f.gender) {
        None => Err(StateError::UnknownGender),
        Some(g) => match case_code(f.case) {
            None => Err(StateError::UnknownCase),
            Some(c) => match number_code(f.number) {
                None => Err(StateError::UnknownNumber),
                Some(n) => Ok("n-"@ + g + "-"@ + c + "-"@ + n),
            },
        },
    }
}

/// The state label of a finite verb, or the first unrecognized feature.
pub open spec fn tinanta_result(f: Morph) -> Result<Seq<char>, StateError> {
    match person_code(f.person) {
        None => Err(StateError::UnknownPerson),
        Some(p) => match number_code(f.number) {
            None => Err(StateError::UnknownNumber),
            Some(n) => Ok("v-"@ + p + "-"@ + n),
        },
    }
}

/// The state label of a whole token, keyed by its part of speech.
pub open spec fn token_result(t: TokenData) -> Result<Seq<char>, StateError> {
    match t.upos {
        None => Ok("START"@),
        Some(u) => if u@ == "NOUN"@ || u@ == "PRON"@ || u@ == "ADJ"@ || u@ == "PART"@ || u@
            == "NUM"@ {
            nominal_result(t.features)
        } else if u@ == "CCONJ"@ || u@ == "SCONJ"@ || u@ == "ADV"@ {
            Ok("i"@)
        } else if u@ == "VERB"@ {
            tinanta_result(t.features)
        } else if u@ == "MANTRA"@ {
            Ok("START"@)
        } else {
            Err(StateError::UnknownUpos)
        },
    }
}

/// Looks up the gender component.
fn gender_exec(g: &Option<String>) -> (r: Option<&'static str>)
    ensures
        (match r {
            Some(s) => gender_code(*g) == Some(s@),
            None => gender_code(*g) is None,
        }),
{
    match g {
        None => Some("_"),
        Some(s) => {
            if str_eq(s.as_str(), "Masc") {
                Some("m")
            } else if str_eq(s.as_str(), "Fem") {
                Some("f")
            } else if str_eq(s.as_str(), "Neut") {
                Some("n")
            } else {
                None
            }
        },
    }
}

/// Looks up the case component.
fn case_exec(c: &Option<String>) -> (r: Option<&'static str>)
    ensures
        (match r {
            Some(s) => case_code(*c) == Some(s@),
            None => case_code(*c) is None,
        }),
{
    match c {
        None => Some("_"),
        Some(s) => {
            if str_eq(s.as_str(), "Nom") {
                Some("1")
            } else if str_eq(s.as_str(), "Acc") {
                Some("2")
            } else if str_eq(s.as_str(), "Ins") {
                Some("3")
            } else if str_eq(s.as_str(), "Dat") {
                Some("4")
            } else if str_eq(s.as_str(), "Abl") {
                Some("5")
            } else if str_eq(s.as_str(), "Gen") {
                Some("6")
            } else if str_eq(s.as_str(), "Loc") {
                Some("7")
            } else if str_eq(s.as_str(), "Voc") {
                Some("8")
            } else if str_eq(s.as_str(), "Cpd") {
                Some("comp")
            } else {
                None
            }
        },
    }
}

/// Looks up the number component.
fn number_exec(n: &Option<String>) -> (r: Option<&'static str>)
    ensures
        (match r {
            Some(s) => number_code(*n) == Some(s@),
            None => number_code(*n) is None,
        }),
{
    match n {
        None => Some("_"),
        Some(s) => {
            if str_eq(s.as_str(), "Sing") {
                Some("s")
            } else if str_eq(s.as_str(), "Dual") {
                Some("d")
            } else if str_eq(s.as_str(), "Plur") {
                Some("p")
            } else {
                None
            }
        },
    }
}

/// Looks up the person component.
fn person_exec(p: &Option<String>) -> (r: Option<&'static str>)
    ensures
        (match r {
            Some(s) => person_code(*p) == Some(s@),
            None => person_code(*p) is None,
        }),
{
    match p {
        None => Some("_"),
        Some(s) => {
            if str_eq(s.as_str(), "3") {
                Some("3")
            } else if str_eq(s.as_str(), "2") {
                Some("2")
            } else if str_eq(s.as_str(), "1") {
                Some("1")
            } else {
                None
            }
        },
    }
}

/// Create a state label for the given nominal (noun, pronoun,
/// adjective, particle, numeral): gender, case and number.
pub fn nominal_state(features: &Morph) -> (r: Result<String, StateError>)
    ensures
        (match r {
            Ok(s) => nominal_result(*features) == Ok::<Seq<char>, StateError>(s@),
            Err(e) => nominal_result(*features) == Err::<Seq<char>, StateError>(e),
        }),
{
    match gender_exec(&features.gender) {
        None => Err(StateError::UnknownGender),
        Some(g) => match case_exec(&features.case) {
            None => Err(StateError::UnknownCase),
            Some(c) => match number_exec(&features.number) {
                None => Err(StateError::UnknownNumber),
                Some(n) => {
                    let mut out = String::from_str("n-");
                    out.append(g);
                    out.append("-");
                    out.append(c);
                    out.append("-");
                    out.append(n);
                    Ok(out)
                },
            },
        },
    }
}

/// Create a state label for the given finite verb: person and number.
pub fn tinanta_state(features: &Morph) -> (r: Result<String, StateError>)
    ensures
        (match r {
            Ok(s) => tinanta_result(*features) == Ok::<Seq<char>, StateError>(s@),
            Err(e) => tinanta_result(*features) == Err::<Seq<char>, StateError>(e),
        }),
{
    match person_exec(&features.person) {
        None => Err(StateError::UnknownPerson),
        Some(p) => match number_exec(&features.number) {
            None => Err(StateError::UnknownNumber),
            Some(n) => {
                let mut out = String::from_str("v-");
                out.append(p);
                out.append("-");
                out.append(n);
                Ok(out)
            },
        },
    }
}

/// Create a state label for an avyaya (indeclinable).
pub fn avyaya_state() -> (r: String)
    ensures
        r@ == "i"@,
{
    String::from_str("i")
}

/// The label of the initial state, and of any token with unclear
/// semantics.
pub fn unknown_state() -> (r: String)
    ensures
        r@ == "START"@,
{
    String::from_str("START")
}

/// Create a state label for the given token.
pub fn token_state(token: &TokenData) -> (r: Result<String, StateError>)
    ensures
        (match r {
            Ok(s) => token_result(*token) == Ok::<Seq<char>, StateError>(s@),
            Err(e) => token_result(*token) == Err::<Seq<char>, StateError>(e),
        }),
{
    match &token.upos {
        None => Ok(unknown_state()),
        Some(u) => {
            if str_eq(u.as_str(), "NOUN") || str_eq(u.as_str(), "PRON") || str_eq(
                u.as_str(),
                "ADJ",
            ) || str_eq(u.as_str(), "PART") || str_eq(u.as_str(), "NUM") {
                nominal_state(&token.features)
            } else if str_eq(u.as_str(), "CCONJ") || str_eq(u.as_str(), "SCONJ") || str_eq(
                u.as_str(),
                "ADV",
            ) {
                Ok(avyaya_state())
            } else if str_eq(u.as_str(), "VERB") {
                tinanta_state(&token.features)
            } else if str_eq(u.as_str(), "MANTRA") {
                Ok(unknown_state())
            } else {
                Err(StateError::UnknownUpos)
            }
        },
    }
}

} // verus!
