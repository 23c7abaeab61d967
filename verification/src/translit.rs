//! Transliteration from IAST to SLP1.
//!
//! IAST writes some single Sanskrit sounds with two Latin characters
//! ("ai", "kh", "\u{1e6d}h"); SLP1 writes every sound with one. The
//! substitution is a fixed table, matched greedily: at each position the
//! two-character glyphs are tried first, then the one-character glyphs,
//! and a character outside the table is copied unchanged.

use vstd::prelude::*;

verus! {

/// The SLP1 character for a two-character IAST glyph, if `ab` is one.
pub open spec fn digraph_sub(a: char, b: char) -> Option<char> {
    if a == 'a' && b == 'i' {
        Some('E')
    } else if a == 'a' && b == 'u' {
        Some('O')
    } else if b == 'h' {
        if a == 'k' {
            Some('K')
        } else if a == 'g' {
            Some('G')
        } else if a == 'c' {
            Some('C')
        } else if a == 'j' {
            Some('J')
        } else if a == 'ṭ' {
            Some('W')
        } else if a == 'ḍ' {
            Some('Q')
        } else if a == 't' {
            Some('T')
        } else if a == 'd' {
            Some('D')
        } else if a == 'p' {
            Some('P')
        } else if a == 'b' {
            Some('B')
        } else {
            None
        }
    } else {
        None
    }
}

/// The SLP1 character for a one-character IAST glyph, if `a` is one.
pub open spec fn monograph_sub(a: char) -> Option<char> {
    if a == 'ā' {
        Some('A')
    } else if a == 'ī' {
        Some('I')
    } else if a == 'ū' {
        Some('U')
    } else if a == 'ṛ' {
        Some('f')
    } else if a == 'ṝ' {
        Some('F')
    } else if a == 'ḷ' {
        Some('x')
    } else if a == 'ḹ' {
        Some('X')
    } else if a == 'ṃ' {
        Some('M')
    } else if a == 'ḥ' {
        Some('H')
    } else if a == 'ṅ' {
        Some('N')
    } else if a == 'ñ' {
        Some('Y')
    } else if a == 'ṭ' {
        Some('w')
    } else if a == 'ḍ' {
        Some('q')
    } else if a == 'ṇ' {
        Some('R')
    } else if a == 'ś' {
        Some('S')
    } else if a == 'ṣ' {
        Some('z')
    } else if a == 'ḻ' {
        Some('L')
    } else {
        None
    }
}

/// The SLP1 transliteration of an IAST character sequence: greedy
/// longest-match substitution, unknown characters copied as they stand.
pub open spec fn slp1_of(s: Seq<char>) -> Seq<char>
    decreases s.len(),
{
    if s.len() == 0 {
        Seq::empty()
    } else {
        match (if s.len() >= 2 {
            digraph_sub(s[0], s[1])
        } else {
            None
        }) {
            Some(c) => seq![c] + slp1_of(s.skip(2)),
            None => match monograph_sub(s[0]) {
                Some(c) => seq![c] + slp1_of(s.skip(1)),
                None => seq![s[0]] + slp1_of(s.skip(1)),
            },
        }
    }
}

/// Table lookup for [`digraph_sub`].
fn digraph_lookup(a: char, b: char) -> (r: Option<char>)
    ensures
        r == digraph_sub(a, b),
{
    if a == 'a' && b == 'i' {
        Some('E')
    } else if a == 'a' && b == 'u' {
        Some('O')
    } else if b == 'h' {
        if a == 'k' {
            Some('K')
        } else if a == 'g' {
            Some('G')
        } else if a == 'c' {
            Some('C')
        } else if a == 'j' {
            Some('J')
        } else if a == 'ṭ' {
            Some('W')
        } else if a == 'ḍ' {
            Some('Q')
        } else if a == 't' {
            Some('T')
        } else if a == 'd' {
            Some('D')
        } else if a == 'p' {
            Some('P')
        } else if a == 'b' {
            Some('B')
        } else {
            None
        }
    } else {
        None
    }
}

/// Table lookup for [`monograph_sub`].
fn monograph_lookup(a: char) -> (r: Option<char>)
    ensures
        r == monograph_sub(a),
{
    if a == 'ā' {
        Some('A')
    } else if a == 'ī' {
        Some('I')
    } else if a == 'ū' {
        Some('U')
    } else if a == 'ṛ' {
        Some('f')
    } else if a == 'ṝ' {
        Some('F')
    } else if a == 'ḷ' {
        Some('x')
    } else if a == 'ḹ' {
        Some('X')
    } else if a == 'ṃ' {
        Some('M')
    } else if a == 'ḥ' {
        Some('H')
    } else if a == 'ṅ' {
        Some('N')
    } else if a == 'ñ' {
        Some('Y')
    } else if a == 'ṭ' {
        Some('w')
    } else if a == 'ḍ' {
        Some('q')
    } else if a == 'ṇ' {
        Some('R')
    } else if a == 'ś' {
        Some('S')
    } else if a == 'ṣ' {
        Some('z')
    } else if a == 'ḻ' {
        Some('L')
    } else {
        None
    }
}

/// Relies on `String`'s `FromIterator` impl: collecting characters
/// yields the string of exactly those characters, in order.
#[verifier::external_body]
fn chars_to_string(cs: &Vec<char>) -> (r: String)
    ensures
        r@ == cs@,
{
    cs.iter().collect()
}

/// Transliterates from IAST to SLP1.
pub fn to_slp1(input: &str) -> (r: String)
    ensures
        r@ == slp1_of(input@),
{
    let len = input.unicode_len();
    let mut out: Vec<char> = Vec::new();
    let mut i: usize = 0;
    proof {
        assert(input@.skip(0) =~= input@);
        assert(out@ + slp1_of(input@) =~= slp1_of(input@));
    }
    while i < len
        invariant
            i <= len,
            len as nat == input@.len(),
            out@ + slp1_of(input@.skip(i as int)) == slp1_of(input@),
        decreases len - i,
    {
        let c0 = input.get_char(i);
        let dig = if i + 1 < len {
            digraph_lookup(c0, input.get_char(i + 1))
        } else {
            None
        };
        let ghost s = input@.skip(i as int);
        match dig {
            Some(d) => {
                proof {
                    assert(s[0] == input@[i as int]);
                    assert(s[1] == input@[i as int + 1]);
                    assert(s.skip(2) =~= input@.skip(i as int + 2));
                    assert(slp1_of(s) == seq![d] + slp1_of(input@.skip(i as int + 2)));
                    assert(out@.push(d) + slp1_of(input@.skip(i as int + 2)) =~= out@ + slp1_of(
                        s,
                    ));
                }
                out.push(d);
                i = i + 2;
            },
            None => {
                proof {
                    assert(s[0] == input@[i as int]);
                    assert(s.skip(1) =~= input@.skip(i as int + 1));
                }
                let c = match monograph_lookup(c0) {
                    Some(m) => m,
                    None => c0,
                };
                proof {
                    assert(slp1_of(s) == seq![c] + slp1_of(input@.skip(i as int + 1)));
                    assert(out@.push(c) + slp1_of(input@.skip(i as int + 1)) =~= out@ + slp1_of(
                        s,
                    ));
                }
                out.push(c);
                i = i + 1;
            },
        }
    }
    proof {
        assert(input@.skip(len as int) =~= Seq::<char>::empty());
        assert(slp1_of(Seq::<char>::empty()) =~= Seq::<char>::empty());
        assert(out@ + Seq::<char>::empty() =~= out@);
    }
    chars_to_string(&out)
}

} // verus!
