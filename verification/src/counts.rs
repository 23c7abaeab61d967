//! Frequency bookkeeping for the training pass.
//!
//! [`FreqTable`] counts pairs of strings: transition counts are keyed by
//! `(previous state, current state)`, emission counts by
//! `(current state, lemma)`. It is an association list with distinct
//! keys, viewed as a map from character-sequence pairs to counts.
//! [`process_sentence`] folds one labelled sentence into both tables.

use crate::states::{token_state, token_result, unknown_state, StateError, TokenData};
use crate::text::str_eq;
use crate::translit::{slp1_of, to_slp1};
use vstd::prelude::*;

verus! {

/// The map a list of `(key1, key2, count)` rows denotes; a repeated key
/// would be won by the later row, but [`FreqTable`] keeps keys distinct.
pub open spec fn counts_map(entries: Seq<(String, String, u64)>) -> Map<
    (Seq<char>, Seq<char>),
    u64,
>
    decreases entries.len(),
{
    if entries.len() == 0 {
        Map::empty()
    } else {
        counts_map(entries.drop_last()).insert(
            (entries.last().0@, entries.last().1@),
            entries.last().2,
        )
    }
}

/// No two rows carry the same key pair.
pub open spec fn distinct_keys(entries: Seq<(String, String, u64)>) -> bool {
    forall|a: int, b: int|
        0 <= a < b < entries.len() ==> ((#[trigger] entries[a]).0@, entries[a].1@) != ((
        #[trigger] entries[b]).0@, entries[b].1@)
}

/// One observation of `(k1, k2)`: its count rises by one, saturating at
/// the largest count.
pub open spec fn bump(m: Map<(Seq<char>, Seq<char>), u64>, k1: Seq<char>, k2: Seq<char>) -> Map<
    (Seq<char>, Seq<char>),
    u64,
> {
    let c: u64 = if m.dom().contains((k1, k2)) {
        m[(k1, k2)]
    } else {
        0
    };
    let c2: u64 = if c == u64::MAX {
        c
    } else {
        (c + 1) as u64
    };
    m.insert((k1, k2), c2)
}

/// A key matched by no row is absent from the denoted map.
proof fn lemma_counts_absent(s: Seq<(String, String, u64)>, x: Seq<char>, y: Seq<char>)
    requires
        forall|t: int| 0 <= t < s.len() ==> !((#[trigger] s[t]).0@ == x && s[t].1@ == y),
    ensures
        !counts_map(s).dom().contains((x, y)),
    decreases s.len(),
{
    if s.len() > 0 {
        lemma_counts_absent(s.drop_last(), x, y);
    }
}

/// A row's key is present with exactly that row's count.
proof fn lemma_counts_found(s: Seq<(String, String, u64)>, idx: int)
    requires
        distinct_keys(s),
        0 <= idx < s.len(),
    ensures
        counts_map(s).dom().contains((s[idx].0@, s[idx].1@)),
        counts_map(s)[(s[idx].0@, s[idx].1@)] == s[idx].2,
    decreases s.len(),
{
    if idx < s.len() - 1 {
        lemma_counts_found(s.drop_last(), idx);
    }
}

/// Replacing a row by one with the same key updates the denoted map at
/// that key alone.
proof fn lemma_counts_update(s: Seq<(String, String, u64)>, idx: int, e: (String, String, u64))
    requires
        distinct_keys(s),
        0 <= idx < s.len(),
        e.0@ == s[idx].0@,
        e.1@ == s[idx].1@,
    ensures
        counts_map(s.update(idx, e)) == counts_map(s).insert((e.0@, e.1@), e.2),
    decreases s.len(),
{
    let key = (e.0@, e.1@);
    if idx == s.len() - 1 {
        assert(s.update(idx, e).drop_last() =~= s.drop_last());
        assert(counts_map(s).insert(key, e.2) =~= counts_map(s.drop_last()).insert(key, e.2));
    } else {
        assert(s.update(idx, e).drop_last() =~= s.drop_last().update(idx, e));
        lemma_counts_update(s.drop_last(), idx, e);
        let lastkey = (s.last().0@, s.last().1@);
        assert(key != lastkey);
        assert(counts_map(s.drop_last()).insert(key, e.2).insert(lastkey, s.last().2)
            =~= counts_map(s.drop_last()).insert(lastkey, s.last().2).insert(key, e.2));
        assert(s.update(idx, e).last() == s.last());
    }
}

/// Frequency counts over pairs of strings, denoting a map from key pair
/// to count.
#[derive(Clone, Debug)]
pub struct FreqTable {
    pub entries: Vec<(String, String, u64)>,
}

impl View for FreqTable {
    type V = Map<(Seq<char>, Seq<char>), u64>;

    open spec fn view(&self) -> Map<(Seq<char>, Seq<char>), u64> {
        counts_map(self.entries@)
    }
}

impl FreqTable {
    /// The table's rows carry pairwise distinct keys.
    pub open spec fn wf(self) -> bool {
        distinct_keys(self.entries@)
    }

    /// An empty table.
    pub fn new() -> (r: FreqTable)
        ensures
            r@ == Map::<(Seq<char>, Seq<char>), u64>::empty(),
            r.wf(),
    {
        let r = FreqTable { entries: Vec::new() };
        proof {
            assert(r.entries@.len() == 0);
        }
        r
    }

    /// The position of the row keyed `(k1, k2)`, if one exists.
    fn index_of(&self, k1: &str, k2: &str) -> (r: Option<usize>)
        ensures
            (match r {
                Some(idx) => idx < self.entries@.len() && (#[trigger] self.entries@[idx as int]).0@
                    == k1@ && self.entries@[idx as int].1@ == k2@,
                None => forall|t: int|
                    0 <= t < self.entries@.len() ==> !((#[trigger] self.entries@[t]).0@ == k1@
                        && self.entries@[t].1@ == k2@),
            }),
    {
        let mut idx: usize = 0;
        while idx < self.entries.len()
            invariant
                idx <= self.entries@.len(),
                forall|t: int|
                    0 <= t < idx ==> !((#[trigger] self.entries@[t]).0@ == k1@
                        && self.entries@[t].1@ == k2@),
            decreases self.entries@.len() - idx,
        {
            if str_eq(self.entries[idx].0.as_str(), k1) && str_eq(
                self.entries[idx].1.as_str(),
                k2,
            ) {
                return Some(idx);
            }
            idx = idx + 1;
        }
        None
    }

    /// Records one observation of `(k1, k2)`.
    pub fn increment(&mut self, k1: &str, k2: &str)
        requires
            old(self).wf(),
        ensures
            final(self).wf(),
            final(self)@ == bump(old(self)@, k1@, k2@),
    {
        let ghost s0 = self.entries@;
        match self.index_of(k1, k2) {
            Some(idx) => {
                proof {
                    lemma_counts_found(s0, idx as int);
                }
                let entry = self.entries.remove(idx);
                let c2 = if entry.2 == u64::MAX {
                    entry.2
                } else {
                    entry.2 + 1
                };
                let newe = (entry.0, entry.1, c2);
                self.entries.insert(idx, newe);
                proof {
                    assert(self.entries@ =~= s0.update(idx as int, newe));
                    lemma_counts_update(s0, idx as int, newe);
                    assert forall|a: int, b: int|
                        0 <= a < b < self.entries@.len() implies ((
                    #[trigger] self.entries@[a]).0@, self.entries@[a].1@) != ((
                    #[trigger] self.entries@[b]).0@, self.entries@[b].1@) by {
                        assert(s0[a].0@ == self.entries@[a].0@ && s0[a].1@ == self.entries@[a].1@);
                        assert(s0[b].0@ == self.entries@[b].0@ && s0[b].1@ == self.entries@[b].1@);
                    }
                }
            },
            None => {
                proof {
                    lemma_counts_absent(s0, k1@, k2@);
                }
                let newe = (String::from_str(k1), String::from_str(k2), 1u64);
                self.entries.push(newe);
                proof {
                    assert(self.entries@.drop_last() =~= s0);
                    assert(counts_map(self.entries@) == counts_map(s0).insert((k1@, k2@), 1u64));
                    assert forall|a: int, b: int|
                        0 <= a < b < self.entries@.len() implies ((
                    #[trigger] self.entries@[a]).0@, self.entries@[a].1@) != ((
                    #[trigger] self.entries@[b]).0@, self.entries@[b].1@) by {
                        if b < self.entries@.len() - 1 {
                            assert(s0[a] == self.entries@[a] && s0[b] == self.entries@[b]);
                        } else {
                            assert(self.entries@[b] == newe);
                            assert(!(s0[a].0@ == k1@ && s0[a].1@ == k2@));
                        }
                    }
                }
            },
        }
    }

    /// The recorded count of `(k1, k2)`, if any observation was made.
    pub fn get(&self, k1: &str, k2: &str) -> (r: Option<u64>)
        requires
            self.wf(),
        ensures
            (match r {
                Some(c) => self@.dom().contains((k1@, k2@)) && self@[(k1@, k2@)] == c,
                None => !self@.dom().contains((k1@, k2@)),
            }),
    {
        match self.index_of(k1, k2) {
            Some(idx) => {
                proof {
                    lemma_counts_found(self.entries@, idx as int);
                }
                Some(self.entries[idx].2)
            },
            None => {
                proof {
                    lemma_counts_absent(self.entries@, k1@, k2@);
                }
                None
            },
        }
    }
}

/// Saturating addition of two counts.
pub open spec fn sat_add(a: u64, b: u64) -> u64 {
    if a + b > u64::MAX {
        u64::MAX
    } else {
        (a + b) as u64
    }
}

/// The saturating sum of the counts of all rows whose first key is
/// `k1`, in row order.
pub open spec fn row_sum(entries: Seq<(String, String, u64)>, k1: Seq<char>) -> u64
    decreases entries.len(),
{
    if entries.len() == 0 {
        0u64
    } else if entries.last().0@ == k1 {
        sat_add(row_sum(entries.drop_last(), k1), entries.last().2)
    } else {
        row_sum(entries.drop_last(), k1)
    }
}

impl FreqTable {
    /// The total number of observations whose first key is `k1`: the
    /// denominator when a row of counts is normalized to frequencies.
    pub fn row_total(&self, k1: &str) -> (r: u64)
        ensures
            r == row_sum(self.entries@, k1@),
    {
        let mut acc: u64 = 0;
        let mut idx: usize = 0;
        proof {
            assert(self.entries@.subrange(0, 0) =~= Seq::<(String, String, u64)>::empty());
        }
        while idx < self.entries.len()
            invariant
                idx <= self.entries@.len(),
                acc == row_sum(self.entries@.subrange(0, idx as int), k1@),
            decreases self.entries@.len() - idx,
        {
            proof {
                assert(self.entries@.subrange(0, idx as int + 1).drop_last()
                    =~= self.entries@.subrange(0, idx as int));
                assert(self.entries@.subrange(0, idx as int + 1).last() == self.entries@[
                    idx as int]);
            }
            if str_eq(self.entries[idx].0.as_str(), k1) {
                let c = self.entries[idx].2;
                acc = if acc > u64::MAX - c {
                    u64::MAX
                } else {
                    acc + c
                };
            }
            idx = idx + 1;
        }
        proof {
            assert(self.entries@.subrange(0, self.entries@.len() as int) =~= self.entries@);
        }
        acc
    }
}

/// Every token of the sentence lies in the known tag set.
pub open spec fn labels_ok(tokens: Seq<TokenData>) -> bool {
    forall|t: int| 0 <= t < tokens.len() ==> (#[trigger] token_result(tokens[t])) is Ok
}

/// The position of the first token outside the known tag set.
pub open spec fn first_bad(tokens: Seq<TokenData>) -> int
    decreases tokens.len(),
{
    if tokens.len() == 0 {
        0
    } else if token_result(tokens[0]) is Err {
        0
    } else {
        1 + first_bad(tokens.drop_first())
    }
}

/// The lemma string counted for a token: its lemma, or empty.
pub open spec fn lemma_view(t: TokenData) -> Seq<char> {
    match t.lemma {
        Some(l) => l@,
        None => Seq::empty(),
    }
}

/// Folding one sentence into the two tables: each token bumps the
/// transition count `(previous state, current state)` and the emission
/// count `(current state, transliterated lemma)`.
pub open spec fn fold_counts(
    tokens: Seq<TokenData>,
    prev: Seq<char>,
    t: Map<(Seq<char>, Seq<char>), u64>,
    e: Map<(Seq<char>, Seq<char>), u64>,
) -> (Map<(Seq<char>, Seq<char>), u64>, Map<(Seq<char>, Seq<char>), u64>)
    decreases tokens.len(),
{
    if tokens.len() == 0 {
        (t, e)
    } else {
        let cur = (match token_result(tokens[0]) {
            Ok(s) => s,
            Err(_) => Seq::empty(),
        });
        fold_counts(
            tokens.drop_first(),
            cur,
            bump(t, prev, cur),
            bump(e, cur, slp1_of(lemma_view(tokens[0]))),
        )
    }
}

/// When the tokens before `idx` label fine and `idx` does not, `idx` is
/// the first bad position.
proof fn lemma_first_bad_at(tokens: Seq<TokenData>, idx: int)
    requires
        0 <= idx < tokens.len(),
        forall|t: int| 0 <= t < idx ==> (#[trigger] token_result(tokens[t])) is Ok,
        token_result(tokens[idx]) is Err,
    ensures
        first_bad(tokens) == idx,
    decreases idx,
{
    if idx > 0 {
        assert forall|t: int| 0 <= t < idx - 1 implies (#[trigger] token_result(
            tokens.drop_first()[t],
        )) is Ok by {
            assert(tokens.drop_first()[t] == tokens[t + 1]);
        }
        assert(tokens.drop_first()[idx - 1] == tokens[idx]);
        lemma_first_bad_at(tokens.drop_first(), idx - 1);
    }
}

/// Folds one sentence into the transition and emission tables.
///
/// Either every token lies in the known tag set and both tables take
/// the whole sentence, or the first offending token is reported and
/// neither table changes.
pub fn process_sentence(
    tokens: &Vec<TokenData>,
    transitions: &mut FreqTable,
    emissions: &mut FreqTable,
) -> (r: Result<(), StateError>)
    requires
        old(transitions).wf(),
        old(emissions).wf(),
    ensures
        final(transitions).wf(),
        final(emissions).wf(),
        r is Ok <==> labels_ok(tokens@),
        r matches Ok(u) ==> (final(transitions)@, final(emissions)@) == fold_counts(
            tokens@,
            "START"@,
            old(transitions)@,
            old(emissions)@,
        ),
        r matches Err(e) ==> final(transitions)@ == old(transitions)@ && final(emissions)@ == old(
            emissions,
        )@ && 0 <= first_bad(tokens@) < tokens@.len() && token_result(tokens@[first_bad(tokens@)])
            == Err::<Seq<char>, StateError>(e),
{
    let mut labels: Vec<String> = Vec::new();
    let mut idx: usize = 0;
    while idx < tokens.len()
        invariant
            idx <= tokens@.len(),
            labels@.len() == idx,
            forall|t: int|
                0 <= t < idx ==> token_result(tokens@[t]) == Ok::<Seq<char>, StateError>(
                    (#[trigger] labels@[t])@,
                ),
            *transitions == *old(transitions),
            *emissions == *old(emissions),
            transitions.wf(),
            emissions.wf(),
        decreases tokens@.len() - idx,
    {
        match token_state(&tokens[idx]) {
            Ok(s) => {
                labels.push(s);
                idx = idx + 1;
            },
            Err(e) => {
                proof {
                    assert forall|t: int| 0 <= t < idx implies (#[trigger] token_result(
                        tokens@[t],
                    )) is Ok by {
                        assert(token_result(tokens@[t]) == Ok::<Seq<char>, StateError>(
                            labels@[t]@,
                        ));
                    }
                    lemma_first_bad_at(tokens@, idx as int);
                }
                return Err(e);
            },
        }
    }
    proof {
        assert forall|t: int| 0 <= t < tokens@.len() implies (#[trigger] token_result(
            tokens@[t],
        )) is Ok by {
            assert(token_result(tokens@[t]) == Ok::<Seq<char>, StateError>(labels@[t]@));
        }
        assert(tokens@.skip(0) =~= tokens@);
    }
    let mut prev = unknown_state();
    let mut t: usize = 0;
    while t < tokens.len()
        invariant
            t <= tokens@.len(),
            labels@.len() == tokens@.len(),
            forall|u: int|
                0 <= u < tokens@.len() ==> token_result(tokens@[u]) == Ok::<Seq<char>, StateError>(
                    (#[trigger] labels@[u])@,
                ),
            transitions.wf(),
            emissions.wf(),
            prev@ == (if t == 0 {
                "START"@
            } else {
                labels@[t as int - 1]@
            }),
            fold_counts(tokens@, "START"@, old(transitions)@, old(emissions)@) == fold_counts(
                tokens@.skip(t as int),
                prev@,
                transitions@,
                emissions@,
            ),
        decreases tokens@.len() - t,
    {
        let ghost rest = tokens@.skip(t as int);
        proof {
            assert(rest[0] == tokens@[t as int]);
            assert(rest.drop_first() =~= tokens@.skip(t as int + 1));
        }
        let lem = match &tokens[t].lemma {
            Some(l) => to_slp1(l.as_str()),
            None => to_slp1(""),
        };
        proof {
            reveal_strlit("");
            assert(""@ =~= Seq::<char>::empty());
            assert(lem@ == slp1_of(lemma_view(tokens@[t as int])));
        }
        transitions.increment(prev.as_str(), labels[t].as_str());
        emissions.increment(labels[t].as_str(), lem.as_str());
        prev = labels[t].clone();
        t = t + 1;
    }
    proof {
        assert(tokens@.skip(tokens@.len() as int) =~= Seq::<TokenData>::empty());
    }
    Ok(())
}

} // verus!
