//! Splits Sanskrit expressions according to a table of sandhi rules.
//!
//! A sandhi rule table maps a fusion-form substring (the sound written
//! where two words meet) to the ordered list of `(suffix, prefix)` pairs
//! it can be decomposed into. [`split`] enumerates every structurally
//! possible cut of an input span, both the plain cut and the cuts that
//! undo a fusion, in a fixed, contract-level order. The `is_good_*`
//! predicates are cheap phonotactic filters over the candidates.

use crate::text::str_eq;
use vstd::prelude::*;

verus! {

/// A rule table: each fusion form maps to its decompositions, in
/// insertion order.
pub type SandhiMap = multimap::MultiMap<String, (String, String)>;

#[verifier::external_type_specification]
#[verifier::external_body]
#[verifier::reject_recursive_types(K)]
#[verifier::reject_recursive_types(V)]
#[verifier::reject_recursive_types(S)]
pub struct ExMultiMap<K, V, S>(multimap::MultiMap<K, V, S>);

/// The contents of a rule table: the character sequence of each key
/// present, mapped to the views of its values, in insertion order.
pub uninterp spec fn rule_map(m: SandhiMap) -> Map<Seq<char>, Seq<(Seq<char>, Seq<char>)>>;

/// The views of a sequence of string pairs.
pub open spec fn pair_views(s: Seq<(String, String)>) -> Seq<(Seq<char>, Seq<char>)> {
    s.map_values(|p: (String, String)| (p.0@, p.1@))
}

/// Relies on `multimap::MultiMap::keys`, which iterates over the keys of
/// the underlying hash map, each exactly once, in arbitrary order.
#[verifier::external_body]
fn rule_keys(m: &SandhiMap) -> (r: Vec<String>)
    ensures
        r@.map_values(|s: String| s@).to_set() == rule_map(*m).dom(),
{
    m.keys().cloned().collect()
}

/// Relies on `multimap::MultiMap::get_vec`, which returns the vector of
/// values under the key, in insertion order, or `None` when the key is
/// absent.
#[verifier::external_body]
fn rule_values<'a>(m: &'a SandhiMap, key: &str) -> (r: Option<&'a Vec<(String, String)>>)
    ensures
        (match r {
            Some(v) => rule_map(*m).dom().contains(key@) && pair_views(v@) == rule_map(*m)[key@],
            None => !rule_map(*m).dom().contains(key@),
        }),
{
    m.get_vec(key)
}

/// The candidate pair that undoing rule value `p` at window `[i, j)`
/// produces: the suffix continues the text before the cut, the prefix
/// fronts the text after the window.
pub open spec fn emit(input: Seq<char>, i: int, j: int, p: (Seq<char>, Seq<char>)) -> (
    Seq<char>,
    Seq<char>,
) {
    (input.subrange(0, i) + p.0, p.1 + input.subrange(j, input.len() as int))
}

/// The candidates contributed by the window `[i, j)`: one per rule value
/// under the key `input[i..j]`, in the table's insertion order, and none
/// when the window is no key.
pub open spec fn matches_at(
    input: Seq<char>,
    rules: Map<Seq<char>, Seq<(Seq<char>, Seq<char>)>>,
    i: int,
    j: int,
) -> Seq<(Seq<char>, Seq<char>)> {
    let key = input.subrange(i, j);
    if rules.dom().contains(key) {
        rules[key].map_values(|p: (Seq<char>, Seq<char>)| emit(input, i, j, p))
    } else {
        Seq::empty()
    }
}

/// The candidates of all windows `[i, j)` for `j` from `jlo` up to
/// `jend` inclusive, in ascending order of `j`.
pub open spec fn window_scan(
    input: Seq<char>,
    rules: Map<Seq<char>, Seq<(Seq<char>, Seq<char>)>>,
    i: int,
    jlo: int,
    jend: int,
) -> Seq<(Seq<char>, Seq<char>)>
    decreases jend + 1 - jlo,
{
    if jlo > jend {
        Seq::empty()
    } else {
        matches_at(input, rules, i, jlo) + window_scan(input, rules, i, jlo + 1, jend)
    }
}

/// The last window end scanned at cut position `i`: the longest key
/// could end there, capped at the end of the input.
pub open spec fn window_end(input: Seq<char>, maxlen: nat, i: int) -> int {
    if input.len() < i + maxlen {
        input.len() as int
    } else {
        i + maxlen
    }
}

/// Everything the splitter emits at cut position `i`: first the default
/// (no-sandhi) cut, then the rule-derived candidates in ascending window
/// length.
pub open spec fn candidates_at(
    input: Seq<char>,
    rules: Map<Seq<char>, Seq<(Seq<char>, Seq<char>)>>,
    maxlen: nat,
    i: int,
) -> Seq<(Seq<char>, Seq<char>)> {
    seq![(input.subrange(0, i), input.subrange(i, input.len() as int))] + window_scan(
        input,
        rules,
        i,
        i,
        window_end(input, maxlen, i),
    )
}

/// The candidates of the cut positions `i` down to `1`, in descending
/// order of `i`.
pub open spec fn split_from(
    input: Seq<char>,
    rules: Map<Seq<char>, Seq<(Seq<char>, Seq<char>)>>,
    maxlen: nat,
    i: int,
) -> Seq<(Seq<char>, Seq<char>)>
    decreases i,
{
    if i < 1 {
        Seq::empty()
    } else {
        candidates_at(input, rules, maxlen, i) + split_from(input, rules, maxlen, i - 1)
    }
}

/// The full split sequence: cut positions from the end of the input down
/// to `1`, where `maxlen` bounds the window width.
pub open spec fn split_spec(
    input: Seq<char>,
    rules: Map<Seq<char>, Seq<(Seq<char>, Seq<char>)>>,
    maxlen: nat,
) -> Seq<(Seq<char>, Seq<char>)> {
    split_from(input, rules, maxlen, input.len() as int)
}

/// `n` is the length of the longest key of a (non-empty) rule table.
pub open spec fn is_max_key_len(
    rules: Map<Seq<char>, Seq<(Seq<char>, Seq<char>)>>,
    n: nat,
) -> bool {
    &&& exists|k: Seq<char>| rules.dom().contains(k) && #[trigger] k.len() == n
    &&& forall|k: Seq<char>| rules.dom().contains(k) ==> #[trigger] k.len() <= n
}

/// The symbols that may legally end a word before sandhi: vowels, a
/// closed set of consonants, and `s` and `r`.
pub open spec fn allowed_final(c: char) -> bool {
    ||| c == 'a'
    ||| c == 'A'
    ||| c == 'i'
    ||| c == 'I'
    ||| c == 'u'
    ||| c == 'U'
    ||| c == 'f'
    ||| c == 'F'
    ||| c == 'x'
    ||| c == 'X'
    ||| c == 'e'
    ||| c == 'E'
    ||| c == 'o'
    ||| c == 'O'
    ||| c == 'H'
    ||| c == 'k'
    ||| c == 'N'
    ||| c == 'w'
    ||| c == 'R'
    ||| c == 't'
    ||| c == 'p'
    ||| c == 'n'
    ||| c == 'm'
    ||| c == 's'
    ||| c == 'r'
}

/// A first part is plausible when it is empty or ends in an allowed
/// final symbol.
pub open spec fn good_first(s: Seq<char>) -> bool {
    s.len() == 0 || allowed_final(s.last())
}

/// The four semivowels.
pub open spec fn semivowel(c: char) -> bool {
    c == 'y' || c == 'r' || c == 'l' || c == 'v'
}

/// The sparsha (stop) consonants.
pub open spec fn sparsha(c: char) -> bool {
    ||| c == 'k'
    ||| c == 'K'
    ||| c == 'g'
    ||| c == 'G'
    ||| c == 'N'
    ||| c == 'c'
    ||| c == 'C'
    ||| c == 'j'
    ||| c == 'J'
    ||| c == 'Y'
    ||| c == 'w'
    ||| c == 'W'
    ||| c == 'q'
    ||| c == 'Q'
    ||| c == 'R'
    ||| c == 't'
    ||| c == 'T'
    ||| c == 'd'
    ||| c == 'D'
    ||| c == 'n'
    ||| c == 'p'
    ||| c == 'P'
    ||| c == 'b'
    ||| c == 'B'
    ||| c == 'm'
}

/// A second part is plausible unless it opens with a semivowel directly
/// followed by a sparsha consonant.
pub open spec fn good_second(s: Seq<char>) -> bool {
    !(s.len() >= 2 && semivowel(s[0]) && sparsha(s[1]))
}

/// What [`is_good_split`] decides: both parts pass their filters and the
/// second part is not the whole original span again.
pub open spec fn good_split(text: Seq<char>, first: Seq<char>, second: Seq<char>) -> bool {
    good_first(first) && good_second(second) && second != text
}

/// Returns whether the first item in a sandhi split is OK according to
/// some basic heuristics: only its last symbol is inspected.
pub fn is_good_first(text: &str) -> (r: bool)
    ensures
        r == good_first(text@),
{
    let len = text.unicode_len();
    if len == 0 {
        true
    } else {
        let c = text.get_char(len - 1);
        is_allowed_final(c)
    }
}

/// Membership test for [`allowed_final`].
fn is_allowed_final(c: char) -> (r: bool)
    ensures
        r == allowed_final(c),
{
    c == 'a' || c == 'A' || c == 'i' || c == 'I' || c == 'u' || c == 'U' || c == 'f' || c == 'F'
        || c == 'x' || c == 'X' || c == 'e' || c == 'E' || c == 'o' || c == 'O' || c == 'H'
        || c == 'k' || c == 'N' || c == 'w' || c == 'R' || c == 't' || c == 'p' || c == 'n'
        || c == 'm' || c == 's' || c == 'r'
}

/// Membership test for [`sparsha`].
fn is_sparsha(c: char) -> (r: bool)
    ensures
        r == sparsha(c),
{
    c == 'k' || c == 'K' || c == 'g' || c == 'G' || c == 'N' || c == 'c' || c == 'C' || c == 'j'
        || c == 'J' || c == 'Y' || c == 'w' || c == 'W' || c == 'q' || c == 'Q' || c == 'R'
        || c == 't' || c == 'T' || c == 'd' || c == 'D' || c == 'n' || c == 'p' || c == 'P'
        || c == 'b' || c == 'B' || c == 'm'
}

/// Returns whether the second item in a sandhi split is OK according to
/// some basic heuristics: it must not open with a semivowel directly
/// followed by a sparsha consonant.
pub fn is_good_second(text: &str) -> (r: bool)
    ensures
        r == good_second(text@),
{
    let len = text.unicode_len();
    if len >= 2 {
        let c0 = text.get_char(0);
        let c1 = text.get_char(1);
        !((c0 == 'y' || c0 == 'r' || c0 == 'l' || c0 == 'v') && is_sparsha(c1))
    } else {
        true
    }
}

/// Returns whether a given sandhi split is OK according to some basic
/// heuristics.
///
/// The splitter overgenerates, and some of its outputs are not
/// phonetically valid; callers are expected to filter the results of
/// [`split`] with this function.
pub fn is_good_split(text: &str, first: &str, second: &str) -> (r: bool)
    ensures
        r == good_split(text@, first@, second@),
{
    let is_recursive = str_eq(text, second);
    is_good_first(first) && is_good_second(second) && !is_recursive
}

/// Recursion guard: a candidate whose second part repeats the whole
/// original span is never a good split, whatever the two filters say of
/// its parts.
pub proof fn lemma_recursion_guard(text: Seq<char>, first: Seq<char>, second: Seq<char>)
    requires
        second == text,
    ensures
        !good_split(text, first, second),
{
}

/// The greatest character length over a non-empty list of keys.
fn max_char_len(keys: &Vec<String>) -> (r: usize)
    requires
        keys@.len() > 0,
    ensures
        exists|t: int| 0 <= t < keys@.len() && (#[trigger] keys@[t])@.len() == r,
        forall|t: int| 0 <= t < keys@.len() ==> (#[trigger] keys@[t])@.len() <= r,
{
    let mut m: usize = keys[0].as_str().unicode_len();
    let mut idx: usize = 1;
    while idx < keys.len()
        invariant
            1 <= idx <= keys@.len(),
            exists|t: int| 0 <= t < idx && (#[trigger] keys@[t])@.len() == m,
            forall|t: int| 0 <= t < idx ==> (#[trigger] keys@[t])@.len() <= m,
        decreases keys@.len() - idx,
    {
        let l = keys[idx].as_str().unicode_len();
        if l > m {
            m = l;
        }
        idx = idx + 1;
    }
    m
}

/// `pair_views` distributes over `push`.
proof fn lemma_pair_views_push(s: Seq<(String, String)>, x: (String, String))
    ensures
        pair_views(s.push(x)) == pair_views(s).push((x.0@, x.1@)),
{
    assert(pair_views(s.push(x)) =~= pair_views(s).push((x.0@, x.1@)));
}

/// Returns all possible splits for the given input.
///
/// The result is pinned down exactly: for the table's longest-key length
/// `n`, it is `split_spec(input@, rule_map(*rules), n)` — candidates
/// grouped by descending cut position; within a group the default cut
/// first, then rule-derived candidates by ascending window length, and
/// for one window in the table's insertion order. No deduplication is
/// performed.
pub fn split(input: &str, rules: &SandhiMap) -> (res: Vec<(String, String)>)
    requires
        exists|k: Seq<char>| rule_map(*rules).dom().contains(k),
        input@.len() < usize::MAX,
    ensures
        exists|n: nat| is_max_key_len(rule_map(*rules), n),
        forall|n: nat|
            is_max_key_len(rule_map(*rules), n) ==> pair_views(res@) == split_spec(
                input@,
                rule_map(*rules),
                n,
            ),
{
    let ghost rm = rule_map(*rules);
    let keys = rule_keys(rules);
    proof {
        let k0 = choose|k: Seq<char>| rm.dom().contains(k);
        assert(keys@.map_values(|s: String| s@).contains(k0));
    }
    let maxlen = max_char_len(&keys);
    proof {
        let kv = keys@.map_values(|s: String| s@);
        let t = choose|t: int| 0 <= t < keys@.len() && (#[trigger] keys@[t])@.len() == maxlen;
        assert(kv[t] == keys@[t]@);
        assert(kv.contains(keys@[t]@));
        assert(rm.dom().contains(keys@[t]@));
        assert forall|k: Seq<char>| rm.dom().contains(k) implies #[trigger] k.len()
            <= maxlen by {
            assert(kv.contains(k));
            let t2 = choose|t2: int| 0 <= t2 < kv.len() && kv[t2] == k;
            assert(keys@[t2]@ == k);
        }
        assert(is_max_key_len(rm, maxlen as nat));
    }
    let len_input = input.unicode_len();
    let mut res: Vec<(String, String)> = Vec::new();
    let mut i: usize = len_input;
    proof {
        assert(pair_views(res@) + split_from(input@, rm, maxlen as nat, i as int) =~= split_from(
            input@,
            rm,
            maxlen as nat,
            len_input as int,
        ));
    }
    while i >= 1
        invariant
            i <= len_input,
            len_input as nat == input@.len(),
            input@.len() < usize::MAX,
            rm == rule_map(*rules),
            is_max_key_len(rm, maxlen as nat),
            split_from(input@, rm, maxlen as nat, len_input as int) == pair_views(res@)
                + split_from(input@, rm, maxlen as nat, i as int),
        decreases i,
    {
        let first = String::from_str(input.substring_char(0, i));
        let second = String::from_str(input.substring_char(i, len_input));
        proof {
            lemma_pair_views_push(res@, (first, second));
        }
        res.push((first, second));
        let jend = if len_input - i < maxlen {
            len_input
        } else {
            i + maxlen
        };
        proof {
            assert(jend as int == window_end(input@, maxlen as nat, i as int));
            assert(pair_views(res@) =~= pair_views(res@.drop_last()) + seq![
                (input@.subrange(0, i as int), input@.subrange(i as int, input@.len() as int)),
            ]);
            assert(pair_views(res@) + window_scan(input@, rm, i as int, i as int, jend as int)
                =~= pair_views(res@.drop_last()) + candidates_at(input@, rm, maxlen as nat, i as int));
        }
        let mut j: usize = i;
        while j <= jend
            invariant
                1 <= i <= len_input,
                i <= j <= jend + 1,
                jend <= len_input,
                len_input as nat == input@.len(),
                input@.len() < usize::MAX,
                rm == rule_map(*rules),
                jend as int == window_end(input@, maxlen as nat, i as int),
                split_from(input@, rm, maxlen as nat, len_input as int) == pair_views(res@)
                    + window_scan(input@, rm, i as int, j as int, jend as int) + split_from(
                    input@,
                    rm,
                    maxlen as nat,
                    i as int - 1,
                ),
            decreases jend + 1 - j,
        {
            let key = input.substring_char(i, j);
            match rule_values(rules, key) {
                Some(pairs) => {
                    let ghost mseq = matches_at(input@, rm, i as int, j as int);
                    proof {
                        assert(mseq == rm[input@.subrange(i as int, j as int)].map_values(
                            |p: (Seq<char>, Seq<char>)| emit(input@, i as int, j as int, p),
                        ));
                        assert(mseq =~= Seq::empty() + mseq);
                    }
                    let mut k: usize = 0;
                    while k < pairs.len()
                        invariant
                            k <= pairs@.len(),
                            1 <= i <= j <= jend <= len_input,
                            len_input as nat == input@.len(),
                            input@.len() < usize::MAX,
                            rm == rule_map(*rules),
                            jend as int == window_end(input@, maxlen as nat, i as int),
                            rm.dom().contains(input@.subrange(i as int, j as int)),
                            pair_views(pairs@) == rm[input@.subrange(i as int, j as int)],
                            mseq == matches_at(input@, rm, i as int, j as int),
                            split_from(input@, rm, maxlen as nat, len_input as int) == pair_views(
                                res@,
                            ) + mseq.skip(k as int) + window_scan(
                                input@,
                                rm,
                                i as int,
                                j as int + 1,
                                jend as int,
                            ) + split_from(input@, rm, maxlen as nat, i as int - 1),
                        decreases pairs@.len() - k,
                    {
                        let p0 = pairs[k].0.as_str();
                        let p1 = pairs[k].1.as_str();
                        let cand_first = String::from_str(input.substring_char(0, i)).concat(p0);
                        let cand_second = String::from_str(p1).concat(
                            input.substring_char(j, len_input),
                        );
                        proof {
                            assert(pair_views(pairs@)[k as int] == (pairs@[k as int].0@, pairs@[
                                k as int].1@));
                            assert(mseq[k as int] == emit(
                                input@,
                                i as int,
                                j as int,
                                rm[input@.subrange(i as int, j as int)][k as int],
                            ));
                            assert((cand_first@, cand_second@) == mseq[k as int]);
                            lemma_pair_views_push(res@, (cand_first, cand_second));
                            assert(mseq.skip(k as int) =~= seq![mseq[k as int]] + mseq.skip(
                                k as int + 1,
                            ));
                            assert(pair_views(res@).push(mseq[k as int]) + mseq.skip(k as int + 1)
                                =~= pair_views(res@) + mseq.skip(k as int));
                        }
                        res.push((cand_first, cand_second));
                        k = k + 1;
                    }
                    proof {
                        assert(mseq.skip(k as int) =~= Seq::<(Seq<char>, Seq<char>)>::empty());
                        assert(pair_views(res@) + mseq.skip(k as int) =~= pair_views(res@));
                    }
                },
                None => {
                    proof {
                        assert(matches_at(input@, rm, i as int, j as int) =~= Seq::<
                            (Seq<char>, Seq<char>),
                        >::empty());
                        assert(pair_views(res@) + matches_at(input@, rm, i as int, j as int)
                            =~= pair_views(res@));
                    }
                },
            }
            j = j + 1;
        }
        proof {
            assert(window_scan(input@, rm, i as int, j as int, jend as int) =~= Seq::<
                (Seq<char>, Seq<char>),
            >::empty());
            assert(pair_views(res@) + window_scan(input@, rm, i as int, j as int, jend as int)
                =~= pair_views(res@));
        }
        i = i - 1;
    }
    proof {
        assert(split_from(input@, rm, maxlen as nat, 0) =~= Seq::<(Seq<char>, Seq<char>)>::empty());
        assert(pair_views(res@) + split_from(input@, rm, maxlen as nat, 0) =~= pair_views(res@));
        assert forall|n: nat| is_max_key_len(rm, n) implies pair_views(res@) == split_spec(
            input@,
            rm,
            n,
        ) by {
            let k1 = choose|k: Seq<char>| rm.dom().contains(k) && #[trigger] k.len() == n;
            let k2 = choose|k: Seq<char>|
                rm.dom().contains(k) && #[trigger] k.len() == maxlen as nat;
            assert(n == maxlen as nat);
        }
    }
    res
}

/// The one fatal condition of the splitter.
#[derive(Clone, Copy, Debug, PartialEq, Eq, Structural)]
pub enum SplitError {
    /// The rule table holds no entries, so no longest-key bound exists:
    /// a configuration error on the caller's side, not a runtime state.
    EmptyRuleTable,
}

/// Like [`split`], but checks at run time that the rule table is
/// non-empty, and reports an empty table as a fatal configuration error
/// instead of silently returning an empty sequence.
pub fn try_split(input: &str, rules: &SandhiMap) -> (res: Result<
    Vec<(String, String)>,
    SplitError,
>)
    requires
        input@.len() < usize::MAX,
    ensures
        res is Err <==> rule_map(*rules).dom() == Set::<Seq<char>>::empty(),
        res matches Err(e) ==> e == SplitError::EmptyRuleTable,
        res is Ok ==> exists|n: nat| is_max_key_len(rule_map(*rules), n),
        res matches Ok(v) ==> forall|n: nat|
            is_max_key_len(rule_map(*rules), n) ==> pair_views(v@) == split_spec(
                input@,
                rule_map(*rules),
                n,
            ),
{
    let ghost rm = rule_map(*rules);
    let keys = rule_keys(rules);
    proof {
        let kv = keys@.map_values(|s: String| s@);
        if keys@.len() == 0 {
            assert forall|x: Seq<char>| !(#[trigger] rm.dom().contains(x)) by {
                if rm.dom().contains(x) {
                    assert(kv.contains(x));
                }
            }
            assert(rm.dom() =~= Set::<Seq<char>>::empty());
        } else {
            assert(kv[0] == keys@[0]@);
            assert(kv.contains(keys@[0]@));
            assert(rm.dom().contains(keys@[0]@));
        }
    }
    if keys.len() == 0 {
        Err(SplitError::EmptyRuleTable)
    } else {
        Ok(split(input, rules))
    }
}

/// An element of the left part of a concatenation stays an element.
proof fn lemma_concat_contains_left<T>(a: Seq<T>, b: Seq<T>, x: T)
    requires
        a.contains(x),
    ensures
        (a + b).contains(x),
{
    let i = choose|i: int| 0 <= i < a.len() && a[i] == x;
    assert((a + b)[i] == x);
}

/// An element of the right part of a concatenation stays an element.
proof fn lemma_concat_contains_right<T>(a: Seq<T>, b: Seq<T>, x: T)
    requires
        b.contains(x),
    ensures
        (a + b).contains(x),
{
    let i = choose|i: int| 0 <= i < b.len() && b[i] == x;
    assert((a + b)[a.len() + i] == x);
}

/// Whatever one window contributes, the scan over all windows keeps.
proof fn lemma_window_scan_contains(
    input: Seq<char>,
    rules: Map<Seq<char>, Seq<(Seq<char>, Seq<char>)>>,
    i: int,
    jlo: int,
    jend: int,
    j: int,
    x: (Seq<char>, Seq<char>),
)
    requires
        jlo <= j <= jend,
        matches_at(input, rules, i, j).contains(x),
    ensures
        window_scan(input, rules, i, jlo, jend).contains(x),
    decreases j - jlo,
{
    if jlo == j {
        lemma_concat_contains_left(
            matches_at(input, rules, i, jlo),
            window_scan(input, rules, i, jlo + 1, jend),
            x,
        );
    } else {
        lemma_window_scan_contains(input, rules, i, jlo + 1, jend, j, x);
        lemma_concat_contains_right(
            matches_at(input, rules, i, jlo),
            window_scan(input, rules, i, jlo + 1, jend),
            x,
        );
    }
}

/// Whatever one cut position contributes, the whole split sequence
/// keeps.
proof fn lemma_split_from_contains(
    input: Seq<char>,
    rules: Map<Seq<char>, Seq<(Seq<char>, Seq<char>)>>,
    maxlen: nat,
    h: int,
    i: int,
    x: (Seq<char>, Seq<char>),
)
    requires
        1 <= i <= h,
        candidates_at(input, rules, maxlen, i).contains(x),
    ensures
        split_from(input, rules, maxlen, h).contains(x),
    decreases h,
{
    if h == i {
        lemma_concat_contains_left(
            candidates_at(input, rules, maxlen, h),
            split_from(input, rules, maxlen, h - 1),
            x,
        );
    } else {
        lemma_split_from_contains(input, rules, maxlen, h - 1, i, x);
        lemma_concat_contains_right(
            candidates_at(input, rules, maxlen, h),
            split_from(input, rules, maxlen, h - 1),
            x,
        );
    }
}

/// Default-split inclusion: for every cut position `i` in
/// `[1, input.len()]`, the split sequence contains the plain cut
/// `(input[0..i], input[i..])`, whatever the rule table holds.
pub proof fn lemma_default_split_included(
    input: Seq<char>,
    rules: Map<Seq<char>, Seq<(Seq<char>, Seq<char>)>>,
    maxlen: nat,
    i: int,
)
    requires
        1 <= i <= input.len(),
    ensures
        split_spec(input, rules, maxlen).contains(
            (input.subrange(0, i), input.subrange(i, input.len() as int)),
        ),
{
    let c = candidates_at(input, rules, maxlen, i);
    assert(c[0] == (input.subrange(0, i), input.subrange(i, input.len() as int)));
    assert(c.contains(c[0]));
    lemma_split_from_contains(input, rules, maxlen, input.len() as int, i, c[0]);
}

/// Rule-match correctness: wherever a key of the table occurs as
/// `input[i..j]` with `i` a legal cut position, every decomposition
/// under that key contributes its candidate pair to the split sequence.
/// Their relative order is pinned down by `split_spec` itself, which
/// keeps the table's insertion order within one window.
pub proof fn lemma_rule_match_included(
    input: Seq<char>,
    rules: Map<Seq<char>, Seq<(Seq<char>, Seq<char>)>>,
    maxlen: nat,
    i: int,
    j: int,
    v: int,
)
    requires
        is_max_key_len(rules, maxlen),
        1 <= i <= j <= input.len(),
        rules.dom().contains(input.subrange(i, j)),
        0 <= v < rules[input.subrange(i, j)].len(),
    ensures
        split_spec(input, rules, maxlen).contains(
            emit(input, i, j, rules[input.subrange(i, j)][v]),
        ),
{
    let key = input.subrange(i, j);
    assert(key.len() <= maxlen);
    let jend = window_end(input, maxlen, i);
    let m = matches_at(input, rules, i, j);
    assert(m[v] == emit(input, i, j, rules[key][v]));
    assert(m.contains(m[v]));
    lemma_window_scan_contains(input, rules, i, i, jend, j, m[v]);
    lemma_concat_contains_right(
        seq![(input.subrange(0, i), input.subrange(i, input.len() as int))],
        window_scan(input, rules, i, i, jend),
        m[v],
    );
    lemma_split_from_contains(input, rules, maxlen, input.len() as int, i, m[v]);
}

} // verus!
