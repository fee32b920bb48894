//! Autocompletion logic of the generator's prompts: suggesting YAML
//! paths scored by fuzzy matching, and the magic entry that opens an
//! editor for multi-line input. Directory scanning and the prompt
//! toolkit live outside; this module scores and orders plain strings.

use fuzzy_matcher::FuzzyMatcher;
use vstd::prelude::*;

verus! {

/// The score the fuzzy matcher gives `pattern` against `choice`, if it
/// matches at all; smart-case, so the result depends on the two
/// strings alone.
pub uninterp spec fn fuzzy_score_of(choice: Seq<char>, pattern: Seq<char>) -> Option<i64>;

/// Relies on `fuzzy_matcher::skim::SkimMatcherV2::fuzzy_match` with
/// smart case: the score of the pattern against the choice, or nothing
/// when it does not match.
#[verifier::external_body]
fn fuzzy_match_score(choice: &str, pattern: &str) -> (r: Option<i64>)
    ensures
        r == fuzzy_score_of(choice@, pattern@),
{
    fuzzy_matcher::skim::SkimMatcherV2::default().smart_case().fuzzy_match(choice, pattern)
}

/// The choices that match the pattern, each with its score, in the
/// order given.
pub open spec fn scored_choices(paths: Seq<Seq<char>>, pattern: Seq<char>) -> Seq<
    (Seq<char>, i64),
>
    decreases paths.len(),
{
    if paths.len() == 0 {
        Seq::empty()
    } else {
        let rest = scored_choices(paths.drop_first(), pattern);
        match fuzzy_score_of(paths.first(), pattern) {
            Some(score) => seq![(paths.first(), score)] + rest,
            None => rest,
        }
    }
}

/// Scores in a scored list never increase.
pub open spec fn sorted_by_score_desc(s: Seq<(String, i64)>) -> bool {
    forall|i: int, j: int| 0 <= i < j < s.len() ==> (#[trigger] s[i]).1 >= (#[trigger] s[j]).1
}

/// Scores every path against the input and returns the matches sorted
/// by descending score: the same pairs the fuzzy matcher produces, just
/// reordered.
pub fn fuzzy_sort(input: &str, vecs: &Vec<String>) -> (r: Vec<(String, i64)>)
    ensures
        sorted_by_score_desc(r@),
        r@.map_values(|p: (String, i64)| (p.0@, p.1)).to_multiset() == scored_choices(
            vecs.deep_view(),
            input@,
        ).to_multiset(),
{
    let mut matches: Vec<(String, i64)> = Vec::new();
    let mut i: usize = 0;
    while i < vecs.len()
        invariant
            i <= vecs@.len(),
            matches@.map_values(|p: (String, i64)| (p.0@, p.1)) == scored_choices(
                vecs.deep_view().take(i as int),
                input@,
            ),
        decreases vecs@.len() - i,
    {
        proof {
            lemma_scored_take_step(vecs.deep_view(), input@, i as int);
        }
        match fuzzy_match_score(vecs[i].as_str(), input) {
            Some(score) => {
                let ghost before = matches@;
                matches.push((vecs[i].clone(), score));
                proof {
                    assert(matches@.map_values(|p: (String, i64)| (p.0@, p.1)) =~= before
                        .map_values(|p: (String, i64)| (p.0@, p.1)) + seq![
                        (vecs.deep_view()[i as int], score),
                    ]);
                }
            },
            None => {
            },
        }
        i = i + 1;
    }
    proof {
        assert(vecs.deep_view().take(vecs.deep_view().len() as int) =~= vecs.deep_view());
    }

    // insertion sort by descending score
    let mut out: Vec<(String, i64)> = Vec::new();
    proof {
        let f = |p: (String, i64)| (p.0@, p.1);
        assert(matches@.take(0) =~= Seq::<(String, i64)>::empty());
        assert(out@.map_values(f) =~= matches@.take(0).map_values(f));
    }
    let mut k: usize = 0;
    while k < matches.len()
        invariant
            k <= matches@.len(),
            sorted_by_score_desc(out@),
            out@.map_values(|p: (String, i64)| (p.0@, p.1)).to_multiset() == matches@.take(
                k as int,
            ).map_values(|p: (String, i64)| (p.0@, p.1)).to_multiset(),
        decreases matches@.len() - k,
    {
        let item = (matches[k].0.clone(), matches[k].1);
        proof {
            assert(item.0@ == matches@[k as int].0@);
        }
        let mut pos: usize = 0;
        while pos < out.len() && out[pos].1 >= item.1
            invariant
                pos <= out@.len(),
                forall|q: int| 0 <= q < pos ==> (#[trigger] out@[q]).1 >= item.1,
            decreases out@.len() - pos,
        {
            pos = pos + 1;
        }
        let ghost before = out@;
        out.insert(pos, item);
        proof {
            assert(sorted_by_score_desc(out@)) by {
                assert(forall|q: int|
                    0 <= q < out@.len() ==> (#[trigger] out@[q]) == (if q < pos {
                        before[q]
                    } else if q == pos {
                        item
                    } else {
                        before[q - 1]
                    }));
                assert(pos < before.len() ==> before[pos as int].1 < item.1);
            }
            let f = |p: (String, i64)| (p.0@, p.1);
            assert(out@.map_values(f) =~= before.map_values(f).insert(pos as int, f(item)));
            lemma_insert_multiset(before.map_values(f), pos as int, f(item));
            assert(matches@.take(k + 1).map_values(f) =~= matches@.take(k as int).map_values(
                f,
            ).push(f(matches@[k as int])));
            matches@.take(k as int).map_values(f).to_multiset_ensures();
            assert(f(matches@[k as int]) == f(item));
        }
        k = k + 1;
    }
    proof {
        assert(matches@.take(matches@.len() as int) =~= matches@);
    }
    out
}

/// Inserting an element anywhere adds exactly it to the multiset.
proof fn lemma_insert_multiset(s: Seq<(Seq<char>, i64)>, pos: int, v: (Seq<char>, i64))
    requires
        0 <= pos <= s.len(),
    ensures
        s.insert(pos, v).to_multiset() == s.to_multiset().insert(v),
{
    s.to_multiset_ensures();
    s.insert(pos, v).to_multiset_ensures();
    assert(s.insert(pos, v) =~= s.take(pos).push(v) + s.skip(pos));
    lemma_multiset_concat_all(s, pos, v);
}

proof fn lemma_multiset_concat_all(s: Seq<(Seq<char>, i64)>, pos: int, v: (Seq<char>, i64))
    requires
        0 <= pos <= s.len(),
    ensures
        (s.take(pos).push(v) + s.skip(pos)).to_multiset() == s.to_multiset().insert(v),
{
    let a = s.take(pos);
    let b = s.skip(pos);
    vstd::seq_lib::lemma_multiset_commutative(a.push(v), b);
    vstd::seq_lib::lemma_multiset_commutative(a, b);
    a.to_multiset_ensures();
    assert(a + b =~= s);
    assert(a.push(v).to_multiset() == a.to_multiset().insert(v));
    assert((a.push(v) + b).to_multiset() =~= s.to_multiset().insert(v)) by {
        assert(a.push(v).to_multiset().add(b.to_multiset()) =~= a.to_multiset().insert(v).add(
            b.to_multiset(),
        ));
        assert(a.to_multiset().insert(v).add(b.to_multiset()) =~= a.to_multiset().add(
            b.to_multiset(),
        ).insert(v));
    }
}

proof fn lemma_scored_take_step(paths: Seq<Seq<char>>, pattern: Seq<char>, i: int)
    requires
        0 <= i < paths.len(),
    ensures
        scored_choices(paths.take(i + 1), pattern) == (match fuzzy_score_of(paths[i], pattern) {
            Some(score) => scored_choices(paths.take(i), pattern) + seq![(paths[i], score)],
            None => scored_choices(paths.take(i), pattern),
        }),
    decreases i,
{
    if i == 0 {
        assert(paths.take(1).drop_first() =~= Seq::<Seq<char>>::empty());
        assert(paths.take(1).first() == paths[0]);
        assert(scored_choices(Seq::<Seq<char>>::empty(), pattern) == Seq::<(Seq<char>, i64)>::empty());
        assert(paths.take(0) =~= Seq::<Seq<char>>::empty());
        match fuzzy_score_of(paths[0], pattern) {
            Some(score) => {
                assert(scored_choices(paths.take(1), pattern) =~= seq![(paths[0], score)]);
                assert(scored_choices(paths.take(0), pattern) + seq![(paths[0], score)] =~= seq![
                    (paths[0], score),
                ]);
            },
            None => {},
        }
    } else {
        lemma_scored_take_step(paths.drop_first(), pattern, i - 1);
        assert(paths.take(i + 1).drop_first() =~= paths.drop_first().take(i));
        assert(paths.take(i).drop_first() =~= paths.drop_first().take(i - 1));
        assert(paths.take(i + 1).first() == paths[0]);
        assert(paths.take(i).first() == paths[0]);
        assert(paths.drop_first()[i - 1] == paths[i]);
    }
}

/// Completion state for choosing a YAML test-suite path: the candidate
/// paths found by the outside directory scan, scored against what was
/// typed so far.
#[derive(Debug)]
pub struct YamlPathCompleter {
    pub input: String,
    pub paths: Vec<String>,
    pub supported_code_types: Vec<String>,
}

impl YamlPathCompleter {
    /// Builder: records which code-file extensions count as sources.
    pub fn supported_code_types(self, types: Vec<String>) -> (r: Self)
        ensures
            r.supported_code_types == types,
            r.input == self.input,
            r.paths == self.paths,
    {
        YamlPathCompleter { supported_code_types: types, ..self }
    }

    /// The candidate paths scored against `input`, best first.
    pub fn fuzzy_sort(&self, input: &str) -> (r: Vec<(String, i64)>)
        ensures
            sorted_by_score_desc(r@),
            r@.map_values(|p: (String, i64)| (p.0@, p.1)).to_multiset() == scored_choices(
                self.paths.deep_view(),
                input@,
            ).to_multiset(),
    {
        fuzzy_sort(input, &self.paths)
    }
}

/// Completion for test-case input: a blank prompt suggests opening the
/// external editor, anything else suggests nothing.
#[derive(Clone)]
pub struct CaseInputCompleter;

impl CaseInputCompleter {
    /// The suggestions for what was typed so far.
    pub fn get_suggestions(&self, input: &str, editor_label: &str) -> (r: Vec<String>)
        ensures
            crate::textutil::all_whitespace(input@) ==> r@.len() == 1 && r@[0]@ == editor_label@,
            !crate::textutil::all_whitespace(input@) ==> r@.len() == 0,
    {
        let n = input.unicode_len();
        let mut all_ws = true;
        let mut i: usize = 0;
        while i < n && all_ws
            invariant
                i <= n,
                n == input@.len(),
                all_ws ==> forall|k: int|
                    0 <= k < i ==> crate::chartype::unicode_whitespace(#[trigger] input@[k]),
                !all_ws ==> i < n && !crate::chartype::unicode_whitespace(input@[i as int]),
            decreases n - i + if all_ws { 1int } else { 0int },
        {
            if crate::chartype::is_whitespace_char(input.get_char(i)) {
                i = i + 1;
            } else {
                all_ws = false;
            }
        }
        let mut out: Vec<String> = Vec::new();
        if all_ws {
            out.push(String::from_str(editor_label));
        }
        out
    }
}

} // verus!
