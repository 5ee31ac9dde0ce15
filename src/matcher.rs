use vstd::prelude::*;

verus! {

#[verifier::external_type_specification]
#[verifier::external_body]
pub struct ExRegex(regex::Regex);

#[verifier::external_type_specification]
#[verifier::external_body]
pub struct ExRegexSet(regex::RegexSet);

#[verifier::external_type_specification]
#[verifier::external_body]
pub struct ExRegexError(regex::Error);

/// Whether the regex engine accepts `pattern` as a regular expression.
pub uninterp spec fn regex_valid(pattern: Seq<char>) -> bool;

/// Whether the regular expression `pattern` matches somewhere in `text`.
pub uninterp spec fn regex_matches(pattern: Seq<char>, text: Seq<char>) -> bool;

/// Whether the regex engine builds one combined matcher from `patterns`.
pub uninterp spec fn set_builds(patterns: Seq<Seq<char>>) -> bool;

/// The pattern sources that a compiled set was built from, in order.
pub uninterp spec fn set_patterns(set: regex::RegexSet) -> Seq<Seq<char>>;

/// The indices below `n`, ascending, of the patterns that match `text`.
pub open spec fn matched_below(pats: Seq<Seq<char>>, text: Seq<char>, n: int) -> Seq<int>
    decreases n,
{
    if n <= 0 {
        Seq::empty()
    } else if regex_matches(pats[n - 1], text) {
        matched_below(pats, text, n - 1).push(n - 1)
    } else {
        matched_below(pats, text, n - 1)
    }
}

/// The indices, ascending, of all patterns of `pats` that match `text`.
pub open spec fn matched_indices(pats: Seq<Seq<char>>, text: Seq<char>) -> Seq<int> {
    matched_below(pats, text, pats.len() as int)
}

/// Relies on regex::Regex::new: it succeeds exactly on valid patterns.
#[verifier::external_body]
fn compile_one(pattern: &str) -> (r: Result<regex::Regex, regex::Error>)
    ensures
        r is Ok <==> regex_valid(pattern@),
{
    regex::Regex::new(pattern)
}

/// Relies on regex::RegexSet::new, with its default settings: whether it
/// succeeds depends on the patterns alone, and a set that is built keeps its
/// patterns, in the order given. A set of no patterns is always built
/// (RegexSet::empty unwraps that very build).
#[verifier::external_body]
fn build_set(patterns: &Vec<String>) -> (r: Result<regex::RegexSet, regex::Error>)
    ensures
        r is Ok <==> set_builds(patterns.deep_view()),
        patterns@.len() == 0 ==> r is Ok,
        r matches Ok(set) ==> set_patterns(set) == patterns.deep_view(),
{
    regex::RegexSet::new(patterns)
}

/// Relies on regex::RegexSet::matches: the indices of the patterns that
/// match `text`, iterated in ascending order.
#[verifier::external_body]
fn set_matches(set: &regex::RegexSet, text: &str) -> (r: Vec<usize>)
    ensures
        r@.map_values(|i: usize| i as int) == matched_indices(set_patterns(*set), text@),
        forall|k: int|
            0 <= k < r@.len() ==> r@[k] < set_patterns(*set).len() && regex_matches(
                set_patterns(*set)[r@[k] as int],
                text@,
            ),
{
    set.matches(text).into_iter().collect()
}

/// Why a list of labelled patterns could not be compiled.
#[derive(Debug, Clone, PartialEq, Eq)]
pub enum PatternError {
    /// The entry at `index` has an empty label or a pattern that is not a
    /// valid regular expression.
    InvalidPattern { index: usize },
    /// Every entry is valid, but the combined matcher could not be built.
    InvalidPatternSet,
}

/// Whether a (label, pattern) entry can stand in a pattern set.
pub open spec fn entry_ok(label: Seq<char>, pattern: Seq<char>) -> bool {
    label.len() > 0 && regex_valid(pattern)
}

/// The labels of a list of (label, pattern) pairs.
pub open spec fn pair_labels(pairs: Seq<(String, String)>) -> Seq<Seq<char>> {
    pairs.map_values(|p: (String, String)| p.0@)
}

/// The pattern sources of a list of (label, pattern) pairs.
pub open spec fn pair_patterns(pairs: Seq<(String, String)>) -> Seq<Seq<char>> {
    pairs.map_values(|p: (String, String)| p.1@)
}

/// An ordered list of labelled patterns together with one combined matcher
/// built from the same patterns in the same order.
pub struct PatternSet {
    labels: Vec<String>,
    set: regex::RegexSet,
}

impl PatternSet {
    /// The labels, in order.
    pub closed spec fn labels(&self) -> Seq<Seq<char>> {
        self.labels.deep_view()
    }

    /// The pattern sources, in order; index `i` belongs to label `i`.
    pub closed spec fn patterns(&self) -> Seq<Seq<char>> {
        set_patterns(self.set)
    }

    /// One label per pattern, each label non-empty, each pattern valid.
    pub open spec fn wf(&self) -> bool {
        &&& self.labels().len() == self.patterns().len()
        &&& forall|i: int|
            0 <= i < self.labels().len() ==> #[trigger] entry_ok(
                self.labels()[i],
                self.patterns()[i],
            )
    }

    /// Compiles each pattern on its own, then all of them into one matcher.
    /// The first bad entry is reported; a failure of the combined matcher
    /// alone is reported as such. When every entry is good and the engine
    /// builds the combined matcher, compilation succeeds.
    pub fn compile(pairs: &Vec<(String, String)>) -> (r: Result<PatternSet, PatternError>)
        ensures
            (forall|i: int|
                0 <= i < pairs@.len() ==> #[trigger] entry_ok(pairs@[i].0@, pairs@[i].1@))
                && set_builds(pair_patterns(pairs@)) ==> r is Ok,
            pairs@.len() == 0 ==> r is Ok,
            match r {
                Ok(ps) => {
                    &&& ps.wf()
                    &&& ps.labels() == pair_labels(pairs@)
                    &&& ps.patterns() == pair_patterns(pairs@)
                },
                Err(PatternError::InvalidPattern { index }) => {
                    &&& index < pairs@.len()
                    &&& !entry_ok(pairs@[index as int].0@, pairs@[index as int].1@)
                    &&& forall|i: int|
                        0 <= i < index ==> #[trigger] entry_ok(pairs@[i].0@, pairs@[i].1@)
                },
                Err(PatternError::InvalidPatternSet) => {
                    &&& forall|i: int|
                        0 <= i < pairs@.len() ==> #[trigger] entry_ok(pairs@[i].0@, pairs@[i].1@)
                    &&& !set_builds(pair_patterns(pairs@))
                },
            },
    {
        let mut labels: Vec<String> = Vec::new();
        let mut sources: Vec<String> = Vec::new();
        let mut i: usize = 0;
        while i < pairs.len()
            invariant
                i <= pairs@.len(),
                labels@.len() == i,
                sources@.len() == i,
                forall|k: int| 0 <= k < i ==> #[trigger] labels@[k]@ == pairs@[k].0@,
                forall|k: int| 0 <= k < i ==> #[trigger] sources@[k]@ == pairs@[k].1@,
                forall|k: int| 0 <= k < i ==> #[trigger] entry_ok(pairs@[k].0@, pairs@[k].1@),
            decreases pairs@.len() - i,
        {
            let label = &pairs[i].0;
            let source = &pairs[i].1;
            if label.as_str().unicode_len() == 0 {
                assert(!entry_ok(pairs@[i as int].0@, pairs@[i as int].1@));
                return Err(PatternError::InvalidPattern { index: i });
            }
            match compile_one(source.as_str()) {
                Ok(_) => {},
                Err(_) => {
                    assert(!entry_ok(pairs@[i as int].0@, pairs@[i as int].1@));
                    return Err(PatternError::InvalidPattern { index: i });
                },
            }
            labels.push(label.clone());
            sources.push(source.clone());
            i = i + 1;
        }
        match build_set(&sources) {
            Ok(set) => {
                let ps = PatternSet { labels, set };
                assert(ps.labels() =~= pair_labels(pairs@));
                assert(ps.patterns() =~= pair_patterns(pairs@));
                Ok(ps)
            },
            Err(_) => {
                assert(sources.deep_view() =~= pair_patterns(pairs@));
                Err(PatternError::InvalidPatternSet)
            },
        }
    }

    /// Number of patterns.
    pub fn len(&self) -> (r: usize)
        ensures
            r == self.labels().len(),
    {
        self.labels.len()
    }

    /// The label of pattern `i`.
    pub fn label(&self, i: usize) -> (r: &String)
        requires
            i < self.labels().len(),
        ensures
            r@ == self.labels()[i as int],
    {
        &self.labels[i]
    }

    /// The indices, ascending, of the patterns that match `text`.
    pub fn matching(&self, text: &str) -> (r: Vec<usize>)
        requires
            self.wf(),
        ensures
            r@.map_values(|i: usize| i as int) == matched_indices(self.patterns(), text@),
            forall|k: int| 0 <= k < r@.len() ==> r@[k] < self.labels().len(),
    {
        set_matches(&self.set, text)
    }
}

} // verus!
