//! Queries: pattern texts compiled to matchers, and sets of them.

use crate::grep::GrepError;
use crate::text::{lowercase, texts};
use regex::Regex;
use vstd::prelude::*;

verus! {

/// A compiled regular expression of the `regex` crate.
#[verifier::external_type_specification]
#[verifier::external_body]
pub struct ExRegex(Regex);

/// The error of `regex::Regex::new`; nothing is read from it.
#[verifier::external_type_specification]
#[verifier::external_body]
pub struct ExRegexError(regex::Error);

/// Whether `regex::Regex::new` accepts the pattern text. It refuses a text
/// for its syntax, or because the compiled form would exceed the size limit
/// that the `regex` crate sets itself; both are fixed by the text and by the
/// crate as it is built into this library.
pub uninterp spec fn regex_compiles(pattern: Seq<char>) -> bool;

/// Whether the regular expression that `regex::Regex::new` compiles from
/// `pattern` has a match somewhere in `text`.
pub uninterp spec fn regex_matches(pattern: Seq<char>, text: Seq<char>) -> bool;

/// A pattern text together with the matcher compiled from it. The only way
/// to make one is [`compile_query`], so the matcher always stems from the
/// text.
pub struct Query {
    source: String,
    matcher: Regex,
}

impl View for Query {
    type V = Seq<char>;

    /// The pattern text.
    closed spec fn view(&self) -> Seq<char> {
        self.source@
    }
}

/// `regex::Regex::new` compiles a pattern text, or refuses it. Which texts
/// it accepts is named, not spelled out. An accepted text is kept beside its
/// matcher.
#[verifier::external_body]
fn compile_query(source: &str) -> (r: Result<Query, regex::Error>)
    ensures
        r is Ok <==> regex_compiles(source@),
        r matches Ok(q) ==> q@ == source@,
{
    match Regex::new(source) {
        Ok(matcher) => Ok(Query { source: source.to_string(), matcher }),
        Err(e) => Err(e),
    }
}

/// `regex::Regex::is_match` says whether the expression has a match anywhere
/// in the text. That is a function of the pattern text the expression was
/// compiled from and of the searched text.
#[verifier::external_body]
fn query_is_match(query: &Query, text: &str) -> (b: bool)
    ensures
        b == regex_matches(query@, text@),
{
    query.matcher.is_match(text)
}

/// The text that is compiled for a raw query: lower-cased where case is
/// ignored, then put between two `\W` where only whole words count.
pub open spec fn prepared_pattern(raw: Seq<char>, case_insensitive: bool, whole_word: bool) -> Seq<
    char,
> {
    let folded = if case_insensitive {
        lowercase(raw)
    } else {
        raw
    };
    if whole_word {
        seq!['\\', 'W'] + folded + seq!['\\', 'W']
    } else {
        folded
    }
}

/// The prepared text of each raw query.
pub open spec fn prepared_patterns(
    raws: Seq<Seq<char>>,
    case_insensitive: bool,
    whole_word: bool,
) -> Seq<Seq<char>> {
    Seq::new(raws.len(), |i: int| prepared_pattern(raws[i], case_insensitive, whole_word))
}

/// The pattern compiler accepts the prepared text of every query.
pub open spec fn all_compile(raws: Seq<Seq<char>>, case_insensitive: bool, whole_word: bool) -> bool {
    forall|k: int|
        0 <= k < raws.len() ==> regex_compiles(
            prepared_pattern(#[trigger] raws[k], case_insensitive, whole_word),
        )
}

/// Query `k` is the first whose prepared text the pattern compiler refuses.
pub open spec fn first_refused(
    raws: Seq<Seq<char>>,
    case_insensitive: bool,
    whole_word: bool,
    k: int,
) -> bool {
    &&& 0 <= k < raws.len()
    &&& !regex_compiles(prepared_pattern(raws[k], case_insensitive, whole_word))
    &&& forall|j: int|
        0 <= j < k ==> regex_compiles(
            prepared_pattern(#[trigger] raws[j], case_insensitive, whole_word),
        )
}

/// Some pattern has a match in the text.
pub open spec fn any_match(patterns: Seq<Seq<char>>, text: Seq<char>) -> bool {
    exists|i: int| 0 <= i < patterns.len() && regex_matches(#[trigger] patterns[i], text)
}

/// Prepares a raw query for compiling.
pub fn prepare_pattern(raw: &str, case_insensitive: bool, whole_word: bool) -> (p: String)
    ensures
        p@ == prepared_pattern(raw@, case_insensitive, whole_word),
{
    let folded = if case_insensitive {
        raw.to_lowercase()
    } else {
        raw.to_owned()
    };
    if whole_word {
        proof {
            reveal_strlit("\\W");
        }
        let mut wrapped = "\\W".to_owned();
        wrapped.append(folded.as_str());
        wrapped.append("\\W");
        assert(wrapped@ =~= seq!['\\', 'W'] + folded@ + seq!['\\', 'W']);
        wrapped
    } else {
        folded
    }
}

/// What becomes of a pattern text once the compiler has answered: the query,
/// or the error that names the text.
pub fn query_or_error(source: String, compiled: Result<Query, regex::Error>) -> (r: Result<
    Query,
    GrepError,
>)
    ensures
        match compiled {
            Ok(q) => r == Ok::<Query, GrepError>(q),
            Err(_) => r == Err::<Query, GrepError>(GrepError::Query(source)),
        },
{
    match compiled {
        Ok(q) => Ok(q),
        Err(_) => Err(GrepError::Query(source)),
    }
}

/// The compiled queries of one search. A text matches the set when it
/// matches any of them.
pub struct PatternSet {
    queries: Vec<Query>,
}

impl View for PatternSet {
    type V = Seq<Seq<char>>;

    /// The pattern texts, in the order of the queries.
    closed spec fn view(&self) -> Seq<Seq<char>> {
        Seq::new(self.queries@.len(), |i: int| self.queries@[i]@)
    }
}

impl PatternSet {
    /// Compiles every raw query, prepared as the two modifiers ask, in the
    /// order of the queries. Where the pattern compiler accepts them all, the
    /// set holds them all. Otherwise the call fails, and the error names the
    /// prepared text of the first query that was refused.
    pub fn compile(queries: &Vec<String>, case_insensitive: bool, whole_word: bool) -> (r: Result<
        PatternSet,
        GrepError,
    >)
        ensures
            match r {
                Ok(set) => all_compile(texts(queries@), case_insensitive, whole_word) && set@
                    == prepared_patterns(texts(queries@), case_insensitive, whole_word),
                Err(GrepError::Query(p)) => exists|k: int|
                    #[trigger] first_refused(texts(queries@), case_insensitive, whole_word, k)
                        && p@ == prepared_pattern(queries[k]@, case_insensitive, whole_word),
                Err(_) => false,
            },
    {
        let ghost raws = texts(queries@);
        let mut set = PatternSet { queries: Vec::new() };
        let mut i: usize = 0;
        while i < queries.len()
            invariant
                i <= queries.len(),
                raws == texts(queries@),
                set.queries@.len() == i,
                forall|j: int|
                    0 <= j < i ==> regex_compiles(
                        prepared_pattern(#[trigger] raws[j], case_insensitive, whole_word),
                    ),
                forall|j: int|
                    0 <= j < i ==> (#[trigger] set.queries@[j])@ == prepared_pattern(
                        queries[j]@,
                        case_insensitive,
                        whole_word,
                    ),
            decreases queries.len() - i,
        {
            let source = prepare_pattern(queries[i].as_str(), case_insensitive, whole_word);
            let compiled = compile_query(source.as_str());
            match query_or_error(source, compiled) {
                Ok(q) => {
                    set.queries.push(q);
                },
                Err(e) => {
                    assert(first_refused(raws, case_insensitive, whole_word, i as int));
                    return Err(e);
                },
            }
            assert(raws[i as int] == queries[i as int]@);
            i = i + 1;
        }
        assert(set@ =~= prepared_patterns(texts(queries@), case_insensitive, whole_word));
        Ok(set)
    }

    /// The number of queries.
    pub fn len(&self) -> (n: usize)
        ensures
            n == self@.len(),
    {
        self.queries.len()
    }

    /// Whether any query has a match somewhere in the text.
    pub fn matches(&self, text: &str) -> (b: bool)
        ensures
            b == any_match(self@, text@),
    {
        let mut i: usize = 0;
        while i < self.queries.len()
            invariant
                i <= self.queries@.len(),
                forall|j: int| 0 <= j < i ==> !regex_matches(#[trigger] self@[j], text@),
            decreases self.queries@.len() - i,
        {
            if query_is_match(&self.queries[i], text) {
                assert(regex_matches(self@[i as int], text@));
                return true;
            }
            i = i + 1;
        }
        false
    }
}

} // verus!
