//! Ranked fuzzy search over directory names. The filesystem walk is the
//! caller's; it hands each directory it reaches to a `SearchRun`, which
//! scores it, says when enough candidates are gathered, and ranks them.

use vstd::prelude::*;
use fuzzy_matcher::FuzzyMatcher;
use crate::order::{is_ranked, sort_ranked};
use crate::records::SearchResult;
use crate::store::CoreError;
use crate::text::{is_blank, trim};

verus! {

/// How many candidates, as a multiple of the result limit, a search gathers
/// before it stops looking.
pub const CANDIDATE_FACTOR: usize = 2;

/// What the skim matcher of `fuzzy_matcher` scores a name against a query;
/// `None` where the query is no fuzzy match of the name.
pub uninterp spec fn skim_score(name: Seq<char>, query: Seq<char>) -> Option<i64>;

/// Relies on `fuzzy_matcher::skim::SkimMatcherV2::default` and
/// `FuzzyMatcher::fuzzy_match`: the score of the name against the query,
/// which depends on the two strings alone.
#[verifier::external_body]
fn fuzzy_score(name: &str, query: &str) -> (r: Option<i64>)
    ensures
        r == skim_score(name@, query@),
{
    fuzzy_matcher::skim::SkimMatcherV2::default().fuzzy_match(name, query)
}

/// A directory reached by the walk.
#[derive(Clone, Debug, PartialEq, Eq)]
pub struct Candidate {
    pub path: String,
    pub name: String,
}

/// The result limit, taken as at least one.
pub open spec fn effective_limit(limit: usize) -> nat {
    if limit == 0 {
        1
    } else {
        limit as nat
    }
}

/// How many scored candidates are gathered: `factor` times the limit, or
/// `usize::MAX` where that does not fit.
pub open spec fn candidate_cap(limit: usize, factor: usize) -> nat {
    let n = effective_limit(limit) * factor;
    if n > usize::MAX {
        usize::MAX as nat
    } else {
        n as nat
    }
}

/// The result for a candidate that the query matches.
pub open spec fn scored(c: Candidate, query: Seq<char>) -> Option<SearchResult> {
    match skim_score(c.name@, query) {
        Some(s) => Some(SearchResult { path: c.path, name: c.name, score: s }),
        None => None,
    }
}

/// The results gathered from the candidates in walk order: each matching
/// candidate is kept until `cap` of them are.
pub open spec fn gathered(cands: Seq<Candidate>, query: Seq<char>, cap: nat) -> Seq<SearchResult>
    decreases cands.len(),
{
    if cands.len() == 0 {
        Seq::empty()
    } else {
        let g = gathered(cands.drop_last(), query, cap);
        if g.len() >= cap {
            g
        } else {
            match scored(cands.last(), query) {
                Some(r) => g.push(r),
                None => g,
            }
        }
    }
}

/// `best` is the first `n` results, or all where fewer, of a ranking of
/// `all`.
pub open spec fn best_of(all: Seq<SearchResult>, n: nat, best: Seq<SearchResult>) -> bool {
    exists|s: Seq<SearchResult>|
        #[trigger] is_ranked(s) && s.to_multiset() == all.to_multiset() && best == if s.len() <= n {
            s
        } else {
            s.take(n as int)
        }
}

/// A search in progress.
pub struct SearchRun {
    query: String,
    limit: usize,
    cap: usize,
    found: Vec<SearchResult>,
}

impl SearchRun {
    /// The query the candidates are scored against.
    pub closed spec fn query_view(&self) -> Seq<char> {
        self.query@
    }

    /// The results gathered so far, in walk order.
    pub closed spec fn found_view(&self) -> Seq<SearchResult> {
        self.found@
    }

    /// How many results are gathered before the search stops looking.
    pub closed spec fn cap_view(&self) -> nat {
        self.cap as nat
    }

    /// The result limit, at least one.
    pub closed spec fn limit_view(&self) -> nat {
        self.limit as nat
    }

    /// Starts a search; a query that is blank is refused.
    pub fn new(query: &str, limit: usize, factor: usize) -> (r: Result<SearchRun, CoreError>)
        ensures
            r is Err <==> is_blank(query@),
            r is Err ==> r == Err::<SearchRun, CoreError>(CoreError::EmptyQuery),
            r matches Ok(run) ==> {
                &&& run.query_view() == query@
                &&& run.found_view().len() == 0
                &&& run.cap_view() == candidate_cap(limit, factor)
                &&& run.limit_view() == effective_limit(limit)
            },
    {
        if trim(query).unicode_len() == 0 {
            return Err(CoreError::EmptyQuery);
        }
        let lim: usize = if limit == 0 {
            1
        } else {
            limit
        };
        let cap: usize = if factor != 0 && lim > usize::MAX / factor {
            proof {
                assert(lim * factor > usize::MAX) by (nonlinear_arith)
                    requires
                        factor > 0,
                        lim > usize::MAX / factor,
                ;
            }
            usize::MAX
        } else {
            proof {
                assert(lim * factor <= usize::MAX) by (nonlinear_arith)
                    requires
                        factor == 0 || lim <= usize::MAX / factor,
                ;
            }
            lim * factor
        };
        Ok(SearchRun { query: query.to_owned(), limit: lim, cap, found: Vec::new() })
    }

    /// Whether fewer results than the cap are gathered, so that the walk
    /// should go on.
    pub fn wants_more(&self) -> (r: bool)
        ensures
            r == (self.found_view().len() < self.cap_view()),
    {
        self.found.len() < self.cap
    }

    /// Scores a directory the walk reached; it is kept where the query
    /// matches its name and the cap is not reached.
    pub fn offer(&mut self, cand: Candidate)
        ensures
            final(self).query_view() == old(self).query_view(),
            final(self).cap_view() == old(self).cap_view(),
            final(self).limit_view() == old(self).limit_view(),
            final(self).found_view() == if old(self).found_view().len() >= old(self).cap_view() {
                old(self).found_view()
            } else {
                match scored(cand, old(self).query_view()) {
                    Some(r) => old(self).found_view().push(r),
                    None => old(self).found_view(),
                }
            },
    {
        if self.found.len() >= self.cap {
            return;
        }
        match fuzzy_score(cand.name.as_str(), self.query.as_str()) {
            Some(score) => {
                self.found.push(SearchResult { path: cand.path, name: cand.name, score });
            },
            None => {},
        }
    }

    /// The gathered results ranked by score, highest first, then by name,
    /// and cut to the limit.
    pub fn finish(self) -> (r: Vec<SearchResult>)
        ensures
            best_of(self.found_view(), self.limit_view(), r@),
    {
        let mut ranked = sort_ranked(self.found);
        let ghost full = ranked@;
        proof {
            broadcast use vstd::seq_lib::group_to_multiset_ensures;

            assert(full.len() == full.to_multiset().len());
        }
        let total = ranked.len();
        ranked.truncate(self.limit);
        if total > self.limit {
            assert(ranked@ =~= full.take(self.limit as int));
        } else {
            assert(ranked@ =~= full);
        }
        ranked
    }
}

/// Searches the candidates, in walk order, for directories whose name the
/// query fuzzily matches, as a `SearchRun` with `CANDIDATE_FACTOR` does. A
/// blank query is refused; no match gives an empty list.
pub fn search(cands: Vec<Candidate>, query: &str, limit: usize) -> (r: Result<
    Vec<SearchResult>,
    CoreError,
>)
    ensures
        r is Err <==> is_blank(query@),
        r is Err ==> r == Err::<Vec<SearchResult>, CoreError>(CoreError::EmptyQuery),
        r matches Ok(found) ==> best_of(
            gathered(cands@, query@, candidate_cap(limit, CANDIDATE_FACTOR)),
            effective_limit(limit),
            found@,
        ),
{
    let mut run = match SearchRun::new(query, limit, CANDIDATE_FACTOR) {
        Ok(run) => run,
        Err(e) => return Err(e),
    };
    let ghost cap = candidate_cap(limit, CANDIDATE_FACTOR);
    let mut i: usize = 0;
    while i < cands.len()
        invariant
            i <= cands@.len(),
            run.query_view() == query@,
            run.cap_view() == cap,
            run.limit_view() == effective_limit(limit),
            run.found_view() == gathered(cands@.take(i as int), query@, cap),
        decreases cands@.len() - i,
    {
        let cand = Candidate { path: cands[i].path.clone(), name: cands[i].name.clone() };
        assert(cand == cands@[i as int]);
        assert(cands@.take(i + 1).drop_last() =~= cands@.take(i as int));
        assert(cands@.take(i + 1).last() == cands@[i as int]);
        run.offer(cand);
        i = i + 1;
    }
    assert(cands@.take(cands@.len() as int) =~= cands@);
    Ok(run.finish())
}

} // verus!
