use vstd::prelude::*;
use vstd::math::min;

verus! {

/// What a case-insensitive `sublime_fuzzy::FuzzySearch` with the
/// `Scoring::emphasize_distance` weights returns for a query and a target:
/// the score and the matched character positions, or nothing.
pub uninterp spec fn best_match_of(query: Seq<char>, target: Seq<char>) -> Option<(int, Seq<usize>)>;

pub open spec fn strictly_increasing(s: Seq<usize>) -> bool {
    forall|i: int, j: int| 0 <= i < j < s.len() ==> s[i] < s[j]
}

/// Relies on `sublime_fuzzy::FuzzySearch::best_match`, case-insensitive, with
/// `Scoring::emphasize_distance` so that contiguous runs outweigh scattered
/// word starts (whitespace in the query is ignored): its score and matched char
/// indices, which ascend, lie in the target, and are never empty; no match for
/// an empty query or target.
#[verifier::external_body]
fn fuzzy_best_match(query: &str, target: &str) -> (r: Option<(isize, Vec<usize>)>)
    ensures
        r matches Some(m) ==> best_match_of(query@, target@) == Some((m.0 as int, m.1@)),
        r is None ==> best_match_of(query@, target@) is None,
        query@.len() == 0 || target@.len() == 0 ==> r is None,
        r matches Some(m) ==> m.1@.len() > 0 && strictly_increasing(m.1@) && forall|k: int|
            0 <= k < m.1@.len() ==> m.1@[k] < target@.len(),
{
    let scoring = sublime_fuzzy::Scoring::emphasize_distance();
    sublime_fuzzy::FuzzySearch::new(query, target)
        .case_insensitive()
        .score_with(&scoring)
        .best_match()
        .map(|m| (m.score(), m.matched_indices().copied().collect()))
}

/// A candidate that matched the query.
#[derive(Clone, Debug, PartialEq, Eq)]
pub struct FilteredEntry {
    pub index: usize,
    pub score: isize,
    pub positions: Vec<usize>,
}

/// The mathematical value of a matched candidate.
pub struct Scored {
    pub index: nat,
    pub score: int,
    pub positions: Seq<usize>,
}

impl View for FilteredEntry {
    type V = Scored;

    open spec fn view(&self) -> Scored {
        Scored { index: self.index as nat, score: self.score as int, positions: self.positions@ }
    }
}

pub open spec fn scored_seq(v: Seq<FilteredEntry>) -> Seq<Scored> {
    v.map_values(|e: FilteredEntry| e@)
}

/// Lexicographic order on position lists; a proper prefix comes first.
pub open spec fn lex_lt(a: Seq<usize>, b: Seq<usize>) -> bool
    decreases a.len(),
{
    if a.len() == 0 {
        b.len() > 0
    } else if b.len() == 0 {
        false
    } else if a[0] != b[0] {
        a[0] < b[0]
    } else {
        lex_lt(a.drop_first(), b.drop_first())
    }
}

/// Rank order of matches: higher score first, then the earlier positions,
/// then the earlier candidate.
pub open spec fn ranks_before(a: Scored, b: Scored) -> bool {
    a.score > b.score || (a.score == b.score && (lex_lt(a.positions, b.positions) || (a.positions
        == b.positions && a.index < b.index)))
}

pub open spec fn sorted_by_rank(s: Seq<Scored>) -> bool {
    forall|i: int, j: int| 0 <= i < j < s.len() ==> ranks_before(s[i], s[j])
}

/// `e` is what the matcher gives for candidate `e.index` of `texts`.
pub open spec fn is_match_of(texts: Seq<String>, query: Seq<char>, e: Scored) -> bool {
    e.index < texts.len() && best_match_of(query, texts[e.index as int]@) == Some(
        (e.score, e.positions),
    )
}

/// The result of a search: every match of the query, each once, in rank order.
pub open spec fn is_search_result(texts: Seq<String>, query: Seq<char>, r: Seq<Scored>) -> bool {
    &&& sorted_by_rank(r)
    &&& forall|e: Scored| #[trigger] r.contains(e) <==> is_match_of(texts, query, e)
}

pub(crate) proof fn lemma_lex_irreflexive(a: Seq<usize>)
    ensures
        !lex_lt(a, a),
    decreases a.len(),
{
    if a.len() > 0 {
        lemma_lex_irreflexive(a.drop_first());
    }
}

pub(crate) proof fn lemma_lex_transitive(a: Seq<usize>, b: Seq<usize>, c: Seq<usize>)
    requires
        lex_lt(a, b),
        lex_lt(b, c),
    ensures
        lex_lt(a, c),
    decreases a.len(),
{
    if a.len() > 0 && b.len() > 0 && c.len() > 0 && a[0] == b[0] && b[0] == c[0] {
        lemma_lex_transitive(a.drop_first(), b.drop_first(), c.drop_first());
    }
}

pub(crate) proof fn lemma_lex_total(a: Seq<usize>, b: Seq<usize>)
    requires
        a != b,
    ensures
        lex_lt(a, b) || lex_lt(b, a),
    decreases a.len(),
{
    if a.len() > 0 && b.len() > 0 && a[0] == b[0] {
        if a.drop_first() == b.drop_first() {
            assert(a =~= seq![a[0]] + a.drop_first());
            assert(b =~= seq![b[0]] + b.drop_first());
        }
        lemma_lex_total(a.drop_first(), b.drop_first());
    } else if a.len() == 0 && b.len() == 0 {
        assert(a =~= b);
    }
}

pub(crate) proof fn lemma_lex_asymmetric(a: Seq<usize>, b: Seq<usize>)
    requires
        lex_lt(a, b),
    ensures
        !lex_lt(b, a),
{
    if lex_lt(b, a) {
        lemma_lex_transitive(a, b, a);
        lemma_lex_irreflexive(a);
    }
}

/// Rank order is a strict total order.
proof fn lemma_rank_order(a: Scored, b: Scored, c: Scored)
    ensures
        !ranks_before(a, a),
        ranks_before(a, b) && ranks_before(b, c) ==> ranks_before(a, c),
        a != b ==> ranks_before(a, b) || ranks_before(b, a),
        ranks_before(a, b) ==> !ranks_before(b, a),
{
    lemma_lex_irreflexive(a.positions);
    if lex_lt(a.positions, b.positions) && lex_lt(b.positions, c.positions) {
        lemma_lex_transitive(a.positions, b.positions, c.positions);
    }
    if a.positions != b.positions {
        lemma_lex_total(a.positions, b.positions);
    }
    if lex_lt(a.positions, b.positions) {
        lemma_lex_asymmetric(a.positions, b.positions);
    }
}

pub(crate) fn positions_less(a: &Vec<usize>, b: &Vec<usize>) -> (r: bool)
    ensures
        r == lex_lt(a@, b@),
{
    let mut i: usize = 0;
    assert(a@.skip(0) =~= a@);
    assert(b@.skip(0) =~= b@);
    while i < a.len() && i < b.len()
        invariant
            i <= a.len(),
            i <= b.len(),
            lex_lt(a@, b@) == lex_lt(a@.skip(i as int), b@.skip(i as int)),
        decreases a.len() - i,
    {
        if a[i] != b[i] {
            return a[i] < b[i];
        }
        assert(a@.skip(i as int).drop_first() =~= a@.skip(i + 1));
        assert(b@.skip(i as int).drop_first() =~= b@.skip(i + 1));
        i += 1;
    }
    i < b.len()
}

/// Whether `a` ranks before `b`.
pub fn ranks_first(a: &FilteredEntry, b: &FilteredEntry) -> (r: bool)
    ensures
        r == ranks_before(a@, b@),
{
    if a.score != b.score {
        return a.score > b.score;
    }
    if positions_less(&a.positions, &b.positions) {
        return true;
    }
    if positions_less(&b.positions, &a.positions) {
        proof {
            lemma_lex_asymmetric(b.positions@, a.positions@);
        }
        return false;
    }
    proof {
        if a.positions@ != b.positions@ {
            lemma_lex_total(a.positions@, b.positions@);
        }
    }
    a.index < b.index
}

/// Every candidate that the matcher matches with `search_string`, in rank
/// order.
pub fn search(entries: &Vec<String>, search_string: &str) -> (r: Vec<FilteredEntry>)
    ensures
        is_search_result(entries@, search_string@, scored_seq(r@)),
{
    let mut v: Vec<FilteredEntry> = Vec::new();
    let mut i: usize = 0;
    while i < entries.len()
        invariant
            i <= entries.len(),
            sorted_by_rank(scored_seq(v@)),
            forall|e: Scored| #[trigger]
                scored_seq(v@).contains(e) <==> (e.index < i && is_match_of(entries@, search_string@, e)),
        decreases entries.len() - i,
    {
        let m = fuzzy_best_match(search_string, entries[i].as_str());
        if let Some((score, positions)) = m {
            let e = FilteredEntry { index: i, score, positions };
            let ghost old_v = scored_seq(v@);
            let mut p: usize = 0;
            while p < v.len() && ranks_first(&v[p], &e)
                invariant
                    p <= v.len(),
                    old_v == scored_seq(v@),
                    forall|k: int| 0 <= k < p ==> ranks_before(old_v[k], e@),
                decreases v.len() - p,
            {
                p += 1;
            }
            proof {
                assert forall|k: int| p <= k < old_v.len() implies ranks_before(e@, old_v[k]) by {
                    assert(old_v.contains(old_v[p as int]));
                    assert(old_v.contains(old_v[k]));
                    lemma_rank_order(old_v[p as int], e@, old_v[k]);
                    lemma_rank_order(e@, old_v[p as int], old_v[k]);
                }
            }
            v.insert(p, e);
            proof {
                let new_v = scored_seq(v@);
                assert(new_v =~= old_v.insert(p as int, e@));
                assert forall|x: Scored| #[trigger] new_v.contains(x) <==> (x.index < i + 1
                    && is_match_of(entries@, search_string@, x)) by {
                    if new_v.contains(x) {
                        let k = choose|k: int| 0 <= k < new_v.len() && new_v[k] == x;
                        if k < p {
                            assert(old_v.contains(old_v[k]));
                        } else if k > p {
                            assert(old_v.contains(old_v[k - 1]));
                        }
                    }
                    if x.index < i + 1 && is_match_of(entries@, search_string@, x) {
                        if x.index < i {
                            assert(old_v.contains(x));
                            let k = choose|k: int| 0 <= k < old_v.len() && old_v[k] == x;
                            if k < p {
                                assert(new_v[k] == x);
                            } else {
                                assert(new_v[k + 1] == x);
                            }
                        } else {
                            assert(new_v[p as int] == x);
                        }
                    }
                }
            }
        } else {
            proof {
                assert forall|x: Scored| #[trigger] scored_seq(v@).contains(x) <==> (x.index < i + 1
                    && is_match_of(entries@, search_string@, x)) by {
                    if x.index == i && is_match_of(entries@, search_string@, x) {
                        assert(false);
                    }
                }
            }
        }
        i += 1;
    }
    v
}

/// Two search results for the same candidates and query are the same
/// sequence: searching is deterministic.
pub proof fn lemma_search_is_deterministic(
    texts: Seq<String>,
    query: Seq<char>,
    r1: Seq<Scored>,
    r2: Seq<Scored>,
)
    requires
        is_search_result(texts, query, r1),
        is_search_result(texts, query, r2),
    ensures
        r1 == r2,
{
    lemma_sorted_same_elements(r1, r2);
}

proof fn lemma_sorted_same_elements(r1: Seq<Scored>, r2: Seq<Scored>)
    requires
        sorted_by_rank(r1),
        sorted_by_rank(r2),
        forall|e: Scored|
            #![trigger r1.contains(e)]
            #![trigger r2.contains(e)]
            r1.contains(e) <==> r2.contains(e),
    ensures
        r1 == r2,
    decreases r1.len(),
{
    if r1.len() == 0 {
        if r2.len() > 0 {
            assert(r2.contains(r2[0]));
            assert(r1.contains(r2[0]));
        }
        assert(r1 =~= r2);
    } else {
        assert(r1.contains(r1[0]));
        if r2.len() == 0 {
            assert(false);
        }
        assert(r2.contains(r2[0]));
        assert(r2.contains(r1[0]));
        assert(r1.contains(r2[0]));
        let j = choose|j: int| 0 <= j < r2.len() && r2[j] == r1[0];
        let k = choose|k: int| 0 <= k < r1.len() && r1[k] == r2[0];
        if j > 0 {
            assert(ranks_before(r2[0], r2[j]));
            if k == 0 {
                lemma_rank_order(r2[0], r2[0], r2[0]);
            } else {
                assert(ranks_before(r1[0], r1[k]));
                lemma_rank_order(r1[0], r2[0], r1[0]);
            }
        }
        assert(r1[0] == r2[0]);
        let t1 = r1.drop_first();
        let t2 = r2.drop_first();
        assert forall|e: Scored|
            #![trigger t1.contains(e)]
            #![trigger t2.contains(e)]
            t1.contains(e) <==> t2.contains(e) by {
            if t1.contains(e) {
                let i = choose|i: int| 0 <= i < t1.len() && t1[i] == e;
                assert(r1[i + 1] == e);
                assert(r1.contains(e));
                assert(r2.contains(e));
                assert(ranks_before(r1[0], e));
                lemma_rank_order(e, e, e);
                let m = choose|m: int| 0 <= m < r2.len() && r2[m] == e;
                assert(m != 0);
                assert(t2[m - 1] == e);
            }
            if t2.contains(e) {
                let i = choose|i: int| 0 <= i < t2.len() && t2[i] == e;
                assert(r2[i + 1] == e);
                assert(r2.contains(e));
                assert(r1.contains(e));
                assert(ranks_before(r2[0], e));
                lemma_rank_order(e, e, e);
                let m = choose|m: int| 0 <= m < r1.len() && r1[m] == e;
                assert(m != 0);
                assert(t1[m - 1] == e);
            }
        }
        lemma_sorted_same_elements(t1, t2);
        assert(r1 =~= seq![r1[0]] + t1);
        assert(r2 =~= seq![r2[0]] + t2);
    }
}

/// With an empty query the filtered view lists every candidate, each at its
/// own position.
pub proof fn lemma_empty_query_keeps_all(texts: Seq<String>, r: FilteredLines)
    requires
        texts.len() <= usize::MAX,
        FilteredLines::is_filter_result(texts, Seq::empty(), r),
    ensures
        r.spec_len() == texts.len(),
        forall|i: int| 0 <= i < texts.len() ==> r.spec_index(i) == i,
{
}

/// A candidate for which the matcher finds no match is not in the result.
pub proof fn lemma_unmatched_excluded(
    texts: Seq<String>,
    query: Seq<char>,
    r: Seq<Scored>,
    candidate: nat,
)
    requires
        is_search_result(texts, query, r),
        candidate < texts.len(),
        best_match_of(query, texts[candidate as int]@) is None,
    ensures
        forall|k: int| 0 <= k < r.len() ==> r[k].index != candidate,
{
    assert forall|k: int| 0 <= k < r.len() implies r[k].index != candidate by {
        assert(r.contains(r[k]));
    }
}

/// A run of consecutive matched positions.
#[derive(Clone, Copy, Debug, PartialEq, Eq)]
pub struct ContinuousMatch {
    pub start: usize,
    pub len: usize,
}

/// Matched positions grouped into runs of consecutive positions, as
/// `(start, length)` pairs.
pub open spec fn runs_of(p: Seq<usize>) -> Seq<(int, int)>
    decreases p.len(),
{
    if p.len() == 0 {
        seq![]
    } else {
        let r = runs_of(p.drop_last());
        let x = p.last() as int;
        if r.len() > 0 && r.last().0 + r.last().1 == x {
            r.update(r.len() - 1, (r.last().0, r.last().1 + 1))
        } else {
            r.push((x, 1))
        }
    }
}

pub open spec fn runs_view(r: Seq<ContinuousMatch>) -> Seq<(int, int)> {
    r.map_values(|c: ContinuousMatch| (c.start as int, c.len as int))
}

/// Groups matched positions into runs, for highlighting.
pub fn continuous_matches(positions: &Vec<usize>) -> (r: Vec<ContinuousMatch>)
    ensures
        runs_view(r@) == runs_of(positions@),
{
    let mut r: Vec<ContinuousMatch> = Vec::new();
    let mut i: usize = 0;
    assert(positions@.take(0) =~= seq![]);
    while i < positions.len()
        invariant
            i <= positions.len(),
            runs_view(r@) == runs_of(positions@.take(i as int)),
            forall|k: int| 0 <= k < r@.len() ==> r@[k].len <= i,
        decreases positions.len() - i,
    {
        let x = positions[i];
        let ghost pre = positions@.take(i as int);
        assert(positions@.take(i + 1).drop_last() =~= pre);
        let n = r.len();
        if n > 0 && x >= r[n - 1].start && x - r[n - 1].start == r[n - 1].len {
            let last = r[n - 1];
            r.set(n - 1, ContinuousMatch { start: last.start, len: last.len + 1 });
        } else {
            r.push(ContinuousMatch { start: x, len: 1 });
        }
        assert(runs_view(r@) =~= runs_of(positions@.take(i + 1)));
        i += 1;
    }
    assert(positions@.take(positions.len() as int) =~= positions@);
    r
}

/// The filtered view of the candidates: the matches of a search in rank
/// order, or all candidates in their own order.
#[derive(Clone, Debug)]
pub enum FilteredLines {
    Searched(Vec<FilteredEntry>),
    Unfiltered(usize),
}

/// One visible row: the candidate it shows, the sub-action shown for it, and
/// the matched runs of its name when a search is active.
#[derive(Clone, Debug, PartialEq, Eq)]
pub struct ListItem {
    pub index: usize,
    pub subindex: usize,
    pub match_mask: Option<Vec<ContinuousMatch>>,
}

impl FilteredLines {
    pub open spec fn spec_len(&self) -> nat {
        match self {
            FilteredLines::Searched(v) => v@.len(),
            FilteredLines::Unfiltered(n) => *n as nat,
        }
    }

    /// Candidate shown at position `i` of the filtered view.
    pub open spec fn spec_index(&self, i: int) -> int {
        match self {
            FilteredLines::Searched(v) => v@[i].index as int,
            FilteredLines::Unfiltered(_) => i,
        }
    }

    /// The matches of `search_string` among `entries`.
    pub fn searched(entries: &Vec<String>, search_string: &str) -> (r: Self)
        ensures
            r matches FilteredLines::Searched(v) && is_search_result(
                entries@,
                search_string@,
                scored_seq(v@),
            ),
    {
        FilteredLines::Searched(search(entries, search_string))
    }

    /// All `len` candidates, unfiltered.
    pub fn unfiltred(len: usize) -> (r: Self)
        ensures
            r == FilteredLines::Unfiltered(len),
            r.spec_len() == len,
            forall|i: int| 0 <= i < len ==> r.spec_index(i) == i,
    {
        FilteredLines::Unfiltered(len)
    }

    /// `r` is the filtered view of `texts` for `query`.
    pub open spec fn is_filter_result(texts: Seq<String>, query: Seq<char>, r: FilteredLines) -> bool {
        if query.len() == 0 {
            r == FilteredLines::Unfiltered(texts.len() as usize)
        } else {
            r matches FilteredLines::Searched(v) && is_search_result(texts, query, scored_seq(v@))
        }
    }

    /// Filters `entries` by `search_string`; an empty query leaves every
    /// candidate in its place.
    pub fn filter(entries: &Vec<String>, search_string: &str) -> (r: Self)
        ensures
            Self::is_filter_result(entries@, search_string@, r),
            search_string@.len() == 0 ==> r == FilteredLines::Unfiltered(entries.len()),
            search_string@.len() == 0 ==> r.spec_len() == entries.len() && forall|i: int|
                0 <= i < entries.len() ==> r.spec_index(i) == i,
            search_string@.len() > 0 ==> (r matches FilteredLines::Searched(v) && is_search_result(
                entries@,
                search_string@,
                scored_seq(v@),
            )),
    {
        if search_string.is_empty() {
            FilteredLines::unfiltred(entries.len())
        } else {
            FilteredLines::searched(entries, search_string)
        }
    }

    pub fn len(&self) -> (r: usize)
        ensures
            r == self.spec_len(),
    {
        match self {
            FilteredLines::Searched(v) => v.len(),
            FilteredLines::Unfiltered(n) => *n,
        }
    }

    /// The candidate at position `selected_item` of the filtered view, or
    /// nothing when the view is empty.
    pub fn index(&self, selected_item: usize) -> (r: Option<usize>)
        requires
            self.spec_len() == 0 || selected_item < self.spec_len(),
        ensures
            self.spec_len() == 0 ==> r is None,
            self.spec_len() > 0 ==> r == Some(self.spec_index(selected_item as int) as usize),
    {
        match self {
            FilteredLines::Searched(v) => {
                if v.len() == 0 {
                    None
                } else {
                    Some(v[selected_item].index)
                }
            },
            FilteredLines::Unfiltered(n) => {
                if *n == 0 {
                    None
                } else {
                    Some(selected_item)
                }
            },
        }
    }

    /// The rows from position `skip` on, at most `count` of them; the row at
    /// position `item` shows sub-action `subitem`, the others their main one.
    pub fn list_items(&self, skip: usize, count: usize, item: usize, subitem: usize) -> (r: Vec<
        ListItem,
    >)
        ensures
            r@.len() == if skip >= self.spec_len() {
                0
            } else {
                min(count as int, self.spec_len() - skip)
            },
            forall|k: int|
                0 <= k < r@.len() ==> {
                    &&& r@[k].index == self.spec_index(skip + k)
                    &&& r@[k].subindex == if skip + k == item {
                        subitem
                    } else {
                        0
                    }
                    &&& match self {
                        FilteredLines::Searched(v) => r@[k].match_mask matches Some(m) && runs_view(
                            m@,
                        ) == runs_of(v@[skip + k].positions@),
                        FilteredLines::Unfiltered(_) => r@[k].match_mask is None,
                    }
                },
    {
        let len = self.len();
        let end = if skip >= len {
            skip
        } else if count < len - skip {
            skip + count
        } else {
            len
        };
        let mut r: Vec<ListItem> = Vec::new();
        let mut pos = skip;
        while pos < end
            invariant
                skip <= pos <= end,
                end == skip || end <= len,
                len == self.spec_len(),
                r@.len() == pos - skip,
                forall|k: int|
                    0 <= k < r@.len() ==> {
                        &&& r@[k].index == self.spec_index(skip + k)
                        &&& r@[k].subindex == if skip + k == item {
                            subitem
                        } else {
                            0
                        }
                        &&& match self {
                            FilteredLines::Searched(v) => r@[k].match_mask matches Some(m)
                                && runs_view(m@) == runs_of(v@[skip + k].positions@),
                            FilteredLines::Unfiltered(_) => r@[k].match_mask is None,
                        }
                    },
            decreases end - pos,
        {
            let sub = if pos == item {
                subitem
            } else {
                0
            };
            let row = match self {
                FilteredLines::Searched(v) => ListItem {
                    index: v[pos].index,
                    subindex: sub,
                    match_mask: Some(continuous_matches(&v[pos].positions)),
                },
                FilteredLines::Unfiltered(_) => ListItem { index: pos, subindex: sub, match_mask: None },
            };
            r.push(row);
            pos += 1;
        }
        r
    }
}

} // verus!
