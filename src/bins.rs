use vstd::prelude::*;

use crate::exec::{command, command_matches, command_spec, strings_view, Command, ExecError};
use crate::filtered_lines::{
    lemma_lex_asymmetric, lemma_lex_irreflexive, lemma_lex_total, lemma_lex_transitive, lex_lt,
    positions_less,
};
use crate::mode::{clone_strings, EvalInfo};
use crate::text::{chars_of, string_of};
use crate::usage_cache::Usage;

verus! {

/// An executable file found on the search path.
#[derive(Clone, Debug, PartialEq, Eq)]
pub struct Binary {
    pub path: String,
    pub fname: String,
}

/// Character codes of a string, for ordering.
pub open spec fn codes(s: Seq<char>) -> Seq<usize> {
    s.map_values(|c: char| c as usize)
}

/// Binary `a` is listed before `b`: launched more often, or as often and its
/// path sorts first.
pub open spec fn bin_before(bins: Seq<Binary>, usage: Usage, a: int, b: int) -> bool {
    let ca = usage.count(bins[a].path@);
    let cb = usage.count(bins[b].path@);
    ca > cb || (ca == cb && lex_lt(codes(bins[a].path@), codes(bins[b].path@)))
}

/// `order` lists one binary of each path, most used first, then by path;
/// paths are compared by their character codes.
pub open spec fn is_bin_order(bins: Seq<Binary>, usage: Usage, order: Seq<usize>) -> bool {
    &&& forall|k: int| 0 <= k < order.len() ==> #[trigger] order[k] < bins.len()
    &&& bins_sorted(bins, usage, order)
    &&& covers(bins, order, bins.len() as int)
}

proof fn lemma_bin_order(bins: Seq<Binary>, usage: Usage, a: int, b: int, c: int)
    ensures
        bin_before(bins, usage, a, b) && bin_before(bins, usage, b, c) ==> bin_before(
            bins,
            usage,
            a,
            c,
        ),
        bin_before(bins, usage, a, b) ==> !bin_before(bins, usage, b, a),
        codes(bins[a].path@) != codes(bins[b].path@) ==> bin_before(bins, usage, a, b) || bin_before(
            bins,
            usage,
            b,
            a,
        ) || usage.count(bins[a].path@) != usage.count(bins[b].path@),
        codes(bins[a].path@) == codes(bins[b].path@) && usage.count(bins[a].path@) == usage.count(
            bins[b].path@,
        ) ==> !bin_before(bins, usage, a, b),
{
    let (pa, pb, pc) = (codes(bins[a].path@), codes(bins[b].path@), codes(bins[c].path@));
    if lex_lt(pa, pb) && lex_lt(pb, pc) {
        lemma_lex_transitive(pa, pb, pc);
    }
    if lex_lt(pa, pb) {
        lemma_lex_asymmetric(pa, pb);
    }
    if pa != pb {
        lemma_lex_total(pa, pb);
    } else {
        lemma_lex_irreflexive(pa);
    }
}

fn char_codes(s: &String) -> (r: Vec<usize>)
    ensures
        r@ == codes(s@),
{
    let c = chars_of(s.as_str());
    let mut r: Vec<usize> = Vec::new();
    let mut i: usize = 0;
    while i < c.len()
        invariant
            i <= c@.len(),
            c@ == s@,
            r@ == codes(s@).take(i as int),
        decreases c.len() - i,
    {
        r.push(c[i] as usize);
        assert(r@ =~= codes(s@).take(i + 1));
        i += 1;
    }
    assert(codes(s@).take(c@.len() as int) =~= codes(s@));
    r
}

pub open spec fn bins_sorted(bins: Seq<Binary>, usage: Usage, v: Seq<usize>) -> bool {
    forall|a: int, b: int| 0 <= a < b < v.len() ==> bin_before(bins, usage, v[a] as int, v[b] as int)
}

/// Binaries `a` and `x` have the same path.
pub open spec fn same_path(bins: Seq<Binary>, a: usize, x: int) -> bool {
    codes(bins[a as int].path@) == codes(bins[x].path@)
}

/// The path of binary `x` is in `v`.
pub open spec fn covered(bins: Seq<Binary>, v: Seq<usize>, x: int) -> bool {
    exists|k: int| 0 <= k < v.len() && #[trigger] same_path(bins, v[k], x)
}

/// Each of the first `n` binaries has its path in `v`.
pub open spec fn covers(bins: Seq<Binary>, v: Seq<usize>, n: int) -> bool {
    forall|x: int| 0 <= x < n ==> #[trigger] covered(bins, v, x)
}

pub open spec fn keys_ok(bins: Seq<Binary>, usage: Usage, counts: Seq<usize>, keys: Seq<Vec<usize>>) -> bool {
    &&& counts.len() == bins.len()
    &&& keys.len() == bins.len()
    &&& forall|k: int| 0 <= k < bins.len() ==> #[trigger] counts[k] == usage.count(bins[k].path@)
    &&& forall|k: int| 0 <= k < bins.len() ==> #[trigger] keys[k]@ == codes(bins[k].path@)
}

proof fn lemma_insert_sorted(bins: Seq<Binary>, usage: Usage, v: Seq<usize>, p: int, i: usize)
    requires
        0 <= p <= v.len(),
        bins_sorted(bins, usage, v),
        forall|k: int| 0 <= k < p ==> bin_before(bins, usage, v[k] as int, i as int),
        p < v.len() ==> bin_before(bins, usage, i as int, v[p] as int),
    ensures
        bins_sorted(bins, usage, v.insert(p, i)),
{
    let w = v.insert(p, i);
    assert forall|a: int, b: int| 0 <= a < b < w.len() implies bin_before(
        bins,
        usage,
        w[a] as int,
        w[b] as int,
    ) by {
        if a < p && b == p {
        } else if a == p && b > p {
            if b > p + 1 {
                lemma_bin_order(bins, usage, i as int, v[p] as int, v[b - 1] as int);
            }
        } else if a < p && b > p {
        } else if b < p {
        } else {
        }
    }
}

proof fn lemma_insert_covers(bins: Seq<Binary>, v: Seq<usize>, p: int, i: usize)
    requires
        0 <= p <= v.len(),
        i < bins.len(),
        covers(bins, v, i as int),
    ensures
        covers(bins, v.insert(p, i), i + 1),
{
    let w = v.insert(p, i);
    assert forall|x: int| 0 <= x < i + 1 implies #[trigger] covered(bins, w, x) by {
        if x < i {
            assert(covered(bins, v, x));
            let k = choose|k: int| 0 <= k < v.len() && #[trigger] same_path(bins, v[k], x);
            if k < p {
                assert(w[k] == v[k]);
                assert(same_path(bins, w[k], x));
            } else {
                assert(w[k + 1] == v[k]);
                assert(same_path(bins, w[k + 1], x));
            }
        } else {
            assert(w[p] == i);
            assert(same_path(bins, w[p], x));
        }
    }
}

fn bin_slot(
    bins: &Vec<Binary>,
    usage: &Usage,
    counts: &Vec<usize>,
    keys: &Vec<Vec<usize>>,
    v: &Vec<usize>,
    i: usize,
) -> (p: usize)
    requires
        i < bins@.len(),
        keys_ok(bins@, *usage, counts@, keys@),
        forall|k: int| 0 <= k < v@.len() ==> #[trigger] v@[k] < i,
    ensures
        p <= v@.len(),
        forall|k: int| 0 <= k < p ==> bin_before(bins@, *usage, v@[k] as int, i as int),
        p < v@.len() ==> !bin_before(bins@, *usage, v@[p as int] as int, i as int),
{
    let mut p: usize = 0;
    while p < v.len()
        invariant
            p <= v@.len(),
            i < bins@.len(),
            keys_ok(bins@, *usage, counts@, keys@),
            forall|k: int| 0 <= k < v@.len() ==> #[trigger] v@[k] < i,
            forall|k: int| 0 <= k < p ==> bin_before(bins@, *usage, v@[k] as int, i as int),
        decreases v.len() - p,
    {
        let q = v[p];
        let before = counts[q] > counts[i] || (counts[q] == counts[i] && positions_less(&keys[q], &keys[i]));
        if !before {
            return p;
        }
        p += 1;
    }
    p
}

fn insert_bin(
    bins: &Vec<Binary>,
    usage: &Usage,
    counts: &Vec<usize>,
    keys: &Vec<Vec<usize>>,
    v: &mut Vec<usize>,
    i: usize,
)
    requires
        i < bins@.len(),
        keys_ok(bins@, *usage, counts@, keys@),
        forall|k: int| 0 <= k < old(v)@.len() ==> #[trigger] old(v)@[k] < i,
        bins_sorted(bins@, *usage, old(v)@),
        covers(bins@, old(v)@, i as int),
    ensures
        forall|k: int| 0 <= k < final(v)@.len() ==> #[trigger] final(v)@[k] < i + 1,
        bins_sorted(bins@, *usage, final(v)@),
        covers(bins@, final(v)@, i + 1),
{
    let p = bin_slot(bins, usage, counts, keys, v, i);
    if p < v.len() && counts[v[p]] == counts[i] && !positions_less(&keys[i], &keys[v[p]]) {
        proof {
            let q = v@[p as int] as int;
            if codes(bins@[q].path@) != codes(bins@[i as int].path@) {
                lemma_lex_total(codes(bins@[q].path@), codes(bins@[i as int].path@));
            }
            assert(covers(bins@, v@, i + 1)) by {
                assert forall|x: int| 0 <= x < i + 1 implies #[trigger] covered(bins@, v@, x) by {
                    if x == i {
                        assert(same_path(bins@, v@[p as int], x));
                    }
                }
            }
        }
    } else {
        let ghost old_v = v@;
        proof {
            if p < old_v.len() {
                let q = old_v[p as int] as int;
                if counts@[q] == counts@[i as int] {
                    assert(lex_lt(codes(bins@[i as int].path@), codes(bins@[q].path@)));
                }
            }
            lemma_insert_sorted(bins@, *usage, old_v, p as int, i);
            lemma_insert_covers(bins@, old_v, p as int, i);
        }
        v.insert(p, i);
        assert(v@ == old_v.insert(p as int, i));
    }
}

/// Orders the binaries by usage, then by path, one of each path.
pub fn bin_order(bins: &Vec<Binary>, usage: &Usage) -> (r: Vec<usize>)
    requires
        usage.wf(),
    ensures
        is_bin_order(bins@, *usage, r@),
{
    let mut counts: Vec<usize> = Vec::new();
    let mut keys: Vec<Vec<usize>> = Vec::new();
    let mut i: usize = 0;
    while i < bins.len()
        invariant
            i <= bins@.len(),
            usage.wf(),
            counts@.len() == i,
            keys@.len() == i,
            forall|k: int| 0 <= k < i ==> #[trigger] counts@[k] == usage.count(bins@[k].path@),
            forall|k: int| 0 <= k < i ==> #[trigger] keys@[k]@ == codes(bins@[k].path@),
        decreases bins.len() - i,
    {
        counts.push(usage.entry_count(bins[i].path.as_str()));
        keys.push(char_codes(&bins[i].path));
        i += 1;
    }
    let mut v: Vec<usize> = Vec::new();
    i = 0;
    while i < bins.len()
        invariant
            i <= bins@.len(),
            keys_ok(bins@, *usage, counts@, keys@),
            forall|k: int| 0 <= k < v@.len() ==> #[trigger] v@[k] < i,
            bins_sorted(bins@, *usage, v@),
            covers(bins@, v@, i as int),
        decreases bins.len() - i,
    {
        insert_bin(bins, usage, &counts, &keys, &mut v, i);
        i += 1;
    }
    v
}


/// How many of `fs` equal `f`.
pub open spec fn count_equal(fs: Seq<Seq<char>>, f: Seq<char>) -> nat
    decreases fs.len(),
{
    if fs.len() == 0 {
        0
    } else {
        count_equal(fs.drop_last(), f) + if fs.last() == f {
            1nat
        } else {
            0nat
        }
    }
}

/// The name shown for `b`: its file name, followed by its path when another
/// listed binary has the same file name.
pub open spec fn display_name(b: Binary, shared: bool) -> Seq<char> {
    if shared {
        b.fname@ + seq![' ', '('] + b.path@ + seq![')']
    } else {
        b.fname@
    }
}

fn count_fname(texts: &Vec<String>, f: &String) -> (r: usize)
    ensures
        r == count_equal(strings_view(texts@), f@),
{
    let mut n: usize = 0;
    let mut i: usize = 0;
    while i < texts.len()
        invariant
            i <= texts@.len(),
            n == count_equal(strings_view(texts@).take(i as int), f@),
            n <= i,
        decreases texts.len() - i,
    {
        assert(strings_view(texts@).take(i + 1).drop_last() =~= strings_view(texts@).take(i as int));
        if texts[i] == *f {
            n += 1;
        }
        i += 1;
    }
    assert(strings_view(texts@).take(texts@.len() as int) =~= strings_view(texts@));
    n
}

fn name_of(b: &Binary, shared: bool) -> (r: String)
    ensures
        r@ == display_name(*b, shared),
{
    if shared {
        let mut v = chars_of(b.fname.as_str());
        v.push(' ');
        v.push('(');
        let mut p = chars_of(b.path.as_str());
        v.append(&mut p);
        v.push(')');
        assert(v@ =~= display_name(*b, shared));
        string_of(v.as_slice())
    } else {
        b.fname.clone()
    }
}

/// Executables on the search path, the most used first.
pub struct BinsMode {
    bins: Vec<Binary>,
    order: Vec<usize>,
    texts: Vec<String>,
    names: Vec<String>,
    term: Vec<String>,
    usage: Usage,
}

impl BinsMode {
    pub closed spec fn wf(&self) -> bool {
        &&& self.usage.wf()
        &&& self.texts@.len() == self.order@.len()
        &&& self.names@.len() == self.order@.len()
        &&& forall|i: int| 0 <= i < self.order@.len() ==> #[trigger] self.order@[i] < self.bins@.len()
        &&& forall|i: int| 0 <= i < self.order@.len() ==> #[trigger] self.texts@[i] == self.shown(i).fname
        &&& forall|i: int|
            0 <= i < self.order@.len() ==> #[trigger] self.names@[i]@ == display_name(
                self.shown(i),
                count_equal(strings_view(self.texts@), self.shown(i).fname@) > 1,
            )
    }

    /// The binary shown at position `i`.
    pub closed spec fn shown(&self, i: int) -> Binary {
        self.bins@[self.order@[i] as int]
    }

    pub closed spec fn spec_len(&self) -> nat {
        self.order@.len()
    }

    pub closed spec fn spec_texts(&self) -> Seq<String> {
        self.texts@
    }

    pub closed spec fn spec_names(&self) -> Seq<String> {
        self.names@
    }

    pub closed spec fn spec_usage(&self) -> Usage {
        self.usage
    }

    pub closed spec fn spec_term(&self) -> Seq<String> {
        self.term@
    }

    /// Lists one binary per path, the most used first, then by path; a file
    /// name found more than once is shown with its path.
    pub fn new(bins: Vec<Binary>, term: Vec<String>, usage: Usage) -> (r: BinsMode)
        requires
            usage.wf(),
        ensures
            r.wf(),
            r.spec_usage() == usage,
            r.spec_term() == term@,
            exists|order: Seq<usize>|
                is_bin_order(bins@, usage, order) && r.spec_len() == order.len() && forall|i: int|
                    0 <= i < order.len() ==> #[trigger] r.shown(i) == bins@[order[i] as int],
    {
        let order = bin_order(&bins, &usage);
        let mut texts: Vec<String> = Vec::new();
        let mut k: usize = 0;
        while k < order.len()
            invariant
                k <= order@.len(),
                forall|j: int| 0 <= j < order@.len() ==> #[trigger] order@[j] < bins@.len(),
                texts@.len() == k,
                forall|j: int| 0 <= j < k ==> #[trigger] texts@[j] == bins@[order@[j] as int].fname,
            decreases order.len() - k,
        {
            texts.push(bins[order[k]].fname.clone());
            k += 1;
        }
        let mut names: Vec<String> = Vec::new();
        k = 0;
        while k < order.len()
            invariant
                k <= order@.len(),
                texts@.len() == order@.len(),
                forall|j: int| 0 <= j < order@.len() ==> #[trigger] order@[j] < bins@.len(),
                forall|j: int| 0 <= j < order@.len() ==> #[trigger] texts@[j] == bins@[order@[j] as int].fname,
                names@.len() == k,
                forall|j: int|
                    0 <= j < k ==> #[trigger] names@[j]@ == display_name(
                        bins@[order@[j] as int],
                        count_equal(strings_view(texts@), bins@[order@[j] as int].fname@) > 1,
                    ),
            decreases order.len() - k,
        {
            let b = &bins[order[k]];
            let n = count_fname(&texts, &b.fname);
            names.push(name_of(b, n > 1));
            k += 1;
        }
        BinsMode { bins, order, texts, names, term, usage }
    }

    pub fn entries_len(&self) -> (r: usize)
        ensures
            r == self.spec_len(),
    {
        self.order.len()
    }

    /// Binaries have no sub-actions.
    pub fn subentries_len(&self, idx: usize) -> (r: usize)
        ensures
            r == 0,
    {
        0
    }

    pub fn text_entries(&self) -> (r: &Vec<String>)
        ensures
            r@ == self.spec_texts(),
            self.wf() ==> r@.len() == self.spec_len(),
    {
        &self.texts
    }

    /// The name shown for the binary at `idx`.
    pub fn entry(&self, idx: usize) -> (r: crate::mode::Entry)
        requires
            self.wf(),
            idx < self.spec_len(),
        ensures
            r.name == self.spec_names()[idx as int],
            r.subname is None,
            r.icon is None,
    {
        crate::mode::Entry { name: self.names[idx].clone(), subname: None, icon: None }
    }

    /// The launch counts, to be saved.
    pub fn usage(&self) -> (r: &Usage)
        ensures
            *r == self.spec_usage(),
    {
        &self.usage
    }

    /// Runs the selected binary, or the search string when none is selected,
    /// through the terminal command, and records the launch.
    /// What `eval` does: the list stays, the launch of the binary is recorded,
    /// and the process runs it through the terminal command.
    pub open spec fn eval_post(&self, after: &BinsMode, info: &EvalInfo, r: Result<Command, ExecError>) -> bool {
        &&& (after.wf())
        &&& (after.spec_len() == self.spec_len())
        &&& (after.spec_texts() == self.spec_texts())
        &&& (after.spec_names() == self.spec_names())
        &&& (after.spec_term() == self.spec_term())
        &&& (forall|i: int| 0 <= i < self.spec_len() ==> #[trigger] after.shown(i) == self.shown(i))
        &&& (({
                    let binary = match info.index {
                        Some(i) => self.shown(i as int).path@,
                        None => info.input_value.search_string@,
                    };
                    &&& after.spec_usage().count(binary) == vstd::math::min(
                        self.spec_usage().count(binary) as int + 1,
                        usize::MAX as int,
                    )
                    &&& forall|k: Seq<char>|
                        k != binary ==> after.spec_usage().count(k) == self.spec_usage().count(k)
                    &&& command_matches(
                        r,
                        command_spec(
                            Some(strings_view(self.spec_term())),
                            seq![binary],
                            info.input_value.parsed(),
                        ),
                        info.input_value.working_dir,
                    )
                }))
    }

    pub fn eval(&mut self, info: &EvalInfo) -> (r: Result<Command, ExecError>)
        requires
            old(self).wf(),
            info.index matches Some(i) ==> i < old(self).spec_len(),
        ensures
            old(self).eval_post(&*final(self), info, r),
    {
        let binary: String = match info.index {
            Some(idx) => self.bins[self.order[idx]].path.clone(),
            None => info.input_value.search_string.clone(),
        };
        let term = clone_strings(&self.term);
        self.usage.increment_entry_usage(binary.clone());
        let words = vec![binary];
        assert(strings_view(words@) =~= seq![words@[0]@]);
        command(Some(term), words, &info.input_value)
    }
}

} // verus!
