use vstd::prelude::*;
use vstd::math::min;

use crate::locale::{find_char, find_from};
use crate::text::{chars_of, string_of, substring};

verus! {

/// How many times each entry was launched. Keys are unique.
pub struct Usage {
    counts: Vec<(String, usize)>,
}

pub open spec fn keys_unique(v: Seq<(String, usize)>) -> bool {
    forall|i: int, j: int| 0 <= i < j < v.len() ==> v[i].0@ != v[j].0@
}

/// Count recorded for `key`, 0 when none is.
pub open spec fn count_in(v: Seq<(String, usize)>, key: Seq<char>) -> nat {
    if exists|i: int| 0 <= i < v.len() && v[i].0@ == key {
        v[choose|i: int| 0 <= i < v.len() && v[i].0@ == key].1 as nat
    } else {
        0
    }
}

impl Usage {
    pub closed spec fn wf(&self) -> bool {
        keys_unique(self.counts@)
    }

    pub closed spec fn count(&self, key: Seq<char>) -> nat {
        count_in(self.counts@, key)
    }

    /// No recorded launches.
    pub fn new() -> (r: Usage)
        ensures
            r.wf(),
            forall|k: Seq<char>| r.count(k) == 0,
    {
        Usage { counts: Vec::new() }
    }

    fn find(&self, entry: &str) -> (r: Option<usize>)
        requires
            self.wf(),
        ensures
            r matches Some(i) ==> i < self.counts@.len() && self.counts@[i as int].0@ == entry@,
            r is None ==> forall|i: int| 0 <= i < self.counts@.len() ==> self.counts@[i].0@ != entry@,
    {
        let key = entry.to_owned();
        let mut i: usize = 0;
        while i < self.counts.len()
            invariant
                i <= self.counts@.len(),
                key@ == entry@,
                forall|k: int| 0 <= k < i ==> self.counts@[k].0@ != entry@,
            decreases self.counts.len() - i,
        {
            if self.counts[i].0 == key {
                return Some(i);
            }
            i += 1;
        }
        None
    }

    /// How many times `entry` was launched.
    pub fn entry_count(&self, entry: &str) -> (r: usize)
        requires
            self.wf(),
        ensures
            r == self.count(entry@),
    {
        match self.find(entry) {
            Some(i) => self.counts[i].1,
            None => 0,
        }
    }

    /// Records one more launch of `entry`; a count at `usize::MAX` stays there.
    pub fn increment_entry_usage(&mut self, entry: String)
        requires
            old(self).wf(),
        ensures
            final(self).wf(),
            final(self).count(entry@) == min(old(self).count(entry@) as int + 1, usize::MAX as int),
            forall|k: Seq<char>| k != entry@ ==> final(self).count(k) == old(self).count(k),
    {
        let ghost old_counts = self.counts@;
        match self.find(entry.as_str()) {
            Some(i) => {
                let (name, count) = self.counts.remove(i);
                let count = if count < usize::MAX {
                    count + 1
                } else {
                    count
                };
                self.counts.insert(i, (name, count));
                proof {
                    let v = self.counts@;
                    assert(v =~= old_counts.update(i as int, (name, count)));
                    assert(v[i as int].0@ == entry@);
                    assert forall|k: Seq<char>| k != entry@ implies count_in(v, k) == count_in(
                        old_counts,
                        k,
                    ) by {
                        if exists|j: int| 0 <= j < v.len() && v[j].0@ == k {
                            let j = choose|j: int| 0 <= j < v.len() && v[j].0@ == k;
                            assert(0 <= j < old_counts.len() && old_counts[j].0@ == k);
                        }
                        if exists|j: int| 0 <= j < old_counts.len() && old_counts[j].0@ == k {
                            let j = choose|j: int| 0 <= j < old_counts.len() && old_counts[j].0@ == k;
                            assert(0 <= j < v.len() && v[j].0@ == k);
                        }
                    }
                    assert(old_counts[i as int].0@ == entry@);
                }
            },
            None => {
                self.counts.push((entry, 1));
                proof {
                    let v = self.counts@;
                    assert(v[old_counts.len() as int].0@ == entry@);
                    assert forall|k: Seq<char>| k != entry@ implies count_in(v, k) == count_in(
                        old_counts,
                        k,
                    ) by {
                        if exists|j: int| 0 <= j < v.len() && v[j].0@ == k {
                            let j = choose|j: int| 0 <= j < v.len() && v[j].0@ == k;
                            assert(0 <= j < old_counts.len() && old_counts[j].0@ == k);
                        }
                        if exists|j: int| 0 <= j < old_counts.len() && old_counts[j].0@ == k {
                            let j = choose|j: int| 0 <= j < old_counts.len() && old_counts[j].0@ == k;
                            assert(0 <= j < v.len() && v[j].0@ == k);
                        }
                    }
                }
            },
        }
    }
}

/// Value of a string of decimal digits, with an optional leading `+`.
pub open spec fn digits_value(d: Seq<char>) -> int
    decreases d.len(),
{
    if d.len() == 0 {
        0
    } else {
        digits_value(d.drop_last()) * 10 + (d.last() as int - '0' as int)
    }
}

pub open spec fn all_digits(d: Seq<char>) -> bool {
    forall|i: int| 0 <= i < d.len() ==> '0' <= #[trigger] d[i] <= '9'
}

/// The count a cache line starts with, when it is a number that fits.
pub open spec fn count_spec(t: Seq<char>) -> Option<int> {
    let d = if t.len() > 0 && t[0] == '+' {
        t.drop_first()
    } else {
        t
    };
    if d.len() == 0 || !all_digits(d) || digits_value(d) > usize::MAX {
        None
    } else {
        Some(digits_value(d))
    }
}

/// First position in `[i, end)` that holds `c`; `end` when none does.
pub open spec fn find_in(t: Seq<char>, i: int, end: int, c: char) -> int
    decreases end - i,
{
    if i >= end || t[i] == c {
        i
    } else {
        find_in(t, i + 1, end, c)
    }
}

/// The records `(entry, count)` of the cache lines from position `pos` on.
/// A line is `count entry`: the first two words split at single spaces, any
/// further words ignored; a line ends at a line feed, a carriage return
/// before the line feed is dropped, empty lines are skipped. Nothing when a
/// line is malformed.
pub open spec fn scan(t: Seq<char>, pos: int) -> Option<Seq<(Seq<char>, int)>>
    decreases t.len() - pos,
{
    if pos >= t.len() || pos < 0 {
        Some(seq![])
    } else {
        let p = find_from(t, pos, '\n');
        let e = if pos < p < t.len() && t[p - 1] == '\r' {
            p - 1
        } else {
            p
        };
        if p < pos {
            None
        } else {
            let rest = if p + 1 < t.len() {
                scan(t, p + 1)
            } else {
                Some(seq![])
            };
            let q = find_in(t, pos, e, ' ');
            let count = count_spec(t.subrange(pos, q));
            if e <= pos {
                rest
            } else if q >= e || count is None || rest is None {
                None
            } else {
                Some(seq![(t.subrange(q + 1, find_in(t, q + 1, e, ' ')), count->0)] + rest->0)
            }
        }
    }
}

/// Count that records give `key`: the last record for it wins.
pub open spec fn record_count(r: Seq<(Seq<char>, int)>, key: Seq<char>) -> nat
    decreases r.len(),
{
    if r.len() == 0 {
        0
    } else if r.last().0 == key {
        r.last().1 as nat
    } else {
        record_count(r.drop_last(), key)
    }
}

/// Count that a cache file gives `key`; a malformed file gives none.
pub open spec fn cache_count(text: Seq<char>, key: Seq<char>) -> nat {
    match scan(text, 0) {
        None => 0,
        Some(r) => record_count(r, key),
    }
}

pub open spec fn after(done: Seq<(Seq<char>, int)>, rest: Option<Seq<(Seq<char>, int)>>) -> Option<
    Seq<(Seq<char>, int)>,
> {
    match rest {
        None => None,
        Some(r) => Some(done + r),
    }
}

proof fn lemma_find_in(t: Seq<char>, i: int, end: int, c: char)
    requires
        0 <= i <= end <= t.len(),
    ensures
        i <= find_in(t, i, end, c) <= end,
    decreases end - i,
{
    if i < end && t[i] != c {
        lemma_find_in(t, i + 1, end, c);
    }
}

fn find_in_exec(t: &Vec<char>, i: usize, end: usize, c: char) -> (r: usize)
    requires
        i <= end <= t@.len(),
    ensures
        r == find_in(t@, i as int, end as int, c),
        i <= r <= end,
{
    proof {
        lemma_find_in(t@, i as int, end as int, c);
    }
    let mut j: usize = i;
    while j < end && t[j] != c
        invariant
            i <= j <= end <= t@.len(),
            find_in(t@, i as int, end as int, c) == find_in(t@, j as int, end as int, c),
        decreases end - j,
    {
        j += 1;
    }
    j
}

fn parse_count(t: &Vec<char>, from: usize, to: usize) -> (r: Option<usize>)
    requires
        from <= to <= t@.len(),
    ensures
        match count_spec(t@.subrange(from as int, to as int)) {
            None => r is None,
            Some(c) => r == Some(c as usize) && 0 <= c <= usize::MAX,
        },
{
    let ghost w = t@.subrange(from as int, to as int);
    let start: usize = if from < to && t[from] == '+' {
        from + 1
    } else {
        from
    };
    let ghost d = t@.subrange(start as int, to as int);
    assert(w.len() > 0 ==> w[0] == t@[from as int]);
    assert(d =~= if w.len() > 0 && w[0] == '+' { w.drop_first() } else { w });
    assert(count_spec(w) == if d.len() == 0 || !all_digits(d) || digits_value(d) > usize::MAX {
        None::<int>
    } else {
        Some(digits_value(d))
    });
    if start == to {
        return None;
    }
    let mut v: u128 = 0;
    let mut i: usize = start;
    while i < to
        invariant
            start <= i <= to <= t@.len(),
            d == t@.subrange(start as int, to as int),
            count_spec(t@.subrange(from as int, to as int)) == if d.len() == 0 || !all_digits(d)
                || digits_value(d) > usize::MAX {
                None::<int>
            } else {
                Some(digits_value(d))
            },
            all_digits(d.take(i - start)),
            v == digits_value(d.take(i - start)),
            v <= usize::MAX,
        decreases to - i,
    {
        let c = t[i];
        assert(d[i - start] == c);
        if !('0' <= c && c <= '9') {
            assert(!all_digits(d));
            return None;
        }
        assert(d.take(i + 1 - start).drop_last() =~= d.take(i - start));
        assert(all_digits(d.take(i + 1 - start))) by {
            assert forall|k: int| 0 <= k < d.take(i + 1 - start).len() implies '0' <= #[trigger] d.take(
                i + 1 - start,
            )[k] <= '9' by {
                if k < i - start {
                    assert(d.take(i + 1 - start)[k] == d.take(i - start)[k]);
                }
            }
        }
        v = v * 10 + (c as u32 - '0' as u32) as u128;
        if v > usize::MAX as u128 {
            proof {
                lemma_digits_grow(d, i + 1 - start);
                assert(d.take(d.len() as int) =~= d);
            }
            return None;
        }
        i += 1;
    }
    assert(d.take(to - start) =~= d);
    Some(v as usize)
}

proof fn lemma_digits_nonneg(d: Seq<char>)
    requires
        all_digits(d),
    ensures
        digits_value(d) >= 0,
    decreases d.len(),
{
    if d.len() > 0 {
        assert(all_digits(d.drop_last())) by {
            assert forall|k: int| 0 <= k < d.drop_last().len() implies '0' <= #[trigger] d.drop_last()[k]
                <= '9' by {
                assert(d.drop_last()[k] == d[k]);
            }
        }
        assert('0' <= d[d.len() - 1] <= '9');
        lemma_digits_nonneg(d.drop_last());
    }
}

proof fn lemma_digits_grow(d: Seq<char>, n: int)
    requires
        0 <= n <= d.len(),
        all_digits(d.take(n)),
    ensures
        all_digits(d) ==> digits_value(d.take(n)) <= digits_value(d),
    decreases d.len() - n,
{
    if n < d.len() && all_digits(d) {
        assert(d.take(n + 1).drop_last() =~= d.take(n));
        assert(all_digits(d.take(n + 1))) by {
            assert forall|k: int| 0 <= k < d.take(n + 1).len() implies '0' <= #[trigger] d.take(n + 1)[k]
                <= '9' by {
                assert(d.take(n + 1)[k] == d[k]);
            }
        }
        assert('0' <= d[n] <= '9');
        lemma_digits_grow(d, n + 1);
        assert(d.take(n + 1).last() == d[n]);
        lemma_digits_nonneg(d.take(n));
    } else if n == d.len() {
        assert(d.take(n) =~= d);
    }
}

impl Usage {
    /// Sets the count of `entry`.
    fn set_count(&mut self, entry: String, count: usize)
        requires
            old(self).wf(),
        ensures
            final(self).wf(),
            final(self).count(entry@) == count,
            forall|k: Seq<char>| k != entry@ ==> final(self).count(k) == old(self).count(k),
    {
        let ghost old_counts = self.counts@;
        match self.find(entry.as_str()) {
            Some(i) => {
                let (name, _) = self.counts.remove(i);
                self.counts.insert(i, (name, count));
                proof {
                    let v = self.counts@;
                    assert(v =~= old_counts.update(i as int, (name, count)));
                    assert(v[i as int].0@ == entry@);
                    assert forall|k: Seq<char>| k != entry@ implies count_in(v, k) == count_in(
                        old_counts,
                        k,
                    ) by {
                        if exists|j: int| 0 <= j < v.len() && v[j].0@ == k {
                            let j = choose|j: int| 0 <= j < v.len() && v[j].0@ == k;
                            assert(0 <= j < old_counts.len() && old_counts[j].0@ == k);
                        }
                        if exists|j: int| 0 <= j < old_counts.len() && old_counts[j].0@ == k {
                            let j = choose|j: int| 0 <= j < old_counts.len() && old_counts[j].0@ == k;
                            assert(0 <= j < v.len() && v[j].0@ == k);
                        }
                    }
                }
            },
            None => {
                self.counts.push((entry, count));
                proof {
                    let v = self.counts@;
                    assert(v[old_counts.len() as int].0@ == entry@);
                    assert forall|k: Seq<char>| k != entry@ implies count_in(v, k) == count_in(
                        old_counts,
                        k,
                    ) by {
                        if exists|j: int| 0 <= j < v.len() && v[j].0@ == k {
                            let j = choose|j: int| 0 <= j < v.len() && v[j].0@ == k;
                            assert(0 <= j < old_counts.len() && old_counts[j].0@ == k);
                        }
                        if exists|j: int| 0 <= j < old_counts.len() && old_counts[j].0@ == k {
                            let j = choose|j: int| 0 <= j < old_counts.len() && old_counts[j].0@ == k;
                            assert(0 <= j < v.len() && v[j].0@ == k);
                        }
                    }
                }
            },
        }
    }

    /// The counts that a cache file holds.
    pub fn from_cache_text(text: &str) -> (r: Usage)
        ensures
            r.wf(),
            forall|k: Seq<char>| #[trigger] r.count(k) == cache_count(text@, k),
    {
        let t = chars_of(text);
        let mut usage = Usage::new();
        let mut pos: usize = 0;
        let ghost mut done: Seq<(Seq<char>, int)> = seq![];
        assert(after(done, scan(t@, 0)) =~= scan(t@, 0)) by {
            if let Some(r) = scan(t@, 0) {
                assert(done + r =~= r);
            }
        }
        while pos < t.len()
            invariant
                t@ == text@,
                pos <= t@.len(),
                usage.wf(),
                scan(t@, 0) == after(done, scan(t@, pos as int)),
                forall|k: Seq<char>| #[trigger] usage.count(k) == record_count(done, k),
            decreases t.len() - pos,
        {
            let p = find_char(&t, pos, '\n');
            let e = if pos < p && p < t.len() && t[p - 1] == '\r' {
                p - 1
            } else {
                p
            };
            if e > pos {
                let q = find_in_exec(&t, pos, e, ' ');
                if q >= e {
                    assert(scan(t@, pos as int) is None);
                    return Usage::new_empty_of(text);
                }
                match parse_count(&t, pos, q) {
                    None => {
                        assert(scan(t@, pos as int) is None);
                        return Usage::new_empty_of(text);
                    },
                    Some(c) => {
                        let end = find_in_exec(&t, q + 1, e, ' ');
                        let entry = substring(&t, q + 1, end);
                        let ghost rec = (entry@, c as int);
                        usage.set_count(entry, c);
                        proof {
                            assert(count_spec(t@.subrange(pos as int, q as int)) == Some(c as int));
                            match scan(t@, p + 1) {
                                None => {},
                                Some(rest) => {
                                    assert(scan(t@, pos as int) == Some(seq![rec] + rest));
                                    assert(done + (seq![rec] + rest) =~= done.push(rec) + rest);
                                },
                            }
                            assert forall|k: Seq<char>| #[trigger] usage.count(k) == record_count(
                                done.push(rec),
                                k,
                            ) by {
                                assert(done.push(rec).drop_last() =~= done);
                            }
                            done = done.push(rec);
                        }
                    },
                }
            }
            pos = if p < t.len() {
                p + 1
            } else {
                t.len()
            };
        }
        assert(done + seq![] =~= done);
        usage
    }

    /// No counts, for a cache file that is malformed.
    fn new_empty_of(text: &str) -> (r: Usage)
        requires
            scan(text@, 0) is None,
        ensures
            r.wf(),
            forall|k: Seq<char>| #[trigger] r.count(k) == cache_count(text@, k),
    {
        Usage::new()
    }
}

pub open spec fn digit_char(d: int) -> char {
    seq!['0', '1', '2', '3', '4', '5', '6', '7', '8', '9'][d]
}

/// Decimal digits of `n`.
pub open spec fn decimal(n: nat) -> Seq<char>
    decreases n,
{
    if n < 10 {
        seq![digit_char(n as int)]
    } else {
        decimal(n / 10).push(digit_char((n % 10) as int))
    }
}

/// Cache file text: a `count entry` line per record.
pub open spec fn cache_text(r: Seq<(Seq<char>, nat)>) -> Seq<char>
    decreases r.len(),
{
    if r.len() == 0 {
        seq![]
    } else {
        cache_text(r.drop_last()) + decimal(r.last().1) + seq![' '] + r.last().0 + seq!['\n']
    }
}

fn push_decimal(v: &mut Vec<char>, n: usize)
    ensures
        final(v)@ == old(v)@ + decimal(n as nat),
    decreases n,
{
    let digits: [char; 10] = ['0', '1', '2', '3', '4', '5', '6', '7', '8', '9'];
    if n >= 10 {
        push_decimal(v, n / 10);
    }
    let ghost before = v@;
    v.push(digits[n % 10]);
    proof {
        assert(digits@[(n % 10) as int] == digit_char((n % 10) as int));
        if n >= 10 {
            assert(v@ =~= old(v)@ + decimal((n / 10) as nat).push(digit_char((n % 10) as int)));
        } else {
            assert(v@ =~= old(v)@ + decimal(n as nat));
        }
    }
}

impl Usage {
    /// The recorded entries and counts, in the order they are kept.
    pub closed spec fn records(&self) -> Seq<(Seq<char>, nat)> {
        self.counts@.map_values(|e: (String, usize)| (e.0@, e.1 as nat))
    }

    /// The text of the cache file.
    pub fn to_cache_text(&self) -> (r: String)
        ensures
            r@ == cache_text(self.records()),
    {
        let mut v: Vec<char> = Vec::new();
        let mut i: usize = 0;
        while i < self.counts.len()
            invariant
                i <= self.counts@.len(),
                v@ == cache_text(self.records().take(i as int)),
            decreases self.counts.len() - i,
        {
            let ghost before = v@;
            push_decimal(&mut v, self.counts[i].1);
            v.push(' ');
            let mut e = chars_of(self.counts[i].0.as_str());
            v.append(&mut e);
            v.push('\n');
            proof {
                assert(self.records().take(i + 1).drop_last() =~= self.records().take(i as int));
                assert(v@ =~= cache_text(self.records().take(i + 1)));
            }
            i += 1;
        }
        assert(self.records().take(self.counts@.len() as int) =~= self.records());
        string_of(v.as_slice())
    }
}

} // verus!
