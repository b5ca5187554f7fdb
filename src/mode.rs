use vstd::prelude::*;

use crate::bins::BinsMode;
use crate::desktop::Entry as DesktopEntry;
use crate::exec::{
    command, command_matches, command_spec, shell_split, shell_words_of, strings_view, Command, ExecError,
};
use crate::input_parser::InputValue;
use crate::usage_cache::Usage;

verus! {

/// What the selection resolves to when it is activated.
pub struct EvalInfo {
    /// Candidate selected, if the filtered view is not empty.
    pub index: Option<usize>,
    /// Sub-action selected: 0 is the main action.
    pub subindex: usize,
    pub input_value: InputValue,
}

/// What a candidate shows in the list.
#[derive(Clone, Debug, PartialEq, Eq)]
pub struct Entry {
    pub name: String,
    pub subname: Option<String>,
    /// Path of the icon file.
    pub icon: Option<String>,
}

/// Position `a` is shown before position `b` when it was used more, or as
/// often and comes first.
pub open spec fn used_before(counts: Seq<usize>, a: int, b: int) -> bool {
    counts[a] > counts[b] || (counts[a] == counts[b] && a < b)
}

/// `order` holds each index of `counts` once, most used first, ties in their
/// own order.
pub open spec fn is_usage_order(counts: Seq<usize>, order: Seq<usize>) -> bool {
    &&& order.len() == counts.len()
    &&& forall|i: int| 0 <= i < order.len() ==> order[i] < counts.len()
    &&& forall|i: int, j: int|
        0 <= i < j < order.len() ==> used_before(counts, order[i] as int, order[j] as int)
    &&& forall|x: usize| x < counts.len() ==> #[trigger] order.contains(x)
}

/// The indices of `counts`, most used first; equal counts keep their order.
pub fn usage_order(counts: &Vec<usize>) -> (r: Vec<usize>)
    ensures
        is_usage_order(counts@, r@),
{
    let mut v: Vec<usize> = Vec::new();
    let mut i: usize = 0;
    while i < counts.len()
        invariant
            i <= counts@.len(),
            v@.len() == i,
            forall|k: int| 0 <= k < v@.len() ==> v@[k] < i,
            forall|a: int, b: int|
                0 <= a < b < v@.len() ==> used_before(counts@, v@[a] as int, v@[b] as int),
            forall|x: usize| x < i ==> #[trigger] v@.contains(x),
        decreases counts.len() - i,
    {
        let c = counts[i];
        let mut p: usize = 0;
        while p < v.len() && counts[v[p]] >= c
            invariant
                p <= v@.len(),
                v@.len() == i,
                i < counts@.len(),
                c == counts@[i as int],
                forall|k: int| 0 <= k < v@.len() ==> v@[k] < i,
                forall|k: int| 0 <= k < p ==> used_before(counts@, v@[k] as int, i as int),
            decreases v.len() - p,
        {
            p += 1;
        }
        let ghost old_v = v@;
        proof {
            assert forall|k: int| p <= k < old_v.len() implies used_before(
                counts@,
                i as int,
                old_v[k] as int,
            ) by {
                if k > p {
                    assert(used_before(counts@, old_v[p as int] as int, old_v[k] as int));
                }
            }
        }
        v.insert(p, i);
        proof {
            assert(v@ =~= old_v.insert(p as int, i));
            assert forall|x: usize| x < i + 1 implies #[trigger] v@.contains(x) by {
                if x < i {
                    assert(old_v.contains(x));
                    let k = choose|k: int| 0 <= k < old_v.len() && old_v[k] == x;
                    if k < p {
                        assert(v@[k] == x);
                    } else {
                        assert(v@[k + 1] == x);
                    }
                } else {
                    assert(v@[p as int] == x);
                }
            }
        }
        i += 1;
    }
    v
}

/// Lines read from the input stream, picked as text.
pub struct DialogMode {
    lines: Vec<String>,
}

impl DialogMode {
    pub closed spec fn spec_lines(&self) -> Seq<String> {
        self.lines@
    }

    pub fn new(lines: Vec<String>) -> (r: DialogMode)
        ensures
            r.spec_lines() == lines@,
    {
        DialogMode { lines }
    }

    pub fn entries_len(&self) -> (r: usize)
        ensures
            r == self.spec_lines().len(),
    {
        self.lines.len()
    }

    /// Lines have no sub-actions.
    pub fn subentries_len(&self, idx: usize) -> (r: usize)
        ensures
            r == 0,
    {
        0
    }

    pub fn text_entries(&self) -> (r: &Vec<String>)
        ensures
            r@ == self.spec_lines(),
    {
        &self.lines
    }

    pub fn entry(&self, idx: usize, subidx: usize) -> (r: Entry)
        requires
            idx < self.spec_lines().len(),
        ensures
            r.name@ == self.spec_lines()[idx as int]@,
            r.subname is None,
            r.icon is None,
    {
        Entry { name: self.lines[idx].clone(), subname: None, icon: None }
    }

    /// The text handed back for `info`.
    pub open spec fn eval_text(&self, info: &EvalInfo) -> Seq<char> {
        if info.index is Some && info.index->0 < self.spec_lines().len() {
            self.spec_lines()[info.index->0 as int]@
        } else {
            info.input_value.source@
        }
    }

    /// The text to hand back: the selected line, or the typed input when no
    /// line is selected.
    pub fn eval(&self, info: &EvalInfo) -> (r: String)
        ensures
            r@ == self.eval_text(info),
            info.index is Some && info.index->0 < self.spec_lines().len() ==> r@
                == self.spec_lines()[info.index->0 as int]@,
            !(info.index is Some && info.index->0 < self.spec_lines().len()) ==> r@
                == info.input_value.source@,
    {
        match info.index {
            Some(i) => {
                if i < self.lines.len() {
                    return self.lines[i].clone();
                }
            },
            None => {},
        }
        info.input_value.source.clone()
    }
}

/// A field code of a desktop entry's command line, such as `%U`.
pub open spec fn is_field_code(w: Seq<char>) -> bool {
    w.len() > 0 && w[0] == '%'
}

/// The words without field codes.
pub open spec fn drop_field_codes(ws: Seq<Seq<char>>) -> Seq<Seq<char>>
    decreases ws.len(),
{
    if ws.len() == 0 {
        ws
    } else if is_field_code(ws.last()) {
        drop_field_codes(ws.drop_last())
    } else {
        drop_field_codes(ws.drop_last()).push(ws.last())
    }
}

fn without_field_codes(words: Vec<String>) -> (r: Vec<String>)
    ensures
        strings_view(r@) == drop_field_codes(strings_view(words@)),
{
    let mut r: Vec<String> = Vec::new();
    let mut i: usize = 0;
    while i < words.len()
        invariant
            i <= words@.len(),
            strings_view(r@) == drop_field_codes(strings_view(words@).take(i as int)),
        decreases words.len() - i,
    {
        let ghost pre = strings_view(words@).take(i as int);
        assert(strings_view(words@).take(i + 1).drop_last() =~= pre);
        let w = crate::text::chars_of(words[i].as_str());
        if !(w.len() > 0 && w[0] == '%') {
            let ghost r0 = r@;
            r.push(words[i].clone());
            assert(strings_view(r@) =~= strings_view(r0).push(words@[i as int]@));
        }
        i += 1;
    }
    assert(strings_view(words@).take(words@.len() as int) =~= strings_view(words@));
    r
}

pub(crate) fn clone_strings(v: &Vec<String>) -> (r: Vec<String>)
    ensures
        r@ == v@,
{
    let mut r: Vec<String> = Vec::new();
    let mut i: usize = 0;
    while i < v.len()
        invariant
            i <= v@.len(),
            r@ == v@.take(i as int),
        decreases v.len() - i,
    {
        r.push(v[i].clone());
        assert(r@ =~= v@.take(i + 1));
        i += 1;
    }
    assert(v@.take(v@.len() as int) =~= v@);
    r
}

/// Command line of action `sub` of `e`: 0 is the main one.
pub open spec fn action_line(e: DesktopEntry, sub: int) -> Seq<char> {
    if sub == 0 {
        e.entry.command@
    } else {
        e.actions@[sub - 1].command@
    }
}

/// Usage count of each desktop entry, in the order given.
pub open spec fn app_counts(entries: Seq<DesktopEntry>, usage: Usage) -> Seq<usize> {
    Seq::new(entries.len(), |i: int| usage.count(entries[i].desktop_fname@) as usize)
}

/// Desktop applications, the most used first.
pub struct AppsMode {
    entries: Vec<DesktopEntry>,
    order: Vec<usize>,
    texts: Vec<String>,
    term: Vec<String>,
    usage: Usage,
}

impl AppsMode {
    pub closed spec fn wf(&self) -> bool {
        &&& self.usage.wf()
        &&& self.order@.len() == self.entries@.len()
        &&& self.texts@.len() == self.entries@.len()
        &&& forall|i: int| 0 <= i < self.order@.len() ==> #[trigger] self.order@[i] < self.entries@.len()
        &&& forall|i: int|
            0 <= i < self.order@.len() ==> #[trigger] self.texts@[i]
                == self.entries@[self.order@[i] as int].name_with_keywords
    }

    /// The entry shown at position `i`.
    pub closed spec fn shown(&self, i: int) -> DesktopEntry {
        self.entries@[self.order@[i] as int]
    }

    pub closed spec fn spec_len(&self) -> nat {
        self.entries@.len()
    }

    pub closed spec fn spec_texts(&self) -> Seq<String> {
        self.texts@
    }

    pub closed spec fn spec_usage(&self) -> Usage {
        self.usage
    }

    pub closed spec fn spec_term(&self) -> Seq<String> {
        self.term@
    }

    /// Orders `entries` by how often each was launched, most first.
    pub fn new(entries: Vec<DesktopEntry>, term: Vec<String>, usage: Usage) -> (r: AppsMode)
        requires
            usage.wf(),
        ensures
            r.wf(),
            r.spec_len() == entries@.len(),
            r.spec_usage() == usage,
            r.spec_term() == term@,
            exists|order: Seq<usize>|
                is_usage_order(app_counts(entries@, usage), order) && forall|i: int|
                    0 <= i < entries@.len() ==> #[trigger] r.shown(i) == entries@[order[i] as int],
    {
        let mut counts: Vec<usize> = Vec::new();
        let mut i: usize = 0;
        while i < entries.len()
            invariant
                i <= entries@.len(),
                usage.wf(),
                counts@ =~= app_counts(entries@, usage).take(i as int),
            decreases entries.len() - i,
        {
            let c = usage.entry_count(entries[i].desktop_fname.as_str());
            counts.push(c);
            i += 1;
        }
        assert(counts@ =~= app_counts(entries@, usage));
        let order = usage_order(&counts);
        let mut texts: Vec<String> = Vec::new();
        let mut k: usize = 0;
        while k < order.len()
            invariant
                k <= order@.len(),
                is_usage_order(counts@, order@),
                counts@.len() == entries@.len(),
                texts@.len() == k,
                forall|j: int|
                    0 <= j < k ==> #[trigger] texts@[j] == entries@[order@[j] as int].name_with_keywords,
            decreases order.len() - k,
        {
            texts.push(entries[order[k]].name_with_keywords.clone());
            k += 1;
        }
        let r = AppsMode { entries, order, texts, term, usage };
        assert(forall|i: int| 0 <= i < r.entries@.len() ==> #[trigger] r.shown(i) == r.entries@[r.order@[i] as int]);
        r
    }

    pub fn entries_len(&self) -> (r: usize)
        ensures
            r == self.spec_len(),
    {
        self.entries.len()
    }

    /// Number of secondary actions of the entry at `idx`; 0 past the end.
    pub fn subentries_len(&self, idx: usize) -> (r: usize)
        requires
            self.wf(),
        ensures
            idx < self.spec_len() ==> r == self.shown(idx as int).actions@.len(),
            idx >= self.spec_len() ==> r == 0,
    {
        if idx < self.order.len() {
            self.entries[self.order[idx]].actions.len()
        } else {
            0
        }
    }

    pub fn text_entries(&self) -> (r: &Vec<String>)
        ensures
            r@ == self.spec_texts(),
    {
        &self.texts
    }

    /// Name, sub-action name and icon of the entry at `idx` with action
    /// `subidx` selected.
    pub fn entry(&self, idx: usize, subidx: usize) -> (r: Entry)
        requires
            self.wf(),
            idx < self.spec_len(),
            subidx <= self.shown(idx as int).actions@.len(),
        ensures
            r.name@ == self.shown(idx as int).entry.name@,
            r.subname == if subidx == 0 {
                None
            } else {
                Some(self.shown(idx as int).actions@[subidx - 1].name)
            },
            r.icon == if subidx > 0 && self.shown(idx as int).actions@[subidx - 1].icon is Some {
                self.shown(idx as int).actions@[subidx - 1].icon
            } else {
                self.shown(idx as int).entry.icon
            },
    {
        let e = &self.entries[self.order[idx]];
        Entry {
            name: e.entry.name.clone(),
            subname: match e.subname(subidx) {
                Some(s) => Some(s.clone()),
                None => None,
            },
            icon: match e.icon(subidx) {
                Some(s) => Some(s.clone()),
                None => None,
            },
        }
    }
}

impl AppsMode {
    /// The launch counts, to be saved.
    pub fn usage(&self) -> (r: &Usage)
        ensures
            *r == self.spec_usage(),
    {
        &self.usage
    }

    /// Builds the process for the selection and records the launch. With no
    /// candidate selected, the search string is run as a program.
    /// What `eval` does: the entries stay, the launch is recorded, and the
    /// process is built from the selected action's command line.
    pub open spec fn eval_post(&self, after: &AppsMode, info: &EvalInfo, r: Result<Command, ExecError>) -> bool {
        &&& (after.wf())
        &&& (after.spec_len() == self.spec_len())
        &&& (after.spec_texts() == self.spec_texts())
        &&& (after.spec_term() == self.spec_term())
        &&& (forall|i: int| 0 <= i < self.spec_len() ==> #[trigger] after.shown(i) == self.shown(i))
        &&& (info.index is None ==> after.spec_usage() == self.spec_usage() && command_matches(
                    r,
                    command_spec(None, seq![info.input_value.search_string@], info.input_value.parsed()),
                    info.input_value.working_dir,
                ))
        &&& (info.index matches Some(i) ==> {
                    let e = self.shown(i as int);
                    if info.subindex > e.actions@.len() {
                        r == Err::<Command, ExecError>(ExecError::NoSuchAction)
                            && after.spec_usage() == self.spec_usage()
                    } else {
                        match shell_words_of(action_line(e, info.subindex as int)) {
                            None => r == Err::<Command, ExecError>(ExecError::InvalidCommand)
                                && after.spec_usage() == self.spec_usage(),
                            Some(ws) => {
                                &&& after.spec_usage().wf()
                                &&& after.spec_usage().count(e.desktop_fname@) == vstd::math::min(
                                    self.spec_usage().count(e.desktop_fname@) as int + 1,
                                    usize::MAX as int,
                                )
                                &&& forall|k: Seq<char>|
                                    k != e.desktop_fname@ ==> after.spec_usage().count(k)
                                        == self.spec_usage().count(k)
                                &&& command_matches(
                                    r,
                                    command_spec(
                                        if e.is_terminal {
                                            Some(strings_view(self.spec_term()))
                                        } else {
                                            None
                                        },
                                        drop_field_codes(ws),
                                        info.input_value.parsed(),
                                    ),
                                    info.input_value.working_dir,
                                )
                            },
                        }
                    }
                })
    }

    pub fn eval(&mut self, info: &EvalInfo) -> (r: Result<Command, ExecError>)
        requires
            old(self).wf(),
            info.index matches Some(i) ==> i < old(self).spec_len(),
        ensures
            old(self).eval_post(&*final(self), info, r),
    {
        match info.index {
            None => {
                let words = vec![info.input_value.search_string.clone()];
                assert(strings_view(words@) =~= seq![info.input_value.search_string@]);
                command(None, words, &info.input_value)
            },
            Some(idx) => {
                let e = &self.entries[self.order[idx]];
                if info.subindex > e.actions.len() {
                    return Err(ExecError::NoSuchAction);
                }
                let line: &String = if info.subindex == 0 {
                    &e.entry.command
                } else {
                    &e.actions[info.subindex - 1].command
                };
                match shell_split(line.as_str()) {
                    None => Err(ExecError::InvalidCommand),
                    Some(ws) => {
                        let words = without_field_codes(ws);
                        let fname = e.desktop_fname.clone();
                        let term = if e.is_terminal {
                            Some(clone_strings(&self.term))
                        } else {
                            None
                        };
                        proof {
                            if e.is_terminal {
                                assert(crate::exec::opt_strings(term) == Some(
                                    strings_view(self.term@),
                                ));
                            }
                        }
                        self.usage.increment_entry_usage(fname);
                        command(term, words, &info.input_value)
                    },
                }
            },
        }
    }
}

/// What activating the selection asks for.
#[derive(Clone, Debug, PartialEq, Eq)]
pub enum Action {
    /// Hand this text back and quit.
    Print(String),
    /// Start this process.
    Run(Command),
}

/// Where the candidates come from.
pub enum Mode {
    Apps(AppsMode),
    BinApps(BinsMode),
    Dialog(DialogMode),
}

impl Mode {
    pub open spec fn wf(&self) -> bool {
        match self {
            Mode::Apps(m) => m.wf(),
            Mode::BinApps(m) => m.wf(),
            Mode::Dialog(_) => true,
        }
    }

    pub open spec fn spec_len(&self) -> nat {
        match self {
            Mode::Apps(m) => m.spec_len(),
            Mode::BinApps(m) => m.spec_len(),
            Mode::Dialog(m) => m.spec_lines().len(),
        }
    }

    /// Text matched against the query, per candidate.
    pub open spec fn spec_texts(&self) -> Seq<String> {
        match self {
            Mode::Apps(m) => m.spec_texts(),
            Mode::BinApps(m) => m.spec_texts(),
            Mode::Dialog(m) => m.spec_lines(),
        }
    }

    /// Number of secondary actions of candidate `i`.
    pub open spec fn spec_subentries(&self, i: int) -> nat {
        match self {
            Mode::Apps(m) => if 0 <= i < m.spec_len() {
                m.shown(i).actions@.len()
            } else {
                0
            },
            Mode::BinApps(_) => 0,
            Mode::Dialog(_) => 0,
        }
    }

    pub fn apps(entries: Vec<DesktopEntry>, term: Vec<String>, usage: Usage) -> (r: Mode)
        requires
            usage.wf(),
        ensures
            r.wf(),
            r matches Mode::Apps(m) && m.spec_len() == entries@.len() && m.spec_usage() == usage
                && m.spec_term() == term@ && exists|order: Seq<usize>|
                is_usage_order(app_counts(entries@, usage), order) && forall|i: int|
                    0 <= i < entries@.len() ==> #[trigger] m.shown(i) == entries@[order[i] as int],
    {
        Mode::Apps(AppsMode::new(entries, term, usage))
    }

    pub fn bins(bins: Vec<crate::bins::Binary>, term: Vec<String>, usage: Usage) -> (r: Mode)
        requires
            usage.wf(),
        ensures
            r.wf(),
            r matches Mode::BinApps(m) && m.spec_usage() == usage && m.spec_term() == term@ && exists|
                order: Seq<usize>,
            |
                crate::bins::is_bin_order(bins@, usage, order) && m.spec_len() == order.len() && forall|
                    i: int,
                | 0 <= i < order.len() ==> #[trigger] m.shown(i) == bins@[order[i] as int],
    {
        Mode::BinApps(BinsMode::new(bins, term, usage))
    }

    pub fn dialog(lines: Vec<String>) -> (r: Mode)
        ensures
            r.wf(),
            r matches Mode::Dialog(m) && m.spec_lines() == lines@,
    {
        Mode::Dialog(DialogMode::new(lines))
    }

    pub fn entries_len(&self) -> (r: usize)
        ensures
            r == self.spec_len(),
    {
        match self {
            Mode::Apps(m) => m.entries_len(),
            Mode::BinApps(m) => m.entries_len(),
            Mode::Dialog(m) => m.entries_len(),
        }
    }

    pub fn subentries_len(&self, idx: usize) -> (r: usize)
        requires
            self.wf(),
        ensures
            r == self.spec_subentries(idx as int),
    {
        match self {
            Mode::Apps(m) => m.subentries_len(idx),
            Mode::BinApps(m) => m.subentries_len(idx),
            Mode::Dialog(m) => m.subentries_len(idx),
        }
    }

    pub fn text_entries(&self) -> (r: &Vec<String>)
        requires
            self.wf(),
        ensures
            r@ == self.spec_texts(),
            r@.len() == self.spec_len(),
    {
        match self {
            Mode::Apps(m) => m.text_entries(),
            Mode::BinApps(m) => m.text_entries(),
            Mode::Dialog(m) => m.text_entries(),
        }
    }

    /// `r` is what candidate `idx` shows with sub-action `subidx` selected.
    pub open spec fn entry_post(&self, idx: int, subidx: int, r: Entry) -> bool {
        match *self {
            Mode::Dialog(m) => r.name@ == m.spec_lines()[idx]@ && r.subname is None && r.icon is None,
            Mode::BinApps(m) => r.name == m.spec_names()[idx] && r.subname is None && r.icon is None,
            Mode::Apps(m) => {
                let e = m.shown(idx);
                &&& r.name@ == e.entry.name@
                &&& r.subname == if subidx == 0 {
                    None
                } else {
                    Some(e.actions@[subidx - 1].name)
                }
                &&& r.icon == if subidx > 0 && e.actions@[subidx - 1].icon is Some {
                    e.actions@[subidx - 1].icon
                } else {
                    e.entry.icon
                }
            },
        }
    }

    /// What candidate `idx` shows with sub-action `subidx` selected.
    pub fn entry(&self, idx: usize, subidx: usize) -> (r: Entry)
        requires
            self.wf(),
            idx < self.spec_len(),
            subidx <= self.spec_subentries(idx as int),
        ensures
            self.entry_post(idx as int, subidx as int, r),
    {
        match self {
            Mode::Apps(m) => m.entry(idx, subidx),
            Mode::BinApps(m) => m.entry(idx),
            Mode::Dialog(m) => m.entry(idx, subidx),
        }
    }

    /// What `eval` does with the candidates and what it returns.
    pub open spec fn eval_post(&self, after: &Mode, info: &EvalInfo, r: Result<Action, ExecError>) -> bool {
        match (*self, *after) {
            (Mode::Dialog(m), _) => *after == *self && (r matches Ok(Action::Print(s)) && s@ == m.eval_text(
                info,
            )),
            (Mode::Apps(m), Mode::Apps(m2)) => (r matches Ok(Action::Run(c)) && m.eval_post(
                &m2,
                info,
                Ok(c),
            )) || (r matches Err(e) && m.eval_post(&m2, info, Err(e))),
            (Mode::BinApps(m), Mode::BinApps(m2)) => (r matches Ok(Action::Run(c)) && m.eval_post(
                &m2,
                info,
                Ok(c),
            )) || (r matches Err(e) && m.eval_post(&m2, info, Err(e))),
            _ => false,
        }
    }

    /// Resolves the selection: the dialog hands a line (or the typed text)
    /// back, the other modes build the process to start.
    pub fn eval(&mut self, info: &EvalInfo) -> (r: Result<Action, ExecError>)
        requires
            old(self).wf(),
            info.index matches Some(i) ==> i < old(self).spec_len(),
        ensures
            final(self).wf(),
            final(self).spec_len() == old(self).spec_len(),
            final(self).spec_texts() == old(self).spec_texts(),
            forall|i: int| #[trigger] final(self).spec_subentries(i) == old(self).spec_subentries(i),
            old(self).eval_post(&*final(self), info, r),
    {
        match self {
            Mode::Apps(m) => match m.eval(info) {
                Ok(c) => Ok(Action::Run(c)),
                Err(e) => Err(e),
            },
            Mode::BinApps(m) => match m.eval(info) {
                Ok(c) => Ok(Action::Run(c)),
                Err(e) => Err(e),
            },
            Mode::Dialog(m) => Ok(Action::Print(m.eval(info))),
        }
    }
}

} // verus!
