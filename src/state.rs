use vstd::prelude::*;

use crate::filtered_lines::{scored_seq, FilteredLines, ListItem};
use crate::input_parser::{parse, parse_spec, InputValue};
use crate::exec::ExecError;
use crate::mode::{Action, Entry, EvalInfo, Mode};
use crate::text::{chars_of, is_alphanumeric, is_alphanumeric_of, string_of};

verus! {

/// Start of the run of characters before `end` whose alphanumeric property is
/// `alnum`.
pub open spec fn run_start(s: Seq<char>, end: int, alnum: bool) -> int
    decreases end,
{
    if end <= 0 {
        0
    } else if is_alphanumeric_of(s[end - 1]) == alnum {
        run_start(s, end - 1, alnum)
    } else {
        end
    }
}

/// Length kept when the last word is removed: the trailing non-alphanumeric
/// run goes, then the alphanumeric run before it.
pub open spec fn word_cut(s: Seq<char>) -> int {
    run_start(s, run_start(s, s.len() as int, false), true)
}

proof fn lemma_run_start(s: Seq<char>, end: int, alnum: bool)
    requires
        0 <= end <= s.len(),
    ensures
        0 <= run_start(s, end, alnum) <= end,
    decreases end,
{
    if end > 0 && is_alphanumeric_of(s[end - 1]) == alnum {
        lemma_run_start(s, end - 1, alnum);
    }
}

fn find_run_start(s: &Vec<char>, end: usize, alnum: bool) -> (r: usize)
    requires
        end <= s@.len(),
    ensures
        r == run_start(s@, end as int, alnum),
        r <= end,
{
    proof {
        lemma_run_start(s@, end as int, alnum);
    }
    let mut e = end;
    while e > 0 && is_alphanumeric(s[e - 1]) == alnum
        invariant
            e <= end <= s@.len(),
            run_start(s@, end as int, alnum) == run_start(s@, e as int, alnum),
        decreases e,
    {
        e -= 1;
    }
    e
}

/// The typed text and its parse.
pub struct InputBuffer {
    raw_input: Vec<char>,
    parsed_input: InputValue,
}

impl InputBuffer {
    pub closed spec fn spec_raw(&self) -> Seq<char> {
        self.raw_input@
    }

    pub closed spec fn spec_parsed(&self) -> InputValue {
        self.parsed_input
    }

    pub open spec fn wf(&self) -> bool {
        &&& self.spec_parsed().source@ == self.spec_raw()
        &&& self.spec_parsed().parsed() == parse_spec(self.spec_raw())
    }

    pub fn new() -> (r: InputBuffer)
        ensures
            r.wf(),
            r.spec_raw() == Seq::<char>::empty(),
    {
        let raw_input: Vec<char> = Vec::new();
        let parsed_input = parse(string_of(raw_input.as_slice()).as_str());
        InputBuffer { raw_input, parsed_input }
    }

    /// Replaces the text and parses it again.
    pub fn update_input(&mut self, raw_input: Vec<char>)
        ensures
            final(self).wf(),
            final(self).spec_raw() == raw_input@,
    {
        let parsed_input = parse(string_of(raw_input.as_slice()).as_str());
        self.raw_input = raw_input;
        self.parsed_input = parsed_input;
    }

    pub fn raw_input(&self) -> (r: String)
        ensures
            r@ == self.spec_raw(),
    {
        string_of(self.raw_input.as_slice())
    }

    pub fn parsed_input(&self) -> (r: &InputValue)
        ensures
            *r == self.spec_parsed(),
    {
        &self.parsed_input
    }

    pub fn search_string(&self) -> (r: &String)
        requires
            self.wf(),
        ensures
            r@ == parse_spec(self.spec_raw()).search_string,
    {
        &self.parsed_input.search_string
    }

    fn chars(&self) -> (r: Vec<char>)
        ensures
            r@ == self.spec_raw(),
    {
        let mut v: Vec<char> = Vec::new();
        let mut i: usize = 0;
        while i < self.raw_input.len()
            invariant
                i <= self.raw_input@.len(),
                v@ == self.raw_input@.take(i as int),
            decreases self.raw_input.len() - i,
        {
            v.push(self.raw_input[i]);
            assert(v@ =~= self.raw_input@.take(i + 1));
            i += 1;
        }
        assert(v@ =~= self.raw_input@);
        v
    }
}

/// The launcher's state: the typed text, the filtered view of the
/// candidates, the selection and the first visible row.
pub struct State {
    input_buffer: InputBuffer,
    skip_offset: usize,
    selected_item: usize,
    selected_subitem: usize,
    filtered_lines: FilteredLines,
    inner: Mode,
}

impl State {
    pub closed spec fn raw(&self) -> Seq<char> {
        self.input_buffer.spec_raw()
    }

    pub closed spec fn input(&self) -> InputBuffer {
        self.input_buffer
    }

    pub closed spec fn skip(&self) -> nat {
        self.skip_offset as nat
    }

    pub closed spec fn selected(&self) -> nat {
        self.selected_item as nat
    }

    pub closed spec fn subitem(&self) -> nat {
        self.selected_subitem as nat
    }

    pub closed spec fn filtered(&self) -> FilteredLines {
        self.filtered_lines
    }

    pub closed spec fn mode(&self) -> Mode {
        self.inner
    }

    /// Number of entries in the filtered view.
    pub open spec fn filtered_len(&self) -> nat {
        self.filtered().spec_len()
    }

    /// The candidate under the selection; 0 when the view is empty.
    pub open spec fn current(&self) -> int {
        if self.filtered_len() == 0 {
            0
        } else {
            self.filtered().spec_index(self.selected() as int)
        }
    }

    pub open spec fn wf(&self) -> bool {
        &&& self.view_ok()
        &&& self.subitem() <= self.mode().spec_subentries(self.current())
    }

    /// Everything that `wf` asks but the bound on the sub-action.
    pub open spec fn view_ok(&self) -> bool {
        &&& self.mode().wf()
        &&& self.input().wf()
        &&& match self.filtered() {
            FilteredLines::Unfiltered(n) => n == self.mode().spec_len(),
            FilteredLines::Searched(v) => forall|k: int|
                0 <= k < v@.len() ==> #[trigger] v@[k].index < self.mode().spec_len(),
        }
        &&& self.selected() < if self.filtered_len() == 0 {
            1
        } else {
            self.filtered_len()
        }
    }

    /// Starts with empty input and every candidate listed.
    pub fn new(inner: Mode) -> (r: State)
        requires
            inner.wf(),
        ensures
            r.wf(),
            r.mode() == inner,
            r.raw() == Seq::<char>::empty(),
            r.filtered() == FilteredLines::Unfiltered(inner.spec_len() as usize),
            r.selected() == 0,
            r.subitem() == 0,
            r.skip() == 0,
    {
        let len = inner.entries_len();
        State {
            input_buffer: InputBuffer::new(),
            skip_offset: 0,
            selected_item: 0,
            selected_subitem: 0,
            filtered_lines: FilteredLines::unfiltred(len),
            inner,
        }
    }

    /// Removes the last typed character.
    pub fn remove_input_char(&mut self)
        requires
            old(self).wf(),
        ensures
            final(self).wf(),
            final(self).raw() == if old(self).raw().len() == 0 {
                old(self).raw()
            } else {
                old(self).raw().drop_last()
            },
            final(self).same_view(*old(self)),
    {
        let mut chars = self.input_buffer.chars();
        if chars.len() > 0 {
            chars.pop();
        }
        self.input_buffer.update_input(chars);
    }

    /// Removes the last word: the trailing non-alphanumeric characters and the
    /// alphanumeric run before them.
    pub fn remove_input_word(&mut self)
        requires
            old(self).wf(),
        ensures
            final(self).wf(),
            final(self).raw() == old(self).raw().take(word_cut(old(self).raw())),
            final(self).same_view(*old(self)),
    {
        let mut chars = self.input_buffer.chars();
        let t = find_run_start(&chars, chars.len(), false);
        let w = find_run_start(&chars, t, true);
        chars.truncate(w);
        self.input_buffer.update_input(chars);
    }

    /// Appends typed text.
    pub fn append_to_input(&mut self, s: &str)
        requires
            old(self).wf(),
        ensures
            final(self).wf(),
            final(self).raw() == old(self).raw() + s@,
            final(self).same_view(*old(self)),
    {
        let mut chars = self.input_buffer.chars();
        let mut extra = chars_of(s);
        chars.append(&mut extra);
        self.input_buffer.update_input(chars);
    }

    pub fn clear_input(&mut self)
        requires
            old(self).wf(),
        ensures
            final(self).wf(),
            final(self).raw() == Seq::<char>::empty(),
            final(self).same_view(*old(self)),
    {
        self.input_buffer.update_input(Vec::new());
    }

    /// The filtered view, the selection and the candidates are those of
    /// `other`.
    pub open spec fn same_view(&self, other: State) -> bool {
        &&& self.filtered() == other.filtered()
        &&& self.selected() == other.selected()
        &&& self.subitem() == other.subitem()
        &&& self.skip() == other.skip()
        &&& self.mode() == other.mode()
    }

    /// The same state with another typed text.
    pub open spec fn same_but_input(&self, other: State) -> bool {
        &&& self.raw() == other.raw()
        &&& self.mode() == other.mode()
        &&& self.skip() == other.skip()
    }

    /// Selects the next entry, stopping at the last one.
    pub fn next_item(&mut self)
        requires
            old(self).wf(),
        ensures
            final(self).wf(),
            final(self).selected() == if old(self).selected() + 1 < old(self).filtered_len() {
                old(self).selected() + 1
            } else {
                old(self).selected()
            },
            final(self).subitem() == 0,
            final(self).same_but_input(*old(self)),
            final(self).filtered() == old(self).filtered(),
    {
        self.selected_subitem = 0;
        let len = self.filtered_lines.len();
        if len > 0 && self.selected_item < len - 1 {
            self.selected_item = self.selected_item + 1;
        }
    }

    /// Selects the previous entry, stopping at the first one.
    pub fn prev_item(&mut self)
        requires
            old(self).wf(),
        ensures
            final(self).wf(),
            final(self).selected() == if old(self).selected() > 0 {
                old(self).selected() - 1
            } else {
                0
            },
            final(self).subitem() == 0,
            final(self).same_but_input(*old(self)),
            final(self).filtered() == old(self).filtered(),
    {
        self.selected_subitem = 0;
        if self.selected_item > 0 {
            self.selected_item = self.selected_item - 1;
        }
    }

    fn current_index(&self) -> (r: usize)
        requires
            self.view_ok(),
        ensures
            r == self.current(),
    {
        match self.filtered_lines.index(self.selected_item) {
            Some(i) => i,
            None => 0,
        }
    }

    /// Selects the next sub-action of the selected candidate, stopping at the
    /// last one.
    pub fn next_subitem(&mut self)
        requires
            old(self).wf(),
        ensures
            final(self).wf(),
            final(self).subitem() == if old(self).subitem() < old(self).mode().spec_subentries(
                old(self).current(),
            ) {
                old(self).subitem() + 1
            } else {
                old(self).subitem()
            },
            final(self).selected() == old(self).selected(),
            final(self).same_but_input(*old(self)),
            final(self).filtered() == old(self).filtered(),
    {
        let idx = self.current_index();
        let n = self.inner.subentries_len(idx);
        if self.selected_subitem < n {
            self.selected_subitem = self.selected_subitem + 1;
        }
    }

    /// Selects the previous sub-action; 0 is the main action.
    pub fn prev_subitem(&mut self)
        requires
            old(self).wf(),
        ensures
            final(self).wf(),
            final(self).subitem() == if old(self).subitem() > 0 {
                old(self).subitem() - 1
            } else {
                0
            },
            final(self).selected() == old(self).selected(),
            final(self).same_but_input(*old(self)),
            final(self).filtered() == old(self).filtered(),
    {
        if self.selected_subitem > 0 {
            self.selected_subitem = self.selected_subitem - 1;
        }
    }

    pub fn raw_input(&self) -> (r: String)
        ensures
            r@ == self.raw(),
    {
        self.input_buffer.raw_input()
    }

    pub fn skip_offset(&self) -> (r: usize)
        ensures
            r == self.skip(),
    {
        self.skip_offset
    }

    /// Stores the first visible row that the last layout settled on.
    pub fn update_skip_offset(&mut self, x: usize)
        ensures
            final(self).skip() == x,
            final(self).raw() == old(self).raw(),
            final(self).input() == old(self).input(),
            final(self).selected() == old(self).selected(),
            final(self).subitem() == old(self).subitem(),
            final(self).filtered() == old(self).filtered(),
            final(self).mode() == old(self).mode(),
    {
        self.skip_offset = x;
    }

    pub fn selected_item(&self) -> (r: usize)
        ensures
            r == self.selected(),
    {
        self.selected_item
    }

    pub fn selected_subitem(&self) -> (r: usize)
        ensures
            r == self.subitem(),
    {
        self.selected_subitem
    }

    /// The candidates.
    pub fn inner(&self) -> (r: &Mode)
        ensures
            *r == self.mode(),
    {
        &self.inner
    }

    pub fn filtered_lines(&self) -> (r: &FilteredLines)
        ensures
            *r == self.filtered(),
    {
        &self.filtered_lines
    }

    /// Whether the selected candidate has sub-actions.
    pub fn has_subitems(&self) -> (r: bool)
        requires
            self.wf(),
        ensures
            r == (self.mode().spec_subentries(self.current()) > 0),
    {
        let idx = self.current_index();
        self.inner.subentries_len(idx) > 0
    }

    /// The rows of the filtered view from `skip` on, at most `count`.
    pub fn processed_entries(&self, skip: usize, count: usize) -> (r: Vec<ListItem>)
        ensures
            r@.len() == if skip >= self.filtered_len() {
                0
            } else {
                vstd::math::min(count as int, self.filtered_len() - skip)
            },
            forall|k: int|
                0 <= k < r@.len() ==> {
                    &&& r@[k].index == self.filtered().spec_index(skip + k)
                    &&& r@[k].subindex == if skip + k == self.selected() {
                        self.subitem()
                    } else {
                        0
                    }
                },
    {
        self.filtered_lines.list_items(skip, count, self.selected_item, self.selected_subitem)
    }

    /// What candidate `row` shows; nothing for a row that names no
    /// candidate or sub-action.
    pub fn entry(&self, row: &ListItem) -> (r: Option<Entry>)
        requires
            self.wf(),
        ensures
            (row.index < self.mode().spec_len() && row.subindex <= self.mode().spec_subentries(
                row.index as int,
            )) == r is Some,
            r matches Some(e) ==> self.mode().entry_post(row.index as int, row.subindex as int, e),
    {
        if row.index < self.inner.entries_len() && row.subindex <= self.inner.subentries_len(
            row.index,
        ) {
            Some(self.inner.entry(row.index, row.subindex))
        } else {
            None
        }
    }

    /// Filters the candidates by the search string of the current input, then
    /// keeps the selection inside the new view.
    pub fn process_entries(&mut self)
        requires
            old(self).wf(),
        ensures
            final(self).wf(),
            FilteredLines::is_filter_result(
                old(self).mode().spec_texts(),
                parse_spec(old(self).raw()).search_string,
                final(self).filtered(),
            ),
            final(self).selected() == if final(self).filtered_len() == 0 {
                0
            } else {
                vstd::math::min(old(self).selected() as int, final(self).filtered_len() - 1)
            },
            final(self).selected() < if final(self).filtered_len() == 0 {
                1
            } else {
                final(self).filtered_len()
            },
            final(self).subitem() == vstd::math::min(
                old(self).subitem() as int,
                final(self).mode().spec_subentries(final(self).current()) as int,
            ),
            final(self).raw() == old(self).raw(),
            final(self).skip() == old(self).skip(),
            final(self).mode() == old(self).mode(),
    {
        let filtered = FilteredLines::filter(self.inner.text_entries(), self.input_buffer.search_string().as_str());
        self.filtered_lines = filtered;
        proof {
            let texts = self.inner.spec_texts();
            if let FilteredLines::Searched(v) = &self.filtered_lines {
                assert forall|k: int| 0 <= k < v@.len() implies #[trigger] v@[k].index
                    < self.inner.spec_len() by {
                    assert(scored_seq(v@)[k] == v@[k]@);
                    assert(scored_seq(v@).contains(v@[k]@));
                }
            }
        }
        let len = self.filtered_lines.len();
        if len == 0 {
            self.selected_item = 0;
        } else if self.selected_item > len - 1 {
            self.selected_item = len - 1;
        }
        let idx = self.current_index();
        let n = self.inner.subentries_len(idx);
        if self.selected_subitem > n {
            self.selected_subitem = n;
        }
    }

    /// What the selection resolves to: the selected candidate, if any, the
    /// sub-action and the parsed input.
    pub fn eval_info(&self) -> (r: EvalInfo)
        requires
            self.wf(),
        ensures
            self.filtered_len() == 0 ==> r.index is None,
            self.filtered_len() > 0 ==> r.index == Some(self.current() as usize),
            r.subindex == self.subitem(),
            r.input_value == self.input().spec_parsed(),
    {
        EvalInfo {
            index: self.filtered_lines.index(self.selected_item),
            subindex: self.selected_subitem,
            input_value: self.input_buffer.parsed_input().clone_value(),
        }
    }

    /// Activates the selection. The typed text, the filtered view and the
    /// selection stay as they were, whatever the outcome.
    pub fn eval_input(&mut self) -> (r: Result<Action, ExecError>)
        requires
            old(self).wf(),
        ensures
            final(self).wf(),
            final(self).raw() == old(self).raw(),
            final(self).filtered() == old(self).filtered(),
            final(self).selected() == old(self).selected(),
            final(self).subitem() == old(self).subitem(),
            final(self).skip() == old(self).skip(),
            final(self).mode().spec_texts() == old(self).mode().spec_texts(),
            old(self).mode().eval_post(
                &final(self).mode(),
                &EvalInfo {
                    index: if old(self).filtered_len() == 0 {
                        None
                    } else {
                        Some(old(self).current() as usize)
                    },
                    subindex: old(self).subitem() as usize,
                    input_value: old(self).input().spec_parsed(),
                },
                r,
            ),
    {
        let info = self.eval_info();
        proof {
            if self.filtered_len() > 0 {
                let f = self.filtered();
                if let FilteredLines::Searched(v) = f {
                    assert(v@[self.selected() as int].index < self.mode().spec_len());
                }
            }
        }
        self.inner.eval(&info)
    }
}

} // verus!
