use vstd::prelude::*;

use crate::text::{chars_of, substring};

verus! {

/// The typed input split into the search string and the optional parts that
/// follow the separators `!!` (arguments), `#` (environment variables) and
/// `~` (working directory).
#[derive(Clone, Debug, PartialEq, Eq)]
pub struct InputValue {
    pub source: String,
    pub search_string: String,
    pub args: Option<String>,
    pub env_vars: Option<String>,
    pub working_dir: Option<String>,
}

/// The mathematical value of an `InputValue`, without its source.
pub struct ParsedInput {
    pub search_string: Seq<char>,
    pub args: Option<Seq<char>>,
    pub env_vars: Option<Seq<char>>,
    pub working_dir: Option<Seq<char>>,
}

pub open spec fn opt_view(o: Option<String>) -> Option<Seq<char>> {
    match o {
        Some(s) => Some(s@),
        None => None,
    }
}

fn clone_opt(o: &Option<String>) -> (r: Option<String>)
    ensures
        r == *o,
{
    match o {
        Some(s) => Some(s.clone()),
        None => None,
    }
}

impl InputValue {
    pub open spec fn parsed(&self) -> ParsedInput {
        ParsedInput {
            search_string: self.search_string@,
            args: opt_view(self.args),
            env_vars: opt_view(self.env_vars),
            working_dir: opt_view(self.working_dir),
        }
    }

    /// A copy of this value.
    pub fn clone_value(&self) -> (r: InputValue)
        ensures
            r == *self,
    {
        InputValue {
            source: self.source.clone(),
            search_string: self.search_string.clone(),
            args: clone_opt(&self.args),
            env_vars: clone_opt(&self.env_vars),
            working_dir: clone_opt(&self.working_dir),
        }
    }

    /// The value of empty input.
    pub fn empty() -> (r: InputValue)
        ensures
            r.source@ == Seq::<char>::empty(),
            r.search_string@ == Seq::<char>::empty(),
            r.args is None,
            r.env_vars is None,
            r.working_dir is None,
    {
        InputValue {
            source: String::new(),
            search_string: String::new(),
            args: None,
            env_vars: None,
            working_dir: None,
        }
    }
}

/// Length of the separator that starts at `i`, 0 when none does.
pub open spec fn sep_len(s: Seq<char>, i: int) -> int {
    if 0 <= i < s.len() && (s[i] == '#' || s[i] == '~') {
        1
    } else if 0 <= i && i + 1 < s.len() && s[i] == '!' && s[i + 1] == '!' {
        2
    } else {
        0
    }
}

/// Position of the first separator at or after `i`; the length when none.
pub open spec fn first_sep(s: Seq<char>, i: int) -> int
    decreases s.len() - i,
{
    if i >= s.len() {
        s.len() as int
    } else if sep_len(s, i) > 0 {
        i
    } else {
        first_sep(s, i + 1)
    }
}

/// Which part the separator at `i` opens: 0 arguments, 1 environment
/// variables, 2 working directory.
pub open spec fn kind_at(s: Seq<char>, i: int) -> int {
    if s[i] == '!' {
        0
    } else if s[i] == '#' {
        1
    } else {
        2
    }
}

pub open spec fn assign(acc: ParsedInput, kind: int, v: Seq<char>) -> ParsedInput {
    if kind == 0 {
        ParsedInput { args: Some(v), ..acc }
    } else if kind == 1 {
        ParsedInput { env_vars: Some(v), ..acc }
    } else {
        ParsedInput { working_dir: Some(v), ..acc }
    }
}

/// The parts from position `pos` on, the first of which is of `kind`; a later
/// part of a kind replaces an earlier one.
pub open spec fn parse_parts(s: Seq<char>, pos: int, kind: int, acc: ParsedInput) -> ParsedInput
    decreases s.len() - pos,
{
    let p = first_sep(s, pos);
    let acc2 = assign(acc, kind, s.subrange(pos, p));
    if pos <= p < s.len() && sep_len(s, p) > 0 {
        parse_parts(s, p + sep_len(s, p), kind_at(s, p), acc2)
    } else {
        acc2
    }
}

pub open spec fn parse_spec(s: Seq<char>) -> ParsedInput {
    let p = first_sep(s, 0);
    let base = ParsedInput {
        search_string: s.subrange(0, p),
        args: None,
        env_vars: None,
        working_dir: None,
    };
    if p < s.len() {
        parse_parts(s, p + sep_len(s, p), kind_at(s, p), base)
    } else {
        base
    }
}

proof fn lemma_first_sep(s: Seq<char>, i: int)
    requires
        0 <= i <= s.len(),
    ensures
        i <= first_sep(s, i) <= s.len(),
        first_sep(s, i) < s.len() ==> sep_len(s, first_sep(s, i)) > 0,
    decreases s.len() - i,
{
    if i < s.len() && sep_len(s, i) == 0 {
        lemma_first_sep(s, i + 1);
    }
}

fn find_separator(s: &Vec<char>, from: usize) -> (r: (usize, usize))
    requires
        from <= s@.len(),
    ensures
        r.0 == first_sep(s@, from as int),
        r.1 == sep_len(s@, r.0 as int),
        from <= r.0 <= s@.len(),
        r.0 < s@.len() ==> r.1 > 0,
{
    proof {
        lemma_first_sep(s@, from as int);
    }
    let mut i: usize = from;
    while i < s.len()
        invariant
            from <= i <= s@.len(),
            first_sep(s@, from as int) == first_sep(s@, i as int),
        decreases s.len() - i,
    {
        let c = s[i];
        if c == '#' || c == '~' {
            return (i, 1);
        }
        if c == '!' && i + 1 < s.len() && s[i + 1] == '!' {
            return (i, 2);
        }
        i += 1;
    }
    (i, 0)
}

/// Splits the typed input into the search string and the parts that follow
/// the separators.
pub fn parse(source: &str) -> (r: InputValue)
    ensures
        r.source@ == source@,
        r.parsed() == parse_spec(source@),
{
    let s = chars_of(source);
    let (p, len) = find_separator(&s, 0);
    let mut value = InputValue {
        source: source.to_owned(),
        search_string: substring(&s, 0, p),
        args: None,
        env_vars: None,
        working_dir: None,
    };
    if p < s.len() {
        let mut kind: u8 = if s[p] == '!' {
            0
        } else if s[p] == '#' {
            1
        } else {
            2
        };
        let mut pos: usize = p + len;
        let mut done = false;
        while !done
            invariant
                pos <= s@.len(),
                kind <= 2,
                value.source@ == source@,
                !done ==> parse_spec(s@) == parse_parts(s@, pos as int, kind as int, value.parsed()),
                done ==> parse_spec(s@) == value.parsed(),
            decreases s@.len() - pos + if done {
                0int
            } else {
                1int
            },
        {
            let (q, qlen) = find_separator(&s, pos);
            let part = substring(&s, pos, q);
            if kind == 0 {
                value.args = Some(part);
            } else if kind == 1 {
                value.env_vars = Some(part);
            } else {
                value.working_dir = Some(part);
            }
            if q < s.len() {
                kind = if s[q] == '!' {
                    0
                } else if s[q] == '#' {
                    1
                } else {
                    2
                };
                pos = q + qlen;
            } else {
                done = true;
            }
        }
    }
    value
}

} // verus!
