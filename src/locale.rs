use vstd::prelude::*;

use crate::text::{chars_of, substring};

verus! {

/// The parts of a locale name `lang[_COUNTRY][.encoding][@modifier]`.
#[derive(Clone, Debug, PartialEq, Eq)]
pub struct Locale {
    pub lang: Option<String>,
    pub country: Option<String>,
    pub modifier: Option<String>,
}

pub open spec fn is_alpha(c: char) -> bool {
    ('a' <= c && c <= 'z') || ('A' <= c && c <= 'Z')
}

/// End of the run of ASCII letters that starts at `i`.
pub open spec fn alpha_end(s: Seq<char>, i: int) -> int
    decreases s.len() - i,
{
    if i < 0 || i >= s.len() || !is_alpha(s[i]) {
        i
    } else {
        alpha_end(s, i + 1)
    }
}

/// First position at or after `i` that holds `c`; the length when none does.
pub open spec fn find_from(s: Seq<char>, i: int, c: char) -> int
    decreases s.len() - i,
{
    if i < 0 || i >= s.len() || s[i] == c {
        i
    } else {
        find_from(s, i + 1, c)
    }
}

/// Language, country and modifier of a locale name, or nothing when the
/// name does not have the form `lang[_COUNTRY][.encoding][@modifier]` (letters
/// in language and country; no `@` in the encoding; no line break in the
/// modifier).
pub open spec fn locale_spec(s: Seq<char>) -> Option<(Seq<char>, Option<Seq<char>>, Option<Seq<char>>)> {
    let l = alpha_end(s, 0);
    let has_country = l < s.len() && s[l] == '_' && alpha_end(s, l + 1) > l + 1;
    let country_end = if has_country {
        alpha_end(s, l + 1)
    } else {
        l
    };
    let modifier_at = if country_end < s.len() && s[country_end] == '.' {
        find_from(s, country_end + 1, '@')
    } else {
        country_end
    };
    let has_modifier = modifier_at < s.len() && s[modifier_at] == '@';
    let end_ok = if has_modifier {
        find_from(s, modifier_at + 1, '\n') == s.len()
    } else {
        modifier_at == s.len()
    };
    if l == 0 || !end_ok {
        None
    } else {
        Some(
            (
                s.subrange(0, l),
                if has_country {
                    Some(s.subrange(l + 1, country_end))
                } else {
                    None
                },
                if has_modifier {
                    Some(s.subrange(modifier_at + 1, s.len() as int))
                } else {
                    None
                },
            ),
        )
    }
}

proof fn lemma_alpha_end(s: Seq<char>, i: int)
    requires
        0 <= i <= s.len(),
    ensures
        i <= alpha_end(s, i) <= s.len(),
    decreases s.len() - i,
{
    if i < s.len() && is_alpha(s[i]) {
        lemma_alpha_end(s, i + 1);
    }
}

proof fn lemma_find_from(s: Seq<char>, i: int, c: char)
    requires
        0 <= i <= s.len(),
    ensures
        i <= find_from(s, i, c) <= s.len(),
    decreases s.len() - i,
{
    if i < s.len() && s[i] != c {
        lemma_find_from(s, i + 1, c);
    }
}

fn alpha_end_of(s: &Vec<char>, i: usize) -> (r: usize)
    requires
        i <= s@.len(),
    ensures
        r == alpha_end(s@, i as int),
        i <= r <= s@.len(),
{
    proof {
        lemma_alpha_end(s@, i as int);
    }
    let mut j: usize = i;
    while j < s.len() && (('a' <= s[j] && s[j] <= 'z') || ('A' <= s[j] && s[j] <= 'Z'))
        invariant
            i <= j <= s@.len(),
            alpha_end(s@, i as int) == alpha_end(s@, j as int),
        decreases s.len() - j,
    {
        j += 1;
    }
    j
}

pub(crate) fn find_char(s: &Vec<char>, i: usize, c: char) -> (r: usize)
    requires
        i <= s@.len(),
    ensures
        r == find_from(s@, i as int, c),
        i <= r <= s@.len(),
{
    proof {
        lemma_find_from(s@, i as int, c);
    }
    let mut j: usize = i;
    while j < s.len() && s[j] != c
        invariant
            i <= j <= s@.len(),
            find_from(s@, i as int, c) == find_from(s@, j as int, c),
        decreases s.len() - j,
    {
        j += 1;
    }
    j
}

pub open spec fn opt_chars(o: Option<String>) -> Option<Seq<char>> {
    match o {
        Some(s) => Some(s@),
        None => None,
    }
}

impl Locale {
    /// The locale with no parts, for when none is set.
    pub fn none() -> (r: Locale)
        ensures
            r.lang is None && r.country is None && r.modifier is None,
    {
        Locale { lang: None, country: None, modifier: None }
    }

    /// Splits a locale name such as `en_US.UTF-8@euro`.
    pub fn parse(name: &str) -> (r: Option<Locale>)
        ensures
            match locale_spec(name@) {
                None => r is None,
                Some((l, c, m)) => r matches Some(loc) && opt_chars(loc.lang) == Some(l) && opt_chars(
                    loc.country,
                ) == c && opt_chars(loc.modifier) == m,
            },
    {
        let s = chars_of(name);
        let l = alpha_end_of(&s, 0);
        if l == 0 {
            return None;
        }
        let has_country = l < s.len() && s[l] == '_' && alpha_end_of(&s, l + 1) > l + 1;
        let country_end = if has_country {
            alpha_end_of(&s, l + 1)
        } else {
            l
        };
        let modifier_at = if country_end < s.len() && s[country_end] == '.' {
            find_char(&s, country_end + 1, '@')
        } else {
            country_end
        };
        let has_modifier = modifier_at < s.len() && s[modifier_at] == '@';
        let end_ok = if has_modifier {
            find_char(&s, modifier_at + 1, '\n') == s.len()
        } else {
            modifier_at == s.len()
        };
        if !end_ok {
            return None;
        }
        Some(
            Locale {
                lang: Some(substring(&s, 0, l)),
                country: if has_country {
                    Some(substring(&s, l + 1, country_end))
                } else {
                    None
                },
                modifier: if has_modifier {
                    Some(substring(&s, modifier_at + 1, s.len()))
                } else {
                    None
                },
            },
        )
    }

    /// Keys under which localized desktop entry values are looked up, most
    /// specific first: `lang_COUNTRY@MODIFIER`, `lang_COUNTRY`, `lang@MODIFIER`,
    /// `lang`, each only when its parts are known.
    pub fn keys(&self) -> (r: Vec<String>)
        ensures
            strings(r@) == locale_keys(opt_chars(self.lang), opt_chars(self.country), opt_chars(self.modifier)),
    {
        let mut v: Vec<String> = Vec::new();
        let ghost l = opt_chars(self.lang);
        let ghost c = opt_chars(self.country);
        let ghost m = opt_chars(self.modifier);
        if let (Some(lang), Some(country), Some(modifier)) = (&self.lang, &self.country, &self.modifier) {
            v.push(join3(lang, '_', country, Some(('@', modifier))));
        }
        if let (Some(lang), Some(country)) = (&self.lang, &self.country) {
            v.push(join3(lang, '_', country, None));
        }
        if let (Some(lang), Some(modifier)) = (&self.lang, &self.modifier) {
            v.push(join3(lang, '@', modifier, None));
        }
        if let Some(lang) = &self.lang {
            v.push(lang.clone());
        }
        assert(strings(v@) =~= locale_keys(l, c, m));
        v
    }
}

pub open spec fn strings(v: Seq<String>) -> Seq<Seq<char>> {
    v.map_values(|s: String| s@)
}

pub open spec fn locale_keys(l: Option<Seq<char>>, c: Option<Seq<char>>, m: Option<Seq<char>>) -> Seq<Seq<char>> {
    let k1: Seq<Seq<char>> = if l is Some && c is Some && m is Some {
        seq![l->0 + seq!['_'] + c->0 + seq!['@'] + m->0]
    } else {
        seq![]
    };
    let k2: Seq<Seq<char>> = if l is Some && c is Some {
        seq![l->0 + seq!['_'] + c->0]
    } else {
        seq![]
    };
    let k3: Seq<Seq<char>> = if l is Some && m is Some {
        seq![l->0 + seq!['@'] + m->0]
    } else {
        seq![]
    };
    let k4: Seq<Seq<char>> = if l is Some {
        seq![l->0]
    } else {
        seq![]
    };
    k1 + k2 + k3 + k4
}

fn join3(a: &String, sep: char, b: &String, tail: Option<(char, &String)>) -> (r: String)
    ensures
        r@ == match tail {
            Some((t, c)) => a@ + seq![sep] + b@ + seq![t] + c@,
            None => a@ + seq![sep] + b@,
        },
{
    let mut v = chars_of(a.as_str());
    v.push(sep);
    let mut bc = chars_of(b.as_str());
    v.append(&mut bc);
    match tail {
        Some((t, c)) => {
            v.push(t);
            let mut cc = chars_of(c.as_str());
            v.append(&mut cc);
        },
        None => {},
    }
    let r = crate::text::string_of(v.as_slice());
    proof {
        match tail {
            Some((t, c)) => assert(r@ =~= a@ + seq![sep] + b@ + seq![t] + c@),
            None => assert(r@ =~= a@ + seq![sep] + b@),
        }
    }
    r
}

} // verus!
