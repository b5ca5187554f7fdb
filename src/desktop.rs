use vstd::prelude::*;

use crate::bins::codes;
use crate::filtered_lines::{lemma_lex_asymmetric, lemma_lex_irreflexive, lemma_lex_total, lemma_lex_transitive, lex_lt, positions_less};
use crate::text::{chars_of, string_of};

verus! {

/// One launchable action of a desktop entry.
#[derive(Clone, Debug, PartialEq, Eq)]
pub struct ExecEntry {
    pub name: String,
    pub command: String,
    /// Icon: its name in the icon theme, or the path of its file.
    pub icon: Option<String>,
}

/// A desktop application: its main action and its secondary actions.
#[derive(Clone, Debug, PartialEq, Eq)]
pub struct Entry {
    pub entry: ExecEntry,
    pub actions: Vec<ExecEntry>,
    pub desktop_fname: String,
    pub path: String,
    pub name_with_keywords: String,
    pub is_terminal: bool,
}

/// Which icons to look up.
#[derive(Clone, Debug, PartialEq, Eq)]
pub struct IconConfig {
    pub icon_size: u16,
    pub theme: Option<String>,
}

pub open spec fn owned(r: Option<&String>) -> Option<String> {
    match r {
        Some(s) => Some(*s),
        None => None,
    }
}

impl Entry {
    /// Name of action `action`, where 0 is the main action, which has none.
    pub fn subname(&self, action: usize) -> (r: Option<&String>)
        ensures
            action == 0 || action > self.actions@.len() ==> r is None,
            1 <= action <= self.actions@.len() ==> r == Some(&self.actions@[action - 1].name),
    {
        if action == 0 || action > self.actions.len() {
            None
        } else {
            Some(&self.actions[action - 1].name)
        }
    }

    /// Icon of action `action`: its own, else that of the main action.
    pub fn icon(&self, action: usize) -> (r: Option<&String>)
        requires
            action <= self.actions@.len(),
        ensures
            action == 0 ==> owned(r) == self.entry.icon,
            action > 0 && self.actions@[action - 1].icon is Some ==> owned(r)
                == self.actions@[action - 1].icon,
            action > 0 && self.actions@[action - 1].icon is None ==> owned(r) == self.entry.icon,
    {
        if action == 0 {
            self.entry.icon.as_ref()
        } else {
            match &self.actions[action - 1].icon {
                Some(i) => Some(i),
                None => self.entry.icon.as_ref(),
            }
        }
    }
}

/// One `key[param]=value` line of a desktop file.
#[derive(Clone, Debug, PartialEq, Eq)]
pub struct DesktopAttr {
    pub key: String,
    pub param: Option<String>,
    pub value: String,
}

/// A `[title]` group of a desktop file and its lines.
#[derive(Clone, Debug, PartialEq, Eq)]
pub struct DesktopSection {
    pub title: String,
    pub attrs: Vec<DesktopAttr>,
}

/// A parsed desktop file, its groups in file order.
#[derive(Clone, Debug, PartialEq, Eq)]
pub struct DesktopFile {
    pub sections: Vec<DesktopSection>,
}

pub open spec fn opt_view(o: Option<String>) -> Option<Seq<char>> {
    match o {
        Some(s) => Some(s@),
        None => None,
    }
}

/// Value of the first line with this key and parameter.
pub open spec fn lookup(attrs: Seq<DesktopAttr>, key: Seq<char>, param: Option<Seq<char>>) -> Option<
    Seq<char>,
>
    decreases attrs.len(),
{
    if attrs.len() == 0 {
        None
    } else if attrs[0].key@ == key && opt_view(attrs[0].param) == param {
        Some(attrs[0].value@)
    } else {
        lookup(attrs.drop_first(), key, param)
    }
}

/// The first group with this title.
pub open spec fn section_of(sections: Seq<DesktopSection>, title: Seq<char>) -> Option<DesktopSection>
    decreases sections.len(),
{
    if sections.len() == 0 {
        None
    } else if sections[0].title@ == title {
        Some(sections[0])
    } else {
        section_of(sections.drop_first(), title)
    }
}

/// Value of `key` for the first locale key that has one, else its plain value.
pub open spec fn localized(attrs: Seq<DesktopAttr>, key: Seq<char>, locales: Seq<Seq<char>>) -> Option<
    Seq<char>,
>
    decreases locales.len(),
{
    if locales.len() == 0 {
        lookup(attrs, key, None)
    } else {
        match lookup(attrs, key, Some(locales[0])) {
            Some(v) => Some(v),
            None => localized(attrs, key, locales.drop_first()),
        }
    }
}

pub open spec fn is_prefix(p: Seq<char>, s: Seq<char>) -> bool {
    p.len() <= s.len() && s.take(p.len() as int) == p
}

/// The secondary actions: each `Desktop Action` group that has a name and a
/// command, in file order, with the entry's icon.
pub open spec fn actions_of(sections: Seq<DesktopSection>, icon: Option<Seq<char>>) -> Seq<(Seq<char>, Seq<char>, Option<Seq<char>>)>
    decreases sections.len(),
{
    if sections.len() == 0 {
        seq![]
    } else {
        let rest = actions_of(sections.drop_first(), icon);
        let s = sections[0];
        let name = lookup(s.attrs@, "Name"@, None);
        let cmd = lookup(s.attrs@, "Exec"@, None);
        if is_prefix("Desktop Action "@, s.title@) && name is Some && cmd is Some {
            seq![(name->0, cmd->0, icon)] + rest
        } else {
            rest
        }
    }
}

pub open spec fn exec_view(e: ExecEntry) -> (Seq<char>, Seq<char>, Option<Seq<char>>) {
    (e.name@, e.command@, opt_view(e.icon))
}

fn find_attr(attrs: &Vec<DesktopAttr>, key: &str, param: Option<&String>) -> (r: Option<String>)
    ensures
        opt_view(r) == lookup(attrs@, key@, match param {
            Some(p) => Some(p@),
            None => None,
        }),
{
    let k = key.to_owned();
    let mut i: usize = 0;
    let ghost pv = match param {
        Some(p) => Some(p@),
        None => None::<Seq<char>>,
    };
    assert(attrs@.skip(0) =~= attrs@);
    while i < attrs.len()
        invariant
            i <= attrs@.len(),
            k@ == key@,
            lookup(attrs@, key@, pv) == lookup(attrs@.skip(i as int), key@, pv),
            pv == match param {
                Some(p) => Some(p@),
                None => None::<Seq<char>>,
            },
        decreases attrs.len() - i,
    {
        let a = &attrs[i];
        let same_param = match (&a.param, param) {
            (None, None) => true,
            (Some(x), Some(y)) => *x == *y,
            _ => false,
        };
        assert(attrs@.skip(i as int)[0] == attrs@[i as int]);
        if a.key == k && same_param {
            return Some(a.value.clone());
        }
        assert(attrs@.skip(i as int).drop_first() =~= attrs@.skip(i + 1));
        i += 1;
    }
    None
}

fn find_section<'a>(sections: &'a Vec<DesktopSection>, title: &str) -> (r: Option<&'a DesktopSection>)
    ensures
        match r {
            Some(s) => section_of(sections@, title@) == Some(*s),
            None => section_of(sections@, title@) is None,
        },
{
    let t = title.to_owned();
    let mut i: usize = 0;
    assert(sections@.skip(0) =~= sections@);
    while i < sections.len()
        invariant
            i <= sections@.len(),
            t@ == title@,
            section_of(sections@, title@) == section_of(sections@.skip(i as int), title@),
        decreases sections.len() - i,
    {
        assert(sections@.skip(i as int)[0] == sections@[i as int]);
        if sections[i].title == t {
            return Some(&sections[i]);
        }
        assert(sections@.skip(i as int).drop_first() =~= sections@.skip(i + 1));
        i += 1;
    }
    None
}

fn find_localized(attrs: &Vec<DesktopAttr>, key: &str, locales: &Vec<String>) -> (r: Option<String>)
    ensures
        opt_view(r) == localized(attrs@, key@, crate::exec::strings_view(locales@)),
{
    let ghost ls = crate::exec::strings_view(locales@);
    let mut i: usize = 0;
    assert(ls.skip(0) =~= ls);
    while i < locales.len()
        invariant
            i <= locales@.len(),
            ls == crate::exec::strings_view(locales@),
            localized(attrs@, key@, ls) == localized(attrs@, key@, ls.skip(i as int)),
        decreases locales.len() - i,
    {
        assert(ls.skip(i as int)[0] == locales@[i as int]@);
        match find_attr(attrs, key, Some(&locales[i])) {
            Some(v) => {
                return Some(v);
            },
            None => {},
        }
        assert(ls.skip(i as int).drop_first() =~= ls.skip(i + 1));
        i += 1;
    }
    find_attr(attrs, key, None)
}

fn has_prefix(p: &str, s: &String) -> (r: bool)
    ensures
        r == is_prefix(p@, s@),
{
    let pc = chars_of(p);
    let sc = chars_of(s.as_str());
    if pc.len() > sc.len() {
        return false;
    }
    let mut i: usize = 0;
    while i < pc.len()
        invariant
            pc@ == p@,
            sc@ == s@,
            pc@.len() <= sc@.len(),
            i <= pc@.len(),
            forall|k: int| 0 <= k < i ==> sc@[k] == pc@[k],
        decreases pc.len() - i,
    {
        if pc[i] != sc[i] {
            assert(sc@.take(pc@.len() as int)[i as int] != pc@[i as int]);
            return false;
        }
        i += 1;
    }
    assert(sc@.take(pc@.len() as int) =~= pc@);
    true
}

fn is_true(v: &Option<String>) -> (r: bool)
    ensures
        r == (opt_view(*v) == Some("true"@)),
{
    match v {
        Some(s) => *s == "true".to_owned(),
        None => false,
    }
}

impl Entry {
    /// The entry a desktop file describes, read with the locale keys most
    /// specific first: none when it is hidden (`NoDisplay=true`) or lacks a
    /// name or a command.
    pub fn from_desktop_file(
        file: &DesktopFile,
        locales: &Vec<String>,
        desktop_fname: String,
        path: String,
    ) -> (r: Option<Entry>)
        ensures
            ({
                let ls = crate::exec::strings_view(locales@);
                match section_of(file.sections@, "Desktop Entry"@) {
                    None => r is None,
                    Some(main) => {
                        let a = main.attrs@;
                        let name = localized(a, "Name"@, ls);
                        let cmd = lookup(a, "Exec"@, None);
                        if lookup(a, "NoDisplay"@, None) == Some("true"@) || name is None || cmd is None {
                            r is None
                        } else {
                            let icon = localized(a, "Icon"@, ls);
                            r matches Some(e) && e.entry.name@ == name->0 && e.entry.command@ == cmd->0
                                && opt_view(e.entry.icon) == icon && e.actions@.map_values(
                                |x: ExecEntry| exec_view(x),
                            ) == actions_of(file.sections@, icon) && e.desktop_fname == desktop_fname
                                && e.path == path && e.name_with_keywords@ == name->0 + match localized(
                                a,
                                "Keywords"@,
                                ls,
                            ) {
                                Some(k) => k,
                                None => Seq::<char>::empty(),
                            } && e.is_terminal == (lookup(a, "Terminal"@, None) == Some("true"@))
                        }
                    },
                }
            }),
    {
        let main = match find_section(&file.sections, "Desktop Entry") {
            Some(m) => m,
            None => {
                return None;
            },
        };
        let no_display = find_attr(&main.attrs, "NoDisplay", None);
        if is_true(&no_display) {
            return None;
        }
        let name = match find_localized(&main.attrs, "Name", locales) {
            Some(n) => n,
            None => {
                return None;
            },
        };
        let command = match find_attr(&main.attrs, "Exec", None) {
            Some(c) => c,
            None => {
                return None;
            },
        };
        let icon = find_localized(&main.attrs, "Icon", locales);
        let keywords = find_localized(&main.attrs, "Keywords", locales);
        let terminal = find_attr(&main.attrs, "Terminal", None);

        let mut actions: Vec<ExecEntry> = Vec::new();
        let mut i: usize = file.sections.len();
        let ghost iv = opt_view(icon);
        while i > 0
            invariant
                i <= file.sections@.len(),
                opt_view(icon) == iv,
                actions@.map_values(|x: ExecEntry| exec_view(x)) == actions_of(
                    file.sections@.skip(i as int),
                    iv,
                ),
            decreases i,
        {
            i -= 1;
            let s = &file.sections[i];
            assert(file.sections@.skip(i as int).drop_first() =~= file.sections@.skip(i + 1));
            assert(file.sections@.skip(i as int)[0] == file.sections@[i as int]);
            if has_prefix("Desktop Action ", &s.title) {
                let n = find_attr(&s.attrs, "Name", None);
                let c = find_attr(&s.attrs, "Exec", None);
                match (n, c) {
                    (Some(n), Some(c)) => {
                        let ghost before = actions@;
                        let icon_copy = match &icon {
                            Some(x) => Some(x.clone()),
                            None => None,
                        };
                        actions.insert(0, ExecEntry { name: n, command: c, icon: icon_copy });
                        assert(actions@.map_values(|x: ExecEntry| exec_view(x)) =~= seq![
                            exec_view(actions@[0]),
                        ] + before.map_values(|x: ExecEntry| exec_view(x)));
                    },
                    _ => {},
                }
            }
        }
        assert(file.sections@.skip(0) =~= file.sections@);

        let mut nk = chars_of(name.as_str());
        match &keywords {
            Some(k) => {
                let mut kc = chars_of(k.as_str());
                nk.append(&mut kc);
            },
            None => {},
        }
        let name_with_keywords = string_of(nk.as_slice());
        let is_terminal = is_true(&terminal);
        Some(
            Entry {
                entry: ExecEntry { name, command, icon },
                actions,
                desktop_fname,
                path,
                name_with_keywords,
                is_terminal,
            },
        )
    }
}

/// Theme lookups to try for an icon name, in order: the requested size,
/// 8 and 16 larger, 512, 8 smaller, then the `-symbolic` name at the requested
/// size; sizes out of the `u16` range are left out. A path (starting with
/// `/`) needs no lookup.
pub open spec fn icon_lookups_spec(name: Seq<char>, size: int) -> Seq<(Seq<char>, int)> {
    if name.len() > 0 && name[0] == '/' {
        seq![]
    } else {
        let sizes = seq![size, size + 8, size + 16, 512, size - 8];
        sizes.filter(|z: int| 0 <= z <= u16::MAX).map_values(|z: int| (name, z)) + seq![
            (name + "-symbolic"@, size),
        ]
    }
}

/// The theme lookups to try for an icon, in order.
pub fn icon_lookups(name: &str, size: u16) -> (r: Vec<(String, u16)>)
    ensures
        r@.map_values(|x: (String, u16)| (x.0@, x.1 as int)) == icon_lookups_spec(name@, size as int),
{
    let c = chars_of(name);
    let mut r: Vec<(String, u16)> = Vec::new();
    if c.len() > 0 && c[0] == '/' {
        assert(r@.map_values(|x: (String, u16)| (x.0@, x.1 as int)) =~= seq![]);
        return r;
    }
    let ghost sz = size as int;
    let ghost sizes = seq![sz, sz + 8, sz + 16, 512, sz - 8];
    r.push((name.to_owned(), size));
    if size <= u16::MAX - 8 {
        r.push((name.to_owned(), size + 8));
    }
    if size <= u16::MAX - 16 {
        r.push((name.to_owned(), size + 16));
    }
    r.push((name.to_owned(), 512));
    if size >= 8 {
        r.push((name.to_owned(), size - 8));
    }
    let ghost kept = r@.map_values(|x: (String, u16)| (x.0@, x.1 as int));
    proof {
        reveal_with_fuel(Seq::<int>::filter, 6);
        assert(sizes.filter(|z: int| 0 <= z <= u16::MAX).map_values(|z: int| (name@, z)) =~= kept);
    }
    let mut sym = chars_of(name);
    let mut suffix = chars_of("-symbolic");
    sym.append(&mut suffix);
    r.push((string_of(sym.as_slice()), size));
    proof {
        assert(r@.map_values(|x: (String, u16)| (x.0@, x.1 as int)) =~= kept + seq![
            (name@ + "-symbolic"@, size as int),
        ]);
    }
    r
}

/// Name key of entry `i`: the character codes of its name.
pub open spec fn name_key(entries: Seq<Entry>, i: int) -> Seq<usize> {
    codes(entries[i].entry.name@)
}

/// `order` lists the entries by name, one per name: the first entry that has
/// it.
pub open spec fn is_name_order(entries: Seq<Entry>, order: Seq<usize>) -> bool {
    &&& forall|k: int| 0 <= k < order.len() ==> #[trigger] order[k] < entries.len()
    &&& forall|a: int, b: int|
        0 <= a < b < order.len() ==> lex_lt(name_key(entries, order[a] as int), name_key(entries, order[b] as int))
    &&& forall|x: int| 0 <= x < entries.len() ==> #[trigger] name_listed(entries, order, x)
    &&& forall|k: int, j: int|
        #![trigger order[k], name_key(entries, j)]
        0 <= k < order.len() && 0 <= j < order[k] ==> name_key(entries, j) != name_key(
            entries,
            order[k] as int,
        )
}

/// Some listed entry has the name of entry `x`.
pub open spec fn name_listed(entries: Seq<Entry>, order: Seq<usize>, x: int) -> bool {
    exists|k: int| 0 <= k < order.len() && #[trigger] name_key(entries, order[k] as int) == name_key(entries, x)
}

proof fn lemma_slot_equal(keys: Seq<Seq<usize>>, v: Seq<usize>, p: int, i: usize, k: int)
    requires
        0 <= p <= v.len(),
        0 <= k < v.len(),
        forall|a: int, b: int| 0 <= a < b < v.len() ==> lex_lt(keys[v[a] as int], keys[v[b] as int]),
        forall|j: int| 0 <= j < p ==> lex_lt(keys[v[j] as int], keys[i as int]),
        p < v.len() ==> !lex_lt(keys[v[p] as int], keys[i as int]),
        keys[v[k] as int] == keys[i as int],
    ensures
        p < v.len() && keys[v[p] as int] == keys[i as int],
{
    let ki = keys[i as int];
    if k < p {
        lemma_lex_irreflexive(ki);
    }
    if p < k {
        let kp = keys[v[p] as int];
        if kp != ki {
            lemma_lex_total(kp, ki);
            lemma_lex_asymmetric(kp, ki);
        }
    }
}

/// The entries sorted by name, the first of each name kept.
pub fn name_order(entries: &Vec<Entry>) -> (r: Vec<usize>)
    ensures
        is_name_order(entries@, r@),
{
    let mut keys: Vec<Vec<usize>> = Vec::new();
    let mut i: usize = 0;
    while i < entries.len()
        invariant
            i <= entries@.len(),
            keys@.len() == i,
            forall|k: int| 0 <= k < i ==> #[trigger] keys@[k]@ == name_key(entries@, k),
        decreases entries.len() - i,
    {
        let c = chars_of(entries[i].entry.name.as_str());
        let mut key: Vec<usize> = Vec::new();
        let mut j: usize = 0;
        while j < c.len()
            invariant
                j <= c@.len(),
                c@ == entries@[i as int].entry.name@,
                key@ == codes(c@).take(j as int),
            decreases c.len() - j,
        {
            key.push(c[j] as usize);
            assert(key@ =~= codes(c@).take(j + 1));
            j += 1;
        }
        assert(codes(c@).take(c@.len() as int) =~= codes(c@));
        keys.push(key);
        i += 1;
    }
    let ghost ks = keys@.map_values(|k: Vec<usize>| k@);
    assert(forall|k: int| 0 <= k < entries@.len() ==> #[trigger] ks[k] == name_key(entries@, k));
    let mut v: Vec<usize> = Vec::new();
    i = 0;
    while i < entries.len()
        invariant
            i <= entries@.len(),
            keys@.len() == entries@.len(),
            ks == keys@.map_values(|k: Vec<usize>| k@),
            forall|k: int| 0 <= k < entries@.len() ==> #[trigger] ks[k] == name_key(entries@, k),
            forall|k: int| 0 <= k < v@.len() ==> #[trigger] v@[k] < i,
            forall|a: int, b: int| 0 <= a < b < v@.len() ==> lex_lt(ks[v@[a] as int], ks[v@[b] as int]),
            forall|x: int| 0 <= x < i ==> #[trigger] name_listed(entries@, v@, x),
            forall|k: int, j: int|
                #![trigger v@[k], name_key(entries@, j)]
                0 <= k < v@.len() && 0 <= j < v@[k] ==> name_key(entries@, j) != name_key(
                    entries@,
                    v@[k] as int,
                ),
        decreases entries.len() - i,
    {
        let mut p: usize = 0;
        while p < v.len() && positions_less(&keys[v[p]], &keys[i])
            invariant
                p <= v@.len(),
                i < entries@.len(),
                keys@.len() == entries@.len(),
                ks == keys@.map_values(|k: Vec<usize>| k@),
                forall|k: int| 0 <= k < v@.len() ==> #[trigger] v@[k] < i,
                forall|j: int| 0 <= j < p ==> lex_lt(ks[v@[j] as int], ks[i as int]),
            decreases v.len() - p,
        {
            p += 1;
        }
        let ghost old_v = v@;
        if p < v.len() && !positions_less(&keys[i], &keys[v[p]]) {
            proof {
                let q = old_v[p as int] as int;
                if ks[q] != ks[i as int] {
                    lemma_lex_total(ks[q], ks[i as int]);
                }
                assert(name_key(entries@, old_v[p as int] as int) == name_key(entries@, i as int));
                assert forall|x: int| 0 <= x < i + 1 implies #[trigger] name_listed(entries@, v@, x) by {
                    if x == i {
                        assert(name_key(entries@, v@[p as int] as int) == name_key(entries@, x));
                    }
                }
            }
        } else {
            proof {
                assert forall|k: int| p <= k < old_v.len() implies lex_lt(ks[i as int], ks[old_v[k] as int]) by {
                    let kp = ks[old_v[p as int] as int];
                    let ki = ks[i as int];
                    if kp != ki {
                        lemma_lex_total(kp, ki);
                    }
                    if k > p {
                        lemma_lex_transitive(ki, kp, ks[old_v[k] as int]);
                    }
                }
                assert forall|k: int| 0 <= k < old_v.len() implies ks[old_v[k] as int] != ks[i as int] by {
                    if ks[old_v[k] as int] == ks[i as int] {
                        lemma_slot_equal(ks, old_v, p as int, i, k);
                    }
                }
            }
            v.insert(p, i);
            proof {
                let w = v@;
                assert(w =~= old_v.insert(p as int, i));
                assert forall|a: int, b: int| 0 <= a < b < w.len() implies lex_lt(ks[w[a] as int], ks[w[b] as int]) by {
                    if a < p && b > p {
                        lemma_lex_transitive(ks[w[a] as int], ks[i as int], ks[w[b] as int]);
                    }
                }
                assert forall|x: int| 0 <= x < i + 1 implies #[trigger] name_listed(entries@, w, x) by {
                    if x < i {
                        assert(name_listed(entries@, old_v, x));
                        let k = choose|k: int|
                            0 <= k < old_v.len() && #[trigger] name_key(entries@, old_v[k] as int) == name_key(entries@, x);
                        if k < p {
                            assert(w[k] == old_v[k]);
                        } else {
                            assert(w[k + 1] == old_v[k]);
                        }
                    } else {
                        assert(w[p as int] == i);
                    }
                }
                assert forall|k: int, j: int|
                    #![trigger w[k], name_key(entries@, j)]
                    0 <= k < w.len() && 0 <= j < w[k] implies name_key(entries@, j) != name_key(
                        entries@,
                        w[k] as int,
                    ) by {
                    if k == p && name_key(entries@, j) == name_key(entries@, i as int) {
                        assert(name_listed(entries@, old_v, j));
                        let m = choose|m: int|
                            0 <= m < old_v.len() && #[trigger] name_key(entries@, old_v[m] as int) == name_key(entries@, j);
                        assert(ks[old_v[m] as int] == ks[i as int]);
                    } else if k > p {
                        assert(w[k] == old_v[k - 1]);
                    } else if k < p {
                        assert(w[k] == old_v[k]);
                    }
                }
            }
        }
        i += 1;
    }
    proof {
        assert forall|a: int, b: int| 0 <= a < v@.len() && 0 <= b < v@.len() && a < b implies lex_lt(
            name_key(entries@, v@[a] as int),
            name_key(entries@, v@[b] as int),
        ) by {
            assert(ks[v@[a] as int] == name_key(entries@, v@[a] as int));
            assert(ks[v@[b] as int] == name_key(entries@, v@[b] as int));
        }
    }
    v
}

} // verus!
