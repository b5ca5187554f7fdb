use vstd::prelude::*;

use crate::text::chars_of;

verus! {

/// A decoded icon: `width * height` pixels as `0xAARRGGBB`.
#[derive(Clone, Debug, PartialEq, Eq)]
pub struct Loaded {
    pub width: u32,
    pub height: u32,
    pub data: Vec<u32>,
}

/// An icon file and whether it was decoded.
#[derive(Clone, Debug, PartialEq, Eq)]
pub enum IconInner {
    /// Not tried yet; the path of the file.
    Pending(String),
    Failed,
    Loaded(Loaded),
}

/// Image formats that icons are decoded from.
#[derive(Clone, Copy, Debug, PartialEq, Eq)]
pub enum IconFormat {
    Png,
    Svg,
}

/// Extension of the last component of a path: what follows its last dot,
/// when that dot is not the component's first character.
pub open spec fn extension(path: Seq<char>) -> Option<Seq<char>> {
    let slash = last_index(path, '/', path.len() as int);
    let name = path.subrange(slash + 1, path.len() as int);
    let dot = last_index(name, '.', name.len() as int);
    if dot <= 0 {
        None
    } else {
        Some(name.subrange(dot + 1, name.len() as int))
    }
}

/// Last position before `end` that holds `c`; -1 when none does.
pub open spec fn last_index(s: Seq<char>, c: char, end: int) -> int
    decreases end,
{
    if end <= 0 {
        -1
    } else if s[end - 1] == c {
        end - 1
    } else {
        last_index(s, c, end - 1)
    }
}

proof fn lemma_last_index(s: Seq<char>, c: char, end: int)
    requires
        0 <= end <= s.len(),
    ensures
        -1 <= last_index(s, c, end) < end,
    decreases end,
{
    if end > 0 && s[end - 1] != c {
        lemma_last_index(s, c, end - 1);
    }
}

fn last_index_of(s: &Vec<char>, c: char, from: usize, end: usize) -> (r: Option<usize>)
    requires
        from <= end <= s@.len(),
    ensures
        match r {
            Some(i) => from <= i < end && i as int - from == last_index(
                s@.subrange(from as int, s@.len() as int),
                c,
                end - from,
            ),
            None => last_index(s@.subrange(from as int, s@.len() as int), c, end - from) == -1,
        },
{
    let ghost t = s@.subrange(from as int, s@.len() as int);
    let mut e: usize = end;
    while e > from
        invariant
            from <= e <= end <= s@.len(),
            t == s@.subrange(from as int, s@.len() as int),
            last_index(t, c, end - from) == last_index(t, c, e - from),
        decreases e,
    {
        assert(t[e - 1 - from] == s@[e - 1]);
        if s[e - 1] == c {
            return Some(e - 1);
        }
        e -= 1;
    }
    None
}

pub open spec fn format_of(path: Seq<char>) -> Option<IconFormat> {
    match extension(path) {
        Some(e) => if e == seq!['p', 'n', 'g'] {
            Some(IconFormat::Png)
        } else if e == seq!['s', 'v', 'g'] {
            Some(IconFormat::Svg)
        } else {
            None
        },
        None => None,
    }
}

/// Color byte of an `0xAARRGGBB` pixel.
pub open spec fn argb(a: u8, r: u8, g: u8, b: u8) -> u32 {
    (a as int * 0x100_0000 + r as int * 0x1_0000 + g as int * 0x100 + b as int) as u32
}

fn pack(a: u8, r: u8, g: u8, b: u8) -> (p: u32)
    ensures
        p == argb(a, r, g, b),
{
    (a as u32) * 0x100_0000 + (r as u32) * 0x1_0000 + (g as u32) * 0x100 + (b as u32)
}

impl Loaded {
    /// The format to decode `path` as, from its extension.
    pub fn format(path: &str) -> (r: Option<IconFormat>)
        ensures
            r == format_of(path@),
    {
        let s = chars_of(path);
        proof {
            lemma_last_index(s@, '/', s@.len() as int);
            assert(s@.subrange(0, s@.len() as int) =~= s@);
        }
        let start: usize = match last_index_of(&s, '/', 0, s.len()) {
            Some(i) => i + 1,
            None => 0,
        };
        let ghost name = s@.subrange(start as int, s@.len() as int);
        proof {
            lemma_last_index(name, '.', name.len() as int);
        }
        let dot = last_index_of(&s, '.', start, s.len());
        match dot {
            Some(d) => {
                if d == start {
                    return None;
                }
                let n = s.len() - (d + 1);
                let ghost ext = s@.subrange(d + 1, s@.len() as int);
                assert(ext =~= name.subrange(d - start + 1, name.len() as int));
                if n == 3 && s[d + 1] == 'p' && s[d + 2] == 'n' && s[d + 3] == 'g' {
                    assert(ext =~= seq!['p', 'n', 'g']);
                    Some(IconFormat::Png)
                } else if n == 3 && s[d + 1] == 's' && s[d + 2] == 'v' && s[d + 3] == 'g' {
                    assert(ext =~= seq!['s', 'v', 'g']);
                    Some(IconFormat::Svg)
                } else {
                    proof {
                        if ext == seq!['p', 'n', 'g'] || ext == seq!['s', 'v', 'g'] {
                            assert(ext.len() == 3 && ext[0] == s@[d + 1] && ext[1] == s@[d + 2] && ext[2] == s@[d + 3]);
                        }
                    }
                    None
                }
            },
            None => None,
        }
    }

    /// Opaque pixels from 8-bit RGB samples; nothing when the buffer does not
    /// hold whole pixels.
    pub fn from_rgb(buf: &Vec<u8>) -> (r: Option<Vec<u32>>)
        ensures
            buf@.len() % 3 != 0 ==> r is None,
            buf@.len() % 3 == 0 ==> (r matches Some(d) && d@.len() == buf@.len() / 3 && forall|k: int|
                0 <= k < d@.len() ==> #[trigger] d@[k] == argb(
                    0xff,
                    buf@[3 * k],
                    buf@[3 * k + 1],
                    buf@[3 * k + 2],
                )),
    {
        if buf.len() % 3 != 0 {
            return None;
        }
        let n = buf.len() / 3;
        let mut d: Vec<u32> = Vec::new();
        let mut k: usize = 0;
        while k < n
            invariant
                n == buf@.len() / 3,
                buf@.len() % 3 == 0,
                buf@.len() <= usize::MAX,
                k <= n,
                d@.len() == k,
                forall|j: int|
                    0 <= j < k ==> #[trigger] d@[j] == argb(0xff, buf@[3 * j], buf@[3 * j + 1], buf@[3 * j + 2]),
            decreases n - k,
        {
            assert(3 * k + 2 < buf@.len()) by (nonlinear_arith)
                requires
                    k < n,
                    n == buf@.len() / 3,
                    buf@.len() % 3 == 0,
            ;
            d.push(pack(0xff, buf[3 * k], buf[3 * k + 1], buf[3 * k + 2]));
            k += 1;
        }
        Some(d)
    }

    /// Pixels from 8-bit gray and alpha samples; nothing when the buffer does
    /// not hold whole pixels.
    pub fn from_gray_alpha(buf: &Vec<u8>) -> (r: Option<Vec<u32>>)
        ensures
            buf@.len() % 2 != 0 ==> r is None,
            buf@.len() % 2 == 0 ==> (r matches Some(d) && d@.len() == buf@.len() / 2 && forall|k: int|
                0 <= k < d@.len() ==> #[trigger] d@[k] == argb(
                    buf@[2 * k + 1],
                    buf@[2 * k],
                    buf@[2 * k],
                    buf@[2 * k],
                )),
    {
        if buf.len() % 2 != 0 {
            return None;
        }
        let n = buf.len() / 2;
        let mut d: Vec<u32> = Vec::new();
        let mut k: usize = 0;
        while k < n
            invariant
                n == buf@.len() / 2,
                buf@.len() % 2 == 0,
                buf@.len() <= usize::MAX,
                k <= n,
                d@.len() == k,
                forall|j: int|
                    0 <= j < k ==> #[trigger] d@[j] == argb(buf@[2 * j + 1], buf@[2 * j], buf@[2 * j], buf@[2 * j]),
            decreases n - k,
        {
            assert(2 * k + 1 < buf@.len()) by (nonlinear_arith)
                requires
                    k < n,
                    n == buf@.len() / 2,
                    buf@.len() % 2 == 0,
            ;
            let x = buf[2 * k];
            d.push(pack(buf[2 * k + 1], x, x, x));
            k += 1;
        }
        Some(d)
    }

    /// Opaque pixels from 8-bit gray samples.
    pub fn from_gray(buf: &Vec<u8>) -> (r: Vec<u32>)
        ensures
            r@.len() == buf@.len(),
            forall|k: int| 0 <= k < r@.len() ==> #[trigger] r@[k] == argb(0xff, buf@[k], buf@[k], buf@[k]),
    {
        let mut d: Vec<u32> = Vec::new();
        let mut k: usize = 0;
        while k < buf.len()
            invariant
                k <= buf@.len(),
                d@.len() == k,
                forall|j: int| 0 <= j < k ==> #[trigger] d@[j] == argb(0xff, buf@[j], buf@[j], buf@[j]),
            decreases buf.len() - k,
        {
            d.push(pack(0xff, buf[k], buf[k], buf[k]));
            k += 1;
        }
        d
    }
}

impl IconInner {
    /// An icon not loaded yet.
    pub fn new(path: String) -> (r: IconInner)
        ensures
            r matches IconInner::Pending(p) && p@ == path@,
    {
        IconInner::Pending(path)
    }

    /// The decoded icon, once loaded.
    pub fn loaded(&self) -> (r: Option<&Loaded>)
        ensures
            self matches IconInner::Loaded(l) ==> r == Some(l),
            !(self is Loaded) ==> r is None,
    {
        match self {
            IconInner::Loaded(l) => Some(l),
            _ => None,
        }
    }

    /// The file still to decode, if any.
    pub fn pending_path(&self) -> (r: Option<&String>)
        ensures
            self matches IconInner::Pending(p) ==> r == Some(p),
            !(self is Pending) ==> r is None,
    {
        match self {
            IconInner::Pending(p) => Some(p),
            _ => None,
        }
    }

    /// Records the outcome of decoding a pending icon: it becomes loaded, or
    /// failed. Returns whether the icon is loaded; a failed icon is not tried
    /// again, and a loaded one stays.
    pub fn load(&mut self, decoded: Option<Loaded>) -> (r: Option<()>)
        ensures
            *old(self) is Pending ==> match decoded {
                Some(l) => *final(self) == IconInner::Loaded(l) && r is Some,
                None => *final(self) == IconInner::Failed && r is None,
            },
            *old(self) is Failed ==> *final(self) == IconInner::Failed && r is None,
            *old(self) is Loaded ==> *final(self) == *old(self) && r is Some,
    {
        match self {
            IconInner::Pending(_) => {},
            IconInner::Failed => {
                return None;
            },
            IconInner::Loaded(_) => {
                return Some(());
            },
        }
        match decoded {
            Some(l) => {
                *self = IconInner::Loaded(l);
                Some(())
            },
            None => {
                *self = IconInner::Failed;
                None
            },
        }
    }
}

} // verus!
