use vstd::prelude::*;
use vstd::arithmetic::div_mod::lemma_fundamental_div_mod_converse;
use vstd::math::min;

use crate::filtered_lines::ContinuousMatch;

verus! {

/// Available space; lengths are in the same unit as the list metrics.
#[derive(Clone, Copy, Debug, PartialEq, Eq)]
pub struct Space {
    pub width: usize,
    pub height: usize,
}

/// Metrics of the list rows. Lengths are integers in a unit that the caller
/// chooses (pixels, or a fraction of a pixel); `scale` multiplies all of them.
#[derive(Clone, Copy, Debug, PartialEq, Eq)]
pub struct Params {
    pub font_size: u32,
    pub icon_size: Option<u32>,
    pub margin_top: u32,
    pub margin_bottom: u32,
    pub item_spacing: u32,
    pub hide_actions: bool,
}

/// The part of the filtered list that is shown in one frame.
#[derive(Clone, Copy, Debug, PartialEq, Eq)]
pub struct LayoutWindow {
    pub displayed_count: usize,
    pub skip_offset: usize,
    pub selected_row: usize,
}

pub open spec fn icon_len(p: Params) -> int {
    match p.icon_size {
        Some(s) => s as int,
        None => 0,
    }
}

/// Height of one row: the taller of the text and the icon.
pub open spec fn entry_height(p: Params, scale: int) -> int {
    if p.font_size >= icon_len(p) {
        p.font_size * scale
    } else {
        icon_len(p) * scale
    }
}

pub open spec fn spacing(p: Params, scale: int) -> int {
    p.item_spacing * scale
}

pub open spec fn margins(p: Params, scale: int) -> int {
    (p.margin_top + p.margin_bottom) * scale
}

/// Number of rows that fit in `height`, one less when a sub-action row is shown.
pub open spec fn rows_fitted(p: Params, scale: int, has_subname: bool, height: int) -> int {
    let pitch = entry_height(p, scale) + spacing(p, scale);
    let free = height + spacing(p, scale) - margins(p, scale);
    let rows = if pitch == 0 || free <= 0 {
        0
    } else {
        free / pitch
    };
    if has_subname {
        if rows >= 1 {
            rows - 1
        } else {
            0
        }
    } else {
        rows
    }
}

/// Height that `count` rows take, with one extra row when a sub-action row is
/// shown, including the margins and the spacing between rows.
pub open spec fn space_needed(p: Params, scale: int, count: int, has_subname: bool) -> int {
    let extra: int = if has_subname && !p.hide_actions {
        1
    } else {
        0
    };
    let rows = count + extra;
    let gaps = if count + 2 * extra >= 1 {
        count + 2 * extra - 1
    } else {
        0
    };
    rows * entry_height(p, scale) + gaps * spacing(p, scale) + margins(p, scale)
}

/// First visible item after the selection has moved: the window moves only
/// as far as needed to keep the selection in view. An empty window starts at
/// the selection.
pub open spec fn window_skip(displayed: int, selected: int, skip: int) -> int {
    if selected < skip || displayed == 0 {
        selected
    } else if selected >= skip + displayed {
        selected - displayed + 1
    } else {
        skip
    }
}

pub open spec fn window_row(displayed: int, selected: int, skip: int) -> int {
    let s = window_skip(displayed, selected, skip);
    if selected >= s {
        selected - s
    } else {
        0
    }
}

impl Params {
    /// Entry height, spacing and the sum of the vertical margins, scaled.
    pub fn common_bounds(&self, scale: u16) -> (r: (u64, u64, u64))
        ensures
            r.0 == entry_height(*self, scale as int),
            r.1 == spacing(*self, scale as int),
            r.2 == margins(*self, scale as int),
            r.0 <= 0xffff_ffff * 0xffff,
            r.1 <= 0xffff_ffff * 0xffff,
            r.2 <= 0x1_ffff_fffe * 0xffff,
    {
        let icon: u64 = match self.icon_size {
            Some(s) => s as u64,
            None => 0,
        };
        let font = self.font_size as u64;
        let top = self.margin_top as u64;
        let bottom = self.margin_bottom as u64;
        let spacing = self.item_spacing as u64;
        assert(font * scale <= 0xffff_ffff * 0xffff) by (nonlinear_arith)
            requires font <= 0xffff_ffff, scale <= 0xffff;
        assert(icon * scale <= 0xffff_ffff * 0xffff) by (nonlinear_arith)
            requires icon <= 0xffff_ffff, scale <= 0xffff;
        assert(spacing * scale <= 0xffff_ffff * 0xffff) by (nonlinear_arith)
            requires spacing <= 0xffff_ffff, scale <= 0xffff;
        assert((top + bottom) * scale <= 0x1_ffff_fffe * 0xffff) by (nonlinear_arith)
            requires top + bottom <= 0x1_ffff_fffe, scale <= 0xffff;
        let height = if font >= icon {
            font * scale as u64
        } else {
            icon * scale as u64
        };
        (height, spacing * scale as u64, (top + bottom) * scale as u64)
    }

    /// Number of rows that fit in `space`; `has_subname` reserves one row for
    /// the sub-action line of the selected item.
    pub fn entries_fitted(&self, scale: u16, has_subname: bool, space: Space) -> (r: usize)
        ensures
            r == min(rows_fitted(*self, scale as int, has_subname, space.height as int), usize::MAX as int),
    {
        let (entry_height, item_spacing, margin) = self.common_bounds(scale);
        let pitch = entry_height + item_spacing;
        let rows: u128 = if pitch == 0 || space.height as u128 + item_spacing as u128 <= margin as u128 {
            0
        } else {
            let free = space.height as u128 + item_spacing as u128 - margin as u128;
            let p = pitch as u128;
            assert(free / p <= free) by (nonlinear_arith)
                requires p > 0, free >= 0;
            free / p
        };
        let rows = if has_subname {
            if rows >= 1 {
                rows - 1
            } else {
                0
            }
        } else {
            rows
        };
        if rows > usize::MAX as u128 {
            usize::MAX
        } else {
            rows as usize
        }
    }
}


impl Params {
    /// Height that `count` rows take, as `rows_fitted` counts them back.
    pub fn space_for_entries(&self, count: usize, scale: u16, has_subname: bool) -> (r: Space)
        ensures
            r.height == min(space_needed(*self, scale as int, count as int, has_subname), usize::MAX as int),
            r.width == 0,
    {
        let (entry_height, item_spacing, margin) = self.common_bounds(scale);
        let extra: u128 = if has_subname && !self.hide_actions {
            1
        } else {
            0
        };
        let rows = count as u128 + extra;
        let gaps = if count as u128 + 2 * extra >= 1 {
            count as u128 + 2 * extra - 1
        } else {
            0
        };
        let e = entry_height as u128;
        let sp = item_spacing as u128;
        assert(rows * e <= 0x1_0000_0000_0000_0000 * 0x1_0000_0000_0000) by (nonlinear_arith)
            requires rows <= 0x1_0000_0000_0000_0000, e <= 0x1_0000_0000_0000;
        assert(gaps * sp <= 0x1_0000_0000_0000_0000 * 0x1_0000_0000_0000) by (nonlinear_arith)
            requires gaps <= 0x1_0000_0000_0000_0000, sp <= 0x1_0000_0000_0000;
        let height = rows * e + gaps * sp + margin as u128;
        Space {
            width: 0,
            height: if height > usize::MAX as u128 {
                usize::MAX
            } else {
                height as usize
            },
        }
    }

    /// Lays out one frame: how many rows fit, the first visible item and the
    /// row of the selection, given the first visible item of the last frame.
    pub fn fit(
        &self,
        scale: u16,
        has_subitems: bool,
        space: Space,
        selected_item: usize,
        skip_offset: usize,
    ) -> (r: LayoutWindow)
        ensures
            r.displayed_count == min(
                rows_fitted(*self, scale as int, has_subitems && !self.hide_actions, space.height as int),
                usize::MAX as int,
            ),
            r.skip_offset == window_skip(r.displayed_count as int, selected_item as int, skip_offset as int),
            r.selected_row == window_row(r.displayed_count as int, selected_item as int, skip_offset as int),
    {
        let displayed = self.entries_fitted(scale, has_subitems && !self.hide_actions, space);
        scroll_window(displayed, selected_item, skip_offset)
    }
}

/// The window of `displayed` rows that shows `selected`, moved as little as
/// possible from the window that started at `skip`.
pub fn scroll_window(displayed: usize, selected: usize, skip: usize) -> (r: LayoutWindow)
    ensures
        r.displayed_count == displayed,
        r.skip_offset == window_skip(displayed as int, selected as int, skip as int),
        r.selected_row == window_row(displayed as int, selected as int, skip as int),
{
    let new_skip = if selected < skip || displayed == 0 {
        selected
    } else if selected - skip >= displayed {
        selected - displayed + 1
    } else {
        skip
    };
    LayoutWindow {
        displayed_count: displayed,
        skip_offset: new_skip,
        selected_row: if selected >= new_skip {
            selected - new_skip
        } else {
            0
        },
    }
}

/// Whenever at least one row is shown, the window holds the selection; and
/// from a window that held the previous selection it moves by no more than
/// the selection did, in the same direction.
pub proof fn lemma_window_keeps_selection(
    displayed: nat,
    selected: nat,
    skip: nat,
    prior_selected: nat,
)
    requires
        displayed > 0,
    ensures
        window_skip(displayed as int, selected as int, skip as int) <= selected
            < window_skip(displayed as int, selected as int, skip as int) + displayed,
        window_row(displayed as int, selected as int, skip as int) == selected - window_skip(
            displayed as int,
            selected as int,
            skip as int,
        ),
        window_row(displayed as int, selected as int, skip as int) < displayed,
        skip <= prior_selected < skip + displayed ==> {
            let moved = window_skip(displayed as int, selected as int, skip as int) - skip;
            let stepped = selected - prior_selected;
            if stepped >= 0 {
                0 <= moved <= stepped
            } else {
                stepped <= moved <= 0
            }
        },
{
}

/// The height that `space_for_entries` gives for `count` rows is read back by
/// `entries_fitted` as exactly `count` rows.
pub proof fn lemma_space_for_entries_inverse(p: Params, scale: nat, count: nat, has_subname: bool)
    requires
        entry_height(p, scale as int) > 0,
    ensures
        rows_fitted(
            p,
            scale as int,
            has_subname && !p.hide_actions,
            space_needed(p, scale as int, count as int, has_subname),
        ) == count,
{
    let e = entry_height(p, scale as int);
    let sp = spacing(p, scale as int);
    let m = margins(p, scale as int);
    let x: int = if has_subname && !p.hide_actions {
        1
    } else {
        0
    };
    assert(sp >= 0) by (nonlinear_arith)
        requires sp == p.item_spacing * scale;
    assert(m >= 0) by (nonlinear_arith)
        requires m == (p.margin_top + p.margin_bottom) * scale;
    let h = space_needed(p, scale as int, count as int, has_subname);
    let pitch = e + sp;
    if count == 0 && x == 0 {
        assert(h == m) by (nonlinear_arith)
            requires h == (count + x) * e + 0 * sp + m, count + x == 0;
        lemma_fundamental_div_mod_converse(sp, pitch, 0, sp);
    } else {
        let free = h + sp - m;
        assert(free == (count + x) * pitch + x * sp) by (nonlinear_arith)
            requires
                h == (count + x) * e + (count + 2 * x - 1) * sp + m,
                free == h + sp - m,
                pitch == e + sp,
        ;
        lemma_fundamental_div_mod_converse(free, pitch, count + x, x * sp);
        assert(free > 0) by (nonlinear_arith)
            requires free == (count + x) * pitch + x * sp, count + x >= 1, pitch > 0, sp >= 0, x >= 0;
    }
}

/// Whether position `k` lies in one of the first `n` runs.
pub open spec fn in_runs(runs: Seq<ContinuousMatch>, n: int, k: int) -> bool {
    exists|j: int| 0 <= j < n && #[trigger] run_covers(runs[j], k)
}

pub open spec fn run_covers(run: ContinuousMatch, k: int) -> bool {
    run.start <= k < run.start + run.len
}

/// Which of `len` glyphs of a name to draw in the match color.
pub fn highlight_mask(len: usize, runs: &Vec<ContinuousMatch>) -> (r: Vec<bool>)
    ensures
        r@.len() == len,
        forall|k: int| 0 <= k < len ==> #[trigger] r@[k] == in_runs(runs@, runs@.len() as int, k),
{
    let mut mask: Vec<bool> = Vec::new();
    let mut k: usize = 0;
    while k < len
        invariant
            k <= len,
            mask@.len() == k,
            forall|x: int| 0 <= x < k ==> !#[trigger] mask@[x],
        decreases len - k,
    {
        mask.push(false);
        k += 1;
    }
    let mut i: usize = 0;
    while i < runs.len()
        invariant
            i <= runs@.len(),
            mask@.len() == len,
            forall|x: int| 0 <= x < len ==> #[trigger] mask@[x] == in_runs(runs@, i as int, x),
        decreases runs.len() - i,
    {
        let run = runs[i];
        let end: usize = if run.len > len || run.start > len - run.len {
            len
        } else {
            run.start + run.len
        };
        let mut x: usize = run.start;
        let ghost before = mask@;
        while x < end
            invariant
                run == runs@[i as int],
                run.start <= x,
                x <= end || x == run.start,
                end <= run.start + run.len,
                end <= len,
                mask@.len() == len,
                forall|y: int|
                    0 <= y < len ==> #[trigger] mask@[y] == (before[y] || (run.start <= y < x)),
            decreases end - x,
        {
            mask.set(x, true);
            x += 1;
        }
        proof {
            assert forall|y: int| 0 <= y < len implies #[trigger] mask@[y] == in_runs(
                runs@,
                i + 1,
                y,
            ) by {
                if in_runs(runs@, i + 1, y) && !in_runs(runs@, i as int, y) {
                    let j = choose|j: int| 0 <= j < i + 1 && #[trigger] run_covers(runs@[j], y);
                    assert(j == i);
                }
                if mask@[y] && !before[y] {
                    assert(run_covers(runs@[i as int], y));
                }
            }
        }
        i += 1;
    }
    mask
}

/// Vertical offset of row `i` in units of the row pitch: rows below the
/// selected one move down by one row when its sub-action line is shown.
pub open spec fn row_slot(i: int, selected_row: int, has_subname: bool) -> int {
    if i > selected_row && has_subname {
        i + 1
    } else {
        i
    }
}

impl Params {
    /// Distance from the top of the list to the top of row `i`.
    pub fn row_offset(&self, scale: u16, i: usize, selected_row: usize, has_subname: bool) -> (r: u128)
        ensures
            r == row_slot(i as int, selected_row as int, has_subname) * (entry_height(
                *self,
                scale as int,
            ) + spacing(*self, scale as int)),
    {
        let (entry_height, item_spacing, _) = self.common_bounds(scale);
        let slot: u128 = if i > selected_row && has_subname {
            i as u128 + 1
        } else {
            i as u128
        };
        let pitch = entry_height as u128 + item_spacing as u128;
        assert(slot * pitch <= 0x1_0000_0000_0000_0000 * 0x2_0000_0000_0000) by (nonlinear_arith)
            requires slot <= 0x1_0000_0000_0000_0000, pitch <= 0x2_0000_0000_0000;
        slot * pitch
    }
}

} // verus!
