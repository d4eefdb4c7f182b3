//! Cursor and scroll state: which visible item is under the cursor and
//! which item is at the top of the viewport.
//!
//! The logical index `cursor_pos + scroll_pos` always names a valid visible
//! item (or 0 when there is none), for any sequence of moves, jumps and
//! viewport changes: every operation requires and re-establishes `inv`.

use vstd::prelude::*;
use vstd::arithmetic::div_mod::lemma_fundamental_div_mod;
use vstd::arithmetic::div_mod::lemma_fundamental_div_mod_converse_mod;

verus! {

/// Cursor row within the viewport plus scroll offset into the visible items.
pub struct CursorScroll {
    /// Row offset of the cursor within the viewport.
    pub cursor_pos: usize,
    /// Index, among the visible items, of the first row of the viewport.
    pub scroll_pos: usize,
    /// Number of rows the viewport can show.
    pub viewport_height: usize,
}

/// Where a move lands when clamped to the valid range.
pub open spec fn clamp_target(cur: int, delta: int, count: int) -> int {
    if count <= 0 {
        0
    } else if cur + delta < 0 {
        0
    } else if cur + delta > count - 1 {
        count - 1
    } else {
        cur + delta
    }
}

/// Where a move lands when wrapping modulo the visible-item count.
pub open spec fn wrap_target(cur: int, delta: int, count: int) -> int {
    if count <= 0 {
        0
    } else {
        (cur + delta) % count
    }
}

impl CursorScroll {
    /// The logical index of the item under the cursor among the visible items.
    pub open spec fn index(self) -> int {
        self.cursor_pos + self.scroll_pos
    }

    /// Consistency with a listing of `count` visible items: the logical
    /// index stays inside `[0, count)`, or at 0 when the listing is empty,
    /// and the cursor row stays inside the viewport.
    pub open spec fn inv(self, count: int) -> bool {
        &&& count == 0 ==> self.cursor_pos == 0 && self.scroll_pos == 0
        &&& count > 0 ==> self.cursor_pos + self.scroll_pos < count
        &&& self.viewport_height > 0 ==> self.cursor_pos < self.viewport_height
        &&& self.viewport_height == 0 ==> self.cursor_pos == 0
    }

    /// Fresh state: cursor at the top of an unscrolled viewport.
    pub fn new(viewport_height: usize) -> (r: Self)
        ensures
            r.cursor_pos == 0,
            r.scroll_pos == 0,
            r.viewport_height == viewport_height,
            forall|count: int| count >= 0 ==> r.inv(count),
    {
        CursorScroll { cursor_pos: 0, scroll_pos: 0, viewport_height }
    }

    /// Put the logical index on `target`, scrolling only as far as needed
    /// to bring the target into view (no recentering).
    pub fn place(&mut self, target: usize, count: usize)
        requires
            count == 0 ==> target == 0,
            count > 0 ==> target < count,
        ensures
            final(self).viewport_height == old(self).viewport_height,
            final(self).index() == target,
            final(self).inv(count as int),
            final(self).viewport_height == 0 ==> final(self).scroll_pos == target,
            final(self).viewport_height > 0 ==> {
                &&& old(self).scroll_pos <= target
                    < old(self).scroll_pos + final(self).viewport_height
                    ==> final(self).scroll_pos == old(self).scroll_pos
                &&& target < old(self).scroll_pos ==> final(self).scroll_pos == target
                &&& target >= old(self).scroll_pos + final(self).viewport_height
                    ==> final(self).scroll_pos == target - (final(self).viewport_height - 1)
            },
    {
        let vh = self.viewport_height;
        if vh == 0 {
            self.cursor_pos = 0;
            self.scroll_pos = target;
        } else if target < self.scroll_pos {
            self.scroll_pos = target;
            self.cursor_pos = 0;
        } else if target - self.scroll_pos < vh {
            self.cursor_pos = target - self.scroll_pos;
        } else {
            self.scroll_pos = target - (vh - 1);
            self.cursor_pos = vh - 1;
        }
    }

    /// Move the logical index by `delta`; wrap around the visible items
    /// when `wrap` is set, clamp to the ends otherwise. Total on an empty
    /// listing: the cursor stays at 0.
    pub fn move_cursor(&mut self, delta: isize, wrap: bool, count: usize)
        requires
            old(self).inv(count as int),
        ensures
            final(self).viewport_height == old(self).viewport_height,
            final(self).inv(count as int),
            final(self).index() == if wrap {
                wrap_target(old(self).index(), delta as int, count as int)
            } else {
                clamp_target(old(self).index(), delta as int, count as int)
            },
            final(self).viewport_height > 0 ==> {
                &&& old(self).scroll_pos <= final(self).index()
                    < old(self).scroll_pos + final(self).viewport_height
                    ==> final(self).scroll_pos == old(self).scroll_pos
                &&& final(self).index() < old(self).scroll_pos ==> final(self).scroll_pos == final(self).index()
                &&& final(self).index() >= old(self).scroll_pos + final(self).viewport_height
                    ==> final(self).scroll_pos == final(self).index() - (final(self).viewport_height - 1)
            },
    {
        let cur = self.cursor_pos + self.scroll_pos;
        if count == 0 {
            self.place(0, count);
            return;
        }
        let cnt = count as u128;
        let target: usize = if delta >= 0 {
            let dd = delta as u128;
            if wrap {
                let e = (dd % cnt) as usize;
                proof {
                    lemma_fundamental_div_mod(delta as int, count as int);
                    let qd = delta as int / count as int;
                    assert(qd * count as int == count as int * qd) by (nonlinear_arith);
                    if cur + e < count {
                        lemma_fundamental_div_mod_converse_mod(
                            cur + delta as int, count as int, qd, cur + e);
                    } else {
                        assert((qd + 1) * count as int == count as int * qd + count)
                            by (nonlinear_arith);
                        lemma_fundamental_div_mod_converse_mod(
                            cur + delta as int, count as int, qd + 1, cur + e - count);
                    }
                }
                if e < count - cur {
                    cur + e
                } else {
                    cur - (count - e)
                }
            } else {
                if dd >= cnt - cur as u128 {
                    count - 1
                } else {
                    cur + (dd as usize)
                }
            }
        } else {
            let dd = (-(delta as i128)) as u128;
            if wrap {
                let e = (dd % cnt) as usize;
                proof {
                    lemma_fundamental_div_mod(dd as int, count as int);
                    let qd = dd as int / count as int;
                    assert((-qd) * count as int == -(count as int * qd)) by (nonlinear_arith);
                    assert((-qd - 1) * count as int == -(count as int * qd) - count)
                        by (nonlinear_arith);
                    assert(cur + delta as int == (-qd) * count as int + (cur - e));
                    if cur >= e {
                        lemma_fundamental_div_mod_converse_mod(
                            cur + delta as int, count as int, -qd, cur - e);
                    } else {
                        lemma_fundamental_div_mod_converse_mod(
                            cur + delta as int, count as int, -qd - 1, cur - e + count);
                    }
                }
                if cur >= e {
                    cur - e
                } else {
                    cur + (count - e)
                }
            } else {
                if dd > cur as u128 {
                    0
                } else {
                    cur - (dd as usize)
                }
            }
        };
        self.place(target, count);
    }

    /// Absolute jump to `index`, clamped to the valid range. Total on an
    /// empty listing.
    pub fn move_to(&mut self, index: usize, count: usize)
        ensures
            final(self).viewport_height == old(self).viewport_height,
            final(self).inv(count as int),
            final(self).index() == clamp_target(index as int, 0, count as int),
            final(self).viewport_height > 0 ==> {
                &&& old(self).scroll_pos <= final(self).index()
                    < old(self).scroll_pos + final(self).viewport_height
                    ==> final(self).scroll_pos == old(self).scroll_pos
                &&& final(self).index() < old(self).scroll_pos ==> final(self).scroll_pos == final(self).index()
                &&& final(self).index() >= old(self).scroll_pos + final(self).viewport_height
                    ==> final(self).scroll_pos == final(self).index() - (final(self).viewport_height - 1)
            },
    {
        let target: usize = if count == 0 {
            0
        } else if index < count {
            index
        } else {
            count - 1
        };
        self.place(target, count);
    }

    /// Adopt a new viewport height, keeping the logical index in place.
    pub fn update_viewport(&mut self, height: usize, count: usize)
        requires
            old(self).inv(count as int),
        ensures
            final(self).viewport_height == height,
            final(self).inv(count as int),
            final(self).index() == old(self).index(),
    {
        let t = self.cursor_pos + self.scroll_pos;
        self.viewport_height = height;
        self.place(t, count);
    }

    /// Re-fit the state after the visible-item count changed, clamping the
    /// logical index to the new range.
    pub fn refit(&mut self, count: usize)
        requires
            old(self).cursor_pos + old(self).scroll_pos <= usize::MAX,
        ensures
            final(self).viewport_height == old(self).viewport_height,
            final(self).inv(count as int),
            final(self).index() == clamp_target(old(self).index(), 0, count as int),
    {
        let cur = self.cursor_pos + self.scroll_pos;
        self.move_to(cur, count);
    }
}

} // verus!
