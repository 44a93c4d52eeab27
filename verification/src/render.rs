//! The render-batch builder: per-frame vertex-position and texture-UV
//! buffers, plus a persistent quad index buffer.
//!
//! The index buffer starts as the six-entry template `[0, 1, 3, 1, 2, 3]`
//! and grows only by doubling: each new half is a copy of the buffer so
//! far, every entry offset by a third of the new length, so that each group
//! of six entries addresses the four vertices of its own quad. Indices are
//! a function of the quad count alone, so the buffer is never cleared or
//! shrunk between frames; only the position and UV buffers are per-frame.

use vstd::prelude::*;

use crate::geom::Frame;
use crate::geom::Rect;

verus! {

/// The largest index buffer whose entries still fit in `u16`:
/// `6 * 2^14` entries address `2^14` quads with vertex indices up to
/// `65535`.
pub const INDEX_LEN_LIMIT: usize = 98304;

/// The quad index template: two triangles over vertices `0..=3`.
pub open spec fn quad_template(j: int) -> int {
    if j == 0 {
        0
    } else if j == 1 {
        1
    } else if j == 2 {
        3
    } else if j == 3 {
        1
    } else if j == 4 {
        2
    } else {
        3
    }
}

/// The value index-buffer position `i` must hold: the template entry for
/// `i % 6`, offset by four vertices for each preceding quad.
pub open spec fn index_pattern(i: int) -> int {
    quad_template(i % 6) + 4 * (i / 6)
}

/// A length the index buffer can have: the template length six, doubled
/// any number of times.
pub open spec fn is_doubling_len(n: int) -> bool
    decreases n,
{
    if n == 6 {
        true
    } else if n < 6 {
        false
    } else {
        n % 2 == 0 && is_doubling_len(n / 2)
    }
}

/// Doubling lengths are sparse: the next one after `n` is `2 * n`.
proof fn lemma_doubling_le(n: int, m: int)
    requires
        is_doubling_len(n),
        is_doubling_len(m),
        n < m,
    ensures
        2 * n <= m,
    decreases m,
{
    if m / 2 == n {
    } else if n < m / 2 {
        lemma_doubling_le(n, m / 2);
    } else {
        lemma_doubling_le(m / 2, n);
    }
}

/// Every doubling length is a positive multiple of six.
proof fn lemma_doubling_six(n: int)
    requires
        is_doubling_len(n),
    ensures
        n % 6 == 0,
        n >= 6,
    decreases n,
{
    if n == 6 {
        vstd::arithmetic::div_mod::lemma_fundamental_div_mod_converse(6, 6, 1, 0);
    } else {
        lemma_doubling_six(n / 2);
        vstd::arithmetic::div_mod::lemma_fundamental_div_mod(n, 2);
        vstd::arithmetic::div_mod::lemma_fundamental_div_mod(n / 2, 6);
        let m = (n / 2) / 6;
        vstd::arithmetic::div_mod::lemma_fundamental_div_mod_converse(n, 6, 2 * m, 0);
    }
}

/// The accumulated render batch.
pub struct RenderData {
    /// Quad index buffer; grows by doubling and persists across frames.
    pub index: Vec<u16>,
    /// One world-space rect per visible sprite, in discovery order.
    pub sprite_pos: Vec<Rect>,
    /// One texture frame per visible sprite, parallel to `sprite_pos`.
    pub tex_pos: Vec<Frame>,
}

impl RenderData {
    /// The index buffer is a whole number of doublings of the six-entry
    /// template, every entry follows the quad pattern, and every entry
    /// fits its element type.
    pub open spec fn index_wf(self) -> bool {
        &&& is_doubling_len(self.index@.len() as int)
        &&& self.index@.len() <= INDEX_LEN_LIMIT
        &&& forall|i: int|
            0 <= i < self.index@.len() ==> self.index@[i] as int == index_pattern(i)
    }

    pub open spec fn wf(self) -> bool {
        &&& self.index_wf()
        &&& self.sprite_pos@.len() == self.tex_pos@.len()
    }

    /// An empty batch with the six-entry index template.
    pub fn new() -> (r: RenderData)
        ensures
            r.wf(),
            r.sprite_pos@.len() == 0,
            r.tex_pos@.len() == 0,
            r.index@.len() == 6,
    {
        let mut index: Vec<u16> = Vec::new();
        index.push(0);
        index.push(1);
        index.push(3);
        index.push(1);
        index.push(2);
        index.push(3);
        let r = RenderData { index, sprite_pos: Vec::new(), tex_pos: Vec::new() };
        proof {
            assert forall|i: int| 0 <= i < r.index@.len() implies r.index@[i] as int
                == index_pattern(i) by {
                assert(i % 6 == i && i / 6 == 0) by (nonlinear_arith)
                    requires
                        0 <= i < 6,
                ;
            }
        }
        r
    }

    /// Appends one visible sprite's geometry: its rect and its frame.
    pub fn load(&mut self, rect: Rect, frame: Frame)
        ensures
            final(self).sprite_pos@ == old(self).sprite_pos@.push(rect),
            final(self).tex_pos@ == old(self).tex_pos@.push(frame),
            final(self).index == old(self).index,
    {
        self.sprite_pos.push(rect);
        self.tex_pos.push(frame);
    }

    /// Clears the per-frame buffers; the index buffer is left as it is.
    pub fn clear(&mut self)
        ensures
            final(self).sprite_pos@.len() == 0,
            final(self).tex_pos@.len() == 0,
            final(self).index == old(self).index,
    {
        self.sprite_pos.clear();
        self.tex_pos.clear();
    }

    /// Grows the index buffer by doubling until it holds at least `size`
    /// entries. Each doubling appends a copy of the buffer so far with
    /// every entry offset by a third of the new length, which extends the
    /// quad pattern; the buffer never shrinks.
    pub fn ensure_index_len(&mut self, size: usize)
        requires
            old(self).index_wf(),
            size <= INDEX_LEN_LIMIT,
        ensures
            final(self).index_wf(),
            final(self).index@.len() >= size,
            final(self).index@.len() >= old(self).index@.len(),
            final(self).sprite_pos == old(self).sprite_pos,
            final(self).tex_pos == old(self).tex_pos,
    {
        while self.index.len() < size
            invariant
                self.index_wf(),
                size <= INDEX_LEN_LIMIT,
                self.index@.len() >= old(self).index@.len(),
                self.sprite_pos == old(self).sprite_pos,
                self.tex_pos == old(self).tex_pos,
            decreases vstd::math::max(0, size - self.index@.len()),
        {
            let n = self.index.len();
            proof {
                reveal_with_fuel(is_doubling_len, 16);
                assert(is_doubling_len(INDEX_LEN_LIMIT as int));
                lemma_doubling_le(n as int, INDEX_LEN_LIMIT as int);
                lemma_doubling_six(n as int);
                vstd::arithmetic::div_mod::lemma_fundamental_div_mod(n as int, 6);
                vstd::arithmetic::div_mod::lemma_fundamental_div_mod_converse(
                    n as int,
                    3,
                    2 * (n as int / 6),
                    0,
                );
            }
            let offset = ((n / 3) * 2) as u16;
            let mut j: usize = 0;
            while j < n
                invariant
                    j <= n,
                    n + n <= INDEX_LEN_LIMIT,
                    is_doubling_len(n as int),
                    n % 6 == 0,
                    offset == 4 * (n as int / 6),
                    self.index@.len() == n + j,
                    forall|i: int|
                        0 <= i < self.index@.len() ==> self.index@[i] as int == index_pattern(i),
                    self.sprite_pos == old(self).sprite_pos,
                    self.tex_pos == old(self).tex_pos,
                decreases n - j,
            {
                let v = self.index[j];
                proof {
                    vstd::arithmetic::div_mod::lemma_fundamental_div_mod(n as int, 6);
                    vstd::arithmetic::div_mod::lemma_fundamental_div_mod(j as int, 6);
                    vstd::arithmetic::div_mod::lemma_mod_bound(j as int, 6);
                    vstd::arithmetic::div_mod::lemma_fundamental_div_mod_converse(
                        n as int + j as int,
                        6,
                        n as int / 6 + j as int / 6,
                        j as int % 6,
                    );
                    assert(index_pattern(n as int + j as int) == index_pattern(j as int) + 4 * (
                    n as int / 6));
                    vstd::arithmetic::div_mod::lemma_div_is_ordered(
                        n as int + j as int,
                        INDEX_LEN_LIMIT as int - 1,
                        6,
                    );
                    vstd::arithmetic::div_mod::lemma_fundamental_div_mod_converse(
                        INDEX_LEN_LIMIT as int - 1,
                        6,
                        16383,
                        5,
                    );
                    assert(index_pattern(n as int + j as int) <= 65535);
                }
                self.index.push(v + offset);
                j = j + 1;
            }
            proof {
                assert(is_doubling_len(2 * n as int));
            }
        }
    }

}

} // verus!
