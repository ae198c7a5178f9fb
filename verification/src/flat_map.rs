//! A rectangular board stored row after row in one vector.

use vstd::prelude::*;
use crate::pos::Pos;

verus! {

/// A board of `width` columns and `height` rows whose cells lie row after
/// row in `elements`.
#[derive(Debug, Clone, PartialEq, Eq)]
pub struct FlatMap<T> {
    pub width: usize,
    pub height: usize,
    pub elements: Vec<T>,
}

/// Exchanges two elements of a vector in place.
///
/// Calls `<[T]>::swap`, which std documents to exchange the elements at the
/// two indices, to leave the others alone, and to panic when an index is out
/// of bounds.
#[verifier::external_body]
fn swap_elements<T>(elements: &mut Vec<T>, a: usize, b: usize)
    requires
        a < old(elements)@.len(),
        b < old(elements)@.len(),
    ensures
        final(elements)@ == old(elements)@.update(a as int, old(elements)@[b as int]).update(
            b as int,
            old(elements)@[a as int],
        ),
{
    elements.swap(a, b);
}

impl<T> FlatMap<T> {
    /// The board holds exactly one element per cell.
    pub open spec fn wf(&self) -> bool {
        self.elements@.len() == self.width * self.height
    }

    /// Whether `pos` names a cell of the board.
    pub open spec fn covers(&self, pos: Pos) -> bool {
        pos.x < self.width && pos.y < self.height
    }

    /// The place of the cell `pos` in `elements`.
    pub open spec fn index_of(&self, pos: Pos) -> int {
        pos.y * self.width + pos.x
    }

    /// The element in the cell `pos`, for a cell of the board.
    pub open spec fn at(&self, pos: Pos) -> T {
        self.elements@[self.index_of(pos)]
    }

    /// Every cell of the board has its own place in `elements`.
    pub proof fn lemma_index_in_range(&self, pos: Pos)
        requires
            self.wf(),
            self.covers(pos),
        ensures
            0 <= self.index_of(pos) < self.elements@.len(),
            self.index_of(pos) <= usize::MAX,
    {
        assert(self.elements@.len() == self.elements.len());
        let w = self.width as int;
        let h = self.height as int;
        let x = pos.x as int;
        let y = pos.y as int;
        assert(0 <= y * w && y * w + w <= h * w) by (nonlinear_arith)
            requires
                0 <= y < h,
                0 <= w,
        ;
    }

    /// Two different cells of the board have different places.
    pub proof fn lemma_index_injective(&self, p: Pos, q: Pos)
        requires
            self.covers(p),
            self.covers(q),
            self.index_of(p) == self.index_of(q),
        ensures
            p == q,
    {
        let w = self.width as int;
        if p.y < q.y {
            assert((p.y + 1) * w <= q.y * w) by (nonlinear_arith)
                requires
                    p.y + 1 <= q.y,
                    0 <= w,
            ;
            assert((p.y + 1) * w == p.y * w + w) by (nonlinear_arith);
        } else if q.y < p.y {
            assert((q.y + 1) * w <= p.y * w) by (nonlinear_arith)
                requires
                    q.y + 1 <= p.y,
                    0 <= w,
            ;
            assert((q.y + 1) * w == q.y * w + w) by (nonlinear_arith);
        }
    }

    /// The place of the cell `pos` in `elements`.
    #[inline(always)]
    pub fn get_index(&self, pos: &Pos) -> (r: usize)
        requires
            self.index_of(*pos) <= usize::MAX,
        ensures
            r == self.index_of(*pos),
            self.wf() && self.covers(*pos) ==> r < self.elements@.len(),
    {
        proof {
            assert(0 <= pos.y * self.width) by (nonlinear_arith);
            if self.wf() && self.covers(*pos) {
                self.lemma_index_in_range(*pos);
            }
        }
        (pos.y as usize) * self.width + (pos.x as usize)
    }

    /// The cell whose place in `elements` is `index`.
    #[inline]
    pub fn get_pos(&self, index: usize) -> (r: Pos)
        requires
            self.width > 0,
            self.width <= u32::MAX,
            index / self.width <= u32::MAX,
        ensures
            r.x == index % self.width,
            r.y == index / self.width,
            self.index_of(r) == index,
    {
        proof {
            vstd::arithmetic::div_mod::lemma_fundamental_div_mod(index as int, self.width as int);
            vstd::arithmetic::div_mod::lemma_mod_bound(index as int, self.width as int);
            assert((index / self.width) * self.width == self.width * (index / self.width))
                by (nonlinear_arith);
        }
        Pos { x: (index % self.width) as u32, y: (index / self.width) as u32 }
    }

    /// The element in the cell `pos`, or `None` off the board.
    pub fn try_index(&self, pos: &Pos) -> (r: Option<&T>)
        requires
            self.wf(),
        ensures
            r == (if self.covers(*pos) {
                Some(&self.at(*pos))
            } else {
                None::<&T>
            }),
    {
        if (pos.y as usize) < self.height && (pos.x as usize) < self.width {
            proof {
                self.lemma_index_in_range(*pos);
            }
            let i: usize = self.get_index(pos);
            Some(&self.elements[i])
        } else {
            None
        }
    }

    /// Exchanges the elements of two cells of the board.
    #[inline]
    pub fn swap(&mut self, pos1: &Pos, pos2: &Pos)
        requires
            old(self).wf(),
            old(self).covers(*pos1),
            old(self).covers(*pos2),
        ensures
            final(self).wf(),
            final(self).width == old(self).width,
            final(self).height == old(self).height,
            final(self).at(*pos1) == old(self).at(*pos2),
            final(self).at(*pos2) == old(self).at(*pos1),
            forall|p: Pos|
                old(self).covers(p) && p != *pos1 && p != *pos2 ==> #[trigger] final(self).at(p)
                    == old(self).at(p),
    {
        proof {
            self.lemma_index_in_range(*pos1);
            self.lemma_index_in_range(*pos2);
        }
        let a: usize = self.get_index(pos1);
        let b: usize = self.get_index(pos2);
        proof {
            assert forall|p: Pos| old(self).covers(p) && p != *pos1 && p != *pos2 implies old(
                self,
            ).index_of(p) != a && old(self).index_of(p) != b by {
                if old(self).index_of(p) == a {
                    old(self).lemma_index_injective(p, *pos1);
                }
                if old(self).index_of(p) == b {
                    old(self).lemma_index_injective(p, *pos2);
                }
            }
            assert forall|p: Pos| old(self).covers(p) implies 0 <= #[trigger] old(self).index_of(p)
                < old(self).elements@.len() by {
                old(self).lemma_index_in_range(p);
            }
        }
        swap_elements(&mut self.elements, a, b);
    }
}

} // verus!
