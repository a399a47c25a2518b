//! The mathematical model of a ring zipper: a finite sequence together with
//! the index of its focused element, and the laws that stepping, resetting,
//! refocusing and traversing obey.

use crate::zipper::SequenceDirection;
use vstd::arithmetic::div_mod::{lemma_add_mod_noop_right, lemma_fundamental_div_mod_converse};
use vstd::prelude::*;
use vstd::seq_lib::{lemma_multiset_commutative, lemma_seq_union_to_multiset_commutative};

verus! {

/// The index `i` folded onto a ring of `n` positions. A ring without
/// positions folds every index onto `0`.
pub open spec fn wrap(i: int, n: nat) -> int {
    if n == 0 {
        0
    } else {
        i % (n as int)
    }
}

impl SequenceDirection {
    /// The change of the focus index that one step in this direction makes.
    pub open spec fn delta(self) -> int {
        match self {
            SequenceDirection::Original => 1,
            SequenceDirection::Reverse => -1,
        }
    }
}

/// A finite sequence read as a ring, with one position in focus.
#[verifier::ext_equal]
pub struct Ring<T> {
    /// The elements, in the order of the sequence the ring was made from.
    pub items: Seq<T>,
    /// The index in `items` of the focused element.
    pub focus: int,
}

impl<T> Ring<T> {
    pub open spec fn len(self) -> nat {
        self.items.len()
    }

    /// The focus names an element, or the ring is empty and the focus is `0`.
    pub open spec fn wf(self) -> bool {
        if self.len() == 0 {
            self.focus == 0
        } else {
            0 <= self.focus < self.len()
        }
    }

    /// The focused element; an empty ring has none.
    pub open spec fn focused(self) -> Option<T> {
        if self.len() == 0 {
            None
        } else {
            Some(self.items[self.focus])
        }
    }

    /// The ring with its focus moved by `offset` positions, wrapping at
    /// either end. A negative offset moves towards the start.
    pub open spec fn shifted(self, offset: int) -> Ring<T> {
        Ring { items: self.items, focus: wrap(self.focus + offset, self.len()) }
    }

    /// The element `offset` positions away from the focus.
    pub open spec fn at(self, offset: int) -> T {
        self.items[wrap(self.focus + offset, self.len())]
    }

    /// One step in the direction `dir`.
    pub open spec fn step(self, dir: SequenceDirection) -> Ring<T> {
        self.shifted(dir.delta())
    }

    /// `count` steps in the direction `dir`, one after the other.
    pub open spec fn steps(self, dir: SequenceDirection, count: nat) -> Ring<T>
        decreases count,
    {
        if count == 0 {
            self
        } else {
            self.step(dir).steps(dir, (count - 1) as nat)
        }
    }

    /// The ring focused on the first element of the sequence.
    pub open spec fn at_start(self) -> Ring<T> {
        Ring { items: self.items, focus: 0 }
    }

    /// The ring focused on the last element of the sequence.
    pub open spec fn at_end(self) -> Ring<T> {
        Ring {
            items: self.items,
            focus: if self.len() == 0 {
                0
            } else {
                self.len() - 1
            },
        }
    }

    /// The least offset in `from..len()` whose element satisfies `pred`, or
    /// `len()` where there is none.
    pub open spec fn first_match(self, pred: spec_fn(T) -> bool, from: int) -> int
        decreases self.len() - from,
    {
        if from >= self.len() {
            self.len() as int
        } else if pred(self.at(from)) {
            from
        } else {
            self.first_match(pred, from + 1)
        }
    }

    /// The ring focused on the first element after the focus that satisfies
    /// `pred`, looking once round the ring. The focused element itself is
    /// looked at last, so the focus stays where it is when nothing else
    /// matches.
    pub open spec fn refocused(self, pred: spec_fn(T) -> bool) -> Ring<T> {
        self.shifted(self.first_match(pred, 1))
    }

    /// All elements, starting at the focus and going round the ring once in
    /// the direction `dir`.
    pub open spec fn traversal(self, dir: SequenceDirection) -> Seq<T> {
        Seq::new(self.len(), |i: int| self.at(i * dir.delta()))
    }
}

/// `wrap` on the indices that are at most one lap away from the ring.
pub proof fn lemma_wrap_near(i: int, n: nat)
    requires
        n > 0,
        -(n as int) <= i < 2 * n,
    ensures
        wrap(i, n) == if i < 0 {
            i + n
        } else if i < n {
            i
        } else {
            i - n
        },
{
    if i < 0 {
        lemma_fundamental_div_mod_converse(i, n as int, -1, i + n);
    } else if i < n {
        lemma_fundamental_div_mod_converse(i, n as int, 0, i);
    } else {
        lemma_fundamental_div_mod_converse(i, n as int, 1, i - n);
    }
}

/// Folding an index that was already folded, then moved, is folding the sum.
pub proof fn lemma_wrap_add(i: int, j: int, n: nat)
    ensures
        wrap(wrap(i, n) + j, n) == wrap(i + j, n),
{
    if n > 0 {
        lemma_add_mod_noop_right(j, i, n as int);
    }
}

impl<T> Ring<T> {
    /// Moving the focus by any offset gives a well-formed ring with the same
    /// elements.
    pub proof fn lemma_shifted_wf(self, offset: int)
        ensures
            self.shifted(offset).wf(),
            self.shifted(offset).items == self.items,
    {
    }

    /// Two moves of the focus add up.
    pub proof fn lemma_shifted_twice(self, a: int, b: int)
        ensures
            self.shifted(a).shifted(b) == self.shifted(a + b),
    {
        lemma_wrap_add(self.focus + a, b, self.len());
    }

    /// Moving the focus by nothing, or by a whole lap either way, leaves a
    /// well-formed ring as it was.
    pub proof fn lemma_shifted_lap(self)
        requires
            self.wf(),
        ensures
            self.shifted(0) == self,
            self.shifted(self.len() as int) == self,
            self.shifted(-(self.len() as int)) == self,
    {
        if self.len() > 0 {
            lemma_wrap_near(self.focus, self.len());
            lemma_wrap_near(self.focus + self.len(), self.len());
            lemma_wrap_near(self.focus - self.len(), self.len());
        }
    }

    /// `count` steps move the focus by `count` positions in the direction of
    /// the steps.
    pub proof fn lemma_steps_shift(self, dir: SequenceDirection, count: nat)
        requires
            self.wf(),
        ensures
            self.steps(dir, count) == self.shifted(count * dir.delta()),
        decreases count,
    {
        if count == 0 {
            self.lemma_shifted_lap();
        } else {
            let next = self.step(dir);
            self.lemma_shifted_wf(dir.delta());
            next.lemma_steps_shift(dir, (count - 1) as nat);
            self.lemma_shifted_twice(dir.delta(), (count - 1) * dir.delta());
        }
    }

    /// A full lap of steps, in either direction, returns the focus to the
    /// element it started on.
    pub proof fn lemma_full_lap(self, dir: SequenceDirection)
        requires
            self.wf(),
        ensures
            self.steps(dir, self.len()) == self,
    {
        self.lemma_steps_shift(dir, self.len());
        self.lemma_shifted_lap();
        assert(self.len() * 1 == self.len() as int && self.len() * (-1) == -(self.len() as int))
            by (nonlinear_arith);
    }

    /// A step forward is undone by a step backward, and a step backward by a
    /// step forward.
    pub proof fn lemma_step_inverse(self)
        requires
            self.wf(),
        ensures
            self.step(SequenceDirection::Original).step(SequenceDirection::Reverse) == self,
            self.step(SequenceDirection::Reverse).step(SequenceDirection::Original) == self,
    {
        self.lemma_shifted_twice(1, -1);
        self.lemma_shifted_twice(-1, 1);
        self.lemma_shifted_lap();
    }

    /// Resetting twice is resetting once: the focus is on the last element
    /// after one reset to the end and after two, and on the first element
    /// after one reset to the start and after two.
    pub proof fn lemma_reset_idempotent(self)
        ensures
            self.at_end().at_end() == self.at_end(),
            self.at_start().at_start() == self.at_start(),
            self.at_end().wf(),
            self.at_start().wf(),
            self.len() > 0 ==> self.at_end().focused() == Some(self.items.last()),
            self.len() > 0 ==> self.at_start().focused() == Some(self.items.first()),
    {
    }

    /// What `first_match` finds: nothing from `from` up to the offset it
    /// returns satisfies `pred`, and the element at that offset does, unless
    /// the offset is `len()`.
    pub proof fn lemma_first_match(self, pred: spec_fn(T) -> bool, from: int)
        requires
            from <= self.len(),
        ensures
            from <= self.first_match(pred, from) <= self.len(),
            forall|j: int| from <= j < self.first_match(pred, from) ==> !pred(#[trigger] self.at(j)),
            self.first_match(pred, from) < self.len() ==> pred(
                self.at(self.first_match(pred, from)),
            ),
        decreases self.len() - from,
    {
        if from < self.len() && !pred(self.at(from)) {
            self.lemma_first_match(pred, from + 1);
        }
    }

    /// An offset that has what `lemma_first_match` states is the one that
    /// `first_match` returns.
    pub proof fn lemma_first_match_unique(self, pred: spec_fn(T) -> bool, from: int, k: int)
        requires
            from <= k <= self.len(),
            forall|j: int| from <= j < k ==> !pred(#[trigger] self.at(j)),
            k < self.len() ==> pred(self.at(k)),
        ensures
            self.first_match(pred, from) == k,
        decreases k - from,
    {
        if from < k {
            self.lemma_first_match_unique(pred, from + 1, k);
        }
    }

    /// Refocusing is a run of steps forward: as many as it takes to reach the
    /// first match, and never more than a lap.
    pub proof fn lemma_refocus_is_steps(self, pred: spec_fn(T) -> bool)
        requires
            self.wf(),
        ensures
            0 <= self.first_match(pred, 1) <= self.len(),
            self.refocused(pred) == self.steps(
                SequenceDirection::Original,
                self.first_match(pred, 1) as nat,
            ),
    {
        if self.len() > 0 {
            self.lemma_first_match(pred, 1);
        }
        self.lemma_steps_shift(SequenceDirection::Original, self.first_match(pred, 1) as nat);
    }

    /// Where exactly one element satisfies `pred`, refocusing ends on that
    /// element, wherever the focus was, after at most `len()` steps.
    pub proof fn lemma_refocus_converges(self, pred: spec_fn(T) -> bool, target: int)
        requires
            self.wf(),
            0 <= target < self.len(),
            pred(self.items[target]),
            forall|j: int| 0 <= j < self.len() && j != target ==> !pred(#[trigger] self.items[j]),
        ensures
            1 <= self.first_match(pred, 1) <= self.len(),
            self.refocused(pred) == self.shifted(self.first_match(pred, 1)),
            self.refocused(pred).items == self.items,
            self.refocused(pred).focus == target,
            self.refocused(pred).focused() == Some(self.items[target]),
    {
        let n = self.len();
        let k = self.first_match(pred, 1);
        self.lemma_first_match(pred, 1);
        if k == n {
            self.lemma_shifted_lap();
            if self.focus != target {
                let off = wrap(target - self.focus, n);
                lemma_wrap_near(target - self.focus, n);
                lemma_wrap_near(self.focus + off, n);
                assert(self.at(off) == self.items[target]);
            }
        }
    }

    /// Where no element satisfies `pred`, refocusing leaves the ring as it was.
    pub proof fn lemma_refocus_without_match(self, pred: spec_fn(T) -> bool)
        requires
            self.wf(),
            forall|j: int| 0 <= j < self.len() ==> !pred(#[trigger] self.items[j]),
        ensures
            self.refocused(pred) == self,
    {
        if self.len() > 0 {
            self.lemma_first_match(pred, 1);
        }
        self.lemma_shifted_lap();
    }

    /// The forward traversal is the sequence from the focus to its end,
    /// followed by the part before the focus.
    pub proof fn lemma_traversal_forward(self)
        requires
            self.wf(),
        ensures
            self.traversal(SequenceDirection::Original) == self.items.skip(self.focus)
                + self.items.take(self.focus),
    {
        let n = self.len();
        let t = self.traversal(SequenceDirection::Original);
        let r = self.items.skip(self.focus) + self.items.take(self.focus);
        assert forall|i: int| 0 <= i < n implies t[i] == r[i] by {
            lemma_wrap_near(self.focus + i, n);
        }
    }

    /// The reverse traversal of a ring with elements is the sequence from the
    /// focus back to its start, followed by the part after the focus read
    /// backwards.
    pub proof fn lemma_traversal_reverse(self)
        requires
            self.wf(),
            self.len() > 0,
        ensures
            self.traversal(SequenceDirection::Reverse) == self.items.take(
                self.focus + 1,
            ).reverse() + self.items.skip(self.focus + 1).reverse(),
    {
        let n = self.len();
        let t = self.traversal(SequenceDirection::Reverse);
        let r = self.items.take(self.focus + 1).reverse() + self.items.skip(
            self.focus + 1,
        ).reverse();
        assert forall|i: int| 0 <= i < n implies t[i] == r[i] by {
            lemma_wrap_near(self.focus - i, n);
        }
    }

    /// A traversal in either direction holds every element of the ring as
    /// often as the ring does.
    pub proof fn lemma_traversal_permutes(self, dir: SequenceDirection)
        requires
            self.wf(),
        ensures
            self.traversal(dir).len() == self.len(),
            self.traversal(dir).to_multiset() == self.items.to_multiset(),
    {
        match dir {
            SequenceDirection::Original => {
                let head = self.items.take(self.focus);
                let tail = self.items.skip(self.focus);
                assert(self.items =~= head + tail);
                self.lemma_traversal_forward();
                lemma_seq_union_to_multiset_commutative(tail, head);
            },
            SequenceDirection::Reverse => {
                if self.len() > 0 {
                    self.lemma_traversal_reverse();
                    let front = self.items.take(self.focus + 1);
                    let back = self.items.skip(self.focus + 1);
                    assert(self.items =~= front + back);
                    front.lemma_reverse_to_multiset();
                    back.lemma_reverse_to_multiset();
                    lemma_multiset_commutative(front.reverse(), back.reverse());
                    lemma_multiset_commutative(front, back);
                } else {
                    assert(self.traversal(dir) =~= self.items);
                }
            },
        }
    }
}

} // verus!
