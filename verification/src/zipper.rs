//! The ring zipper: the classic functional zipper over a sequence, closed
//! into a ring. Stepping past the last element arrives at the first, and
//! stepping back from the first arrives at the last.

use crate::ring::{lemma_wrap_near, Ring};
use crate::text::{format_listing, listing, texts_of};
use std::collections::VecDeque;
use std::fmt::Display;
use vstd::prelude::*;
use vstd::string::to_string_from_display_ensures;

verus! {

/// The direction to move in, relative to the order of the elements in the
/// source sequence.
#[derive(Clone, Copy, Debug, PartialEq, Eq, Structural)]
pub enum SequenceDirection {
    Original,
    Reverse,
}

/// A zipper opened over a sequence keeps one element in focus and can move
/// the focus in both directions. It holds two stacks: `forward` has the
/// focused element at its front and the later elements behind it; `backward`
/// has the earlier elements, nearest first.
///
/// Every operation consumes the zipper and gives back the updated one.
#[derive(Debug, PartialEq, Eq)]
pub struct Zipper<T> {
    /// A stack for elements occurring later in the sequence. Its first
    /// element is the one in focus.
    forward: VecDeque<T>,
    /// A stack for elements occurring earlier in the sequence.
    backward: VecDeque<T>,
}

/// The ring that a pair of stacks stands for: the backward stack read from
/// its far end, then the forward stack, with the focus between the two.
spec fn ring_of<T>(forward: Seq<T>, backward: Seq<T>) -> Ring<T> {
    Ring { items: backward.reverse() + forward, focus: backward.len() as int }
}

/// `pl`'s elements are moved onto the front of `nl`, one by one from
/// `pl`'s front, so they arrive in reverse order.
fn reset<T>(nl: &mut VecDeque<T>, pl: &mut VecDeque<T>)
    ensures
        final(pl)@ == Seq::<T>::empty(),
        final(nl)@ == old(pl)@.reverse() + old(nl)@,
{
    let ghost target = pl@.reverse() + nl@;
    while pl.len() > 0
        invariant
            pl@.reverse() + nl@ == target,
        decreases pl@.len(),
    {
        pop_push(pl, nl);
    }
}

/// The front element of `pop` becomes the front element of `push`.
fn pop_push<T>(pop: &mut VecDeque<T>, push: &mut VecDeque<T>)
    requires
        old(pop)@.len() > 0,
    ensures
        final(pop)@ == old(pop)@.drop_first(),
        final(push)@ == seq![old(pop)@.first()] + old(push)@,
{
    push.push_front(pop.pop_front().unwrap())
}

/// The exec predicate `p` answers on every element of `items` as the spec
/// predicate `pred` does.
pub open spec fn answers_as<T, P: FnMut(&T) -> bool>(
    p: P,
    pred: spec_fn(T) -> bool,
    items: Seq<T>,
) -> bool {
    forall|i: int, b: bool|
        0 <= i < items.len() && #[trigger] call_ensures(p, (&items[i],), b) ==> b == pred(items[i])
}

/// A search with `p` that starts on `ring` may stop after `k` steps: `p` can
/// have rejected the elements passed on the way, and can have accepted the
/// element arrived at. After a full lap the search stops whatever `p` says.
pub open spec fn may_stop_after<T, P: FnMut(&T) -> bool>(ring: Ring<T>, p: P, k: int) -> bool {
    &&& 1 <= k <= ring.len()
    &&& forall|j: int| 1 <= j < k ==> call_ensures(p, (&#[trigger] ring.at(j),), false)
    &&& k < ring.len() ==> call_ensures(p, (&ring.at(k),), true)
}

impl<T> View for Zipper<T> {
    type V = Ring<T>;

    /// The sequence in its original order, and the index of the focus.
    closed spec fn view(&self) -> Ring<T> {
        ring_of(self.forward@, self.backward@)
    }
}

impl<T: Clone> Clone for Zipper<T> {
    /// The copy has a clone of each element, in the same order, and the
    /// focus in the same place.
    fn clone(&self) -> (r: Self)
        ensures
            r@.wf(),
            r@.focus == self@.focus,
            r@.len() == self@.len(),
            forall|i: int| 0 <= i < self@.len() ==> cloned(self@.items[i], #[trigger] r@.items[i]),
    {
        proof {
            use_type_invariant(self);
        }
        let forward = self.forward.clone();
        let backward = self.backward.clone();
        Zipper { forward, backward }
    }
}

impl<T> Zipper<T> {
    /// The element count fits the machine, and while there is any element,
    /// one of them is in focus.
    #[verifier::type_invariant]
    spec fn inv(self) -> bool {
        &&& self.forward@.len() + self.backward@.len() <= usize::MAX
        &&& self.forward@.len() == 0 ==> self.backward@.len() == 0
    }

    /// Construct an empty `Zipper`.
    pub fn new() -> (z: Self)
        ensures
            z@ == (Ring { items: Seq::<T>::empty(), focus: 0 }),
    {
        Zipper { forward: VecDeque::new(), backward: VecDeque::new() }
    }

    /// Open a `Zipper` over `seq`, with the focus on its first element.
    pub fn from_sequence(seq: Vec<T>) -> (z: Self)
        ensures
            z@ == (Ring { items: seq@, focus: 0 }),
            seq@.len() > 0 ==> z@.focused() == Some(seq@[0]),
    {
        let ghost items = seq@;
        let count = seq.len();
        let mut forward: VecDeque<T> = VecDeque::new();
        for t in it: seq
            invariant
                it.seq() == items,
                items.len() == count,
                forward@ == items.take(it.index()),
        {
            forward.push_back(t);
        }
        Zipper { forward, backward: VecDeque::new() }
    }

    /// Move the focus to the next element in the sequence, in the provided
    /// direction. Stepping forward from the last element arrives at the
    /// first, and stepping back from the first arrives at the last. An empty
    /// zipper is left as it is.
    pub fn circle_step(self, dir: SequenceDirection) -> (r: Self)
        ensures
            r@ == self@.step(dir),
            r@.wf(),
    {
        proof {
            use_type_invariant(&self);
        }
        if self.size() == 0 {
            return self;
        }
        let ghost before = self@;
        let Zipper { mut forward, mut backward } = self;
        proof {
            lemma_wrap_near(before.focus + dir.delta(), before.len());
        }
        match dir {
            SequenceDirection::Original => {
                Self::advance_focus(&mut forward, &mut backward, dir);
                Self::rotate_stacks(&mut forward, &mut backward, dir);
            },
            SequenceDirection::Reverse => {
                Self::rotate_stacks(&mut forward, &mut backward, dir);
                Self::advance_focus(&mut forward, &mut backward, dir);
            },
        }
        Zipper { forward, backward }
    }

    /// Get the number of elements in the `Zipper`.
    pub fn size(&self) -> (n: usize)
        ensures
            n == self@.len(),
            self@.wf(),
    {
        proof {
            use_type_invariant(self);
        }
        self.forward.len() + self.backward.len()
    }

    /// Skip ahead in the sequence until the focus is on the first element
    /// that satisfies the provided predicate. At most one lap is made, and
    /// each element is asked about once; the element in focus comes last.
    /// Where nothing satisfies the predicate the focus ends where it began.
    pub fn refocus<P: FnMut(&T) -> bool>(self, mut p: P) -> (r: Self)
        requires
            forall|i: int| 0 <= i < self@.len() ==> call_requires(p, (&#[trigger] self@.items[i],)),
        ensures
            r@.wf(),
            r@.items == self@.items,
            self@.len() == 0 ==> r@ == self@,
            self@.len() > 0 ==> exists|k: int| #[trigger]
                may_stop_after(self@, p, k) && r@ == self@.shifted(k),
            forall|pred: spec_fn(T) -> bool| #[trigger]
                answers_as(p, pred, self@.items) ==> r@ == self@.refocused(pred),
    {
        let ghost start = self@;
        let ghost asked = p;
        let count = self.size();
        let mut zipper = self;
        let mut steps: usize = 0;
        let mut found = false;
        proof {
            start.lemma_shifted_lap();
        }
        while steps < count && !found
            invariant
                p == asked,
                start.wf(),
                count == start.len(),
                steps <= count,
                zipper@ == start.shifted(steps as int),
                forall|i: int|
                    0 <= i < start.len() ==> call_requires(p, (&#[trigger] start.items[i],)),
                forall|j: int|
                    1 <= j < steps ==> call_ensures(p, (&#[trigger] start.at(j),), false),
                steps >= 1 ==> call_ensures(p, (&start.at(steps as int),), found),
                steps == 0 ==> !found,
            decreases count - steps,
        {
            zipper = zipper.circle_step(SequenceDirection::Original);
            proof {
                start.lemma_shifted_twice(steps as int, 1);
            }
            steps = steps + 1;
            found = match zipper.focus() {
                Some(t) => p(t),
                None => true,
            };
        }
        proof {
            if count > 0 {
                let k = steps as int;
                assert(may_stop_after(start, p, k));
                assert forall|pred: spec_fn(T) -> bool| #[trigger]
                    answers_as(p, pred, start.items) implies zipper@ == start.refocused(pred) by {
                    start.lemma_first_match_unique(pred, 1, k);
                }
            }
        }
        zipper
    }

    /// Reset the focused element to the start of the original sequence.
    pub fn reset_start(self) -> (r: Self)
        ensures
            r@ == self@.at_start(),
            r@.wf(),
    {
        proof {
            use_type_invariant(&self);
        }
        let Zipper { mut forward, mut backward } = self;
        reset(&mut forward, &mut backward);
        Zipper { forward, backward }
    }

    /// Move everything onto the backward stack. No element is in focus
    /// afterwards: one step in reverse brings the last element back into
    /// focus.
    fn reset_end_impl(forward: &mut VecDeque<T>, backward: &mut VecDeque<T>)
        ensures
            final(forward)@ == Seq::<T>::empty(),
            final(backward)@ == old(forward)@.reverse() + old(backward)@,
    {
        reset(backward, forward);
    }

    /// Reset the focused element to the end of the original sequence.
    pub fn reset_end(self) -> (r: Self)
        ensures
            r@ == self@.at_end(),
            r@.wf(),
    {
        proof {
            use_type_invariant(&self);
        }
        if self.size() == 0 {
            return self;
        }
        let Zipper { mut forward, mut backward } = self;
        Self::reset_end_impl(&mut forward, &mut backward);
        Self::rotate_stacks(&mut forward, &mut backward, SequenceDirection::Reverse);
        Self::advance_focus(&mut forward, &mut backward, SequenceDirection::Reverse);
        Zipper { forward, backward }
    }

    /// Take one step in the requested direction: pop an element from the
    /// stack matching the direction of motion and push it onto the other.
    /// The stack to pop from must hold an element.
    fn advance_focus(
        forward: &mut VecDeque<T>,
        backward: &mut VecDeque<T>,
        dir: SequenceDirection,
    )
        requires
            dir == SequenceDirection::Original ==> old(forward)@.len() > 0,
            dir == SequenceDirection::Reverse ==> old(backward)@.len() > 0,
        ensures
            dir == SequenceDirection::Original ==> {
                &&& final(forward)@ == old(forward)@.drop_first()
                &&& final(backward)@ == seq![old(forward)@.first()] + old(backward)@
            },
            dir == SequenceDirection::Reverse ==> {
                &&& final(backward)@ == old(backward)@.drop_first()
                &&& final(forward)@ == seq![old(backward)@.first()] + old(forward)@
            },
    {
        match dir {
            SequenceDirection::Original => pop_push(forward, backward),
            SequenceDirection::Reverse => pop_push(backward, forward),
        }
    }

    /// Where the stack matching the direction of motion has run out of
    /// elements, refill it from the other stack. This is what closes the
    /// zipper into a ring.
    fn rotate_stacks(
        forward: &mut VecDeque<T>,
        backward: &mut VecDeque<T>,
        dir: SequenceDirection,
    )
        ensures
            dir == SequenceDirection::Original && old(forward)@.len() == 0 ==> {
                &&& final(forward)@ == old(backward)@.reverse() + old(forward)@
                &&& final(backward)@ == Seq::<T>::empty()
            },
            dir == SequenceDirection::Reverse && old(backward)@.len() == 0 ==> {
                &&& final(backward)@ == old(forward)@.reverse() + old(backward)@
                &&& final(forward)@ == Seq::<T>::empty()
            },
            !(dir == SequenceDirection::Original && old(forward)@.len() == 0) && !(dir
                == SequenceDirection::Reverse && old(backward)@.len() == 0) ==> {
                &&& final(forward)@ == old(forward)@
                &&& final(backward)@ == old(backward)@
            },
    {
        match dir {
            SequenceDirection::Original => {
                if forward.len() == 0 {
                    reset(forward, backward);
                }
            },
            SequenceDirection::Reverse => {
                if backward.len() == 0 {
                    Self::reset_end_impl(forward, backward);
                }
            },
        }
    }

    /// Retrieve the element focused by the `Zipper`. Only an empty zipper
    /// has none.
    pub fn focus(&self) -> (r: Option<&T>)
        ensures
            self@.wf(),
            match r {
                Some(t) => self@.focused() == Some(*t),
                None => self@.focused() is None,
            },
    {
        proof {
            use_type_invariant(self);
        }
        if self.forward.len() > 0 {
            Some(&self.forward[0])
        } else {
            None
        }
    }

    /// Yield a producer that goes through the elements in the order of the
    /// original sequence, starting at the currently focused element. The
    /// element following the last element of the sequence is the first.
    pub fn iter(&'_ self) -> (it: ZipperIter<'_, T>)
        ensures
            it.remaining() == self@.traversal(SequenceDirection::Original),
    {
        ZipperIter { zipper: self, count: self.size(), cursor: 0, dir: SequenceDirection::Original }
    }

    /// Yield a producer that goes through the elements against the order of
    /// the original sequence, starting at the currently focused element. The
    /// element following the first element of the sequence is the last.
    pub fn reverse_iter(&'_ self) -> (it: ZipperIter<'_, T>)
        ensures
            it.remaining() == self@.traversal(SequenceDirection::Reverse),
    {
        ZipperIter { zipper: self, count: self.size(), cursor: 0, dir: SequenceDirection::Reverse }
    }
}

impl<T: Display> Zipper<T> {
    /// `parts` holds, for each element of the forward traversal in turn, a
    /// text that the element's `Display` can have given.
    pub open spec fn rendered_by(self, parts: Seq<String>) -> bool {
        &&& parts.len() == self@.len()
        &&& forall|i: int|
            0 <= i < parts.len() ==> to_string_from_display_ensures::<T>(
                &self@.traversal(SequenceDirection::Original)[i],
                #[trigger] parts[i],
            )
    }

    /// Print the elements as a list, starting at the focus and going round
    /// the ring in the order of the sequence.
    pub fn to_string(&self) -> (s: String)
        ensures
            exists|parts: Seq<String>| #[trigger]
                self.rendered_by(parts) && s@ == listing(texts_of(parts)),
    {
        let ghost all = self@.traversal(SequenceDirection::Original);
        let mut parts: Vec<String> = Vec::new();
        let mut it = self.iter();
        loop
            invariant
                all == self@.traversal(SequenceDirection::Original),
                parts@.len() <= all.len(),
                it.remaining() == all.skip(parts@.len() as int),
                forall|i: int|
                    0 <= i < parts@.len() ==> to_string_from_display_ensures::<T>(
                        &all[i],
                        #[trigger] parts@[i],
                    ),
            ensures
                parts@.len() == all.len(),
            decreases all.len() - parts@.len(),
        {
            match it.next() {
                Some(t) => {
                    parts.push(t.to_string());
                },
                None => {
                    break ;
                },
            }
        }
        assert(self.rendered_by(parts@));
        format_listing(&parts)
    }
}

/// Yields the elements of the sequence the `Zipper` was opened over, starting
/// with the currently focused element and continuing round the ring until
/// all elements have been yielded. Nothing is copied and the zipper is not
/// changed.
pub struct ZipperIter<'a, T> {
    /// Sequence state.
    zipper: &'a Zipper<T>,
    /// Number of elements in the sequence.
    count: usize,
    /// Number of elements yielded so far.
    cursor: usize,
    /// This producer can go forwards or backwards.
    dir: SequenceDirection,
}

impl<'a, T> ZipperIter<'a, T> {
    /// The count is that of the zipper, and no more than that has been
    /// yielded.
    #[verifier::type_invariant]
    spec fn inv(self) -> bool {
        &&& self.zipper.inv()
        &&& self.count == self.zipper@.len()
        &&& self.cursor <= self.count
    }

    /// The elements still to come, in the order in which they will come.
    pub closed spec fn remaining(self) -> Seq<T> {
        self.zipper@.traversal(self.dir).skip(self.cursor as int)
    }

    /// The next element of the traversal, or `None` once all have been
    /// yielded.
    pub fn next(&mut self) -> (r: Option<&'a T>)
        ensures
            old(self).remaining().len() == 0 ==> {
                &&& r is None
                &&& final(self).remaining() == old(self).remaining()
            },
            old(self).remaining().len() > 0 ==> {
                &&& r == Some(&old(self).remaining()[0])
                &&& final(self).remaining() == old(self).remaining().drop_first()
            },
    {
        proof {
            use_type_invariant(&*self);
        }
        if self.cursor >= self.count {
            return None;
        }
        let zipper = self.zipper;
        // Going forwards the walk starts on `forward` and ends on `backward`.
        // Going backwards it is the other way round, and the focus, which is
        // the last position of that layout, is yielded first.
        let (nl, pl, position) = match self.dir {
            SequenceDirection::Original => (&zipper.forward, &zipper.backward, self.cursor),
            SequenceDirection::Reverse => (
                &zipper.backward,
                &zipper.forward,
                if self.cursor == 0 {
                    self.count - 1
                } else {
                    self.cursor - 1
                },
            ),
        };
        let nl_len = nl.len();
        let pl_len = pl.len();
        proof {
            lemma_wrap_near(zipper@.focus + self.cursor * self.dir.delta(), zipper@.len());
        }
        let res = if position < nl_len {
            &nl[position]
        } else {
            // past the bottom of `nl`, the next element in the sequence is
            // the *last* element of `pl`
            &pl[pl_len - (position - nl_len + 1)]
        };
        proof {
            assert(zipper@.traversal(self.dir).skip(self.cursor as int).drop_first()
                =~= zipper@.traversal(self.dir).skip(self.cursor + 1));
        }
        self.cursor = self.cursor + 1;
        Some(res)
    }
}

} // verus!
