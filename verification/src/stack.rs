//! The stack itself: a chain of singly-linked nodes owned through the head
//! edge, abstracted as a sequence whose first element is the top of the stack.

use vstd::prelude::*;

verus! {

/// One cell of the chain: an element together with the owning edge to the
/// rest of the chain (or `None` at the end). Public so that the contracts of
/// the iterators can speak of the chain behind an exclusive edge; the stack
/// itself never hands out a whole node.
#[derive(Debug)]
pub struct Node<T> {
    pub elem: T,
    pub next: Option<Box<Node<T>>>,
}

/// The abstraction of a chain hanging off one node: the node's element
/// followed by everything reachable through its `next` edge.
pub open spec fn node_seq<T>(node: Node<T>) -> Seq<T>
    decreases node,
{
    seq![node.elem] + link_seq(node.next)
}

/// The abstraction of an ownership edge: empty when the edge is empty,
/// otherwise the chain of the node it owns.
pub open spec fn link_seq<T>(link: Option<Box<Node<T>>>) -> Seq<T>
    decreases link,
{
    match link {
        None => Seq::empty(),
        Some(node) => node_seq(*node),
    }
}

/// A LIFO stack of `T`, stored as a singly-linked chain of exclusively owned
/// nodes. Its view is the sequence of elements from the most recently pushed
/// (index 0) to the oldest.
#[derive(Debug)]
pub struct List<T> {
    head: Option<Box<Node<T>>>,
}

impl<T> View for List<T> {
    type V = Seq<T>;

    closed spec fn view(&self) -> Seq<T> {
        link_seq(self.head)
    }
}

impl<T> List<T> {
    /// Creates an empty stack.
    pub fn new() -> (r: List<T>)
        ensures
            r@ == Seq::<T>::empty(),
    {
        List { head: None }
    }

    /// Pushes `elem` on top of the stack: the new node takes ownership of the
    /// whole previous chain and becomes the head. Always succeeds, in O(1).
    pub fn push(&mut self, elem: T)
        ensures
            final(self)@ == seq![elem] + old(self)@,
    {
        let next = self.head.take();
        self.head = Some(Box::new(Node { elem, next }));
    }

    /// Removes and returns the top element, or `None` exactly when the stack
    /// is empty. The rest of the chain becomes the new head, in O(1).
    pub fn pop(&mut self) -> (r: Option<T>)
        ensures
            old(self)@.len() == 0 ==> r is None && final(self)@ == old(self)@,
            old(self)@.len() > 0 ==> r == Some(old(self)@[0]) && final(self)@ == old(self)@.drop_first(),
    {
        match self.head.take() {
            None => None,
            Some(node) => {
                let node = *node;
                self.head = node.next;
                Some(node.elem)
            },
        }
    }

    /// Borrows the top element without removing it, or returns `None` exactly
    /// when the stack is empty. Takes `&self`, so it cannot mutate anything.
    pub fn peek(&self) -> (r: Option<&T>)
        ensures
            self@.len() == 0 ==> r is None,
            self@.len() > 0 ==> r is Some && *r.unwrap() == self@[0],
    {
        match &self.head {
            None => None,
            Some(node) => Some(&node.elem),
        }
    }

    /// Grants exclusive write access to the top element alone, or returns
    /// `None` exactly when the stack is empty. Whatever the caller writes
    /// through the handle becomes the new top; the rest is untouched.
    pub fn peek_mut(&mut self) -> (r: Option<&mut T>)
        ensures
            old(self)@.len() == 0 ==> r is None && final(self)@ == old(self)@,
            old(self)@.len() > 0 ==> r is Some && *r.unwrap() == old(self)@[0]
                && final(self)@ == old(self)@.update(0, *final(r.unwrap())),
    {
        match &mut self.head {
            None => None,
            Some(node) => Some(&mut node.elem),
        }
    }
}

impl<T> List<T> {
    /// Releases every node with an explicit loop, detaching one node from the
    /// front at a time, so that tearing a long chain down never recurses once
    /// per node and cannot exhaust the call stack.
    pub fn clear(&mut self)
        ensures
            final(self)@ == Seq::<T>::empty(),
        opens_invariants none
        no_unwind
    {
        let mut cur: Option<Box<Node<T>>> = None;
        core::mem::swap(&mut cur, &mut self.head);
        loop
            decreases link_seq(cur).len(),
        {
            match cur {
                None => {
                    break ;
                },
                Some(node) => {
                    let node = *node;
                    cur = node.next;
                },
            }
        }
    }
}

/// The owning iterator: it consumes the stack and drains it by repeated
/// `pop`, yielding the elements in LIFO order. Its view is the sequence of
/// elements not yet yielded.
pub struct IntoIter<T> {
    list: List<T>,
}

impl<T> View for IntoIter<T> {
    type V = Seq<T>;

    closed spec fn view(&self) -> Seq<T> {
        self.list@
    }
}

impl<T> List<T> {
    /// Consumes the stack and returns the owning iterator over all of its
    /// elements, most recently pushed first.
    pub fn into_iter(self) -> (it: IntoIter<T>)
        ensures
            it@ == self@,
    {
        IntoIter { list: self }
    }
}

impl<T> IntoIter<T> {
    /// Removes and returns the next element by value, or `None` exactly when
    /// the iterator is exhausted; once exhausted it returns `None` forever.
    pub fn next(&mut self) -> (r: Option<T>)
        ensures
            old(self)@.len() == 0 ==> r is None && final(self)@ == old(self)@,
            old(self)@.len() > 0 ==> r == Some(old(self)@[0]) && final(self)@ == old(self)@.drop_first(),
    {
        self.list.pop()
    }
}

/// The read-only iterator: it walks borrowed references without mutating the
/// stack, so any number of them may run over one stack at the same time. Its
/// view is the sequence of elements not yet yielded.
pub struct Iter<'a, T> {
    next: Option<&'a Node<T>>,
}

impl<'a, T> View for Iter<'a, T> {
    type V = Seq<T>;

    closed spec fn view(&self) -> Seq<T> {
        match self.next {
            None => Seq::empty(),
            Some(node) => node_seq(*node),
        }
    }
}

impl<T> List<T> {
    /// Borrows the stack and returns a read-only iterator over all of its
    /// elements, most recently pushed first. Starting it again on the same
    /// unmodified stack yields the same sequence.
    pub fn iter(&self) -> (it: Iter<'_, T>)
        ensures
            it@ == self@,
    {
        match &self.head {
            None => Iter { next: None },
            Some(node) => Iter { next: Some(&**node) },
        }
    }
}

impl<'a, T> Iter<'a, T> {
    /// Returns a reference to the next element and advances the cursor to the
    /// node it owns, or returns `None` exactly when the iterator is
    /// exhausted; once exhausted it returns `None` forever.
    pub fn next(&mut self) -> (r: Option<&'a T>)
        ensures
            old(self)@.len() == 0 ==> r is None && final(self)@ == old(self)@,
            old(self)@.len() > 0 ==> r is Some && *r.unwrap() == old(self)@[0]
                && final(self)@ == old(self)@.drop_first(),
    {
        match self.next {
            None => None,
            Some(node) => {
                self.next = match &node.next {
                    None => None,
                    Some(next_node) => Some(&**next_node),
                };
                Some(&node.elem)
            },
        }
    }
}

/// The mutable iterator: it walks exclusive references into the stack, one
/// live at a time. Its slot holds the exclusive edge to the node it will
/// yield next; advancing empties the slot before the next handle is produced,
/// so two handles into the chain never coexist. Its view is the sequence of
/// elements not yet yielded, as they stand now.
pub struct IterMut<'a, T> {
    next: Option<&'a mut Node<T>>,
}

impl<'a, T> View for IterMut<'a, T> {
    type V = Seq<T>;

    closed spec fn view(&self) -> Seq<T> {
        match self.next {
            None => Seq::empty(),
            Some(node) => node_seq(*node),
        }
    }
}

impl<'a, T> IterMut<'a, T> {
    /// The exclusive edge the iterator holds: `None` once it is exhausted,
    /// otherwise the one live handle into the not-yet-visited chain.
    pub closed spec fn edge(&self) -> Option<&'a mut Node<T>> {
        self.next
    }
}

impl<T> List<T> {
    /// Borrows the stack exclusively and returns the mutable iterator over
    /// all of its elements, most recently pushed first. Once the borrow ends,
    /// the stack holds exactly what was written through the iterator's
    /// handles: its contents are the final contents of the borrowed chain.
    pub fn iter_mut(&mut self) -> (it: IterMut<'_, T>)
        ensures
            it@ == old(self)@,
            it.edge() is Some <==> old(self)@.len() > 0,
            it.edge() is None ==> final(self)@ == Seq::<T>::empty(),
            it.edge() is Some ==> final(self)@ == node_seq(*final(it.edge().unwrap())),
    {
        match &mut self.head {
            None => IterMut { next: None },
            Some(node) => IterMut { next: Some(&mut **node) },
        }
    }
}

impl<'a, T> IterMut<'a, T> {
    /// Takes the exclusive edge out of its slot, returns the handle to that
    /// node's element, and stores the edge to the following node for the next
    /// call; or returns `None` exactly when the iterator is exhausted. The
    /// final value of the node given up is whatever the caller leaves in the
    /// returned handle, followed by the final contents of the rest.
    pub fn next(&mut self) -> (r: Option<&'a mut T>)
        ensures
            old(self)@.len() == 0 ==> r is None && final(self).edge() is None
                && final(self)@ == old(self)@,
            old(self)@.len() > 0 ==> {
                &&& r is Some
                &&& *r.unwrap() == old(self)@[0]
                &&& final(self)@ == old(self)@.drop_first()
                &&& (final(self).edge() is Some <==> old(self)@.len() > 1)
                &&& (final(self).edge() is None ==> node_seq(*final(old(self).edge().unwrap()))
                    == seq![*final(r.unwrap())])
                &&& (final(self).edge() is Some ==> node_seq(*final(old(self).edge().unwrap()))
                    == seq![*final(r.unwrap())] + node_seq(*final(final(self).edge().unwrap())))
            },
    {
        let taken = self.next.take();
        match taken {
            None => None,
            Some(node) => {
                self.next = match &mut node.next {
                    None => None,
                    Some(next_node) => Some(&mut **next_node),
                };
                Some(&mut node.elem)
            },
        }
    }
}

impl<T> List<T> {
    /// Writes `v` through the mutable iterator's handle at position `k` and
    /// leaves every other element alone; on a stack shorter than `k + 1` it
    /// changes nothing. Built and proved on the contracts of `iter_mut` and
    /// its `next` alone, so it shows that a write through the handle at any
    /// position is exactly an update of the stack's contents at that
    /// position, observed by every later read.
    pub fn write_at(&mut self, k: usize, v: T)
        ensures
            k < old(self)@.len() ==> final(self)@ == old(self)@.update(k as int, v),
            k >= old(self)@.len() ==> final(self)@ == old(self)@,
    {
        let ghost orig: Seq<T> = self@;
        let mut it = self.iter_mut();
        let ghost fut: Seq<T> = if it.edge() is Some {
            node_seq(*final(it.edge().unwrap()))
        } else {
            Seq::empty()
        };
        let ghost mut done: Seq<T> = Seq::empty();
        let mut before: usize = k;
        let mut pending: Option<T> = Some(v);
        proof {
            assert(Seq::<T>::empty() + fut =~= fut);
        }
        loop
            invariant
                it@ == orig.skip(done.len() as int),
                done.len() <= orig.len(),
                (pending is None <==> k < done.len()),
                pending is Some ==> pending == Some(v) && before + done.len() == k
                    && done == orig.take(done.len() as int),
                pending is None ==> before == 0
                    && done == orig.take(done.len() as int).update(k as int, v),
                (it.edge() is Some <==> it@.len() > 0),
                fut == done + (if it.edge() is Some {
                    node_seq(*final(it.edge().unwrap()))
                } else {
                    Seq::<T>::empty()
                }),
            ensures
                it.edge() is None,
                done.len() == orig.len(),
                (pending is None <==> k < orig.len()),
                pending is Some ==> done == orig.take(done.len() as int),
                pending is None ==> done == orig.take(done.len() as int).update(k as int, v),
                fut == done + Seq::<T>::empty(),
            decreases it@.len(),
        {
            let ghost prev = it;
            let ghost done_old = done;
            match it.next() {
                None => {
                    break ;
                },
                Some(x) => {
                    if before == 0 && pending.is_some() {
                        if let Some(val) = pending.take() {
                            *x = val;
                            proof {
                                let rest: Seq<T> = if it.edge() is Some {
                                    node_seq(*final(it.edge().unwrap()))
                                } else {
                                    Seq::empty()
                                };
                                assert(node_seq(*final(prev.edge().unwrap())) == seq![*final(x)]
                                    + rest);
                                assert(*final(x) == v);
                                done = done + seq![v];
                                assert(done_old + (seq![v] + rest) =~= done + rest);
                                assert(orig.take(done.len() as int).update(k as int, v) =~= done);
                            }
                        }
                    } else {
                        if pending.is_some() {
                            before = before - 1;
                        }
                        proof {
                            let rest: Seq<T> = if it.edge() is Some {
                                node_seq(*final(it.edge().unwrap()))
                            } else {
                                Seq::empty()
                            };
                            assert(node_seq(*final(prev.edge().unwrap())) == seq![*final(x)]
                                + rest);
                            assert(*final(x) == *x);
                            done = done + seq![*x];
                            assert(done_old + (seq![*x] + rest) =~= done + rest);
                            if pending is None {
                                assert(orig.take(done.len() as int).update(k as int, v) =~= done);
                            } else {
                                assert(orig.take(done.len() as int) =~= done);
                            }
                        }
                    }
                },
            }
        }
        proof {
            assert(done + Seq::<T>::empty() =~= done);
            assert(orig.take(orig.len() as int) =~= orig);
        }
    }
}

/// The contents of a stack holding `s` after the elements of `es` have been
/// pushed onto it in order, one at a time; each push prepends, exactly as the
/// contract of `push` states.
pub open spec fn after_pushes<T>(s: Seq<T>, es: Seq<T>) -> Seq<T>
    decreases es.len(),
{
    if es.len() == 0 {
        s
    } else {
        after_pushes(seq![es[0]] + s, es.drop_first())
    }
}

/// The LIFO law: pushing `e1, …, en` in that order onto a stack holding `s`
/// leaves it holding `en, …, e1` in front of `s`. By the contract of `pop`,
/// each pop then returns the front and keeps the rest, so the next `n` pops
/// return the pushed elements newest first and leave the stack holding `s`
/// again.
pub proof fn lemma_lifo<T>(s: Seq<T>, es: Seq<T>)
    ensures
        after_pushes(s, es) == es.reverse() + s,
        after_pushes(s, es).take(es.len() as int) == es.reverse(),
        after_pushes(s, es).skip(es.len() as int) == s,
    decreases es.len(),
{
    if es.len() == 0 {
        assert(es.reverse() + s =~= s);
    } else {
        lemma_lifo(seq![es[0]] + s, es.drop_first());
        assert(es.drop_first().reverse() + (seq![es[0]] + s) =~= es.reverse() + s);
    }
    assert(after_pushes(s, es).take(es.len() as int) =~= es.reverse());
    assert(after_pushes(s, es).skip(es.len() as int) =~= s);
}

/// The view reached after `k` advances of an iterator whose view is `s`:
/// each advance drops the front of what remains, and an advance of an empty
/// remainder leaves it empty, exactly as the contracts of the three `next`
/// methods state.
pub open spec fn advanced<T>(s: Seq<T>, k: nat) -> Seq<T>
    decreases k,
{
    if k == 0 {
        s
    } else if advanced(s, (k - 1) as nat).len() == 0 {
        advanced(s, (k - 1) as nat)
    } else {
        advanced(s, (k - 1) as nat).drop_first()
    }
}

/// The exhaustion law: an iterator over `n` elements is drained by exactly
/// `n` advances. After `k` advances it holds the elements from index `k` on,
/// so the advances yield the elements in order; and from the `n`-th advance
/// onward it stays empty, so every further advance signals exhaustion and
/// changes nothing.
pub proof fn lemma_exhaustion<T>(s: Seq<T>, k: nat)
    ensures
        k <= s.len() ==> advanced(s, k) == s.skip(k as int),
        k < s.len() ==> advanced(s, k)[0] == s[k as int],
        k >= s.len() ==> advanced(s, k).len() == 0,
    decreases k,
{
    if k == 0 {
        assert(advanced(s, 0) =~= s.skip(0));
    } else {
        lemma_exhaustion(s, (k - 1) as nat);
        if k <= s.len() {
            assert(advanced(s, k) =~= s.skip(k as int));
        }
    }
}

impl<T> Drop for List<T> {
    /// Runs the iterative teardown when the stack's lifetime ends, so that a
    /// chain built by any number of pushes is released without a release
    /// cascading from each node into the next; it leaves nothing owned.
    fn drop(&mut self)
        ensures
            final(self)@ == Seq::<T>::empty(),
        opens_invariants none
        no_unwind
    {
        self.clear();
    }
}

} // verus!
