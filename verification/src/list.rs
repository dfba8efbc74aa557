//! Ownable doubly-linked list, the container behind the run queue.
//!
//! The list owns every node linked into it; `push_back` transfers a node
//! in, `pop_front`, `unlink` and a cursor's `take` transfer one back
//! out. On the target the nodes carry `prev`/`next` links and sit in
//! memory the free-list allocator hands out; here the list is modelled
//! by the sequence of its payloads, and a position in the list is a
//! plain index. Mutation still needs a critical section on the target
//! when the list is shared with a trap handler; that is the caller's
//! obligation, not checked here.

use vstd::prelude::*;

verus! {

/// An element of a list: one payload, owned by at most one list at a
/// time.
pub struct Node<T> {
    inner: T,
}

impl<T> View for Node<T> {
    type V = T;

    closed spec fn view(&self) -> T {
        self.inner
    }
}

impl<T> Node<T> {
    /// Wraps an element into a node.
    pub fn new(element: T) -> (r: Node<T>)
        ensures
            r@ == element,
    {
        Node { inner: element }
    }

    /// Borrows the payload.
    pub fn inner(&self) -> (r: &T)
        ensures
            r == self@,
    {
        &self.inner
    }

    /// Borrows the payload mutably.
    pub fn inner_mut(&mut self) -> (r: &mut T)
        ensures
            *r == old(self)@,
            final(self)@ == *final(r),
    {
        &mut self.inner
    }

    /// Takes the payload out of the node.
    pub fn into_inner(self) -> (r: T)
        ensures
            r == self@,
    {
        self.inner
    }
}

/// A doubly-linked list owning its nodes, viewed as the sequence of its
/// payloads from head to tail.
pub struct LinkedList<T> {
    elems: Vec<Node<T>>,
}

impl<T> View for LinkedList<T> {
    type V = Seq<T>;

    closed spec fn view(&self) -> Seq<T> {
        self.elems@.map(|i: int, n: Node<T>| n@)
    }
}

impl<T> LinkedList<T> {
    /// An empty list.
    pub fn new() -> (r: LinkedList<T>)
        ensures
            r@ == Seq::<T>::empty(),
    {
        let l = LinkedList { elems: Vec::new() };
        proof {
            assert(l@ =~= Seq::<T>::empty());
        }
        l
    }

    /// The number of nodes linked in.
    pub fn len(&self) -> (r: usize)
        ensures
            r == self@.len(),
    {
        self.elems.len()
    }

    /// Moves a node to the end of the list; it becomes the new tail.
    pub fn push_back(&mut self, node: Node<T>)
        requires
            old(self)@.len() < usize::MAX,
        ensures
            final(self)@ == old(self)@.push(node@),
    {
        self.elems.push(node);
        proof {
            assert(self@ =~= old(self)@.push(node@));
        }
    }

    /// Wraps an element into a fresh node and moves it to the end of
    /// the list.
    pub fn emplace_back(&mut self, element: T)
        requires
            old(self)@.len() < usize::MAX,
        ensures
            final(self)@ == old(self)@.push(element),
    {
        self.push_back(Node::new(element));
    }

    /// Removes and returns the head node, or `None` on an empty list.
    pub fn pop_front(&mut self) -> (r: Option<Node<T>>)
        ensures
            old(self)@.len() == 0 ==> r is None && final(self)@ == old(self)@,
            old(self)@.len() > 0 ==> match r {
                Some(node) => node@ == old(self)@[0] && final(self)@ == old(self)@.skip(1),
                None => false,
            },
    {
        if self.elems.len() == 0 {
            None
        } else {
            let node = self.elems.remove(0);
            proof {
                assert(self@ =~= old(self)@.skip(1));
            }
            Some(node)
        }
    }

    /// Splices a node in immediately before position `at`; the node at
    /// `at` and everything after it shift one place toward the tail.
    pub fn insert(&mut self, at: usize, node: Node<T>)
        requires
            at < old(self)@.len(),
        ensures
            final(self)@ == old(self)@.insert(at as int, node@),
    {
        self.elems.insert(at, node);
        proof {
            assert(self@ =~= old(self)@.insert(at as int, node@));
        }
    }

    /// Walks from the head and splices `node` in before the first
    /// element for which `criteria(new, existing)` answers true; falls
    /// back to the tail when no element matches. With a strict
    /// less-than criteria this is a stable sorted insert.
    pub fn insert_when<F: Fn(&T, &T) -> bool>(&mut self, node: Node<T>, criteria: F)
        requires
            old(self)@.len() < usize::MAX,
            forall|a: &T, b: &T| #[trigger] call_requires(criteria, (a, b)),
        ensures
            final(self)@.len() == old(self)@.len() + 1,
            exists|i: int|
                #![trigger old(self)@.insert(i, node@)]
                {
                    &&& 0 <= i <= old(self)@.len()
                    &&& final(self)@ == old(self)@.insert(i, node@)
                    &&& forall|j: int|
                        0 <= j < i ==> call_ensures(
                            criteria,
                            (&node@, &old(self)@[j]),
                            false,
                        )
                    &&& i < old(self)@.len() ==> call_ensures(
                        criteria,
                        (&node@, &old(self)@[i]),
                        true,
                    )
                },
    {
        let ghost nv = node@;
        let mut i: usize = 0;
        let n = self.elems.len();
        while i < n
            invariant
                *self == *old(self),
                n == self.elems@.len(),
                0 <= i <= n,
                nv == node@,
                forall|a: &T, b: &T| #[trigger] call_requires(criteria, (a, b)),
                forall|j: int| 0 <= j < i ==> call_ensures(criteria, (&nv, &self@[j]), false),
            decreases n - i,
        {
            let ni: &Node<T> = &self.elems[i];
            proof {
                assert(ni@ == self@[i as int]);
            }
            let here = criteria(node.inner(), ni.inner());
            if here {
                self.elems.insert(i, node);
                proof {
                    assert(self@ =~= old(self)@.insert(i as int, nv));
                }
                return ;
            }
            i = i + 1;
        }
        self.elems.push(node);
        proof {
            assert(self@ =~= old(self)@.insert(old(self)@.len() as int, nv));
        }
    }

    /// Borrows the head payload, if any.
    pub fn front(&self) -> (r: Option<&T>)
        ensures
            self@.len() == 0 ==> r is None,
            self@.len() > 0 ==> match r {
                Some(v) => *v == self@[0],
                None => false,
            },
    {
        if self.elems.len() == 0 {
            None
        } else {
            let n: &Node<T> = &self.elems[0];
            Some(n.inner())
        }
    }

    /// Borrows the tail payload, if any.
    pub fn back(&self) -> (r: Option<&T>)
        ensures
            self@.len() == 0 ==> r is None,
            self@.len() > 0 ==> match r {
                Some(v) => *v == self@[self@.len() - 1],
                None => false,
            },
    {
        if self.elems.len() == 0 {
            None
        } else {
            let n: &Node<T> = &self.elems[self.elems.len() - 1];
            Some(n.inner())
        }
    }

    /// Unlinks the node at position `at` from any point in the list and
    /// returns ownership of it; its neighbours become adjacent.
    pub fn unlink(&mut self, at: usize) -> (r: Node<T>)
        requires
            at < old(self)@.len(),
        ensures
            r@ == old(self)@[at as int],
            final(self)@ == old(self)@.remove(at as int),
    {
        let node = self.elems.remove(at);
        proof {
            assert(self@ =~= old(self)@.remove(at as int));
        }
        node
    }

    /// A forward iterator over borrowed payloads.
    pub fn iter(&self) -> (r: Iter<'_, T>)
        ensures
            r.list == self,
            r.index == 0,
    {
        Iter { list: self, index: 0 }
    }

    /// A mutable forward iterator position; each step borrows the list
    /// afresh.
    pub fn iter_mut(&self) -> (r: IterMut)
        ensures
            r.index == 0,
    {
        IterMut { index: 0 }
    }

    /// A cursor standing at the head, able to take nodes out.
    pub fn cursor_front_mut(&self) -> (r: Cursor)
        ensures
            r.index == 0,
    {
        Cursor { index: 0 }
    }
}

/// An iterator over the payloads of a [`LinkedList`], created by
/// [`LinkedList::iter()`].
pub struct Iter<'a, T> {
    /// The list walked over.
    pub list: &'a LinkedList<T>,
    /// Position of the next payload to yield.
    pub index: usize,
}

impl<'a, T> Iter<'a, T> {
    /// Yields the next payload, head to tail, or `None` past the end.
    pub fn next(&mut self) -> (r: Option<&'a T>)
        ensures
            final(self).list == old(self).list,
            old(self).index < old(self).list@.len() ==> match r {
                Some(v) => *v == old(self).list@[old(self).index as int] && final(self).index
                    == old(self).index + 1,
                None => false,
            },
            old(self).index >= old(self).list@.len() ==> r is None && final(self).index == old(
                self,
            ).index,
    {
        if self.index < self.list.elems.len() {
            let n: &Node<T> = &self.list.elems[self.index];
            self.index = self.index + 1;
            Some(n.inner())
        } else {
            None
        }
    }
}

/// A mutable iterator over the payloads of a [`LinkedList`], created by
/// [`LinkedList::iter_mut()`]. It carries only the position; each step
/// names the list, so no two of its borrows are live at once.
pub struct IterMut {
    /// Position of the next payload to yield.
    pub index: usize,
}

impl IterMut {
    /// Yields the next payload mutably, head to tail, or `None` past
    /// the end.
    pub fn next<'a, T>(&mut self, list: &'a mut LinkedList<T>) -> (r: Option<&'a mut T>)
        ensures
            old(self).index >= old(list)@.len() ==> r is None && final(list)@ == old(list)@
                && final(self).index == old(self).index,
            old(self).index < old(list)@.len() ==> match r {
                Some(v) => {
                    &&& *v == old(list)@[old(self).index as int]
                    &&& final(list)@ == old(list)@.update(old(self).index as int, *final(v))
                    &&& final(self).index == old(self).index + 1
                },
                None => false,
            },
    {
        if self.index < list.elems.len() {
            let node = &mut list.elems[self.index];
            self.index = self.index + 1;
            Some(node.inner_mut())
        } else {
            None
        }
    }
}

/// A position in a [`LinkedList`] with editing operations: unlike an
/// iterator it can take a node out of the list it stands in. The cursor
/// carries the position; each operation names the list it works on.
pub struct Cursor {
    /// Position the cursor stands at; the list's length means past the
    /// end.
    pub index: usize,
}

impl Cursor {
    /// Borrows the payload the cursor stands at, if it is in range.
    pub fn inner<'a, T>(&self, list: &'a LinkedList<T>) -> (r: Option<&'a T>)
        ensures
            self.index < list@.len() ==> match r {
                Some(v) => *v == list@[self.index as int],
                None => false,
            },
            self.index >= list@.len() ==> r is None,
    {
        if self.index < list.elems.len() {
            let n: &Node<T> = &list.elems[self.index];
            Some(n.inner())
        } else {
            None
        }
    }

    /// Borrows the payload the cursor stands at mutably; the cursor
    /// must be in range.
    pub fn inner_mut<'a, T>(&self, list: &'a mut LinkedList<T>) -> (r: &'a mut T)
        requires
            self.index < old(list)@.len(),
        ensures
            *r == old(list)@[self.index as int],
            final(list)@ == old(list)@.update(self.index as int, *final(r)),
    {
        let node = &mut list.elems[self.index];
        node.inner_mut()
    }

    /// Moves the cursor one node toward the tail, stopping past the
    /// end.
    pub fn move_next<T>(&mut self, list: &LinkedList<T>)
        ensures
            old(self).index < list@.len() ==> final(self).index == old(self).index + 1,
            old(self).index >= list@.len() ==> final(self).index == old(self).index,
    {
        if self.index < list.elems.len() {
            self.index = self.index + 1;
        }
    }

    /// Takes the node the cursor stands at out of the list, if any; the
    /// successor slides into the cursor's position.
    pub fn take<T>(&mut self, list: &mut LinkedList<T>) -> (r: Option<Node<T>>)
        ensures
            old(self).index < old(list)@.len() ==> match r {
                Some(node) => {
                    &&& node@ == old(list)@[old(self).index as int]
                    &&& final(list)@ == old(list)@.remove(old(self).index as int)
                    &&& final(self).index == old(self).index
                },
                None => false,
            },
            old(self).index >= old(list)@.len() ==> r is None && final(list)@ == old(list)@
                && final(self).index == old(self).index,
    {
        if self.index < list.len() {
            Some(list.unlink(self.index))
        } else {
            None
        }
    }
}

/// First-in-first-out law: in a list whose payloads are `s`, the
/// element returned by `pop_front` after `i` earlier pops is `s[i]`, so
/// elements pushed by `push_back` come back out in push order, and each
/// pop shortens the view by exactly one.
pub proof fn lemma_fifo<T>(s: Seq<T>, i: int)
    requires
        0 <= i < s.len(),
    ensures
        s.skip(i).len() == s.len() - i,
        s.skip(i)[0] == s[i],
        s.skip(i).skip(1) == s.skip(i + 1),
{
    assert(s.skip(i).skip(1) =~= s.skip(i + 1));
}

/// Sorted-insert law: inserting `x` at the first position whose element
/// does not precede it keeps a list sorted. `leq` must be total and
/// transitive; `i` is the insertion point `insert_when` picks with the
/// strict criteria `!leq(b, a)`.
pub proof fn lemma_insert_when_sorted<T>(s: Seq<T>, x: T, i: int, leq: spec_fn(T, T) -> bool)
    requires
        forall|a: T, b: T| #[trigger] leq(a, b) || #[trigger] leq(b, a),
        forall|a: T, b: T, c: T| #[trigger] leq(a, b) && #[trigger] leq(b, c) ==> leq(a, c),
        forall|p: int, q: int| 0 <= p <= q < s.len() ==> leq(#[trigger] s[p], #[trigger] s[q]),
        0 <= i <= s.len(),
        forall|j: int| 0 <= j < i ==> leq(#[trigger] s[j], x),
        i < s.len() ==> !leq(s[i], x),
    ensures
        forall|p: int, q: int|
            0 <= p <= q < s.insert(i, x).len() ==> leq(
                #[trigger] s.insert(i, x)[p],
                #[trigger] s.insert(i, x)[q],
            ),
{
    let t = s.insert(i, x);
    if i < s.len() {
        assert(leq(x, s[i]));
    }
    assert forall|p: int, q: int| 0 <= p <= q < t.len() implies leq(t[p], t[q]) by {
        if p < i {
            assert(t[p] == s[p]);
        } else if p == i {
            assert(t[p] == x);
        } else {
            assert(t[p] == s[p - 1]);
        }
        if q < i {
            assert(t[q] == s[q]);
        } else if q == i {
            assert(t[q] == x);
        } else {
            assert(t[q] == s[q - 1]);
        }
        if p < i && q == i {
            assert(leq(s[p], x));
        } else if p == i && q > i {
            assert(leq(x, s[i]) && leq(s[i], s[q - 1]));
        } else if p < i && q > i {
            assert(leq(s[p], s[q - 1]));
        } else if p == i && q == i {
            assert(leq(x, x));
        }
    }
}

} // verus!
