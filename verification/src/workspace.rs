//! Change notification for the file-system tree: a dispatcher that keeps
//! a list of subscriber handles and a callback interface for listeners.

use vstd::prelude::*;

verus! {

/// What a listener on tree changes implements. The engine calls these
/// around every insertion into and removal from the tree.
pub trait TreeChangeSubscriber {
    /// Called before children enter the node at `path`.
    fn pre_insert(&mut self, path: &Vec<usize>, start: usize, end: usize);

    /// Called after children entered the node at `path`.
    fn post_insert(&mut self, path: &Vec<usize>, start: usize, end: usize);

    /// Called before children leave the node at `path`.
    fn pre_remove(&mut self, path: &Vec<usize>, start: usize, end: usize);

    /// Called after children left the node at `path`.
    fn post_remove(&mut self, path: &Vec<usize>, start: usize, end: usize);
}

/// Keeps the handles of the listeners that asked to hear about tree
/// changes. A handle stands for one registered listener; the zero
/// handle stands for no listener and is never kept.
pub struct TreeChangeDispatcher {
    subscribers: Vec<u64>,
    cpp_subscribers: Vec<u64>,
}

impl View for TreeChangeDispatcher {
    type V = (Seq<u64>, Seq<u64>);

    closed spec fn view(&self) -> (Seq<u64>, Seq<u64>) {
        (self.subscribers@, self.cpp_subscribers@)
    }
}

impl TreeChangeDispatcher {
    /// A dispatcher with no listeners.
    pub fn new() -> (r: TreeChangeDispatcher)
        ensures
            r@.0 == Seq::<u64>::empty(),
            r@.1 == Seq::<u64>::empty(),
    {
        let r = TreeChangeDispatcher { subscribers: Vec::new(), cpp_subscribers: Vec::new() };
        proof {
            assert(r@.0 =~= Seq::<u64>::empty());
            assert(r@.1 =~= Seq::<u64>::empty());
        }
        r
    }

    /// Registers a listener handle.
    pub fn subscribe(&mut self, handle: u64)
        ensures
            final(self)@.0 == old(self)@.0.push(handle),
            final(self)@.1 == old(self)@.1,
    {
        self.subscribers.push(handle);
    }

    /// Removes the first registration of `handle`, if any.
    #[verifier::loop_isolation(false)]
    pub fn unsubscribe(&mut self, handle: u64)
        ensures
            final(self)@.1 == old(self)@.1,
            match first_index(old(self)@.0, handle) {
                Some(i) => final(self)@.0 == old(self)@.0.remove(i),
                None => final(self)@.0 == old(self)@.0,
            },
    {
        let n = self.subscribers.len();
        for i in 0..n
            invariant
                *self == *old(self),
                n == self@.0.len(),
                forall|j: int| 0 <= j < i ==> self@.0[j] != handle,
        {
            if self.subscribers[i] == handle {
                proof {
                    lemma_first_index(self@.0, handle, i as int);
                }
                self.subscribers.remove(i);
                proof {
                    assert(self@.0 =~= old(self)@.0.remove(i as int));
                }
                return;
            }
        }
        proof {
            lemma_no_index(self@.0, handle);
        }
    }

    /// Registers an external listener handle; the zero handle is ignored.
    pub fn cpp_subscribe(&mut self, handle: u64)
        ensures
            final(self)@.0 == old(self)@.0,
            final(self)@.1 == (if handle == 0 {
                old(self)@.1
            } else {
                old(self)@.1.push(handle)
            }),
    {
        if handle == 0 {
            return;
        }
        self.cpp_subscribers.push(handle);
    }

    /// Removes the first external registration of `handle`, if any; the
    /// zero handle is ignored.
    #[verifier::loop_isolation(false)]
    pub fn cpp_unsubscribe(&mut self, handle: u64)
        ensures
            final(self)@.0 == old(self)@.0,
            final(self)@.1 == (if handle == 0 {
                old(self)@.1
            } else {
                match first_index(old(self)@.1, handle) {
                    Some(i) => old(self)@.1.remove(i),
                    None => old(self)@.1,
                }
            }),
    {
        if handle == 0 {
            return;
        }
        let n = self.cpp_subscribers.len();
        for i in 0..n
            invariant
                *self == *old(self),
                n == self@.1.len(),
                forall|j: int| 0 <= j < i ==> self@.1[j] != handle,
        {
            if self.cpp_subscribers[i] == handle {
                proof {
                    lemma_first_index(self@.1, handle, i as int);
                }
                self.cpp_subscribers.remove(i);
                proof {
                    assert(self@.1 =~= old(self)@.1.remove(i as int));
                }
                return;
            }
        }
        proof {
            lemma_no_index(self@.1, handle);
        }
    }
}

/// The first position of `x` in `s`, if any.
pub open spec fn first_index(s: Seq<u64>, x: u64) -> Option<int>
    decreases s.len(),
{
    if s.len() == 0 {
        None
    } else if s[0] == x {
        Some(0)
    } else {
        match first_index(s.skip(1), x) {
            Some(i) => Some(i + 1),
            None => None,
        }
    }
}

proof fn lemma_first_index(s: Seq<u64>, x: u64, i: int)
    requires
        0 <= i < s.len(),
        s[i] == x,
        forall|j: int| 0 <= j < i ==> s[j] != x,
    ensures
        first_index(s, x) == Some(i),
    decreases i,
{
    if i > 0 {
        assert forall|j: int| 0 <= j < i - 1 implies s.skip(1)[j] != x by {
            assert(s.skip(1)[j] == s[j + 1]);
        }
        assert(s.skip(1)[i - 1] == s[i]);
        lemma_first_index(s.skip(1), x, i - 1);
    }
}

proof fn lemma_no_index(s: Seq<u64>, x: u64)
    requires
        forall|j: int| 0 <= j < s.len() ==> s[j] != x,
    ensures
        first_index(s, x) is None,
    decreases s.len(),
{
    if s.len() > 0 {
        assert forall|j: int| 0 <= j < s.skip(1).len() implies s.skip(1)[j] != x by {
            assert(s.skip(1)[j] == s[j + 1]);
        }
        lemma_no_index(s.skip(1), x);
    }
}

} // verus!
