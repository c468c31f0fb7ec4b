use vstd::prelude::*;

verus! {

/// A handle to a slot of an arena: the slot's place.
#[derive(Clone, Copy, Debug, PartialEq, Eq, Structural, Hash)]
pub struct Node(pub usize);

/// A flat store of values that are found again by handle. A slot keeps its
/// place for as long as it is in the store; only the last slot can leave.
#[derive(Debug)]
pub struct Arena<T> {
    items: Vec<T>,
}

impl<T> View for Arena<T> {
    type V = Seq<T>;

    closed spec fn view(&self) -> Seq<T> {
        self.items@
    }
}

impl<T> Arena<T> {
    /// The store without slots.
    pub fn new() -> (a: Self)
        ensures
            a@ == Seq::<T>::empty(),
    {
        Arena { items: Vec::new() }
    }

    /// The store without slots, with room for `capacity` of them.
    pub fn with_capacity(capacity: usize) -> (a: Self)
        ensures
            a@ == Seq::<T>::empty(),
    {
        Arena { items: Vec::with_capacity(capacity) }
    }

    /// The number of slots.
    pub fn len(&self) -> (n: usize)
        ensures
            n == self@.len(),
    {
        self.items.len()
    }

    pub fn is_empty(&self) -> (b: bool)
        ensures
            b == (self@.len() == 0),
    {
        self.items.len() == 0
    }

    /// Puts `val` into a new last slot and returns its handle.
    pub fn add(&mut self, val: T) -> (node: Node)
        ensures
            node.0 == old(self)@.len(),
            final(self)@ == old(self)@.push(val),
    {
        let idx: usize = self.items.len();
        self.items.push(val);
        Node(idx)
    }

    /// Takes the last slot out of the store, if there is one.
    pub fn pop(&mut self) -> (r: Option<T>)
        ensures
            old(self)@.len() == 0 ==> r is None && final(self)@ == old(self)@,
            old(self)@.len() > 0 ==> r == Some(old(self)@.last()) && final(self)@ == old(
                self,
            )@.drop_last(),
    {
        self.items.pop()
    }

    /// The handle of the last slot.
    pub fn last_node(&self) -> (r: Option<Node>)
        ensures
            self@.len() == 0 ==> r is None,
            self@.len() > 0 ==> r == Some(Node((self@.len() - 1) as usize)),
    {
        if self.items.len() > 0 {
            Some(Node(self.items.len() - 1))
        } else {
            None
        }
    }

    /// The value in the slot of `idx`.
    pub fn get(&self, idx: Node) -> (r: &T)
        requires
            idx.0 < self@.len(),
        ensures
            *r == self@[idx.0 as int],
    {
        &self.items[idx.0]
    }

    /// The value in the slot of `idx`, lent for writing.
    pub fn get_mut(&mut self, idx: Node) -> (r: &mut T)
        requires
            idx.0 < old(self)@.len(),
        ensures
            *r == old(self)@[idx.0 as int],
            final(self)@ == old(self)@.update(idx.0 as int, *final(r)),
    {
        &mut self.items[idx.0]
    }

    /// Puts `val` into the slot of `idx` and returns what was there.
    pub fn replace(&mut self, idx: Node, val: T) -> (r: T)
        requires
            idx.0 < old(self)@.len(),
        ensures
            r == old(self)@[idx.0 as int],
            final(self)@ == old(self)@.update(idx.0 as int, val),
    {
        self.items.push(val);
        let r = self.items.swap_remove(idx.0);
        assert(self.items@ =~= old(self)@.update(idx.0 as int, val));
        r
    }
}

impl<T: Default> Arena<T> {
    /// Takes the value out of the slot of `idx` and leaves the default value
    /// of its type there. The slot, and every other handle, stays.
    pub fn take(&mut self, idx: Node) -> (r: T)
        requires
            idx.0 < old(self)@.len(),
        ensures
            r == old(self)@[idx.0 as int],
            final(self)@.len() == old(self)@.len(),
            T::default.ensures((), final(self)@[idx.0 as int]),
            forall|i: int|
                0 <= i < old(self)@.len() && i != idx.0 ==> final(self)@[i] == old(self)@[i],
    {
        let fresh = T::default();
        self.replace(idx, fresh)
    }
}

impl<T> Default for Arena<T> {
    fn default() -> (a: Self)
        ensures
            a@ == Seq::<T>::empty(),
    {
        Arena::new()
    }
}

} // verus!
