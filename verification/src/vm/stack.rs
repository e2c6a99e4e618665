//! A last-in, first-out container whose accessors count from the top.
use vstd::prelude::*;

verus! {

/// The element `offset` places below the top of `items`, whose last element is the top.
pub open spec fn from_top<T>(items: Seq<T>, offset: nat) -> Option<T> {
    if offset < items.len() {
        Some(items[items.len() - 1 - offset])
    } else {
        None
    }
}

/// `items` with the elements `first` and `second` places below the top exchanged;
/// unchanged where either place does not exist.
pub open spec fn exchanged<T>(items: Seq<T>, first: nat, second: nat) -> Seq<T> {
    if first < items.len() && second < items.len() {
        let i = items.len() - 1 - first;
        let j = items.len() - 1 - second;
        items.update(i, items[j]).update(j, items[i])
    } else {
        items
    }
}

/// `items` without its `length` topmost elements; unchanged where it has fewer.
pub open spec fn dropped<T>(items: Seq<T>, length: nat) -> Seq<T> {
    if length <= items.len() {
        items.take(items.len() - length)
    } else {
        items
    }
}

/// A stack. Its view lists the elements from the bottom to the top; the
/// accessors take an offset from the top, so that offset 0 is the top.
/// An access out of range gives `None` and never fails otherwise.
#[derive(Debug)]
pub struct Stack<T: Clone> {
    data: Vec<T>,
}

impl<T: Clone> View for Stack<T> {
    type V = Seq<T>;

    closed spec fn view(&self) -> Seq<T> {
        self.data@
    }
}

impl<T: Clone> Stack<T> {
    /// The empty stack.
    pub fn new() -> (stack: Self)
        ensures
            stack@ == Seq::<T>::empty(),
    {
        Self { data: Vec::new() }
    }

    /// The number of elements.
    pub fn len(&self) -> (n: usize)
        ensures
            n == self@.len(),
    {
        self.data.len()
    }

    /// Puts `value` on top.
    pub fn push(&mut self, value: T)
        ensures
            final(self)@ == old(self)@.push(value),
    {
        self.data.push(value);
    }

    /// The element `offset` places below the top.
    pub fn get(&self, offset: usize) -> (r: Option<&T>)
        ensures
            match r {
                Some(value) => from_top(self@, offset as nat) == Some(*value),
                None => from_top(self@, offset as nat) is None,
            },
    {
        if offset < self.data.len() {
            Some(&self.data[self.data.len() - 1 - offset])
        } else {
            None
        }
    }

    /// The element `offset` places below the top, to be changed in place.
    pub fn get_mut(&mut self, offset: usize) -> (r: Option<&mut T>)
        ensures
            match r {
                Some(value) => from_top(old(self)@, offset as nat) == Some(*value) && final(self)@
                    == old(self)@.update(old(self)@.len() - 1 - offset, *final(value)),
                None => from_top(old(self)@, offset as nat) is None && final(self)@ == old(self)@,
            },
    {
        if offset < self.data.len() {
            let len = self.data.len();
            Some(&mut self.data[len - 1 - offset])
        } else {
            None
        }
    }

    /// Removes the `length` topmost elements; does nothing where there are fewer.
    pub fn drop(&mut self, length: usize)
        ensures
            final(self)@ == dropped(old(self)@, length as nat),
    {
        if length <= self.data.len() {
            let keep = self.data.len() - length;
            self.data.truncate(keep);
        }
    }

    /// Removes the top and returns it.
    pub fn pop(&mut self) -> (r: Option<T>)
        ensures
            r == from_top(old(self)@, 0),
            final(self)@ == dropped(old(self)@, 1),
    {
        self.data.pop()
    }

    /// Exchanges the elements `first` and `second` places below the top; does
    /// nothing where either place does not exist.
    pub fn change(&mut self, first: usize, second: usize)
        ensures
            final(self)@ == exchanged(old(self)@, first as nat, second as nat),
    {
        let len = self.data.len();
        if first < len && second < len && first != second {
            let i = len - 1 - first;
            let j = len - 1 - second;
            let (lo, hi) = if i < j {
                (i, j)
            } else {
                (j, i)
            };
            let upper = self.data.remove(hi);
            let lower = self.data.remove(lo);
            self.data.insert(lo, upper);
            self.data.insert(hi, lower);
            assert(self.data@ =~= exchanged(old(self)@, first as nat, second as nat));
        } else {
            assert(self.data@ =~= exchanged(old(self)@, first as nat, second as nat));
        }
    }

    /// The two topmost elements, the lower one first.
    pub fn pair(&self) -> (r: Option<(&T, &T)>)
        ensures
            match r {
                Some((lower, upper)) => self@.len() >= 2 && *lower == self@[self@.len() - 2]
                    && *upper == self@[self@.len() - 1],
                None => self@.len() < 2,
            },
    {
        let len = self.data.len();
        if len >= 2 {
            Some((&self.data[len - 2], &self.data[len - 1]))
        } else {
            None
        }
    }

    /// Removes the two topmost elements and returns them, the lower one first.
    /// A stack of one element loses it and gives `None`.
    pub fn pop_pair(&mut self) -> (r: Option<(T, T)>)
        ensures
            match r {
                Some((lower, upper)) => old(self)@.len() >= 2 && lower == old(self)@[old(self)@.len()
                    - 2] && upper == old(self)@[old(self)@.len() - 1] && final(self)@ == old(
                    self,
                )@.take(old(self)@.len() - 2),
                None => old(self)@.len() < 2 && final(self)@ == Seq::<T>::empty(),
            },
    {
        let upper = match self.pop() {
            Some(value) => value,
            None => { return None; },
        };
        let lower = match self.pop() {
            Some(value) => value,
            None => { return None; },
        };
        assert(self@ =~= old(self)@.take(old(self)@.len() - 2));
        Some((lower, upper))
    }

    /// Clones of the elements, the top first: the element at index `i` of the
    /// result is a clone of the one `i` places below the top.
    pub fn get_vector(&self) -> (vector: Vec<T>)
        ensures
            vector@.len() == self@.len(),
            forall|i: int|
                0 <= i < self@.len() ==> cloned::<T>(
                    self@[self@.len() - 1 - i],
                    #[trigger] vector@[i],
                ),
    {
        let mut vector: Vec<T> = Vec::new();
        let len = self.data.len();
        let mut i: usize = 0;
        while i < len
            invariant
                len == self.data@.len(),
                i <= len,
                vector@.len() == i,
                forall|k: int|
                    0 <= k < i ==> cloned::<T>(self.data@[len - 1 - k], #[trigger] vector@[k]),
            decreases len - i,
        {
            vector.push(self.data[len - 1 - i].clone());
            i += 1;
        }
        vector
    }
}

impl<T: Clone> Clone for Stack<T> {
    fn clone(&self) -> (stack: Self)
        ensures
            stack@.len() == self@.len(),
            forall|i: int| 0 <= i < self@.len() ==> cloned::<T>(self@[i], #[trigger] stack@[i]),
    {
        Self { data: self.data.clone() }
    }
}

} // verus!
