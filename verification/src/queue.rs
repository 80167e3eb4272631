//! A first-in-first-out queue, and a stack that is built from two of them.

use vstd::prelude::*;

verus! {

/// A queue: elements leave in the order in which they came.
#[derive(Debug)]
pub struct Queue<T: Clone> {
    elements: Vec<T>,
}

impl<T: Clone> View for Queue<T> {
    type V = Seq<T>;

    /// The waiting elements, the next to leave first.
    closed spec fn view(&self) -> Seq<T> {
        self.elements@
    }
}

impl<T: Clone> Queue<T> {
    /// An empty queue.
    pub fn new() -> (queue: Queue<T>)
        ensures
            queue@ == Seq::<T>::empty(),
    {
        Queue { elements: Vec::new() }
    }

    /// Puts `value` at the back.
    pub fn enqueue(&mut self, value: T)
        ensures
            final(self)@ == old(self)@.push(value),
    {
        self.elements.push(value)
    }

    /// Takes the element at the front, or reports that there is none.
    pub fn dequeue(&mut self) -> (front: Result<T, &str>)
        ensures
            old(self)@.len() > 0 ==> front == Ok::<T, &str>(old(self)@[0]) && final(self)@ == old(
                self,
            )@.drop_first(),
            old(self)@.len() == 0 ==> front == Err::<T, &str>("Queue is empty") && final(self)@
                == old(self)@,
    {
        if !self.elements.is_empty() {
            Ok(self.elements.remove(0usize))
        } else {
            Err("Queue is empty")
        }
    }

    /// Looks at the element at the front, or reports that there is none.
    pub fn peek(&self) -> (front: Result<&T, &str>)
        ensures
            self@.len() > 0 ==> front == Ok::<&T, &str>(&self@[0]),
            self@.len() == 0 ==> front == Err::<&T, &str>("Queue is empty"),
    {
        match self.elements.first() {
            Some(value) => Ok(value),
            None => Err("Queue is empty"),
        }
    }

    /// The number of waiting elements.
    pub fn size(&self) -> (n: usize)
        ensures
            n == self@.len(),
    {
        self.elements.len()
    }

    /// Whether no element is waiting.
    pub fn is_empty(&self) -> (empty: bool)
        ensures
            empty == (self@.len() == 0),
    {
        self.elements.is_empty()
    }
}

impl<T: Clone> Default for Queue<T> {
    /// An empty queue.
    fn default() -> (queue: Queue<T>)
        ensures
            queue@ == Seq::<T>::empty(),
    {
        Queue { elements: Vec::new() }
    }
}

impl<T: Clone> Clone for Queue<T> {
    /// A queue of the same length whose elements are clones of this one's,
    /// in the same order.
    fn clone(&self) -> (copy: Self)
        ensures
            copy@.len() == self@.len(),
            forall|i: int| 0 <= i < self@.len() ==> cloned::<T>(self@[i], #[trigger] copy@[i]),
    {
        Queue { elements: self.elements.clone() }
    }
}

/// A stack that keeps its elements in one queue and uses a second one to
/// turn the first around when an element is taken.
#[allow(non_camel_case_types)]
pub struct myStack<T: Clone> {
    q1: Queue<T>,
    q2: Queue<T>,
}

impl<T: Clone> View for myStack<T> {
    type V = Seq<T>;

    /// The elements, the oldest first: the top of the stack is the last.
    closed spec fn view(&self) -> Seq<T> {
        self.q1@
    }
}

impl<T: Clone> myStack<T> {
    /// Between calls the second queue is empty.
    pub closed spec fn wf(&self) -> bool {
        self.q2@.len() == 0
    }

    /// An empty stack.
    pub fn new() -> (stack: Self)
        ensures
            stack.wf(),
            stack@ == Seq::<T>::empty(),
    {
        Self { q1: Queue::<T>::new(), q2: Queue::<T>::new() }
    }

    /// Puts `elem` on top.
    pub fn push(&mut self, elem: T)
        requires
            old(self).wf(),
        ensures
            final(self).wf(),
            final(self)@ == old(self)@.push(elem),
    {
        self.q1.enqueue(elem);
    }

    /// Takes the element on top, the one pushed last, or reports that there
    /// is none.
    pub fn pop(&mut self) -> (top: Result<T, &str>)
        requires
            old(self).wf(),
        ensures
            final(self).wf(),
            old(self)@.len() > 0 ==> top == Ok::<T, &str>(old(self)@.last()) && final(self)@ == old(
                self,
            )@.drop_last(),
            old(self)@.len() == 0 ==> top == Err::<T, &str>("Stack is empty") && final(self)@
                == old(self)@,
    {
        if self.q1.size() > 0 {
            while self.q1.size() > 1
                invariant
                    self.q1@.len() >= 1,
                    self.q2@ + self.q1@ == old(self)@,
                decreases self.q1@.len(),
            {
                let temp = self.q1.dequeue().unwrap();
                self.q2.enqueue(temp);
            }
            let res = self.q1.dequeue().unwrap();
            core::mem::swap(&mut self.q1, &mut self.q2);
            Ok(res)
        } else {
            Err("Stack is empty")
        }
    }

    /// Whether the stack holds no element.
    pub fn is_empty(&self) -> (empty: bool)
        requires
            self.wf(),
        ensures
            empty == (self@.len() == 0),
    {
        self.q1.size() == 0
    }
}

} // verus!
