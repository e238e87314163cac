//! A first-in first-out queue, and the bulky element it was made to carry.
use rand::RngCore;
use std::collections::VecDeque;
use vstd::prelude::*;

verus! {

broadcast use vstd::std_specs::vecdeque::group_vec_dequeue_axioms;

/// A queue: items leave at the front in the order in which they were put in
/// at the back.
#[derive(Debug)]
pub struct Queue<T> {
    elements: VecDeque<T>,
}

impl<T> View for Queue<T> {
    type V = Seq<T>;

    closed spec fn view(&self) -> Seq<T> {
        self.elements@
    }
}

/// `items` with its first and its last item exchanged; fewer than two items
/// stay as they are.
pub open spec fn ends_swapped<T>(items: Seq<T>) -> Seq<T> {
    if items.len() >= 2 {
        items.update(0, items.last()).update(items.len() - 1, items.first())
    } else {
        items
    }
}

/// `VecDeque::back_mut`: a mutable reference to the last item, or `None` for
/// an empty deque. Writing through the reference changes that item and no
/// other.
#[verifier::external_body]
fn back_mut<T>(elements: &mut VecDeque<T>) -> (back: Option<&mut T>)
    ensures
        match back {
            Some(item) => {
                &&& old(elements)@.len() > 0
                &&& *item == old(elements)@.last()
                &&& final(elements)@ == old(elements)@.update(
                    old(elements)@.len() - 1,
                    *final(item),
                )
            },
            None => old(elements)@.len() == 0 && final(elements)@ == old(elements)@,
        },
{
    elements.back_mut()
}

impl<T> Queue<T> {
    /// An empty queue.
    pub fn new() -> (queue: Queue<T>)
        ensures
            queue@ == Seq::<T>::empty(),
    {
        Queue { elements: VecDeque::new() }
    }

    /// Puts `item` at the back.
    pub fn enqueue(&mut self, item: T)
        ensures
            final(self)@ == old(self)@.push(item),
    {
        self.elements.push_back(item);
    }

    /// Takes the item at the front, or returns `None` if there is none.
    pub fn dequeue(&mut self) -> (item: Option<T>)
        ensures
            item == (if old(self)@.len() > 0 {
                Some(old(self)@.first())
            } else {
                None
            }),
            final(self)@ == (if old(self)@.len() > 0 {
                old(self)@.drop_first()
            } else {
                old(self)@
            }),
    {
        self.elements.pop_front()
    }

    /// Whether the queue holds nothing.
    pub fn is_empty(&self) -> (empty: bool)
        ensures
            empty == (self@.len() == 0),
    {
        self.elements.len() == 0
    }

    /// The item that was put in last, at the back of the queue.
    pub fn peek(&self) -> (back: Option<&T>)
        ensures
            back == (if self@.len() > 0 {
                Some(&self@.last())
            } else {
                None
            }),
    {
        let n = self.elements.len();
        if n == 0 {
            None
        } else {
            Some(&self.elements[n - 1])
        }
    }

    /// The item that was put in last, to be changed in place.
    pub fn peek_mut(&mut self) -> (back: Option<&mut T>)
        ensures
            match back {
                Some(item) => {
                    &&& old(self)@.len() > 0
                    &&& *item == old(self)@.last()
                    &&& final(self)@ == old(self)@.update(old(self)@.len() - 1, *final(item))
                },
                None => old(self)@.len() == 0 && final(self)@ == old(self)@,
            },
    {
        back_mut(&mut self.elements)
    }

    /// Exchanges the item at the front with the item at the back, by taking
    /// everything out and putting it in again.
    pub fn swap_ends(&mut self)
        ensures
            final(self)@ == ends_swapped(old(self)@),
    {
        if self.elements.len() >= 2 {
            let ghost before = self@;
            let initial_head = self.dequeue().unwrap();
            let mut tmp: Queue<T> = Queue::new();
            while self.elements.len() > 1
                invariant
                    before.len() >= 2,
                    self@.len() >= 1,
                    tmp@.len() + self@.len() + 1 == before.len(),
                    tmp@ == before.subrange(1, tmp@.len() + 1int),
                    self@ == before.subrange(tmp@.len() + 1int, before.len() as int),
                decreases self@.len(),
            {
                let item = self.dequeue().unwrap();
                tmp.enqueue(item);
                proof {
                    assert(tmp@ =~= before.subrange(1, tmp@.len() + 1int));
                    assert(self@ =~= before.subrange(tmp@.len() + 1int, before.len() as int));
                }
            }
            let ghost middle = tmp@;
            while !tmp.is_empty()
                invariant
                    before.len() >= 2,
                    middle == before.subrange(1, before.len() - 1),
                    tmp@.len() <= middle.len(),
                    tmp@ == middle.subrange(middle.len() - tmp@.len(), middle.len() as int),
                    self@ == seq![before.last()] + middle.subrange(0, middle.len() - tmp@.len()),
                decreases tmp@.len(),
            {
                let item = tmp.dequeue().unwrap();
                self.enqueue(item);
                proof {
                    assert(tmp@ =~= middle.subrange(middle.len() - tmp@.len(), middle.len() as int));
                    assert(self@ =~= seq![before.last()] + middle.subrange(
                        0,
                        middle.len() - tmp@.len(),
                    ));
                }
            }
            self.enqueue(initial_head);
            proof {
                assert(self@ =~= ends_swapped(before));
            }
        }
    }
}

impl<T> Default for Queue<T> {
    /// An empty queue.
    fn default() -> (queue: Queue<T>)
        ensures
            queue@ == Seq::<T>::empty(),
    {
        Queue::new()
    }
}

/// Bytes of data in one element.
pub const ELEMENT_SIZE: usize = 20 * 1024;

/// A block of data of fixed size, to give a queue something heavy to move.
#[derive(Debug, PartialEq, Eq)]
pub struct Element {
    data: [u8; ELEMENT_SIZE],
}

impl View for Element {
    type V = Seq<u8>;

    closed spec fn view(&self) -> Seq<u8> {
        self.data@
    }
}

/// A block filled by the thread's random number generator,
/// `rand::thread_rng`, with `RngCore::fill_bytes`. What the bytes are is a
/// matter of chance, so nothing is claimed of them.
#[verifier::external_body]
fn random_data() -> (data: [u8; ELEMENT_SIZE]) {
    let mut data = [0; ELEMENT_SIZE];
    rand::thread_rng().fill_bytes(&mut data);
    data
}

impl Default for Element {
    /// An element with random data.
    fn default() -> (element: Element)
        ensures
            element@.len() == ELEMENT_SIZE,
    {
        Element { data: random_data() }
    }
}

} // verus!
