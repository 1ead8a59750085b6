//! A block of words in memory that several threads share.

use core::sync::atomic::{AtomicU32, Ordering};
use vstd::prelude::*;

verus! {

/// The memory orderings of the accesses.
#[derive(Clone, Copy, Debug, PartialEq, Eq)]
pub enum Order {
    Relaxed,
    Acquire,
    Release,
    AcqRel,
}

/// `core::sync::atomic::fence`: orders the accesses before and after it. Asked for no ordering at
/// all it panics, which the requirement leaves out; nothing is claimed of its effect.
pub assume_specification[ std::sync::atomic::fence ](order: Ordering)
    requires
        order !is Relaxed,
;

/// A block of words in shared memory. What a word holds is up to all the threads that reach the
/// block, so nothing is stated of the values; [`crate::shared::Port`] records which accesses a
/// thread makes.
pub struct SharedWords {
    words: Vec<AtomicU32>,
}

impl SharedWords {
    /// The number of words.
    pub closed spec fn size(&self) -> usize {
        self.words.len()
    }

    /// The block has a word for each of the given ones, made from it by `AtomicU32::new`.
    pub closed spec fn starts_from(&self, initial: Seq<u32>) -> bool {
        &&& self.words@.len() == initial.len()
        &&& forall|i: int|
            0 <= i < initial.len() ==> call_ensures(
                AtomicU32::new,
                (initial[i],),
                #[trigger] self.words@[i],
            )
    }

    /// A block that starts with the given words.
    pub fn new(initial: &Vec<u32>) -> (block: SharedWords)
        ensures
            block.size() == initial@.len(),
            block.starts_from(initial@),
    {
        let mut words: Vec<AtomicU32> = Vec::new();
        for i in 0..initial.len()
            invariant
                words@.len() == i,
                forall|j: int|
                    0 <= j < i ==> call_ensures(
                        AtomicU32::new,
                        (initial@[j],),
                        #[trigger] words@[j],
                    ),
        {
            words.push(AtomicU32::new(initial[i]));
        }
        SharedWords { words }
    }

    /// The number of words.
    pub fn len(&self) -> (n: usize)
        ensures
            n == self.size(),
    {
        self.words.len()
    }

    /// The word at `at`, as the thing to sleep on.
    pub closed spec fn word_at(&self, at: int) -> AtomicU32 {
        self.words@[at]
    }

    /// The word at `at`, for a thread that sleeps until it changes or wakes those who do.
    pub fn word(&self, at: usize) -> (word: &AtomicU32)
        requires
            at < self.size(),
        ensures
            *word == self.word_at(at as int),
    {
        &self.words[at]
    }

    /// The word at a position.
    pub closed spec fn nth(&self, at: usize) -> AtomicU32 {
        self.word_at(at as int)
    }

    /// `seen` is a result of `AtomicU32::load` on the word at `at`.
    pub closed spec fn loaded(&self, at: usize, order: Order, seen: u32) -> bool {
        call_ensures(AtomicU32::load, (&self.nth(at), load_ordering(order)), seen)
    }

    /// `AtomicU32::store` was called with `value` on the word at `at`.
    pub closed spec fn stored(&self, at: usize, order: Order, value: u32) -> bool {
        call_ensures(AtomicU32::store, (&self.nth(at), value, store_ordering(order)), ())
    }

    /// `seen` is a result of `AtomicU32::fetch_add` of `value` to the word at `at`.
    pub closed spec fn added(&self, at: usize, order: Order, value: u32, seen: u32) -> bool {
        call_ensures(AtomicU32::fetch_add, (&self.nth(at), value, std_ordering(order)), seen)
    }

    /// `seen` is a result of `AtomicU32::fetch_or` of `value` with the word at `at`.
    pub closed spec fn ored(&self, at: usize, order: Order, value: u32, seen: u32) -> bool {
        call_ensures(AtomicU32::fetch_or, (&self.nth(at), value, std_ordering(order)), seen)
    }

    /// `seen` is a result of `AtomicU32::fetch_and` of `value` with the word at `at`.
    pub closed spec fn anded(&self, at: usize, order: Order, value: u32, seen: u32) -> bool {
        call_ensures(AtomicU32::fetch_and, (&self.nth(at), value, std_ordering(order)), seen)
    }

    /// `seen` is a result of `AtomicU32::fetch_max` of `value` with the word at `at`.
    pub closed spec fn raised(&self, at: usize, order: Order, value: u32, seen: u32) -> bool {
        call_ensures(AtomicU32::fetch_max, (&self.nth(at), value, std_ordering(order)), seen)
    }

    /// `seen` is a result of `AtomicU32::swap` of `value` into the word at `at`.
    pub closed spec fn swapped(&self, at: usize, order: Order, value: u32, seen: u32) -> bool {
        call_ensures(AtomicU32::swap, (&self.nth(at), value, std_ordering(order)), seen)
    }

    /// `seen` is a result of `AtomicU32::compare_exchange` of `current` for `new` in the word at
    /// `at`. A failed exchange orders nothing.
    pub closed spec fn exchanged(
        &self,
        at: usize,
        order: Order,
        current: u32,
        new: u32,
        seen: Result<u32, u32>,
    ) -> bool {
        call_ensures(
            AtomicU32::compare_exchange,
            (&self.nth(at), current, new, std_ordering(order), Ordering::Relaxed),
            seen,
        )
    }

    pub(crate) fn load(&self, at: usize, order: Order) -> (seen: u32)
        requires
            at < self.size(),
        ensures
            self.loaded(at, order, seen),
    {
        match order {
            Order::Relaxed => self.words[at].load(Ordering::Relaxed),
            _ => self.words[at].load(Ordering::Acquire),
        }
    }

    pub(crate) fn store(&self, at: usize, order: Order, value: u32)
        requires
            at < self.size(),
        ensures
            self.stored(at, order, value),
    {
        match order {
            Order::Relaxed => self.words[at].store(value, Ordering::Relaxed),
            _ => self.words[at].store(value, Ordering::Release),
        }
    }

    pub(crate) fn add(&self, at: usize, order: Order, value: u32) -> (seen: u32)
        requires
            at < self.size(),
        ensures
            self.added(at, order, value, seen),
    {
        self.words[at].fetch_add(value, ordering(order))
    }

    pub(crate) fn or(&self, at: usize, order: Order, value: u32) -> (seen: u32)
        requires
            at < self.size(),
        ensures
            self.ored(at, order, value, seen),
    {
        self.words[at].fetch_or(value, ordering(order))
    }

    pub(crate) fn and(&self, at: usize, order: Order, value: u32) -> (seen: u32)
        requires
            at < self.size(),
        ensures
            self.anded(at, order, value, seen),
    {
        self.words[at].fetch_and(value, ordering(order))
    }

    pub(crate) fn max(&self, at: usize, order: Order, value: u32) -> (seen: u32)
        requires
            at < self.size(),
        ensures
            self.raised(at, order, value, seen),
    {
        self.words[at].fetch_max(value, ordering(order))
    }

    pub(crate) fn swap(&self, at: usize, order: Order, value: u32) -> (seen: u32)
        requires
            at < self.size(),
        ensures
            self.swapped(at, order, value, seen),
    {
        self.words[at].swap(value, ordering(order))
    }

    pub(crate) fn exchange(&self, at: usize, order: Order, current: u32, new: u32) -> (seen: Result<
        u32,
        u32,
    >)
        requires
            at < self.size(),
        ensures
            self.exchanged(at, order, current, new, seen),
    {
        self.words[at].compare_exchange(current, new, ordering(order), Ordering::Relaxed)
    }
}

/// Each place of a block has its own word, the one that was made for it: what is slept on there is
/// what is accessed there, and a block starts with the words that it was given, place by place.
pub proof fn each_place_has_its_word(block: SharedWords, at: usize, initial: Seq<u32>)
    requires
        at < block.size(),
        block.starts_from(initial),
    ensures
        block.size() == initial.len(),
        block.nth(at) == block.word_at(at as int),
        call_ensures(AtomicU32::new, (initial[at as int],), block.word_at(at as int)),
{
    assert(call_ensures(AtomicU32::new, (initial[at as int],), block.words@[at as int]));
}

/// `fence` was called with the ordering.
pub closed spec fn fenced(order: Order) -> bool {
    call_ensures(std::sync::atomic::fence, (std_ordering(order),), ())
}

pub(crate) fn order_fence(order: Order)
    requires
        !(order is Relaxed),
    ensures
        fenced(order),
{
    std::sync::atomic::fence(ordering(order))
}

/// The standard library's name for an ordering.
spec fn std_ordering(order: Order) -> Ordering {
    match order {
        Order::Relaxed => Ordering::Relaxed,
        Order::Acquire => Ordering::Acquire,
        Order::Release => Ordering::Release,
        Order::AcqRel => Ordering::AcqRel,
    }
}

/// The ordering of a load, which can only be relaxed or acquire.
spec fn load_ordering(order: Order) -> Ordering {
    match order {
        Order::Relaxed => Ordering::Relaxed,
        _ => Ordering::Acquire,
    }
}

/// The ordering of a store, which can only be relaxed or release.
spec fn store_ordering(order: Order) -> Ordering {
    match order {
        Order::Relaxed => Ordering::Relaxed,
        _ => Ordering::Release,
    }
}

/// Every access keeps the ordering that it is asked for: a relaxed one is relaxed, an acquiring load
/// acquires, a releasing store releases, and the others do what their order says.
pub proof fn accesses_keep_their_ordering(
    block: SharedWords,
    at: usize,
    word: AtomicU32,
    value: u32,
    seen: u32,
)
    requires
        word == block.nth(at),
    ensures
        block.loaded(at, Order::Relaxed, seen) == call_ensures(
            AtomicU32::load,
            (&word, Ordering::Relaxed),
            seen,
        ),
        block.loaded(at, Order::Acquire, seen) == call_ensures(
            AtomicU32::load,
            (&word, Ordering::Acquire),
            seen,
        ),
        block.stored(at, Order::Relaxed, value) == call_ensures(
            AtomicU32::store,
            (&word, value, Ordering::Relaxed),
            (),
        ),
        block.stored(at, Order::Release, value) == call_ensures(
            AtomicU32::store,
            (&word, value, Ordering::Release),
            (),
        ),
        block.added(at, Order::Relaxed, value, seen) == call_ensures(
            AtomicU32::fetch_add,
            (&word, value, Ordering::Relaxed),
            seen,
        ),
        block.added(at, Order::Release, value, seen) == call_ensures(
            AtomicU32::fetch_add,
            (&word, value, Ordering::Release),
            seen,
        ),
        block.ored(at, Order::Relaxed, value, seen) == call_ensures(
            AtomicU32::fetch_or,
            (&word, value, Ordering::Relaxed),
            seen,
        ),
        block.anded(at, Order::Relaxed, value, seen) == call_ensures(
            AtomicU32::fetch_and,
            (&word, value, Ordering::Relaxed),
            seen,
        ),
        block.raised(at, Order::Relaxed, value, seen) == call_ensures(
            AtomicU32::fetch_max,
            (&word, value, Ordering::Relaxed),
            seen,
        ),
        block.swapped(at, Order::Relaxed, value, seen) == call_ensures(
            AtomicU32::swap,
            (&word, value, Ordering::Relaxed),
            seen,
        ),
        forall|new: u32, result: Result<u32, u32>| #[trigger]
            block.exchanged(at, Order::Acquire, value, new, result) == call_ensures(
                AtomicU32::compare_exchange,
                (&word, value, new, Ordering::Acquire, Ordering::Relaxed),
                result,
            ),
        forall|new: u32, result: Result<u32, u32>| #[trigger]
            block.exchanged(at, Order::AcqRel, value, new, result) == call_ensures(
                AtomicU32::compare_exchange,
                (&word, value, new, Ordering::AcqRel, Ordering::Relaxed),
                result,
            ),
        fenced(Order::Acquire) == call_ensures(
            std::sync::atomic::fence,
            (Ordering::Acquire,),
            (),
        ),
        fenced(Order::Release) == call_ensures(
            std::sync::atomic::fence,
            (Ordering::Release,),
            (),
        ),
{
}

/// The standard library's name for an ordering.
fn ordering(order: Order) -> (o: Ordering)
    ensures
        o == std_ordering(order),
        order is Relaxed <==> o is Relaxed,
        order is Acquire <==> o is Acquire,
        order is Release <==> o is Release,
        order is AcqRel <==> o is AcqRel,
{
    match order {
        Order::Relaxed => Ordering::Relaxed,
        Order::Acquire => Ordering::Acquire,
        Order::Release => Ordering::Release,
        Order::AcqRel => Ordering::AcqRel,
    }
}

} // verus!
