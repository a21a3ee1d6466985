//! Fixed-size per-thread counters, summed up once all threads are done.
//!
//! Each thread registers once and gets a token for a counter of its own;
//! afterwards the counters can be read one by one.
use vstd::prelude::*;

use crate::local::InvalidCapacity;

verus! {

/// One counter of a [`ThreadCounter`].
pub struct Counter {
    value: usize,
}

impl Counter {
    /// The counter's value.
    pub closed spec fn value(&self) -> usize {
        self.value
    }

    /// Creates a counter at 0.
    pub fn new() -> (r: Self)
        ensures
            r.value() == 0,
    {
        Counter { value: 0 }
    }
}

impl Default for Counter {
    fn default() -> (r: Self)
        ensures
            r.value() == 0,
    {
        Counter::new()
    }
}

/// The number of counters fell short of the registrations: the thread that
/// registered last got no counter.
#[derive(Clone, Copy, Debug, Hash, PartialEq, Eq, PartialOrd, Ord, Structural)]
pub struct RegistryError;

impl RegistryError {
    /// Describes the error.
    pub fn message(&self) -> (r: &'static str)
        ensures
            r@ == "exceeded the number of counters of a `ThreadCounter`"@,
    {
        "exceeded the number of counters of a `ThreadCounter`"
    }
}

/// A registration with a [`ThreadCounter`]: the index of the counter that it
/// grants, tied to the [`ThreadCounter`] that issued it.
#[derive(Clone, Copy)]
pub struct Token {
    idx: usize,
    issuer: Ghost<int>,
}

impl Token {
    /// The index of the counter that this token grants.
    pub closed spec fn index(&self) -> nat {
        self.idx as nat
    }

    /// The identity of the [`ThreadCounter`] that issued this token.
    pub closed spec fn issuer(&self) -> int {
        self.issuer@
    }
}

/// Where the counters live: in a buffer that the caller lends, or in memory
/// that the counter owns.
enum Storage<'s> {
    Buffer(&'s mut [Counter]),
    Heap(Vec<Counter>),
}

impl<'s> Storage<'s> {
    spec fn values(&self) -> Seq<usize> {
        match self {
            Storage::Buffer(b) => b@.map_values(|c: Counter| c.value),
            Storage::Heap(v) => v@.map_values(|c: Counter| c.value),
        }
    }

    fn size(&self) -> (r: usize)
        ensures
            r == self.values().len(),
    {
        match self {
            Storage::Buffer(slice) => slice.len(),
            Storage::Heap(boxed) => boxed.len(),
        }
    }

    fn index(&self, i: usize) -> (r: usize)
        requires
            i < self.values().len(),
        ensures
            r == self.values()[i as int],
    {
        match self {
            Storage::Buffer(slice) => slice[i].value,
            Storage::Heap(boxed) => boxed[i].value,
        }
    }

    fn set(&mut self, i: usize, value: usize)
        requires
            i < old(self).values().len(),
        ensures
            final(self).values() == old(self).values().update(i as int, value),
    {
        let ghost before = self.values();
        match self {
            Storage::Buffer(slice) => {
                slice[i].value = value;
            },
            Storage::Heap(boxed) => {
                boxed[i].value = value;
            },
        }
        assert(self.values() =~= before.update(i as int, value));
    }
}

/// A fixed number of counters, one for each registered thread.
///
/// Each value of this type has an identity, which its tokens carry. Nothing
/// is known of it but that it stays the same, so a proof can only hand
/// [`update`](ThreadCounter::update) a token that it knows was issued by the
/// same counter.
pub struct ThreadCounter<'s> {
    counters: Storage<'s>,
    registered_threads: usize,
    instance: Ghost<int>,
}

impl<'s> ThreadCounter<'s> {
    /// The counters' values, in registration order.
    pub closed spec fn counts(&self) -> Seq<usize> {
        self.counters.values()
    }

    /// The number of registrations so far, successful or not.
    pub closed spec fn registered(&self) -> nat {
        self.registered_threads as nat
    }

    /// The identity of this counter.
    pub closed spec fn instance(&self) -> int {
        self.instance@
    }

    /// Whether `token` was handed out by a registration with this counter.
    pub open spec fn is_issued(&self, token: Token) -> bool {
        &&& token.issuer() == self.instance()
        &&& token.index() < self.counts().len()
        &&& token.index() < self.registered()
    }

    /// Creates counters over a buffer that the caller lends. Fails on an empty
    /// buffer.
    pub fn with_buffer(buffer: &'s mut [Counter]) -> (r: Result<Self, InvalidCapacity>)
        ensures
            r is Ok <==> old(buffer)@.len() > 0,
            r matches Ok(c) ==> c.counts() == old(buffer)@.map_values(|x: Counter| x.value())
                && c.registered() == 0,
    {
        if buffer.len() == 0 {
            return Err(InvalidCapacity);
        }
        let c = ThreadCounter {
            counters: Storage::Buffer(buffer),
            registered_threads: 0,
            instance: Ghost(arbitrary()),
        };
        assert(c.counts() =~= old(buffer)@.map_values(|x: Counter| x.value()));
        Ok(c)
    }

    /// Creates `max_threads` counters at 0. Fails where `max_threads` is 0.
    pub fn new(max_threads: usize) -> (r: Result<Self, InvalidCapacity>)
        ensures
            r is Ok <==> max_threads > 0,
            r matches Ok(c) ==> c.counts() == Seq::new(max_threads as nat, |i: int| 0usize)
                && c.registered() == 0,
    {
        if max_threads == 0 {
            return Err(InvalidCapacity);
        }
        let mut counters: Vec<Counter> = Vec::new();
        let mut i: usize = 0;
        while i < max_threads
            invariant
                i <= max_threads,
                counters@.len() == i,
                forall|j: int| 0 <= j < i ==> #[trigger] counters@[j].value == 0,
            decreases max_threads - i,
        {
            counters.push(Counter::new());
            i = i + 1;
        }
        let c = ThreadCounter {
            counters: Storage::Heap(counters),
            registered_threads: 0,
            instance: Ghost(arbitrary()),
        };
        assert(c.counts() =~= Seq::new(max_threads as nat, |i: int| 0usize));
        Ok(c)
    }

    /// Registers the calling thread. The registration counts whether or not
    /// it succeeds; it succeeds exactly when a counter is left, and then
    /// grants the counter whose index is the number of earlier registrations.
    pub fn register_thread(&mut self) -> (r: Result<Token, RegistryError>)
        requires
            old(self).registered() < usize::MAX,
        ensures
            register_step(*old(self), *final(self), r),
    {
        let token = self.registered_threads;
        self.registered_threads = token + 1;
        if token < self.counters.size() {
            Ok(Token { idx: token, issuer: Ghost(self.instance@) })
        } else {
            Err(RegistryError)
        }
    }

    /// Returns the number of counters.
    pub fn len(&self) -> (r: usize)
        ensures
            r == self.counts().len(),
    {
        self.counters.size()
    }

    /// Returns the number of registrations so far, successful or not.
    pub fn registration_count(&self) -> (r: usize)
        ensures
            r == self.registered(),
    {
        self.registered_threads
    }

    /// Returns whether this counter has handed out a token with the index of
    /// `token`. The identity of the issuing counter is not checked here: it
    /// exists for proofs only.
    pub fn is_issued_here(&self, token: Token) -> (r: bool)
        ensures
            r == (token.index() < self.counts().len() && token.index() < self.registered()),
            token.issuer() == self.instance() ==> r == self.is_issued(token),
    {
        token.idx < self.counters.size() && token.idx < self.registered_threads
    }

    /// Replaces the token's counter by what `func` makes of it.
    pub fn update<F: FnOnce(usize) -> usize>(&mut self, token: Token, func: F)
        requires
            old(self).is_issued(token),
            func.requires((old(self).counts()[token.index() as int],)),
        ensures
            final(self).registered() == old(self).registered(),
            final(self).instance() == old(self).instance(),
            final(self).counts().len() == old(self).counts().len(),
            func.ensures(
                (old(self).counts()[token.index() as int],),
                final(self).counts()[token.index() as int],
            ),
            final(self).counts() == old(self).counts().update(
                token.index() as int,
                final(self).counts()[token.index() as int],
            ),
    {
        let curr = self.counters.index(token.idx);
        let next = func(curr);
        self.counters.set(token.idx, next);
    }

    /// Starts reading the counters, in index order.
    pub fn iter(&mut self) -> (r: Iter<'_, 's>)
        ensures
            r.items() == old(self).counts(),
            r.position() == 0,
            final(self).counts() == old(self).counts(),
            final(self).registered() == old(self).registered(),
            final(self).instance() == old(self).instance(),
    {
        Iter { idx: 0, counter: self }
    }

    /// Consumes the counters into an iteration over their values, in index
    /// order.
    pub fn into_iter(self) -> (r: IntoIter<'s>)
        ensures
            r.items() == self.counts(),
            r.position() == 0,
    {
        IntoIter { idx: 0, counter: self }
    }
}

/// A reading of the counters of a [`ThreadCounter`] by reference.
pub struct Iter<'c, 's> {
    idx: usize,
    counter: &'c ThreadCounter<'s>,
}

impl<'c, 's> Iter<'c, 's> {
    /// The values of all counters, in index order.
    pub closed spec fn items(&self) -> Seq<usize> {
        self.counter.counts()
    }

    /// How many counters have been read.
    pub closed spec fn position(&self) -> nat {
        self.idx as nat
    }

    /// Returns the value of the next counter, or `None` once all have been
    /// read.
    pub fn next(&mut self) -> (r: Option<usize>)
        ensures
            final(self).items() == old(self).items(),
            old(self).position() < old(self).items().len() ==> r == Some(
                old(self).items()[old(self).position() as int],
            ) && final(self).position() == old(self).position() + 1,
            old(self).position() >= old(self).items().len() ==> r is None && final(self).position()
                == old(self).position(),
    {
        let idx = self.idx;
        if idx < self.counter.counters.size() {
            self.idx = idx + 1;
            Some(self.counter.counters.index(idx))
        } else {
            None
        }
    }
}

/// A reading of the counters of a [`ThreadCounter`] that consumes it.
pub struct IntoIter<'s> {
    idx: usize,
    counter: ThreadCounter<'s>,
}

impl<'s> IntoIter<'s> {
    /// The values of all counters, in index order.
    pub closed spec fn items(&self) -> Seq<usize> {
        self.counter.counts()
    }

    /// How many counters have been read.
    pub closed spec fn position(&self) -> nat {
        self.idx as nat
    }

    /// Returns the value of the next counter, or `None` once all have been
    /// read.
    pub fn next(&mut self) -> (r: Option<usize>)
        ensures
            final(self).items() == old(self).items(),
            old(self).position() < old(self).items().len() ==> r == Some(
                old(self).items()[old(self).position() as int],
            ) && final(self).position() == old(self).position() + 1,
            old(self).position() >= old(self).items().len() ==> r is None && final(self).position()
                == old(self).position(),
    {
        let idx = self.idx;
        if idx < self.counter.counters.size() {
            self.idx = idx + 1;
            Some(self.counter.counters.index(idx))
        } else {
            None
        }
    }
}

/// What one registration does to a counter, going from `before` to `after`
/// with result `r`: it is counted, leaves the values alone, and succeeds
/// exactly when a counter is left, granting the counter whose index is the
/// number of earlier registrations.
pub open spec fn register_step<'s>(
    before: ThreadCounter<'s>,
    after: ThreadCounter<'s>,
    r: Result<Token, RegistryError>,
) -> bool {
    &&& after.counts() == before.counts()
    &&& after.registered() == before.registered() + 1
    &&& after.instance() == before.instance()
    &&& (r is Ok <==> before.registered() < before.counts().len())
    &&& (r matches Ok(token) ==> token.index() == before.registered() && token.issuer()
        == before.instance())
}

/// On a fresh counter with `n` values, `n` registrations made one after
/// another (`states[j]` to `states[j + 1]` with result `results[j]`) all
/// succeed, granting the counters `0, 1, ..., n - 1` of this very counter,
/// and the registration after them fails.
pub proof fn lemma_sequential_registrations<'s>(
    states: Seq<ThreadCounter<'s>>,
    results: Seq<Result<Token, RegistryError>>,
)
    requires
        states[0].registered() == 0,
        results.len() == states[0].counts().len() + 1,
        states.len() == results.len() + 1,
        forall|j: int|
            0 <= j < results.len() ==> register_step(#[trigger] states[j], states[j + 1], results[j]),
    ensures
        forall|j: int|
            0 <= j < states[0].counts().len() ==> (#[trigger] results[j] matches Ok(t) && t.index()
                == j && t.issuer() == states[0].instance()),
        results[states[0].counts().len() as int] is Err,
{
    let n = states[0].counts().len();
    assert forall|j: int| 0 <= j < n implies (#[trigger] results[j] matches Ok(t) && t.index() == j
        && t.issuer() == states[0].instance()) by {
        lemma_registration_chain(states, results, j);
        assert(register_step(states[j], states[j + 1], results[j]));
    }
    lemma_registration_chain(states, results, n as int);
    assert(register_step(states[n as int], states[(n + 1) as int], results[n as int]));
}

proof fn lemma_registration_chain<'s>(
    states: Seq<ThreadCounter<'s>>,
    results: Seq<Result<Token, RegistryError>>,
    j: int,
)
    requires
        states[0].registered() == 0,
        states.len() == results.len() + 1,
        0 <= j <= results.len(),
        forall|k: int|
            0 <= k < results.len() ==> register_step(#[trigger] states[k], states[k + 1], results[k]),
    ensures
        states[j].registered() == j,
        states[j].counts() == states[0].counts(),
        states[j].instance() == states[0].instance(),
    decreases j,
{
    if j > 0 {
        lemma_registration_chain(states, results, j - 1);
        assert(register_step(states[j - 1], states[j], results[j - 1]));
    }
}

} // verus!
