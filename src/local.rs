//! A bounded registry of per-thread slots.
//!
//! A registry of capacity `n` hands out at most `n` tokens, one per claim,
//! each for a distinct slot, in ascending slot order. A token owns its slot's
//! value for as long as it lives: nobody else can read or write that value in
//! the meantime. Releasing the token either puts the value back into its slot
//! (deferred mode) or drops it (drop-on-release mode). Once no token is
//! outstanding, the slots can be iterated by reference or consumed.
use vstd::prelude::*;

verus! {

/// The state of one slot, as the registry sees it.
pub enum Slot<T> {
    /// Not handed out yet; holds its initial value.
    Fresh(T),
    /// Not handed out yet, and empty: the claim that takes it supplies the
    /// value.
    Unset,
    /// Handed out to a token that has not been released yet. The value lives
    /// in the token meanwhile.
    Held,
    /// Released in deferred mode: holds the value that the token left.
    Kept(T),
    /// Released in drop-on-release mode: the value was dropped.
    Dropped,
}

/// The value that a slot in state `s` holds, if any.
pub open spec fn slot_value<T>(s: Slot<T>) -> Option<T> {
    match s {
        Slot::Fresh(v) => Some(v),
        Slot::Kept(v) => Some(v),
        _ => None,
    }
}

/// Whether a slot in state `s` has not been handed out yet.
pub open spec fn is_unclaimed<T>(s: Slot<T>) -> bool {
    s is Fresh || s is Unset
}

/// The state that a slot in state `s` takes when a new registry starts
/// over it: a value that it holds becomes its initial value.
pub open spec fn unclaimed_state<T>(s: Slot<T>) -> Slot<T> {
    match s {
        Slot::Fresh(v) => Slot::Fresh(v),
        Slot::Kept(v) => Slot::Fresh(v),
        _ => Slot::Unset,
    }
}

/// Slot state `s` with its value replaced by `v`.
pub open spec fn with_value<T>(s: Slot<T>, v: T) -> Slot<T> {
    match s {
        Slot::Fresh(_) => Slot::Fresh(v),
        Slot::Kept(_) => Slot::Kept(v),
        _ => s,
    }
}

/// The values of a sequence of slots, in slot order.
pub open spec fn contents<T>(slots: Seq<Slot<T>>) -> Seq<Option<T>> {
    slots.map_values(|s: Slot<T>| slot_value(s))
}

/// The number of slots in `s` that satisfy `p`.
pub open spec fn count_where<T>(s: Seq<Slot<T>>, p: spec_fn(Slot<T>) -> bool) -> nat
    decreases s.len(),
{
    if s.len() == 0 {
        0
    } else {
        count_where(s.drop_last(), p) + if p(s.last()) {
            1nat
        } else {
            0nat
        }
    }
}

/// The number of slots that were released in deferred mode.
pub open spec fn kept_count<T>(s: Seq<Slot<T>>) -> nat {
    count_where(s, |x: Slot<T>| x is Kept)
}

/// What a claim on a registry with `registered` earlier claims and the given
/// capacity hands out: the slot index `registered`, if it is in range.
pub open spec fn claim_index(registered: nat, capacity: nat) -> Option<nat> {
    if registered < capacity {
        Some(registered)
    } else {
        None
    }
}

/// What happens to a token's value when it is released.
#[derive(Clone, Copy, Debug, PartialEq, Eq, Structural)]
pub enum DropMode {
    /// The value goes back into its slot, for later iteration or collection.
    Deferred,
    /// The value is dropped at once; the slot ends up empty.
    OnRelease,
}

/// A storage cell for one slot of a [`BoundedThreadLocal`].
pub struct Local<T> {
    state: Slot<T>,
}

impl<T> Default for Local<T> {
    /// Creates an empty cell that has not been handed out; the claim that
    /// takes it supplies the value.
    fn default() -> (r: Self)
        ensures
            r.state() == Slot::<T>::Unset,
    {
        Local { state: Slot::Unset }
    }
}

impl<T> Local<T> {
    /// The state of this cell.
    pub closed spec fn state(&self) -> Slot<T> {
        self.state
    }

    /// Creates a cell that holds `local` and has not been handed out.
    pub fn new(local: T) -> (r: Self)
        ensures
            r.state() == Slot::Fresh(local),
    {
        Local { state: Slot::Fresh(local) }
    }
}

/// Where the slots live: in a buffer that the caller lends, or in memory that
/// the registry owns.
enum Storage<'s, T> {
    Buffer(&'s mut [Local<T>]),
    Heap(Vec<Local<T>>),
}

impl<'s, T> Storage<'s, T> {
    spec fn cells(&self) -> Seq<Local<T>> {
        match self {
            Storage::Buffer(b) => b@,
            Storage::Heap(v) => v@,
        }
    }

    spec fn states(&self) -> Seq<Slot<T>> {
        self.cells().map_values(|c: Local<T>| c.state)
    }

    fn len(&self) -> (r: usize)
        ensures
            r == self.states().len(),
    {
        match self {
            Storage::Buffer(b) => b.len(),
            Storage::Heap(v) => v.len(),
        }
    }

    fn cell(&self, i: usize) -> (r: &Local<T>)
        requires
            i < self.states().len(),
        ensures
            r.state == self.states()[i as int],
    {
        match self {
            Storage::Buffer(b) => &b[i],
            Storage::Heap(v) => &v[i],
        }
    }

    /// Returns a mutable reference to the value that slot `i` holds, if any.
    fn value_mut(&mut self, i: usize) -> (r: Option<&mut T>)
        requires
            i < old(self).states().len(),
        ensures
            r is Some <==> slot_value(old(self).states()[i as int]) is Some,
            r matches Some(x) ==> {
                &&& slot_value(old(self).states()[i as int]) == Some(*x)
                &&& final(self).states() == old(self).states().update(
                    i as int,
                    with_value(old(self).states()[i as int], *final(x)),
                )
            },
            r is None ==> final(self).states() == old(self).states(),
    {
        let c = match self {
            Storage::Buffer(b) => &mut b[i],
            Storage::Heap(v) => &mut v[i],
        };
        match &mut c.state {
            Slot::Fresh(v) => Some(v),
            Slot::Kept(v) => Some(v),
            _ => None,
        }
    }

    /// Puts `s` into slot `i` and returns what the slot held before.
    fn replace(&mut self, i: usize, s: Slot<T>) -> (r: Slot<T>)
        requires
            i < old(self).states().len(),
        ensures
            r == old(self).states()[i as int],
            final(self).states() == old(self).states().update(i as int, s),
    {
        let ghost before = self.states();
        let mut s = s;
        match self {
            Storage::Buffer(b) => {
                let c = &mut b[i];
                core::mem::swap(&mut c.state, &mut s);
            },
            Storage::Heap(v) => {
                let c = &mut v[i];
                core::mem::swap(&mut c.state, &mut s);
            },
        }
        assert(self.states() =~= before.update(i as int, self.states()[i as int]));
        s
    }
}


proof fn lemma_count_update<T>(s: Seq<Slot<T>>, i: int, x: Slot<T>, p: spec_fn(Slot<T>) -> bool)
    requires
        0 <= i < s.len(),
    ensures
        count_where(s.update(i, x), p) + (if p(s[i]) { 1nat } else { 0nat }) == count_where(s, p)
            + (if p(x) { 1nat } else { 0nat }),
    decreases s.len(),
{
    let t = s.update(i, x);
    if i == s.len() - 1 {
        assert(t.drop_last() =~= s.drop_last());
    } else {
        assert(t.drop_last() =~= s.drop_last().update(i, x));
        lemma_count_update(s.drop_last(), i, x, p);
    }
}

proof fn lemma_count_le_len<T>(s: Seq<Slot<T>>, p: spec_fn(Slot<T>) -> bool)
    ensures
        count_where(s, p) <= s.len(),
    decreases s.len(),
{
    if s.len() > 0 {
        lemma_count_le_len(s.drop_last(), p);
    }
}

/// Slots of two disjoint kinds, both contained in a third, are no more than
/// the slots of the third.
proof fn lemma_count_disjoint<T>(
    s: Seq<Slot<T>>,
    p: spec_fn(Slot<T>) -> bool,
    q: spec_fn(Slot<T>) -> bool,
    r: spec_fn(Slot<T>) -> bool,
)
    requires
        forall|x: Slot<T>| #[trigger] p(x) ==> r(x) && !q(x),
        forall|x: Slot<T>| #[trigger] q(x) ==> r(x),
    ensures
        count_where(s, p) + count_where(s, q) <= count_where(s, r),
    decreases s.len(),
{
    if s.len() > 0 {
        lemma_count_disjoint(s.drop_last(), p, q, r);
    }
}

/// Where no slot at or after `m` satisfies `p`, at most `m` slots do.
proof fn lemma_count_prefix<T>(s: Seq<Slot<T>>, m: nat, p: spec_fn(Slot<T>) -> bool)
    requires
        forall|i: int| m <= i < s.len() ==> !p(#[trigger] s[i]),
    ensures
        count_where(s, p) <= m,
    decreases s.len(),
{
    if s.len() > m {
        assert(!p(s.last()));
        lemma_count_prefix(s.drop_last(), m, p);
    } else {
        lemma_count_le_len(s, p);
    }
}

/// Where the first `m` slots all satisfy `p`, at least `m` slots do.
proof fn lemma_count_prefix_lower<T>(s: Seq<Slot<T>>, m: nat, p: spec_fn(Slot<T>) -> bool)
    requires
        m <= s.len(),
        forall|i: int| 0 <= i < m ==> p(#[trigger] s[i]),
    ensures
        count_where(s, p) >= m,
    decreases s.len(),
{
    if s.len() > 0 {
        if m == s.len() {
            lemma_count_prefix_lower(s.drop_last(), (m - 1) as nat, p);
            assert(p(s[s.len() - 1]));
        } else {
            lemma_count_prefix_lower(s.drop_last(), m, p);
        }
    }
}

proof fn lemma_count_positive<T>(s: Seq<Slot<T>>, i: int, p: spec_fn(Slot<T>) -> bool)
    requires
        0 <= i < s.len(),
        p(s[i]),
    ensures
        count_where(s, p) >= 1,
    decreases s.len(),
{
    if i < s.len() - 1 {
        lemma_count_positive(s.drop_last(), i, p);
    }
}

/// The slot index was outside the registry's capacity: every slot has
/// already been handed out.
#[derive(Clone, Copy, Debug, Hash, PartialEq, Eq, PartialOrd, Ord, Structural)]
pub struct BoundsError;

/// A token may still be outstanding, so the slots cannot be read safely.
#[derive(Clone, Copy, Debug, Hash, PartialEq, Eq, PartialOrd, Ord, Structural)]
pub struct ConcurrentAccessErr;

/// A registry must have at least one slot.
#[derive(Clone, Copy, Debug, Hash, PartialEq, Eq, PartialOrd, Ord, Structural)]
pub struct InvalidCapacity;

impl BoundsError {
    /// Describes the error.
    pub fn message(&self) -> (r: &'static str)
        ensures
            r@ == "exceeded bounds for `BoundedThreadLocal`"@,
    {
        "exceeded bounds for `BoundedThreadLocal`"
    }
}

impl ConcurrentAccessErr {
    /// Describes the error.
    pub fn message(&self) -> (r: &'static str)
        ensures
            r@ == "concurrent access from live thread token (not all tokens have yet been dropped)"@,
    {
        "concurrent access from live thread token (not all tokens have yet been dropped)"
    }
}

impl InvalidCapacity {
    /// Describes the error.
    pub fn message(&self) -> (r: &'static str)
        ensures
            r@ == "the capacity of a `BoundedThreadLocal` must be greater than 0"@,
    {
        "the capacity of a `BoundedThreadLocal` must be greater than 0"
    }
}

/// A token granting exclusive access to the value of one slot of a
/// [`BoundedThreadLocal`]. The value lives in the token until the token is
/// handed back with [`BoundedThreadLocal::release`].
pub struct Token<T> {
    index: usize,
    value: T,
    mode: DropMode,
    issuer: Ghost<int>,
}

impl<T> Token<T> {
    /// The index of the slot that this token stands for.
    pub closed spec fn slot_index(&self) -> nat {
        self.index as nat
    }

    /// The slot's current value.
    pub closed spec fn value(&self) -> T {
        self.value
    }

    /// What releasing this token does with its value.
    pub closed spec fn mode(&self) -> DropMode {
        self.mode
    }

    /// The identity of the registry that issued this token.
    pub closed spec fn issuer(&self) -> int {
        self.issuer@
    }

    /// The state that this token's slot takes when the token is released.
    pub open spec fn released_state(&self) -> Slot<T> {
        match self.mode() {
            DropMode::Deferred => Slot::Kept(self.value()),
            DropMode::OnRelease => Slot::Dropped,
        }
    }

    /// Returns the index of the slot that this token stands for.
    pub fn index(&self) -> (r: usize)
        ensures
            r == self.slot_index(),
    {
        self.index
    }

    /// Returns a reference to the slot's value.
    pub fn get(&self) -> (r: &T)
        ensures
            *r == self.value(),
    {
        &self.value
    }

    /// Returns a mutable reference to the slot's value.
    pub fn get_mut(&mut self) -> (r: &mut T)
        ensures
            *r == old(self).value(),
            final(self).value() == *final(r),
            final(self).slot_index() == old(self).slot_index(),
            final(self).mode() == old(self).mode(),
            final(self).issuer() == old(self).issuer(),
    {
        &mut self.value
    }

    /// Replaces the slot's value by what `mutator` makes of it.
    pub fn update<F: FnOnce(&T) -> T>(&mut self, mutator: F)
        requires
            mutator.requires((&old(self).value(),)),
        ensures
            mutator.ensures((&old(self).value(),), final(self).value()),
            final(self).slot_index() == old(self).slot_index(),
            final(self).mode() == old(self).mode(),
            final(self).issuer() == old(self).issuer(),
    {
        let next = mutator(&self.value);
        self.value = next;
    }
}

/// A bounded registry of per-thread slots.
///
/// Each claim takes the next slot index in turn; a claim past the capacity
/// fails, and still counts as a registration.
///
/// Each value of this type has an identity, which its tokens carry. Nothing
/// is known of it but that it stays the same, so a proof can only hand
/// [`release`](BoundedThreadLocal::release) a token that it knows was issued
/// by the same registry.
pub struct BoundedThreadLocal<'s, T> {
    storage: Storage<'s, T>,
    registered: usize,
    completed: usize,
    instance: Ghost<int>,
}

impl<'s, T> BoundedThreadLocal<'s, T> {
    /// The states of the slots, in slot order.
    pub closed spec fn slots(&self) -> Seq<Slot<T>> {
        self.storage.states()
    }

    /// The number of slots.
    pub open spec fn capacity(&self) -> nat {
        self.slots().len()
    }

    /// The number of claims made so far, successful or not.
    pub closed spec fn registered(&self) -> nat {
        self.registered as nat
    }

    /// The number of tokens released in deferred mode so far.
    pub closed spec fn completed(&self) -> nat {
        self.completed as nat
    }

    /// The identity of this registry.
    pub closed spec fn instance(&self) -> int {
        self.instance@
    }

    /// Whether `token` was issued by this registry and stands for a slot that
    /// is handed out.
    pub open spec fn is_holder(&self, token: Token<T>) -> bool {
        &&& token.issuer() == self.instance()
        &&& token.slot_index() < self.capacity()
        &&& self.slots()[token.slot_index() as int] is Held
    }

    /// The registry's invariant: the first `registered` slots (as far as
    /// there are slots) have been handed out and the others have not, and
    /// `completed` counts the slots released in deferred mode.
    pub open spec fn wf(&self) -> bool {
        &&& self.capacity() > 0
        &&& forall|i: int|
            0 <= i < self.capacity() ==> (is_unclaimed(#[trigger] self.slots()[i]) <==> i
                >= self.registered())
        &&& self.completed() == kept_count(self.slots())
    }

    /// The number of slots handed out so far: the smaller of the number of
    /// claims and the capacity.
    pub open spec fn handed_out(&self) -> nat {
        if self.registered() < self.capacity() {
            self.registered()
        } else {
            self.capacity()
        }
    }

    /// Whether every slot that has not been handed out holds a value.
    pub open spec fn is_initialised(&self) -> bool {
        forall|i: int| 0 <= i < self.capacity() ==> !(#[trigger] self.slots()[i] is Unset)
    }

    /// Creates a registry over slots that the caller lends. Fails on an
    /// empty buffer.
    ///
    /// A cell left over from an earlier registry starts afresh: a value that
    /// it kept becomes its initial value, and a cell without a value is empty.
    pub fn with_buffer(buf: &'s mut [Local<T>]) -> (r: Result<Self, InvalidCapacity>)
        ensures
            r is Ok <==> old(buf)@.len() > 0,
            r matches Ok(reg) ==> {
                &&& reg.wf()
                &&& reg.slots() == old(buf)@.map_values(|c: Local<T>| unclaimed_state(c.state()))
                &&& reg.registered() == 0
                &&& reg.completed() == 0
            },
    {
        if buf.len() == 0 {
            return Err(InvalidCapacity);
        }
        let ghost lent = old(buf)@.map_values(|c: Local<T>| c.state());
        let mut storage = Storage::Buffer(buf);
        assert(storage.states() =~= lent);
        let n = storage.len();
        let mut i: usize = 0;
        while i < n
            invariant
                i <= n,
                n == lent.len(),
                storage.states().len() == n,
                forall|j: int| 0 <= j < i ==> #[trigger] storage.states()[j] == unclaimed_state(lent[j]),
                forall|j: int| i <= j < n ==> #[trigger] storage.states()[j] == lent[j],
            decreases n - i,
        {
            let prev = storage.replace(i, Slot::Unset);
            match prev {
                Slot::Fresh(v) => {
                    storage.replace(i, Slot::Fresh(v));
                },
                Slot::Kept(v) => {
                    storage.replace(i, Slot::Fresh(v));
                },
                _ => {},
            }
            i = i + 1;
        }
        let reg = BoundedThreadLocal { storage, registered: 0, completed: 0, instance: Ghost(arbitrary()) };
        assert(reg.slots() =~= old(buf)@.map_values(|c: Local<T>| unclaimed_state(c.state())));
        proof {
            lemma_count_prefix(reg.slots(), 0, |x: Slot<T>| x is Kept);
        }
        Ok(reg)
    }

    /// Creates a registry of `max_threads` slots that owns its storage, each
    /// slot initialised by a call of `init`. Fails where `max_threads` is 0.
    pub fn with_init<F: Fn() -> T>(max_threads: usize, init: F) -> (r: Result<Self, InvalidCapacity>)
        requires
            init.requires(()),
        ensures
            r is Ok <==> max_threads > 0,
            r matches Ok(reg) ==> {
                &&& reg.wf()
                &&& reg.is_initialised()
                &&& reg.capacity() == max_threads
                &&& forall|i: int|
                    0 <= i < max_threads ==> (#[trigger] reg.slots()[i] matches Slot::Fresh(v)
                        && init.ensures((), v))
                &&& reg.registered() == 0
                &&& reg.completed() == 0
            },
    {
        if max_threads == 0 {
            return Err(InvalidCapacity);
        }
        let mut cells: Vec<Local<T>> = Vec::new();
        let mut i: usize = 0;
        while i < max_threads
            invariant
                i <= max_threads,
                cells@.len() == i,
                forall|j: int|
                    0 <= j < i ==> (#[trigger] cells@[j].state matches Slot::Fresh(v) && init.ensures(
                        (),
                        v,
                    )),
                init.requires(()),
            decreases max_threads - i,
        {
            cells.push(Local::new(init()));
            i = i + 1;
        }
        let reg = BoundedThreadLocal {
            storage: Storage::Heap(cells),
            registered: 0,
            completed: 0,
            instance: Ghost(arbitrary()),
        };
        proof {
            lemma_count_prefix(reg.slots(), 0, |x: Slot<T>| x is Kept);
        }
        Ok(reg)
    }

    /// Creates a registry of `max_threads` empty slots that owns its storage;
    /// each claim supplies the value of its slot. Fails where `max_threads`
    /// is 0.
    pub fn with_capacity(max_threads: usize) -> (r: Result<Self, InvalidCapacity>)
        ensures
            r is Ok <==> max_threads > 0,
            r matches Ok(reg) ==> {
                &&& reg.wf()
                &&& reg.slots() == Seq::new(max_threads as nat, |i: int| Slot::<T>::Unset)
                &&& reg.registered() == 0
                &&& reg.completed() == 0
            },
    {
        if max_threads == 0 {
            return Err(InvalidCapacity);
        }
        let mut cells: Vec<Local<T>> = Vec::new();
        let mut i: usize = 0;
        while i < max_threads
            invariant
                i <= max_threads,
                cells@.len() == i,
                forall|j: int| 0 <= j < i ==> #[trigger] cells@[j].state is Unset,
            decreases max_threads - i,
        {
            cells.push(Local::default());
            i = i + 1;
        }
        let reg = BoundedThreadLocal {
            storage: Storage::Heap(cells),
            registered: 0,
            completed: 0,
            instance: Ghost(arbitrary()),
        };
        assert(reg.slots() =~= Seq::new(max_threads as nat, |i: int| Slot::<T>::Unset));
        proof {
            lemma_count_prefix(reg.slots(), 0, |x: Slot<T>| x is Kept);
        }
        Ok(reg)
    }

    /// Returns the number of slots.
    pub fn len(&self) -> (r: usize)
        ensures
            r == self.capacity(),
    {
        self.storage.len()
    }

    /// Returns the number of claims made so far, successful or not.
    pub fn registration_count(&self) -> (r: usize)
        ensures
            r == self.registered(),
    {
        self.registered
    }

    /// Returns whether this registry has handed out the slot of `token` and
    /// it is still held. The identity of the issuing registry is not checked
    /// here: it exists for proofs only.
    pub fn holds(&self, token: &Token<T>) -> (r: bool)
        ensures
            r == (token.slot_index() < self.capacity() && self.slots()[token.slot_index() as int] is Held),
            token.issuer() == self.instance() ==> r == self.is_holder(*token),
    {
        token.index < self.storage.len() && matches!(self.storage.cell(token.index).state, Slot::Held)
    }

    /// Counts a registration and, where a slot is left, marks the next slot
    /// as held and returns its index with what it held before.
    fn claim_next(&mut self) -> (r: Option<(usize, Slot<T>)>)
        requires
            old(self).wf(),
            old(self).registered() <= isize::MAX,
        ensures
            final(self).wf(),
            final(self).registered() == old(self).registered() + 1,
            final(self).completed() == old(self).completed(),
            final(self).instance() == old(self).instance(),
            r is Some <==> claim_index(old(self).registered(), old(self).capacity()) is Some,
            r matches Some((index, prev)) ==> {
                &&& claim_index(old(self).registered(), old(self).capacity()) == Some(index as nat)
                &&& prev == old(self).slots()[index as int]
                &&& is_unclaimed(prev)
                &&& final(self).slots() == old(self).slots().update(index as int, Slot::Held)
            },
            r is None ==> final(self).slots() == old(self).slots(),
    {
        let index = self.registered;
        self.registered = index + 1;
        if index < self.storage.len() {
            let ghost before = self.slots();
            let prev = self.storage.replace(index, Slot::Held);
            proof {
                lemma_count_update(before, index as int, Slot::Held, |x: Slot<T>| x is Kept);
                assert forall|i: int| 0 <= i < self.capacity() implies (is_unclaimed(
                    #[trigger] self.slots()[i],
                ) <==> i >= self.registered) by {
                    if i != index {
                        assert(before[i] == self.slots()[i]);
                    }
                }
            }
            Some((index, prev))
        } else {
            None
        }
    }

    /// Claims the next slot, for a token that releases it as `mode` says.
    /// Where the slot is empty, its value is made by `init`.
    ///
    /// The claim counts as a registration whether or not it succeeds. It
    /// succeeds exactly when a slot is left, and then hands out the slot whose
    /// index is the number of earlier claims.
    pub fn acquire_slot<F: FnOnce() -> T>(&mut self, mode: DropMode, init: F) -> (r: Result<
        Token<T>,
        BoundsError,
    >)
        requires
            old(self).wf(),
            old(self).registered() <= isize::MAX,
            init.requires(()),
        ensures
            claim_step(*old(self), *final(self), mode, r),
            old(self).is_initialised() ==> final(self).is_initialised(),
            r matches Ok(token) ==> match old(self).slots()[token.slot_index() as int] {
                Slot::Fresh(v) => token.value() == v,
                Slot::Unset => init.ensures((), token.value()),
                _ => false,
            },
    {
        match self.claim_next() {
            Some((index, Slot::Fresh(value))) => Ok(
                Token { index, value, mode, issuer: Ghost(self.instance@) },
            ),
            Some((index, _)) => Ok(Token { index, value: init(), mode, issuer: Ghost(self.instance@) }),
            None => Err(BoundsError),
        }
    }

    /// Claims the next slot, for a token that releases it as `mode` says.
    ///
    /// The claim counts as a registration whether or not it succeeds. It
    /// succeeds exactly when a slot is left, and then hands out the slot whose
    /// index is the number of earlier claims.
    pub fn try_claim(&mut self, mode: DropMode) -> (r: Result<Token<T>, BoundsError>)
        requires
            old(self).wf(),
            old(self).is_initialised(),
            old(self).registered() <= isize::MAX,
        ensures
            claim_step(*old(self), *final(self), mode, r),
            final(self).is_initialised(),
            r matches Ok(token) ==> old(self).slots()[token.slot_index() as int] == Slot::Fresh(
                token.value(),
            ),
    {
        match self.claim_next() {
            Some((index, Slot::Fresh(value))) => Ok(
                Token { index, value, mode, issuer: Ghost(self.instance@) },
            ),
            Some((index, _)) => {
                proof {
                    assert(!(old(self).slots()[index as int] is Unset));
                }
                Err(BoundsError)
            },
            None => Err(BoundsError),
        }
    }

    /// Claims the next slot for a token that puts its value back into the
    /// slot when it is released (deferred mode).
    pub fn thread_token(&mut self) -> (r: Result<Token<T>, BoundsError>)
        requires
            old(self).wf(),
            old(self).is_initialised(),
            old(self).registered() <= isize::MAX,
        ensures
            claim_step(*old(self), *final(self), DropMode::Deferred, r),
            final(self).is_initialised(),
            r matches Ok(token) ==> old(self).slots()[token.slot_index() as int] == Slot::Fresh(
                token.value(),
            ),
    {
        self.try_claim(DropMode::Deferred)
    }

    /// Hands a token back. In deferred mode its value goes back into its
    /// slot and the release is counted; otherwise the value is dropped.
    pub fn release(&mut self, token: Token<T>)
        requires
            old(self).wf(),
            old(self).is_holder(token),
        ensures
            final(self).wf(),
            old(self).is_initialised() ==> final(self).is_initialised(),
            final(self).slots() == old(self).slots().update(token.slot_index() as int, token.released_state()),
            final(self).registered() == old(self).registered(),
            final(self).instance() == old(self).instance(),
            final(self).completed() == old(self).completed() + if token.mode() is Deferred {
                1nat
            } else {
                0nat
            },
    {
        let ghost before = self.slots();
        let ghost tok = token;
        let Token { index, value, mode, .. } = token;
        // The number of slots fits in a `usize`, and so does `completed + 1`.
        let _capacity = self.storage.len();
        proof {
            let kept = |x: Slot<T>| x is Kept;
            let held = |x: Slot<T>| x is Held;
            lemma_count_disjoint(before, kept, held, |x: Slot<T>| true);
            lemma_count_le_len(before, |x: Slot<T>| true);
            lemma_count_positive(before, index as int, held);
            lemma_count_update(before, index as int, tok.released_state(), kept);
        }
        match mode {
            DropMode::Deferred => {
                self.storage.replace(index, Slot::Kept(value));
                self.completed = self.completed + 1;
            },
            DropMode::OnRelease => {
                self.storage.replace(index, Slot::Dropped);
            },
        }
        proof {
            assert forall|i: int| 0 <= i < self.capacity() implies (is_unclaimed(
                #[trigger] self.slots()[i],
            ) <==> i >= self.registered) by {
                if i != index {
                    assert(before[i] == self.slots()[i]);
                }
            }
        }
    }

    /// Starts an iteration over the slots by reference, in slot order.
    ///
    /// This is allowed only where no token can be outstanding: where the
    /// number of deferred releases equals the capacity or the number of
    /// claims. Otherwise a live token could be changing a value, and this
    /// fails with [`ConcurrentAccessErr`].
    pub fn try_iter(&self) -> (r: Result<Iter<'_, 's, T>, ConcurrentAccessErr>)
        requires
            self.wf(),
        ensures
            r is Ok <==> (self.completed() == self.capacity() || self.completed() == self.registered()),
            r is Ok ==> forall|i: int| 0 <= i < self.capacity() ==> !(#[trigger] self.slots()[i] is Held),
            (forall|i: int|
                0 <= i < self.capacity() ==> !(#[trigger] self.slots()[i] is Held) && !(
                self.slots()[i] is Dropped)) ==> r is Ok,
            r matches Ok(it) ==> it.position() == 0 && it.items() == contents(self.slots()),
    {
        let completed = self.completed;
        proof {
            self.lemma_release_accounting();
        }
        if completed == self.storage.len() || completed == self.registered {
            proof {
                    self.lemma_release_accounting();
            }
            Ok(Iter { idx: 0, tls: self })
        } else {
            Err(ConcurrentAccessErr)
        }
    }

    /// Deferred releases never outnumber the slots handed out: `completed`
    /// is at most [`handed_out`](Self::handed_out), below it while some slot
    /// is held, and equal to it where no slot is held or dropped.
    pub proof fn lemma_release_accounting(&self)
        requires
            self.wf(),
        ensures
            self.completed() <= self.handed_out(),
            self.completed() <= self.registered(),
            self.completed() <= self.capacity(),
            (exists|i: int| 0 <= i < self.capacity() && #[trigger] self.slots()[i] is Held) ==> self.completed()
                < self.handed_out(),
            (forall|i: int|
                0 <= i < self.capacity() ==> !(#[trigger] self.slots()[i] is Held) && !(
                self.slots()[i] is Dropped)) ==> self.completed() == self.handed_out(),
    {
        let s = self.slots();
        let m = self.handed_out();
        let kept = |x: Slot<T>| x is Kept;
        let held = |x: Slot<T>| x is Held;
        let taken = |x: Slot<T>| !is_unclaimed(x);
        lemma_count_disjoint(s, kept, held, taken);
        assert forall|j: int| m <= j < s.len() implies !taken(#[trigger] s[j]) by {
            assert(is_unclaimed(s[j]));
        }
        lemma_count_prefix(s, m, taken);
        if exists|i: int| 0 <= i < self.capacity() && #[trigger] self.slots()[i] is Held {
            let i = choose|i: int| 0 <= i < self.capacity() && #[trigger] self.slots()[i] is Held;
            lemma_count_positive(s, i, held);
        }
        if forall|i: int|
            0 <= i < self.capacity() ==> !(#[trigger] self.slots()[i] is Held) && !(
            self.slots()[i] is Dropped) {
            assert forall|j: int| 0 <= j < m implies kept(#[trigger] s[j]) by {
                assert(!is_unclaimed(s[j]));
            }
            lemma_count_prefix_lower(s, m, kept);
        }
    }

    /// Returns a mutable reference to the value of slot `index`, or `None`
    /// where the slot holds none (it is empty, held by a token, or its value
    /// was dropped). Exclusive access to the registry makes this always safe:
    /// a token holds its value itself, not in the slot.
    pub fn slot_mut(&mut self, index: usize) -> (r: Option<&mut T>)
        requires
            old(self).wf(),
            index < old(self).capacity(),
        ensures
            r is Some <==> slot_value(old(self).slots()[index as int]) is Some,
            r matches Some(x) ==> {
                &&& slot_value(old(self).slots()[index as int]) == Some(*x)
                &&& final(self).slots() == old(self).slots().update(
                    index as int,
                    with_value(old(self).slots()[index as int], *final(x)),
                )
            },
            r is None ==> final(self).slots() == old(self).slots(),
            final(self).wf(),
            old(self).is_initialised() ==> final(self).is_initialised(),
            final(self).registered() == old(self).registered(),
            final(self).completed() == old(self).completed(),
            final(self).instance() == old(self).instance(),
    {
        let ghost before = self.slots();
        proof {
            assert forall|v: T| #[trigger]
                kept_count(before.update(index as int, with_value(before[index as int], v)))
                    == kept_count(before) by {
                lemma_count_update(
                    before,
                    index as int,
                    with_value(before[index as int], v),
                    |x: Slot<T>| x is Kept,
                );
            }
        }
        self.storage.value_mut(index)
    }

    /// Consumes the registry into an iterator over the slots' values, in slot
    /// order: a slot handed out to a token that was never released, or
    /// released in drop-on-release mode, yields `None`.
    pub fn into_iter(self) -> (r: IntoIter<'s, T>)
        ensures
            r.pending() == contents(self.slots()),
    {
        let r = IntoIter { idx: 0, tls: self };
        assert(r.pending() =~= contents(self.slots()));
        r
    }
}

impl<'s, T: Default> BoundedThreadLocal<'s, T> {
    /// Creates a registry of `max_threads` slots that owns its storage, each
    /// slot holding `T::default()`. Fails where `max_threads` is 0.
    pub fn new(max_threads: usize) -> (r: Result<Self, InvalidCapacity>)
        ensures
            r is Ok <==> max_threads > 0,
            r matches Ok(reg) ==> {
                &&& reg.wf()
                &&& reg.is_initialised()
                &&& reg.capacity() == max_threads
                &&& forall|i: int|
                    0 <= i < max_threads ==> (#[trigger] reg.slots()[i] matches Slot::Fresh(v)
                        && call_ensures(T::default, (), v))
                &&& reg.registered() == 0
                &&& reg.completed() == 0
            },
    {
        Self::with_init(max_threads, default_value::<T>)
    }
}

/// Returns `T::default()`.
fn default_value<T: Default>() -> (v: T)
    ensures
        call_ensures(T::default, (), v),
{
    T::default()
}

/// An iteration over the values of a registry's slots by reference.
pub struct Iter<'t, 's, T> {
    idx: usize,
    tls: &'t BoundedThreadLocal<'s, T>,
}

impl<'t, 's, T> Iter<'t, 's, T> {
    /// The values of all slots, in slot order.
    pub closed spec fn items(&self) -> Seq<Option<T>> {
        contents(self.tls.slots())
    }

    /// How many slots have been visited.
    pub closed spec fn position(&self) -> nat {
        self.idx as nat
    }

    /// Returns the value of the next slot (`None` for an empty slot), or
    /// `None` once every slot has been visited.
    pub fn next(&mut self) -> (r: Option<Option<&'t T>>)
        ensures
            final(self).items() == old(self).items(),
            old(self).position() < old(self).items().len() ==> {
                &&& r matches Some(item)
                &&& match item {
                    Some(v) => old(self).items()[old(self).position() as int] == Some(*v),
                    None => old(self).items()[old(self).position() as int] is None,
                }
                &&& final(self).position() == old(self).position() + 1
            },
            old(self).position() >= old(self).items().len() ==> r is None && final(self).position()
                == old(self).position(),
    {
        let idx = self.idx;
        if idx < self.tls.storage.len() {
            self.idx = idx + 1;
            let tls: &'t BoundedThreadLocal<'s, T> = self.tls;
            match &tls.storage.cell(idx).state {
                Slot::Fresh(v) => Some(Some(v)),
                Slot::Kept(v) => Some(Some(v)),
                _ => Some(None),
            }
        } else {
            None
        }
    }
}

/// An iteration that consumes a registry and yields its slots' values.
pub struct IntoIter<'s, T> {
    idx: usize,
    tls: BoundedThreadLocal<'s, T>,
}

impl<'s, T> IntoIter<'s, T> {
    /// The values still to come, in slot order.
    pub closed spec fn pending(&self) -> Seq<Option<T>> {
        if self.idx <= self.tls.capacity() {
            contents(self.tls.slots()).skip(self.idx as int)
        } else {
            Seq::empty()
        }
    }

    /// Returns the value of the next slot (`None` for an empty slot), or
    /// `None` once every slot has been visited.
    pub fn next(&mut self) -> (r: Option<Option<T>>)
        ensures
            old(self).pending().len() > 0 ==> r == Some(old(self).pending()[0]) && final(self).pending()
                == old(self).pending().drop_first(),
            old(self).pending().len() == 0 ==> r is None && final(self).pending() == old(self).pending(),
    {
        let idx = self.idx;
        if idx < self.tls.storage.len() {
            let ghost before = self.tls.slots();
            let prev = self.tls.storage.replace(idx, Slot::Dropped);
            self.idx = idx + 1;
            assert(self.pending() =~= contents(before).skip(idx as int).drop_first());
            match prev {
                Slot::Fresh(v) => Some(Some(v)),
                Slot::Kept(v) => Some(Some(v)),
                _ => Some(None),
            }
        } else {
            None
        }
    }
}

/// What one claim does to a registry, going from `before` to `after` with
/// result `r`, for a token that releases as `mode` says: the claim is counted;
/// it succeeds exactly when a slot is left, and then hands out the slot whose
/// index is the number of earlier claims, which had not been handed out and
/// is held from then on. A failed claim leaves the slots as they were.
pub open spec fn claim_step<'s, T>(
    before: BoundedThreadLocal<'s, T>,
    after: BoundedThreadLocal<'s, T>,
    mode: DropMode,
    r: Result<Token<T>, BoundsError>,
) -> bool {
    &&& after.wf()
    &&& after.registered() == before.registered() + 1
    &&& after.completed() == before.completed()
    &&& after.instance() == before.instance()
    &&& (r is Ok <==> claim_index(before.registered(), before.capacity()) is Some)
    &&& (r matches Ok(token) ==> {
        &&& claim_index(before.registered(), before.capacity()) == Some(token.slot_index())
        &&& is_unclaimed(before.slots()[token.slot_index() as int])
        &&& token.mode() == mode
        &&& token.issuer() == before.instance()
        &&& after.slots() == before.slots().update(token.slot_index() as int, Slot::Held)
    })
    &&& (r is Err ==> after.slots() == before.slots())
}

/// The outcomes of `k` claims made one after another on a registry of the
/// given capacity that had seen `registered` claims before.
pub open spec fn claim_outcomes(registered: nat, capacity: nat, k: nat) -> Seq<Option<nat>> {
    Seq::new(k, |j: int| claim_index(registered + j as nat, capacity))
}

/// On a fresh registry, whose capacity `n` is at least 1, `n` claims made
/// one after another (`states[j]` to `states[j + 1]` with result
/// `results[j]`) all succeed, with slot indices `0, 1, ..., n - 1`, and the
/// claim after them fails; the tokens may be released in between or not.
pub proof fn lemma_sequential_claims<'s, T>(
    states: Seq<BoundedThreadLocal<'s, T>>,
    modes: Seq<DropMode>,
    results: Seq<Result<Token<T>, BoundsError>>,
)
    requires
        states[0].wf(),
        states[0].registered() == 0,
        results.len() == states[0].capacity() + 1,
        modes.len() == results.len(),
        states.len() == results.len() + 1,
        forall|j: int|
            0 <= j < results.len() ==> claim_step(
                #[trigger] states[j],
                states[j + 1],
                modes[j],
                results[j],
            ),
    ensures
        states[0].capacity() > 0,
        forall|j: int|
            0 <= j < states[0].capacity() ==> (#[trigger] results[j] matches Ok(t) && t.slot_index()
                == j),
        results[states[0].capacity() as int] is Err,
{
    let n = states[0].capacity();
    assert forall|j: int| 0 <= j < n implies (#[trigger] results[j] matches Ok(t) && t.slot_index()
        == j) by {
        lemma_claim_chain(states, modes, results, j);
        assert(claim_step(states[j], states[j + 1], modes[j], results[j]));
    }
    lemma_claim_chain(states, modes, results, n as int);
    assert(claim_step(states[n as int], states[(n + 1) as int], modes[n as int], results[n as int]));
}

proof fn lemma_claim_chain<'s, T>(
    states: Seq<BoundedThreadLocal<'s, T>>,
    modes: Seq<DropMode>,
    results: Seq<Result<Token<T>, BoundsError>>,
    j: int,
)
    requires
        states[0].registered() == 0,
        states.len() == results.len() + 1,
        modes.len() == results.len(),
        0 <= j <= results.len(),
        forall|k: int|
            0 <= k < results.len() ==> claim_step(
                #[trigger] states[k],
                states[k + 1],
                modes[k],
                results[k],
            ),
    ensures
        states[j].registered() == j,
        states[j].capacity() == states[0].capacity(),
    decreases j,
{
    if j > 0 {
        lemma_claim_chain(states, modes, results, j - 1);
        assert(claim_step(states[j - 1], states[j], modes[j - 1], results[j - 1]));
    }
}

/// Claims never share a slot: of any number of claims made one after another
/// on a registry, those that succeed get pairwise distinct slots, and each
/// such slot had never been handed out, so no live token holds it.
pub proof fn lemma_claims_exclusive<'s, T>(reg: BoundedThreadLocal<'s, T>, k: nat)
    requires
        reg.wf(),
    ensures
        forall|j: int|
            0 <= j < k ==> (#[trigger] claim_outcomes(reg.registered(), reg.capacity(), k)[j] matches Some(
                i,
            ) ==> i < reg.capacity() && is_unclaimed(reg.slots()[i as int])),
        forall|j1: int, j2: int|
            0 <= j1 < j2 < k && #[trigger] claim_outcomes(reg.registered(), reg.capacity(), k)[j1] is Some
                ==> claim_outcomes(reg.registered(), reg.capacity(), k)[j1] != #[trigger] claim_outcomes(
                reg.registered(),
                reg.capacity(),
                k,
            )[j2],
{
    assert forall|j: int|
        0 <= j < k implies (#[trigger] claim_outcomes(reg.registered(), reg.capacity(), k)[j] matches Some(
            i,
        ) ==> i < reg.capacity() && is_unclaimed(reg.slots()[i as int])) by {
        if let Some(i) = claim_outcomes(reg.registered(), reg.capacity(), k)[j] {
            assert(i == reg.registered() + j);
            assert(is_unclaimed(reg.slots()[i as int]));
        }
    }
}

/// Releasing a token leaves in its slot what the token held in deferred
/// mode, and nothing in drop-on-release mode; this is what consuming the
/// registry then yields at that slot.
pub proof fn lemma_release_round_trip<'s, T>(reg: BoundedThreadLocal<'s, T>, token: Token<T>, v: T)
    requires
        reg.wf(),
        reg.is_holder(token),
        token.value() == v,
    ensures
        ({
            let after = reg.slots().update(token.slot_index() as int, token.released_state());
            &&& token.mode() is Deferred ==> contents(after)[token.slot_index() as int] == Some(v)
            &&& token.mode() is OnRelease ==> contents(after)[token.slot_index() as int] is None
        }),
{
}

} // verus!
