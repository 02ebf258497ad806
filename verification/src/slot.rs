//! Signal slots: an ordered registry of callbacks, shared between the handles
//! of one slot, with subscriptions that end when they are dropped.
//!
//! A subscription and the registry each hold one handle to a shared token.
//! A subscriber is live while its subscription still holds the token, or once
//! the subscription was detached. Dead subscribers are swept out at the start
//! of every operation of the slot, so they are never counted or called.

use std::cell::RefCell;
use std::rc::Rc;
use std::sync::atomic::AtomicBool;
use std::sync::atomic::Ordering;
use vstd::prelude::*;

verus! {

/// Position of a subscriber in its registry: subscribers are kept, counted
/// and called in the order in which they were added.
pub type SlotHandle = usize;

/// `core::cell::RefCell`, carried as an opaque value: nothing is known of what
/// it holds at any moment.
#[verifier::external_type_specification]
#[verifier::external_body]
#[verifier::reject_recursive_types(T)]
pub struct ExRefCell<T: ?Sized>(RefCell<T>);

/// `RefCell::new`. Nothing is claimed of the cell that comes back.
pub assume_specification<T>[ RefCell::<T>::new ](value: T) -> RefCell<T>;

/// `RefCell::try_borrow_mut`, and `core::mem::replace` through the borrow:
/// where the cell is not borrowed, `value` is put into it and what it held
/// comes back; where it is borrowed, nothing changes and `None` comes back.
/// The call does not panic. Nothing is claimed of what comes back, nor of
/// when the cell is borrowed.
#[verifier::external_body]
fn exchange<T>(cell: &RefCell<T>, value: T) -> Option<T> {
    match cell.try_borrow_mut() {
        Ok(mut held) => Some(core::mem::replace(&mut *held, value)),
        Err(_) => None,
    }
}

/// `Rc::clone`: a second handle to the same allocation.
#[verifier::external_body]
fn share<T>(rc: &Rc<T>) -> (r: Rc<T>)
    ensures
        r == rc,
{
    Rc::clone(rc)
}

/// `Rc::strong_count`: how many handles to the allocation exist right now.
/// The number depends on what the rest of the program holds, so nothing is
/// claimed of it.
#[verifier::external_body]
fn holders<T>(rc: &Rc<T>) -> usize {
    Rc::strong_count(rc)
}

/// The entries of `items` whose flag in `keep` is set, in their order.
pub open spec fn kept<T>(items: Seq<T>, keep: Seq<bool>) -> Seq<T>
    recommends
        items.len() == keep.len(),
    decreases items.len(),
{
    if items.len() == 0 {
        Seq::empty()
    } else if keep.last() {
        kept(items.drop_last(), keep.drop_last()).push(items.last())
    } else {
        kept(items.drop_last(), keep.drop_last())
    }
}

/// Keeping under flags never lengthens a sequence.
pub proof fn lemma_kept_len<T>(items: Seq<T>, keep: Seq<bool>)
    requires
        items.len() == keep.len(),
    ensures
        kept(items, keep).len() <= items.len(),
    decreases items.len(),
{
    if items.len() > 0 {
        lemma_kept_len(items.drop_last(), keep.drop_last());
    }
}

/// One registered callback with the token it shares with its subscription.
pub struct Subscriber<Callback> {
    token: Rc<AtomicBool>,
    callback: Callback,
}

/// The registry behind a slot.
pub struct SlotInner<Callback> {
    subscribers: Vec<Subscriber<Callback>>,
}

impl<Callback> SlotInner<Callback> {
    /// The registered callbacks, oldest first.
    pub closed spec fn callbacks(&self) -> Seq<Callback> {
        Seq::new(self.subscribers@.len(), |i: int| self.subscribers@[i].callback)
    }

    /// An empty registry.
    pub fn new() -> (r: Self)
        ensures
            r.callbacks() == Seq::<Callback>::empty(),
    {
        let r = SlotInner { subscribers: Vec::new() };
        assert(r.callbacks() =~= Seq::<Callback>::empty());
        r
    }

    /// Number of registered callbacks, live or not.
    pub fn len(&self) -> (n: usize)
        ensures
            n == self.callbacks().len(),
    {
        self.subscribers.len()
    }

    /// Registers `cb` behind every callback already there and returns the
    /// subscription that keeps it live.
    pub fn insert(&mut self, cb: Callback) -> (sub: Subscription)
        ensures
            final(self).callbacks() == old(self).callbacks().push(cb),
            sub.len() == 1,
    {
        let token = Rc::new(AtomicBool::new(false));
        let mut tokens: Vec<Rc<AtomicBool>> = Vec::new();
        tokens.push(share(&token));
        self.subscribers.push(Subscriber { token, callback: cb });
        assert(self.callbacks() =~= old(self).callbacks().push(cb));
        Subscription { tokens }
    }

    /// Removes every callback.
    pub fn clear(&mut self)
        ensures
            final(self).callbacks() == Seq::<Callback>::empty(),
    {
        self.subscribers.clear();
        assert(self.callbacks() =~= Seq::<Callback>::empty());
    }

    /// One flag per subscriber, oldest first: whether its subscription is
    /// still held or was detached. The flags come from the state of the
    /// tokens when the call is made.
    pub fn liveness(&self) -> (flags: Vec<bool>)
        ensures
            flags@.len() == self.callbacks().len(),
    {
        let mut flags: Vec<bool> = Vec::new();
        let mut i: usize = 0;
        while i < self.subscribers.len()
            invariant
                i <= self.subscribers.len(),
                flags@.len() == i,
            decreases self.subscribers.len() - i,
        {
            let token = &self.subscribers[i].token;
            let detached = token.load(Ordering::Relaxed);
            let held = holders(token) > 1;
            flags.push(detached || held);
            i += 1;
        }
        flags
    }

    /// Keeps the callbacks whose flag is set, in their order, and drops the
    /// others.
    pub fn retain(&mut self, keep: &Vec<bool>)
        requires
            keep@.len() == old(self).callbacks().len(),
        ensures
            final(self).callbacks() == kept(old(self).callbacks(), keep@),
    {
        let mut rest: Vec<Subscriber<Callback>> = Vec::new();
        let ghost all = self.callbacks();
        let ghost mut out: Seq<Callback> = Seq::empty();
        proof {
            assert(keep@.take(keep@.len() as int) =~= keep@);
            assert(all.take(all.len() as int) =~= all);
            assert(kept(all, keep@) + out.reverse() =~= kept(all, keep@));
        }
        // Peel subscribers off the back; `out` holds those kept so far, newest first.
        while self.subscribers.len() > 0
            invariant
                self.subscribers@.len() <= keep@.len(),
                self.callbacks() == all.take(self.subscribers@.len() as int),
                out.len() == rest@.len(),
                forall|j: int| 0 <= j < out.len() ==> out[j] == (#[trigger] rest@[j]).callback,
                all.len() == keep@.len(),
                kept(all, keep@) == kept(self.callbacks(), keep@.take(self.subscribers@.len() as int))
                    + out.reverse(),
            decreases self.subscribers@.len(),
        {
            let ghost before = self.callbacks();
            let ghost n = self.subscribers@.len() as int;
            let last = self.subscribers.pop().unwrap();
            let flag = keep[self.subscribers.len()];
            proof {
                assert(self.callbacks() =~= before.drop_last());
                assert(self.callbacks() =~= all.take(n - 1));
                assert(keep@.take(n).drop_last() =~= keep@.take(n - 1));
                assert(keep@.take(n).last() == flag);
                assert(before.last() == last.callback);
            }
            if flag {
                proof {
                    let grown = out.push(last.callback);
                    assert(grown.reverse() =~= seq![last.callback] + out.reverse());
                    assert(kept(before, keep@.take(n)) + out.reverse() =~= kept(
                        self.callbacks(),
                        keep@.take(n - 1),
                    ) + grown.reverse());
                    out = grown;
                }
                rest.push(last);
            }
        }
        proof {
            assert(self.callbacks() =~= Seq::<Callback>::empty());
            assert(kept(all, keep@) =~= out.reverse());
        }
        // Put the kept subscribers back, oldest first.
        let ghost total = out.len();
        while rest.len() > 0
            invariant
                rest@.len() <= total,
                total == out.len(),
                forall|j: int| 0 <= j < rest@.len() ==> out[j] == (#[trigger] rest@[j]).callback,
                self.callbacks() == out.reverse().take(total - rest@.len()),
            decreases rest@.len(),
        {
            let ghost before = self.callbacks();
            let ghost m = rest@.len() as int;
            let item = rest.pop().unwrap();
            proof {
                assert(item.callback == out[m - 1]);
                assert(out.reverse()[total - m] == out[m - 1]);
            }
            self.subscribers.push(item);
            assert(self.callbacks() =~= before.push(out[m - 1]));
            assert(self.callbacks() =~= out.reverse().take(total - (m - 1)));
        }
        assert(self.callbacks() =~= out.reverse());
    }

    /// Drops the subscribers that are no longer live. What stays is what the
    /// liveness flags of the moment keep, in the old order.
    pub fn sweep(&mut self)
        ensures
            exists|keep: Seq<bool>|
                keep.len() == old(self).callbacks().len() && final(self).callbacks() == kept(
                    old(self).callbacks(),
                    keep,
                ),
            final(self).callbacks().len() <= old(self).callbacks().len(),
    {
        let flags = self.liveness();
        self.retain(&flags);
        proof {
            lemma_kept_len(old(self).callbacks(), flags@);
        }
    }

    /// Moves the subscribers of `other` behind those of the registry, in
    /// their order.
    pub fn append(&mut self, other: SlotInner<Callback>)
        ensures
            final(self).callbacks() == old(self).callbacks() + other.callbacks(),
    {
        let mut rest = other.subscribers;
        let ghost all = other.callbacks();
        let mut turned: Vec<Subscriber<Callback>> = Vec::new();
        while rest.len() > 0
            invariant
                rest@.len() + turned@.len() == all.len(),
                forall|j: int| 0 <= j < rest@.len() ==> (#[trigger] rest@[j]).callback == all[j],
                forall|j: int|
                    0 <= j < turned@.len() ==> (#[trigger] turned@[j]).callback == all[all.len() - 1
                        - j],
                self.callbacks() == old(self).callbacks(),
            decreases rest@.len(),
        {
            let last = rest.pop().unwrap();
            turned.push(last);
        }
        assert(self.callbacks() =~= old(self).callbacks() + all.take(0));
        while turned.len() > 0
            invariant
                turned@.len() <= all.len(),
                forall|j: int|
                    0 <= j < turned@.len() ==> (#[trigger] turned@[j]).callback == all[all.len() - 1
                        - j],
                self.callbacks() == old(self).callbacks() + all.take(all.len() - turned@.len()),
            decreases turned@.len(),
        {
            let ghost left = turned@.len() as int;
            let ghost before = self.callbacks();
            let next = turned.pop().unwrap();
            assert(next.callback == all[all.len() - left]);
            self.subscribers.push(next);
            assert(self.callbacks() =~= before.push(all[all.len() - left]));
            assert(self.callbacks() =~= old(self).callbacks() + all.take(all.len() - (left - 1)));
        }
        assert(all.take(all.len() as int) =~= all);
    }

    /// Hands every callback to `callback`, oldest first. The registry keeps
    /// its subscribers and their order; every callback is left as one call
    /// of `callback` leaves it.
    pub fn emit<F: FnMut(&mut Callback)>(&mut self, callback: F)
        requires
            forall|c: &mut Callback| call_requires(callback, (c,)),
        ensures
            final(self).callbacks().len() == old(self).callbacks().len(),
            forall|i: int| #[trigger]
                within(old(self).callbacks(), i) ==> exists|c: &mut Callback|
                    #![trigger call_ensures(callback, (c,), ())]
                    *c == old(self).callbacks()[i] && *final(c) == final(self).callbacks()[i]
                        && call_ensures(callback, (c,), ()),
    {
        let mut call = callback;
        let mut i: usize = 0;
        while i < self.subscribers.len()
            invariant
                call == callback,
                forall|c: &mut Callback| call_requires(callback, (c,)),
                self.subscribers@.len() == old(self).subscribers@.len(),
                i <= self.subscribers@.len(),
                forall|j: int|
                    i <= j < self.subscribers@.len() ==> self.callbacks()[j] == old(self).callbacks()[j],
                forall|j: int| #[trigger]
                    within(old(self).callbacks(), j) && j < i ==> exists|c: &mut Callback|
                        #![trigger call_ensures(callback, (c,), ())]
                        *c == old(self).callbacks()[j] && *final(c) == self.callbacks()[j]
                            && call_ensures(callback, (c,), ()),
            decreases self.subscribers.len() - i,
        {
            let ghost before = self.callbacks();
            call(&mut self.subscribers[i].callback);
            assert(forall|j: int|
                0 <= j < self.subscribers@.len() && j != i ==> self.callbacks()[j] == before[j]);
            i += 1;
        }
    }

    /// Hands callbacks to `callback`, oldest first, until it answers `false`
    /// or none is left. Returns how many callbacks were handed over: each of
    /// them is left as one call of `callback` leaves it, and only at the last
    /// of them the answer may have been `false`; the callbacks behind them
    /// are as they were.
    pub fn emit_while<F: FnMut(&mut Callback) -> bool>(&mut self, callback: F) -> (calls: usize)
        requires
            forall|c: &mut Callback| call_requires(callback, (c,)),
        ensures
            final(self).callbacks().len() == old(self).callbacks().len(),
            calls <= old(self).callbacks().len(),
            old(self).callbacks().len() > 0 ==> calls >= 1,
            forall|i: int| #[trigger]
                within(old(self).callbacks(), i) && i < calls ==> exists|
                    c: &mut Callback,
                    answer: bool,
                |
                    #![trigger call_ensures(callback, (c,), answer)]
                    *c == old(self).callbacks()[i] && *final(c) == final(self).callbacks()[i]
                        && call_ensures(callback, (c,), answer) && (i + 1 < calls ==> answer) && (
                    !answer ==> i + 1 == calls) && (answer && i + 1 == calls ==> calls == old(self).callbacks().len()),
            forall|i: int| #[trigger]
                within(old(self).callbacks(), i) && calls <= i ==> final(self).callbacks()[i]
                    == old(self).callbacks()[i],
    {
        let mut call = callback;
        let mut i: usize = 0;
        while i < self.subscribers.len()
            invariant
                call == callback,
                forall|c: &mut Callback| call_requires(callback, (c,)),
                self.subscribers@.len() == old(self).subscribers@.len(),
                i <= self.subscribers@.len(),
                forall|j: int|
                    i <= j < self.subscribers@.len() ==> self.callbacks()[j] == old(self).callbacks()[j],
                forall|j: int| #[trigger]
                    within(old(self).callbacks(), j) && j < i ==> exists|
                        c: &mut Callback,
                        answer: bool,
                    |
                        #![trigger call_ensures(callback, (c,), answer)]
                        *c == old(self).callbacks()[j] && *final(c) == self.callbacks()[j]
                            && call_ensures(callback, (c,), answer) && answer,
            decreases self.subscribers.len() - i,
        {
            let ghost before = self.callbacks();
            let go_on = call(&mut self.subscribers[i].callback);
            assert(forall|j: int|
                0 <= j < self.subscribers@.len() && j != i ==> self.callbacks()[j] == before[j]);
            i += 1;
            if !go_on {
                return i;
            }
        }
        i
    }

    /// Hands callbacks to `callback`, oldest first, until it fails or none is
    /// left, and returns the first failure. Without a failure every callback
    /// is left as one call of `callback` that succeeds leaves it. With a
    /// failure that holds of the callbacks in front of the one at which
    /// `callback` failed; the failure is the one returned, and the callbacks
    /// behind are as they were.
    pub fn emit_ok<R, E, F: FnMut(&mut Callback) -> Result<R, E>>(
        &mut self,
        callback: F,
    ) -> (result: Result<(), E>)
        requires
            forall|c: &mut Callback| call_requires(callback, (c,)),
        ensures
            final(self).callbacks().len() == old(self).callbacks().len(),
            old(self).callbacks().len() == 0 ==> result is Ok,
            result is Ok ==> forall|i: int| #[trigger]
                within(old(self).callbacks(), i) ==> exists|c: &mut Callback, given: Result<R, E>|
                    #![trigger call_ensures(callback, (c,), given)]
                    *c == old(self).callbacks()[i] && *final(c) == final(self).callbacks()[i]
                        && call_ensures(callback, (c,), given) && given is Ok,
            result matches Err(e) ==> exists|k: int|
                {
                    &&& #[trigger] within(old(self).callbacks(), k)
                    &&& exists|c: &mut Callback, given: Result<R, E>|
                        #![trigger call_ensures(callback, (c,), given)]
                        *c == old(self).callbacks()[k] && *final(c) == final(self).callbacks()[k]
                            && call_ensures(callback, (c,), given) && given == Err::<R, E>(e)
                    &&& forall|i: int| #[trigger]
                        within(old(self).callbacks(), i) && i < k ==> exists|
                            c: &mut Callback,
                            given: Result<R, E>,
                        |
                            #![trigger call_ensures(callback, (c,), given)]
                            *c == old(self).callbacks()[i] && *final(c) == final(self).callbacks()[i] && call_ensures(callback, (c,), given) && given is Ok
                    &&& forall|i: int| #[trigger]
                        within(old(self).callbacks(), i) && k < i ==> final(self).callbacks()[i]
                            == old(self).callbacks()[i]
                },
    {
        let mut call = callback;
        let mut i: usize = 0;
        while i < self.subscribers.len()
            invariant
                call == callback,
                forall|c: &mut Callback| call_requires(callback, (c,)),
                self.subscribers@.len() == old(self).subscribers@.len(),
                i <= self.subscribers@.len(),
                forall|j: int|
                    i <= j < self.subscribers@.len() ==> self.callbacks()[j] == old(self).callbacks()[j],
                forall|j: int| #[trigger]
                    within(old(self).callbacks(), j) && j < i ==> exists|
                        c: &mut Callback,
                        given: Result<R, E>,
                    |
                        #![trigger call_ensures(callback, (c,), given)]
                        *c == old(self).callbacks()[j] && *final(c) == self.callbacks()[j]
                            && call_ensures(callback, (c,), given) && given is Ok,
            decreases self.subscribers.len() - i,
        {
            let ghost before = self.callbacks();
            let outcome = call(&mut self.subscribers[i].callback);
            assert(forall|j: int|
                0 <= j < self.subscribers@.len() && j != i ==> self.callbacks()[j] == before[j]);
            match outcome {
                Ok(_) => {},
                Err(e) => {
                    assert(within(old(self).callbacks(), i as int));
                    return Err(e);
                },
            }
            i += 1;
        }
        Ok(())
    }
}

/// Whether `i` is a position in `items`.
pub open spec fn within<T>(items: Seq<T>, i: int) -> bool {
    0 <= i < items.len()
}

/// A handle to a registry of callbacks. Clones of a slot share one registry.
#[verifier::reject_recursive_types(Callback)]
pub struct Slot<Callback: 'static> {
    inner: Rc<RefCell<SlotInner<Callback>>>,
    label: &'static str,
}

impl<Callback: 'static> Slot<Callback> {
    /// A slot without subscribers, labelled "Slot".
    pub fn new() -> (slot: Self)
        ensures
            slot.label() == "Slot",
    {
        Slot { inner: Rc::new(RefCell::new(SlotInner::new())), label: "Slot" }
    }

    /// A slot without subscribers under the given label.
    pub fn new_labelled(label: &'static str) -> (slot: Self)
        ensures
            slot.label() == label,
    {
        Slot { inner: Rc::new(RefCell::new(SlotInner::new())), label }
    }

    /// The label the slot was made with.
    pub closed spec fn label(&self) -> &'static str {
        self.label
    }

    /// The label the slot was made with.
    pub fn get_label(&self) -> (label: &'static str)
        ensures
            label == self.label(),
    {
        self.label
    }

    /// Another handle to the same registry.
    pub fn share(&self) -> (slot: Self)
        ensures
            slot.label() == self.label(),
    {
        Slot { inner: share(&self.inner), label: self.label }
    }

    /// Takes the registry out of the shared cell, leaving an empty one in its
    /// place, and drops the subscribers that are no longer live. `None`
    /// where the cell is borrowed.
    fn take(&self) -> (taken: Option<SlotInner<Callback>>) {
        match exchange(&self.inner, SlotInner::new()) {
            Some(mut inner) => {
                inner.sweep();
                Some(inner)
            },
            None => None,
        }
    }

    /// Puts the registry `inner` back into the shared cell. What was added
    /// to the cell since the registry was taken out goes behind it.
    fn put_back(&self, inner: SlotInner<Callback>) {
        let mut inner = inner;
        match exchange(&self.inner, SlotInner::new()) {
            Some(added) => {
                inner.append(added);
                let _ = exchange(&self.inner, inner);
            },
            None => {},
        }
    }

    /// Registers `cb` behind the live subscribers. The callback stays
    /// registered until the subscription that is returned is dropped, or for
    /// good once that subscription is detached. A callback that is added
    /// while the callbacks are handed out is registered behind them, and is
    /// first handed out the next time. Where the shared cell is borrowed the
    /// callback is not registered.
    pub fn add(&self, cb: Callback) -> (sub: Subscription)
        ensures
            sub.len() == 1,
    {
        match self.take() {
            Some(mut inner) => {
                let sub = inner.insert(cb);
                self.put_back(inner);
                sub
            },
            None => {
                let mut lone = SlotInner::new();
                lone.insert(cb)
            },
        }
    }

    /// Removes every subscriber, detached ones too.
    pub fn clear(&self) {
        let _ = exchange(&self.inner, SlotInner::new());
    }

    /// Number of live subscribers; 0 where the shared cell is borrowed.
    pub fn count(&self) -> usize {
        match self.take() {
            Some(inner) => {
                let n = inner.len();
                self.put_back(inner);
                n
            },
            None => 0,
        }
    }

    /// Hands the live callbacks to `callback`, oldest first, until it answers
    /// `false`.
    pub fn emit_while<F: FnMut(&mut Callback) -> bool>(&self, callback: F)
        requires
            forall|c: &mut Callback| call_requires(callback, (c,)),
    {
        match self.take() {
            Some(mut inner) => {
                let _ = inner.emit_while(callback);
                self.put_back(inner);
            },
            None => {},
        }
    }

    /// Hands the live callbacks to `callback`, oldest first, until it fails,
    /// and returns the first failure: a failure that is returned is one that
    /// `callback` gave. Which callbacks are live is read from the shared
    /// registry when the call is made.
    pub fn emit_ok<R, E, F: FnMut(&mut Callback) -> Result<R, E>>(&self, callback: F) -> (result:
        Result<(), E>)
        requires
            forall|c: &mut Callback| call_requires(callback, (c,)),
        ensures
            result matches Err(e) ==> exists|c: &mut Callback, given: Result<R, E>|
                #![trigger call_ensures(callback, (c,), given)]
                call_ensures(callback, (c,), given) && given == Err::<R, E>(e),
    {
        match self.take() {
            Some(mut inner) => {
                let result = inner.emit_ok(callback);
                self.put_back(inner);
                result
            },
            None => Ok(()),
        }
    }

    /// Hands every live callback to `callback`, oldest first.
    pub fn emit<F: FnMut(&mut Callback)>(&self, callback: F)
        requires
            forall|c: &mut Callback| call_requires(callback, (c,)),
    {
        match self.take() {
            Some(mut inner) => {
                inner.emit(callback);
                self.put_back(inner);
            },
            None => {},
        }
    }
}

impl<Callback: 'static> Clone for Slot<Callback> {
    /// Another handle to the same registry.
    fn clone(&self) -> (slot: Self)
        ensures
            slot.label() == self.label(),
    {
        self.share()
    }
}

impl<Callback: 'static> Default for Slot<Callback> {
    fn default() -> (slot: Self)
        ensures
            slot.label() == "Slot",
    {
        Slot::new()
    }
}

/// Keeps subscribers registered. Dropping it ends them, unless it was
/// detached first.
pub struct Subscription {
    tokens: Vec<Rc<AtomicBool>>,
}

impl Subscription {
    /// Number of subscribers that this subscription keeps registered.
    pub closed spec fn len(&self) -> nat {
        self.tokens@.len()
    }

    /// A subscription that keeps nothing registered.
    pub fn new() -> (sub: Self)
        ensures
            sub.len() == 0,
    {
        Subscription { tokens: Vec::new() }
    }

    /// Number of subscribers that this subscription keeps registered.
    pub fn subscribers(&self) -> (n: usize)
        ensures
            n == self.len(),
    {
        self.tokens.len()
    }

    /// Leaves the subscribers registered for as long as their slots keep
    /// them, and gives up the means to end them.
    pub fn detach(self) {
        let mut i: usize = 0;
        while i < self.tokens.len()
            invariant
                i <= self.tokens.len(),
            decreases self.tokens.len() - i,
        {
            self.tokens[i].store(true, Ordering::Relaxed);
            i += 1;
        }
    }

    /// One subscription that keeps registered what `self` and `other` kept,
    /// and ends all of it when dropped.
    pub fn join(self, other: Self) -> (joined: Self)
        requires
            self.len() + other.len() <= usize::MAX,
        ensures
            joined.len() == self.len() + other.len(),
    {
        let mut tokens = self.tokens;
        let mut rest = other.tokens;
        let ghost total = tokens@.len() + rest@.len();
        while rest.len() > 0
            invariant
                tokens@.len() + rest@.len() == total,
            decreases rest@.len(),
        {
            let token = rest.pop().unwrap();
            tokens.push(token);
        }
        Subscription { tokens }
    }
}

} // verus!
