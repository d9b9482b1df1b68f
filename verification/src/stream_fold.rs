//! Folding what comes out of a stream into a state until that is enough.

use crate::poll::Polled;
use vstd::prelude::*;

verus! {

/// A stream whose items are folded into a state. The function takes the state so
/// far and the next item, and gives the next state and whether that is enough.
pub struct StreamFold<S, W, F> {
    stream: S,
    function: F,
    state: W,
}

/// One poll, from `state` to `next`: an item is folded into the state, and it is
/// over when the function says so; when the stream is over or has nothing yet, so is
/// or has the fold.
pub open spec fn fold_step<W, T, V, F: Fn(&W, Result<T, V>) -> (W, bool)>(
    function: F,
    state: W,
    item: Polled<Option<Result<T, V>>>,
    next: W,
    r: Polled<Option<()>>,
) -> bool {
    match item {
        Polled::Ready(Some(item)) => {
            &&& r == Polled::Ready(Some(())) || r == Polled::<Option<()>>::Pending
            &&& call_ensures(function, (&state, item), (next, r == Polled::Ready(Some(()))))
        },
        Polled::Ready(None) => r == Polled::Ready(None::<()>) && next == state,
        Polled::Pending => r == Polled::<Option<()>>::Pending && next == state,
    }
}

/// The items among what polling a stream came to.
pub open spec fn items_of<T, V>(polled: Seq<Polled<Option<Result<T, V>>>>) -> Seq<Result<T, V>>
    decreases polled.len(),
{
    if polled.len() == 0 {
        Seq::empty()
    } else {
        match polled.last() {
            Polled::Ready(Some(item)) => items_of(polled.drop_last()).push(item),
            _ => items_of(polled.drop_last()),
        }
    }
}

/// Polling again and again folds each item into the state once, in order, where the
/// function gives the next state by `next`.
pub proof fn law_each_item_is_folded_once<W, T, V, F: Fn(&W, Result<T, V>) -> (W, bool)>(
    function: F,
    next: spec_fn(W, Result<T, V>) -> W,
    polled: Seq<Polled<Option<Result<T, V>>>>,
    states: Seq<W>,
    results: Seq<Polled<Option<()>>>,
)
    requires
        forall|state: W, item: Result<T, V>, out: (W, bool)| #[trigger]
            call_ensures(function, (&state, item), out) ==> out.0 == next(state, item),
        states.len() == polled.len() + 1,
        results.len() == polled.len(),
        forall|i: int|
            0 <= i < polled.len() ==> fold_step(
                function,
                states[i],
                #[trigger] polled[i],
                states[i + 1],
                results[i],
            ),
    ensures
        states.last() == items_of(polled).fold_left(states[0], next),
    decreases polled.len(),
{
    if polled.len() > 0 {
        let n = polled.len() - 1;
        let front = polled.drop_last();
        assert forall|i: int| 0 <= i < front.len() implies fold_step(
            function,
            states.drop_last()[i],
            #[trigger] front[i],
            states.drop_last()[i + 1],
            results.drop_last()[i],
        ) by {
            assert(front[i] == polled[i]);
        }
        law_each_item_is_folded_once(
            function,
            next,
            front,
            states.drop_last(),
            results.drop_last(),
        );
        assert(fold_step(function, states[n], polled[n], states[n + 1], results[n]));
        if let Polled::Ready(Some(item)) = polled[n] {
            let before = items_of(front);
            assert(before.push(item).drop_last() =~= before);
            assert(states[n + 1] == next(states[n], item));
        }
    }
}

impl<S, W, F> StreamFold<S, W, F> {
    /// The stream.
    pub closed spec fn stream(self) -> S {
        self.stream
    }

    /// The function that folds an item into the state.
    pub closed spec fn function(self) -> F {
        self.function
    }

    /// The state so far.
    pub closed spec fn state(self) -> W {
        self.state
    }

    /// Starts from a state.
    pub fn new(stream: S, state: W, function: F) -> (r: StreamFold<S, W, F>)
        ensures
            r.stream() == stream,
            r.state() == state,
            r.function() == function,
    {
        StreamFold { stream, function, state }
    }

    /// The stream, to be polled.
    pub fn stream_mut(&mut self) -> (r: &mut S)
        ensures
            *r == old(self).stream(),
            final(self).stream() == *final(r),
            final(self).state() == old(self).state(),
            final(self).function() == old(self).function(),
    {
        &mut self.stream
    }

    /// Gives the stream back, with the state that was reached.
    pub fn into_parts(self) -> (r: (S, W))
        ensures
            r.0 == self.stream(),
            r.1 == self.state(),
    {
        (self.stream, self.state)
    }

    /// Folds what polling the stream came to into the state. It is over when the
    /// stream is, or when the function says so.
    pub fn poll<T, V>(&mut self, item: Polled<Option<Result<T, V>>>) -> (r: Polled<Option<()>>)
        where F: Fn(&W, Result<T, V>) -> (W, bool)
        requires
            item matches Polled::Ready(Some(item)) ==> call_requires(
                old(self).function(),
                (&old(self).state(), item),
            ),
        ensures
            final(self).stream() == old(self).stream(),
            final(self).function() == old(self).function(),
            fold_step(old(self).function(), old(self).state(), item, final(self).state(), r),
    {
        match item {
            Polled::Ready(Some(item)) => {
                let (state, done): (W, bool) = (self.function)(&self.state, item);
                self.state = state;
                if done {
                    Polled::Ready(Some(()))
                } else {
                    Polled::Pending
                }
            },
            Polled::Ready(None) => Polled::Ready(None),
            Polled::Pending => Polled::Pending,
        }
    }
}

/// What each poll comes to: an item is handed to the function with the state so far,
/// whose next state is kept, and the fold is over exactly where the function says so;
/// where there is no item, the state stays, and the fold is over where the stream is.
/// The stream and the function stay as they are.
pub proof fn law_polls_fold<S, W, T, V, F: Fn(&W, Result<T, V>) -> (W, bool)>(
    fold: &mut StreamFold<S, W, F>,
    item: Polled<Option<Result<T, V>>>,
    r: Polled<Option<()>>,
)
    requires
        call_ensures(StreamFold::<S, W, F>::poll::<T, V>, (fold, item), r),
    ensures
        final(fold).stream() == old(fold).stream(),
        final(fold).function() == old(fold).function(),
        match item {
            Polled::Ready(Some(item)) => exists|done: bool|
                #[trigger] call_ensures(
                    old(fold).function(),
                    (&old(fold).state(), item),
                    (final(fold).state(), done),
                ) && (done ==> r == Polled::Ready(Some(()))) && (!done ==> r is Pending),
            Polled::Ready(None) => {
                final(fold).state() == old(fold).state() && r == Polled::Ready(None::<()>)
            },
            Polled::Pending => final(fold).state() == old(fold).state() && r is Pending,
        },
{
    if let Polled::Ready(Some(item)) = item {
        let done = r == Polled::Ready(Some(()));
        assert(call_ensures(
            old(fold).function(),
            (&old(fold).state(), item),
            (final(fold).state(), done),
        ));
    }
}

/// A fold that nothing was folded into gives back the stream and the state that it was
/// made with.
pub proof fn law_parts_are_given_back<S, W, F>(
    stream: S,
    state: W,
    function: F,
    fold: StreamFold<S, W, F>,
    parts: (S, W),
)
    requires
        call_ensures(StreamFold::<S, W, F>::new, (stream, state, function), fold),
        call_ensures(StreamFold::<S, W, F>::into_parts, (fold,), parts),
    ensures
        parts.0 == stream,
        parts.1 == state,
        fold.function() == function,
{
}

} // verus!
