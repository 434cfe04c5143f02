//! The change tracker as mathematics: what a `Watch` holds and what each of
//! its operations returns and leaves behind, stated over sequences.

use crate::error::{AwaitEventError, NextPathError};
use crate::event::{shaders_of, Event};
use crate::observe::ShaderFile;
use crate::touched::first_seen;
use vstd::prelude::*;

verus! {

/// What a `Watch` holds.
pub struct WatchState {
    /// Shader files taken from events and not yet handed out, oldest first.
    pub pending: Seq<ShaderFile>,
    /// Raw events that arrived and were not yet looked at, oldest first.
    pub inbox: Seq<Result<Event, notify::Error>>,
    /// Whether the notification source is gone.
    pub closed: bool,
}

/// A raw event is silent when it is a change that names no shader file.
pub open spec fn is_silent(raw: Result<Event, notify::Error>) -> bool {
    raw is Ok && shaders_of(raw).len() == 0
}

/// How many silent events stand at the head of `inbox`.
pub open spec fn silent_len(inbox: Seq<Result<Event, notify::Error>>) -> nat
    decreases inbox.len(),
{
    if inbox.len() > 0 && is_silent(inbox[0]) {
        1 + silent_len(inbox.skip(1))
    } else {
        0
    }
}

/// How many changes stand at the head of `inbox`, before its first error.
pub open spec fn calm_len(inbox: Seq<Result<Event, notify::Error>>) -> nat
    decreases inbox.len(),
{
    if inbox.len() > 0 && inbox[0] is Ok {
        1 + calm_len(inbox.skip(1))
    } else {
        0
    }
}

/// The shader files of all events of `inbox`, in order of arrival.
pub open spec fn all_shaders(inbox: Seq<Result<Event, notify::Error>>) -> Seq<ShaderFile>
    decreases inbox.len(),
{
    if inbox.len() == 0 {
        Seq::empty()
    } else {
        shaders_of(inbox[0]) + all_shaders(inbox.skip(1))
    }
}

impl WatchState {
    /// A watch that has just been set up: nothing buffered, nothing
    /// arrived, the source alive.
    pub open spec fn fresh() -> WatchState {
        WatchState { pending: Seq::empty(), inbox: Seq::empty(), closed: false }
    }

    /// The state after `raw` has arrived.
    pub open spec fn deliver(self, raw: Result<Event, notify::Error>) -> WatchState {
        WatchState { inbox: self.inbox.push(raw), ..self }
    }

    /// The state after `events` have arrived, in their order.
    pub open spec fn deliver_all(self, events: Seq<Result<Event, notify::Error>>) -> WatchState {
        WatchState { inbox: self.inbox + events, ..self }
    }

    /// The state after the notification source has gone.
    pub open spec fn close(self) -> WatchState {
        WatchState { closed: true, ..self }
    }

    /// Whether a wait would end at once: an event has arrived, or none ever
    /// will.
    pub open spec fn has_arrival(self) -> bool {
        self.inbox.len() > 0 || self.closed
    }

    /// Every shader file that is still to be handed out, in the order in
    /// which it will be.
    pub open spec fn queued(self) -> Seq<ShaderFile> {
        self.pending + all_shaders(self.inbox)
    }

    /// What waiting for an event returns.
    pub open spec fn await_result(self) -> Result<(), AwaitEventError> {
        if self.inbox.len() == 0 {
            Err(AwaitEventError::ChannelClosed)
        } else {
            match self.inbox[0] {
                Ok(_) => Ok(()),
                Err(err) => Err(AwaitEventError::Notify { err }),
            }
        }
    }

    /// The state after waiting for an event: the oldest event is gone, and
    /// the shader files of a change stand at the end of the pending buffer.
    pub open spec fn after_await(self) -> WatchState {
        if self.inbox.len() == 0 {
            self
        } else {
            WatchState {
                pending: self.pending + shaders_of(self.inbox[0]),
                inbox: self.inbox.skip(1),
                closed: self.closed,
            }
        }
    }

    /// What fetching the next shader file returns. A pending one goes
    /// first. Otherwise the silent events at the head of the inbox are
    /// passed over, and the first event after them decides: an error is
    /// returned, a change gives its first shader file. With no event left,
    /// the answer is "nothing yet" from a living source and "closed" from a
    /// dead one.
    pub open spec fn next_shader(self) -> Result<Option<ShaderFile>, NextPathError> {
        let k = silent_len(self.inbox) as int;
        if self.pending.len() > 0 {
            Ok(Some(self.pending[0]))
        } else if k == self.inbox.len() {
            if self.closed {
                Err(NextPathError::ChannelClosed)
            } else {
                Ok(None)
            }
        } else {
            match self.inbox[k] {
                Ok(_) => Ok(Some(shaders_of(self.inbox[k])[0])),
                Err(err) => Err(NextPathError::Notify { err }),
            }
        }
    }

    /// The path of `next_shader`.
    pub open spec fn next_path(self) -> Result<Option<String>, NextPathError> {
        match self.next_shader() {
            Ok(Some(file)) => Ok(Some(file.path)),
            Ok(None) => Ok(None),
            Err(err) => Err(err),
        }
    }

    /// The state after fetching the next shader file: what was handed out
    /// has left the pending buffer, the events that were looked at have left
    /// the inbox, and the other shader files of the deciding change are
    /// pending.
    pub open spec fn after_next(self) -> WatchState {
        let k = silent_len(self.inbox) as int;
        if self.pending.len() > 0 {
            WatchState { pending: self.pending.skip(1), ..self }
        } else if k == self.inbox.len() {
            WatchState { inbox: Seq::empty(), ..self }
        } else {
            WatchState {
                pending: match self.inbox[k] {
                    Ok(_) => shaders_of(self.inbox[k]).skip(1),
                    Err(_) => Seq::empty(),
                },
                inbox: self.inbox.skip(k + 1),
                closed: self.closed,
            }
        }
    }

    /// The state after `n` fetches in a row.
    pub open spec fn after_fetches(self, n: nat) -> WatchState
        decreases n,
    {
        if n == 0 {
            self
        } else {
            self.after_next().after_fetches((n - 1) as nat)
        }
    }

    /// What draining the watch returns. The first error among the arrived
    /// events fails the drain, and so does a dead source; otherwise the
    /// answer is every queued shader file, each path once.
    pub open spec fn touched(self) -> Result<Seq<ShaderFile>, NextPathError> {
        let j = calm_len(self.inbox) as int;
        if j < self.inbox.len() {
            Err(NextPathError::Notify { err: self.inbox[j]->Err_0 })
        } else if self.closed {
            Err(NextPathError::ChannelClosed)
        } else {
            Ok(first_seen(self.queued()))
        }
    }

    /// The state after draining: nothing is pending, and of the inbox only
    /// what arrived after the first error is left.
    pub open spec fn after_touched(self) -> WatchState {
        let j = calm_len(self.inbox) as int;
        WatchState {
            pending: Seq::empty(),
            inbox: if j < self.inbox.len() {
                self.inbox.skip(j + 1)
            } else {
                Seq::empty()
            },
            closed: self.closed,
        }
    }
}

/// No more events stand at the head of an inbox than it holds.
pub proof fn lemma_prefix_lens_bounded(inbox: Seq<Result<Event, notify::Error>>)
    ensures
        silent_len(inbox) <= calm_len(inbox) <= inbox.len(),
    decreases inbox.len(),
{
    if inbox.len() > 0 {
        lemma_prefix_lens_bounded(inbox.skip(1));
    }
}

/// Taking the oldest event in, where it is a change and nothing is pending,
/// alters neither what is handed out next nor what is left after that.
pub proof fn lemma_absorb_keeps_next(s: WatchState)
    requires
        s.pending.len() == 0,
        s.inbox.len() > 0,
        s.inbox[0] is Ok,
    ensures
        s.after_await().next_shader() == s.next_shader(),
        s.after_await().after_next() == s.after_next(),
{
    let t = s.after_await();
    let rest = s.inbox.skip(1);
    let k = silent_len(rest) as int;
    lemma_prefix_lens_bounded(rest);
    assert(t.pending == shaders_of(s.inbox[0]));
    if is_silent(s.inbox[0]) {
        assert(silent_len(s.inbox) == k + 1);
        assert(t.pending.len() == 0);
        if k < rest.len() {
            assert(rest[k] == s.inbox[k + 1]);
            assert(rest.skip(k + 1) == s.inbox.skip(k + 2));
        }
    } else {
        assert(silent_len(s.inbox) == 0);
    }
}

/// The events counted by `silent_len` are silent, and the one after them,
/// if there is one, is not.
pub proof fn lemma_silent_prefix(inbox: Seq<Result<Event, notify::Error>>)
    ensures
        forall|i: int| 0 <= i < silent_len(inbox) ==> is_silent(#[trigger] inbox[i]),
        silent_len(inbox) < inbox.len() ==> !is_silent(inbox[silent_len(inbox) as int]),
    decreases inbox.len(),
{
    lemma_prefix_lens_bounded(inbox);
    if inbox.len() > 0 && is_silent(inbox[0]) {
        let rest = inbox.skip(1);
        lemma_silent_prefix(rest);
        lemma_prefix_lens_bounded(rest);
        assert forall|i: int| 0 <= i < silent_len(inbox) implies is_silent(#[trigger] inbox[i]) by {
            if i > 0 {
                assert(inbox[i] == rest[i - 1]);
            }
        }
        if silent_len(inbox) < inbox.len() {
            assert(inbox[silent_len(inbox) as int] == rest[silent_len(rest) as int]);
        }
    }
}

/// The events counted by `calm_len` are changes, and the one after them, if
/// there is one, is an error.
pub proof fn lemma_calm_prefix(inbox: Seq<Result<Event, notify::Error>>)
    ensures
        forall|i: int| 0 <= i < calm_len(inbox) ==> (#[trigger] inbox[i]) is Ok,
        calm_len(inbox) < inbox.len() ==> inbox[calm_len(inbox) as int] is Err,
    decreases inbox.len(),
{
    lemma_prefix_lens_bounded(inbox);
    if inbox.len() > 0 && inbox[0] is Ok {
        let rest = inbox.skip(1);
        lemma_calm_prefix(rest);
        lemma_prefix_lens_bounded(rest);
        assert forall|i: int| 0 <= i < calm_len(inbox) implies (#[trigger] inbox[i]) is Ok by {
            if i > 0 {
                assert(inbox[i] == rest[i - 1]);
            }
        }
        if calm_len(inbox) < inbox.len() {
            assert(inbox[calm_len(inbox) as int] == rest[calm_len(rest) as int]);
        }
    }
}

/// Where the first `n` events are changes, dropping them shortens the calm
/// head of the inbox by `n`.
pub proof fn lemma_calm_len_skip(inbox: Seq<Result<Event, notify::Error>>, n: int)
    requires
        0 <= n <= inbox.len(),
        forall|i: int| 0 <= i < n ==> (#[trigger] inbox[i]) is Ok,
    ensures
        calm_len(inbox) == n + calm_len(inbox.skip(n)),
    decreases n,
{
    if n == 0 {
        assert(inbox.skip(0) == inbox);
    } else {
        let rest = inbox.skip(1);
        assert forall|i: int| 0 <= i < n - 1 implies (#[trigger] rest[i]) is Ok by {
            assert(rest[i] == inbox[i + 1]);
        }
        lemma_calm_len_skip(rest, n - 1);
        assert(rest.skip(n - 1) == inbox.skip(n));
    }
}

/// Where the first `n` events are silent, dropping them loses no shader
/// file.
pub proof fn lemma_all_shaders_skip(inbox: Seq<Result<Event, notify::Error>>, n: int)
    requires
        0 <= n <= inbox.len(),
        forall|i: int| 0 <= i < n ==> is_silent(#[trigger] inbox[i]),
    ensures
        all_shaders(inbox) == all_shaders(inbox.skip(n)),
    decreases n,
{
    if n == 0 {
        assert(inbox.skip(0) == inbox);
    } else {
        let rest = inbox.skip(1);
        assert forall|i: int| 0 <= i < n - 1 implies is_silent(#[trigger] rest[i]) by {
            assert(rest[i] == inbox[i + 1]);
        }
        lemma_all_shaders_skip(rest, n - 1);
        assert(rest.skip(n - 1) == inbox.skip(n));
        assert(is_silent(inbox[0]));
        assert(shaders_of(inbox[0]) + all_shaders(rest) == all_shaders(rest));
    }
}

/// A fetch that hands out a shader file hands out the head of the queue and
/// leaves its tail; whether a drain fails, with which error, and what a
/// drain leaves behind are the same before and after.
pub proof fn lemma_next_takes_head(s: WatchState)
    requires
        s.next_shader() is Ok,
        s.next_shader()->Ok_0 is Some,
    ensures
        s.queued().len() > 0,
        s.next_shader() == Ok::<Option<ShaderFile>, NextPathError>(Some(s.queued()[0])),
        s.after_next().queued() == s.queued().skip(1),
        s.touched() is Err <==> s.after_next().touched() is Err,
        s.touched() is Err ==> s.after_next().touched() == s.touched(),
        s.after_next().after_touched() == s.after_touched(),
{
    let t = s.after_next();
    if s.pending.len() > 0 {
        assert(t.queued() == s.queued().skip(1));
    } else {
        let k = silent_len(s.inbox) as int;
        lemma_prefix_lens_bounded(s.inbox);
        lemma_silent_prefix(s.inbox);
        let shaders = shaders_of(s.inbox[k]);
        let rest = s.inbox.skip(k + 1);
        // The queue: the silent head brings nothing, the deciding change comes next.
        lemma_all_shaders_skip(s.inbox, k);
        assert(s.inbox.skip(k).skip(1) == rest);
        assert(s.inbox.skip(k)[0] == s.inbox[k]);
        assert(all_shaders(s.inbox.skip(k)) == shaders + all_shaders(rest));
        assert(s.queued() == shaders + all_shaders(rest));
        assert(t.queued() == shaders.skip(1) + all_shaders(rest));
        assert(t.queued() == s.queued().skip(1));
        // The first error, if any, lies behind the deciding change.
        assert forall|i: int| 0 <= i < k + 1 implies (#[trigger] s.inbox[i]) is Ok by {
            if i < k {
                assert(is_silent(s.inbox[i]));
            }
        }
        lemma_calm_len_skip(s.inbox, k + 1);
        let j = calm_len(rest) as int;
        lemma_prefix_lens_bounded(rest);
        if j < rest.len() {
            assert(rest[j] == s.inbox[k + 1 + j]);
            assert(rest.skip(j + 1) == s.inbox.skip(k + 1 + j + 1));
        }
    }
}

/// A fetch that hands out nothing, or fails, ends a drain: the drain
/// returns the empty set or the same error, and the fetch has left behind
/// what the drain leaves behind.
pub proof fn lemma_next_ends_drain(s: WatchState)
    requires
        !(s.next_shader() is Ok && s.next_shader()->Ok_0 is Some),
    ensures
        s.next_shader() is Ok ==> s.touched() == Ok::<Seq<ShaderFile>, NextPathError>(Seq::empty()),
        s.next_shader() matches Err(err) ==> s.touched() == Err::<Seq<ShaderFile>, NextPathError>(err),
        s.after_next() == s.after_touched(),
{
    let k = silent_len(s.inbox) as int;
    lemma_prefix_lens_bounded(s.inbox);
    lemma_silent_prefix(s.inbox);
    lemma_calm_prefix(s.inbox);
    assert(s.pending == Seq::<ShaderFile>::empty());
    assert forall|i: int| 0 <= i < k implies (#[trigger] s.inbox[i]) is Ok by {
        assert(is_silent(s.inbox[i]));
    }
    lemma_calm_len_skip(s.inbox, k);
    if k == s.inbox.len() {
        assert(s.inbox.skip(k) == Seq::<Result<Event, notify::Error>>::empty());
        lemma_all_shaders_skip(s.inbox, k);
        assert(s.queued() == Seq::<ShaderFile>::empty());
    } else {
        assert(s.inbox.skip(k)[0] == s.inbox[k]);
        assert(calm_len(s.inbox.skip(k)) == 0);
    }
}

} // verus!
