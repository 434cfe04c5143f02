//! The change tracker: takes in raw events, keeps the shader files they
//! name, and hands them out one by one or all at once.

use crate::error::{AwaitEventError, NextPathError};
use crate::event::{shaders_related_to_event, Event};
use crate::model::{
    lemma_absorb_keeps_next, lemma_next_ends_drain, lemma_next_takes_head, WatchState,
};
use crate::observe::ShaderFile;
use crate::touched::{first_seen, lemma_first_seen, path_set, CompileQueue, TouchedSet};
use std::collections::VecDeque;
use vstd::prelude::*;

verus! {

/// Tracks which shader files were touched.
///
/// Raw events are handed in with `deliver` as they arrive, and `close`
/// tells the watch that no more will come. A watch is used by one consumer
/// at a time: every operation that changes it takes it by `&mut`.
pub struct Watch {
    inbox: VecDeque<Result<Event, notify::Error>>,
    pending: Vec<ShaderFile>,
    closed: bool,
}

impl View for Watch {
    type V = WatchState;

    closed spec fn view(&self) -> WatchState {
        WatchState { pending: self.pending@, inbox: self.inbox@, closed: self.closed }
    }
}

impl Watch {
    /// A watch with nothing buffered and nothing arrived.
    pub fn new() -> (watch: Watch)
        ensures
            watch@ == WatchState::fresh(),
    {
        Watch { inbox: VecDeque::new(), pending: Vec::new(), closed: false }
    }

    /// Takes in a raw event that has arrived: it is looked at after all
    /// events that arrived before it.
    pub fn deliver(&mut self, raw: Result<Event, notify::Error>)
        ensures
            final(self)@ == old(self)@.deliver(raw),
    {
        self.inbox.push_back(raw);
    }

    /// Records that the notification source is gone.
    pub fn close(&mut self)
        ensures
            final(self)@ == old(self)@.close(),
    {
        self.closed = true;
    }

    /// Whether `await_event` can be answered now: an event has arrived and
    /// was not yet looked at, or the source is gone.
    pub fn has_arrival(&self) -> (b: bool)
        ensures
            b == self@.has_arrival(),
    {
        self.inbox.len() > 0 || self.closed
    }

    /// Takes in the oldest event that has arrived. The shader files of a
    /// change are added at the end of the pending buffer, in the event's
    /// order; an error is returned and leaves the buffer as it was. With no
    /// event left and the source gone, the answer is `ChannelClosed`.
    ///
    /// The caller waits until `has_arrival` holds.
    pub fn await_event(&mut self) -> (r: Result<(), AwaitEventError>)
        requires
            old(self)@.has_arrival(),
        ensures
            r == old(self)@.await_result(),
            final(self)@ == old(self)@.after_await(),
    {
        let event = match self.inbox.pop_front() {
            Some(Ok(event)) => event,
            Some(Err(err)) => {
                return Err(AwaitEventError::Notify { err });
            },
            None => {
                return Err(AwaitEventError::ChannelClosed);
            },
        };
        let mut shaders = shaders_related_to_event(event);
        self.pending.append(&mut shaders);
        Ok(())
    }

    /// Fetches the next shader file without waiting, with its stage.
    /// `try_next_path` is this, with only the path handed out.
    pub fn try_next_shader(&mut self) -> (r: Result<Option<ShaderFile>, NextPathError>)
        ensures
            r == old(self)@.next_shader(),
            final(self)@ == old(self)@.after_next(),
    {
        loop
            invariant
                self@.next_shader() == old(self)@.next_shader(),
                self@.after_next() == old(self)@.after_next(),
            decreases self.inbox.len(),
        {
            let ghost before = self@;
            if !self.pending.is_empty() {
                let file = self.pending.remove(0);
                assert(self@.pending == before.pending.skip(1));
                return Ok(Some(file));
            }
            let event = match self.inbox.pop_front() {
                Some(Ok(event)) => event,
                Some(Err(err)) => {
                    assert(self@.inbox == before.inbox.skip(1));
                    assert(self@.pending == Seq::<ShaderFile>::empty());
                    return Err(NextPathError::Notify { err });
                },
                None => {
                    assert(self@.inbox == Seq::<Result<Event, notify::Error>>::empty());
                    if self.closed {
                        return Err(NextPathError::ChannelClosed);
                    }
                    return Ok(None);
                },
            };
            let mut shaders = shaders_related_to_event(event);
            self.pending.append(&mut shaders);
            proof {
                assert(self@.inbox == before.inbox.skip(1));
                assert(self@.pending == before.after_await().pending);
                lemma_absorb_keeps_next(before);
            }
        }
    }

    /// Fetches the next shader path without waiting.
    ///
    /// A pending path is handed out first, oldest first. With none pending,
    /// the events that have arrived are looked at in order: a change that
    /// names no shader file is passed over, a change that names some makes
    /// them pending and hands out the first, and an error is returned. With
    /// no event left, the answer is `Ok(None)` while the source lives and
    /// `ChannelClosed` once it is gone.
    pub fn try_next_path(&mut self) -> (r: Result<Option<String>, NextPathError>)
        ensures
            r == old(self)@.next_path(),
            final(self)@ == old(self)@.after_next(),
    {
        match self.try_next_shader() {
            Ok(Some(file)) => Ok(Some(file.path)),
            Ok(None) => Ok(None),
            Err(err) => Err(err),
        }
    }

    /// Drains the watch: every shader file that was touched since the last
    /// drain, each path once.
    ///
    /// Fetches until nothing is left, so what is pending and every event
    /// that has arrived are used up. An error among the events, or a source
    /// that is gone, fails the whole drain: what was gathered until then is
    /// dropped, and the events behind the error stay for the next call.
    pub fn paths_touched(&mut self) -> (r: Result<TouchedSet, NextPathError>)
        ensures
            match r {
                Ok(paths) => old(self)@.touched() == Ok::<Seq<ShaderFile>, NextPathError>(
                    paths.entries(),
                ),
                Err(err) => old(self)@.touched() == Err::<Seq<ShaderFile>, NextPathError>(err),
            },
            r matches Ok(paths) ==> paths.wf() && paths@ == path_set(old(self)@.queued()),
            final(self)@ == old(self)@.after_touched(),
    {
        let mut paths = TouchedSet::new();
        let ghost mut handed: Seq<ShaderFile> = Seq::empty();
        loop
            invariant
                paths.wf(),
                paths.entries() == first_seen(handed),
                old(self)@.touched() is Err ==> self@.touched() == old(self)@.touched(),
                old(self)@.touched() is Ok ==> self@.touched() is Ok && old(self)@.queued()
                    == handed + self@.queued(),
                self@.after_touched() == old(self)@.after_touched(),
            decreases self@.queued().len(),
        {
            let ghost before = self@;
            let next = self.try_next_shader();
            proof {
                if next is Ok && next->Ok_0 is Some {
                    lemma_next_takes_head(before);
                } else {
                    lemma_next_ends_drain(before);
                }
            }
            match next {
                Err(err) => {
                    return Err(err);
                },
                Ok(None) => {
                    proof {
                        assert(handed + before.queued() == handed);
                        lemma_first_seen(handed);
                    }
                    return Ok(paths);
                },
                Ok(Some(file)) => {
                    proof {
                        assert(handed + before.queued() == handed.push(file) + self@.queued());
                        assert(handed.push(file).drop_last() == handed);
                        handed = handed.push(file);
                    }
                    paths.insert(file);
                },
            }
        }
    }

    /// Drains the watch as `paths_touched` does and queues what was touched
    /// for compiling. Nothing is compiled here: the caller takes the files
    /// off the queue one by one and compiles each when it takes it. Where
    /// the drain fails, no queue is made.
    pub fn compile_touched(&mut self) -> (r: Result<CompileQueue, NextPathError>)
        ensures
            match r {
                Ok(queue) => old(self)@.touched() == Ok::<Seq<ShaderFile>, NextPathError>(queue@),
                Err(err) => old(self)@.touched() == Err::<Seq<ShaderFile>, NextPathError>(err),
            },
            final(self)@ == old(self)@.after_touched(),
    {
        match self.paths_touched() {
            Ok(paths) => Ok(CompileQueue::new(paths)),
            Err(err) => Err(err),
        }
    }
}

} // verus!
