//! What holds of the change tracker whatever arrives: the laws that its
//! users rely on, proved of the model that the operations of `Watch` are
//! stated in.

use crate::error::NextPathError;
use crate::event::{shader_files, shaders_of, Event};
use crate::model::{
    all_shaders, calm_len, is_silent, lemma_all_shaders_skip, lemma_calm_len_skip,
    lemma_next_takes_head, lemma_prefix_lens_bounded, lemma_silent_prefix, silent_len,
    WatchState,
};
use crate::observe::{Observed, ShaderFile};
use crate::stage::lemma_recognised_iff_staged;
use crate::touched::{first_seen, lemma_distinct_paths_count, lemma_first_seen, path_set};
use vstd::prelude::*;

verus! {

/// The filter and the stage table agree: a path is a shader file exactly
/// when it named a regular file and its extension tells a stage, and the
/// shader file has that stage. A path with any other extension is none.
pub proof fn law_shader_files_are_staged(seen: Observed)
    ensures
        seen.is_shader_file() <==> seen.is_file && seen.stage() is Some,
        seen.shader_file() is Some <==> seen.is_shader_file(),
        seen.shader_file() matches Some(file) ==> file.path == seen.path && Some(file.stage)
            == seen.stage(),
{
    if seen.extension is Some {
        lemma_recognised_iff_staged(seen.extension->0@);
    }
}

/// Delivering events one after the other is delivering them all.
pub proof fn law_deliver_in_order(
    s: WatchState,
    events: Seq<Result<Event, notify::Error>>,
    raw: Result<Event, notify::Error>,
)
    ensures
        s.deliver_all(Seq::empty()) == s,
        s.deliver_all(events.push(raw)) == s.deliver_all(events).deliver(raw),
{
    assert(s.inbox + Seq::<Result<Event, notify::Error>>::empty() == s.inbox);
    assert(s.inbox + events.push(raw) == (s.inbox + events).push(raw));
}

/// A shader file is among the shader files of an inbox exactly when some
/// event of the inbox brings it.
pub proof fn lemma_all_shaders_contains(
    inbox: Seq<Result<Event, notify::Error>>,
    file: ShaderFile,
)
    ensures
        all_shaders(inbox).contains(file) <==> exists|k: int|
            0 <= k < inbox.len() && (#[trigger] shaders_of(inbox[k])).contains(file),
    decreases inbox.len(),
{
    if inbox.len() > 0 {
        let rest = inbox.skip(1);
        let head = shaders_of(inbox[0]);
        lemma_all_shaders_contains(rest, file);
        if all_shaders(inbox).contains(file) {
            let i = choose|i: int| 0 <= i < all_shaders(inbox).len() && all_shaders(inbox)[i] == file;
            if i < head.len() {
                assert(head[i] == file);
                assert(shaders_of(inbox[0]).contains(file));
            } else {
                assert(all_shaders(rest)[i - head.len()] == file);
                let k = choose|k: int|
                    0 <= k < rest.len() && (#[trigger] shaders_of(rest[k])).contains(file);
                assert(rest[k] == inbox[k + 1]);
                assert(shaders_of(inbox[k + 1]).contains(file));
            }
        }
        if exists|k: int| 0 <= k < inbox.len() && (#[trigger] shaders_of(inbox[k])).contains(file) {
            let k = choose|k: int|
                0 <= k < inbox.len() && (#[trigger] shaders_of(inbox[k])).contains(file);
            if k == 0 {
                let i = choose|i: int| 0 <= i < head.len() && head[i] == file;
                assert(all_shaders(inbox)[i] == file);
            } else {
                assert(rest[k - 1] == inbox[k]);
                assert(shaders_of(rest[k - 1]).contains(file));
                let i = choose|i: int| 0 <= i < all_shaders(rest).len() && all_shaders(rest)[i] == file;
                assert(all_shaders(inbox)[head.len() + i] == file);
            }
        }
    }
}

/// Events that name no shader file touch nothing: a drain of a fresh watch
/// to which only such events were delivered gives the empty set.
pub proof fn law_silent_events_touch_nothing(events: Seq<Result<Event, notify::Error>>)
    requires
        forall|i: int| 0 <= i < events.len() ==> is_silent(#[trigger] events[i]),
    ensures
        WatchState::fresh().deliver_all(events).touched() == Ok::<Seq<ShaderFile>, NextPathError>(
            Seq::empty(),
        ),
{
    let s = WatchState::fresh().deliver_all(events);
    let n = events.len() as int;
    assert(s.inbox == events);
    lemma_calm_len_skip(events, n);
    lemma_all_shaders_skip(events, n);
    assert(events.skip(n) == Seq::<Result<Event, notify::Error>>::empty());
    assert(s.queued() == Seq::<ShaderFile>::empty());
}

/// One path, touched many times, is in the set once: where each of one or
/// more events brings one shader file and all of them have the same path, a
/// drain of a fresh watch to which they were delivered gives a set of
/// exactly that path.
pub proof fn law_same_path_touched_once(events: Seq<Result<Event, notify::Error>>, path: Seq<char>)
    requires
        events.len() >= 1,
        forall|i: int|
            0 <= i < events.len() ==> (#[trigger] events[i]) is Ok && shaders_of(events[i]).len()
                == 1 && shaders_of(events[i])[0].path@ == path,
    ensures
        WatchState::fresh().deliver_all(events).touched() matches Ok(entries) && entries.len() == 1
            && entries[0].path@ == path && path_set(entries) == set![path],
{
    let s = WatchState::fresh().deliver_all(events);
    assert(s.inbox == events);
    lemma_calm_len_skip(events, events.len() as int);
    assert(events.skip(events.len() as int) == Seq::<Result<Event, notify::Error>>::empty());
    let queued = s.queued();
    assert(queued == all_shaders(events));
    // Every queued file has the one path, and there is at least one.
    assert forall|i: int| 0 <= i < queued.len() implies (#[trigger] queued[i]).path@ == path by {
        assert(queued.contains(queued[i]));
        lemma_all_shaders_contains(events, queued[i]);
        let k = choose|k: int|
            0 <= k < events.len() && (#[trigger] shaders_of(events[k])).contains(queued[i]);
        assert(events[k] is Ok);
    }
    assert(queued.len() >= 1) by {
        assert(events[0] is Ok);
        assert(shaders_of(events[0])[0] == all_shaders(events)[0]);
    }
    assert(path_set(queued) =~= set![path]) by {
        assert(queued[0].path@ == path);
    }
    let entries = first_seen(queued);
    lemma_first_seen(queued);
    lemma_distinct_paths_count(entries);
    assert(path_set(entries).contains(path));
    let i = choose|i: int| 0 <= i < entries.len() && (#[trigger] entries[i]).path@ == path;
    assert(entries[0].path@ == path) by {
        assert(path_set(entries).contains(entries[0].path@));
    }
}

/// A second drain right after a first finds nothing: where a drain gave a
/// set, the next drain, with nothing arrived in between, gives the empty
/// set and changes nothing.
pub proof fn law_second_drain_is_empty(s: WatchState)
    requires
        s.touched() is Ok,
    ensures
        s.after_touched().touched() == Ok::<Seq<ShaderFile>, NextPathError>(Seq::empty()),
        s.after_touched().after_touched() == s.after_touched(),
{
    let t = s.after_touched();
    lemma_prefix_lens_bounded(s.inbox);
    assert(t.queued() == Seq::<ShaderFile>::empty());
    assert(t.inbox.skip(0) == t.inbox);
}

/// Fetching keeps the order of arrival: where no event is an error, the
/// fetch after `i` fetches hands out the `i`-th queued shader file,
/// repeats included.
pub proof fn law_fetches_keep_order(s: WatchState, i: nat)
    requires
        forall|k: int| 0 <= k < s.inbox.len() ==> (#[trigger] s.inbox[k]) is Ok,
        i < s.queued().len(),
    ensures
        s.after_fetches(i).next_shader() == Ok::<Option<ShaderFile>, NextPathError>(
            Some(s.queued()[i as int]),
        ),
        s.after_fetches(i).next_path() == Ok::<Option<String>, NextPathError>(
            Some(s.queued()[i as int].path),
        ),
    decreases i,
{
    lemma_fetch_hands_out_head(s);
    lemma_next_takes_head(s);
    if i > 0 {
        let t = s.after_next();
        lemma_prefix_lens_bounded(s.inbox);
        assert forall|k: int| 0 <= k < t.inbox.len() implies (#[trigger] t.inbox[k]) is Ok by {
            if s.pending.len() == 0 {
                assert(t.inbox[k] == s.inbox[silent_len(s.inbox) + 1 + k]);
            }
        }
        law_fetches_keep_order(t, (i - 1) as nat);
        assert(t.queued()[i - 1] == s.queued()[i as int]);
    }
}

/// Where something is queued and the event that the fetch stops at is no
/// error, the fetch hands out a shader file.
proof fn lemma_fetch_hands_out_head(s: WatchState)
    requires
        forall|k: int| 0 <= k < s.inbox.len() ==> (#[trigger] s.inbox[k]) is Ok,
        s.queued().len() > 0,
    ensures
        s.next_shader() is Ok,
        s.next_shader()->Ok_0 is Some,
{
    if s.pending.len() == 0 {
        let k = silent_len(s.inbox) as int;
        lemma_prefix_lens_bounded(s.inbox);
        lemma_silent_prefix(s.inbox);
        if k == s.inbox.len() {
            lemma_all_shaders_skip(s.inbox, k);
            assert(s.inbox.skip(k) == Seq::<Result<Event, notify::Error>>::empty());
            assert(s.queued() == Seq::<ShaderFile>::empty());
        }
    }
}

/// Whether `raw` is a change that names an `i`-th path.
pub open spec fn named_by(raw: Result<Event, notify::Error>, i: int) -> bool {
    raw matches Ok(event) && 0 <= i < event.paths@.len()
}

/// Only shader files are handed out: what a fetch hands out was pending, or
/// is a path of an arrived change that is a regular file with a recognised
/// extension.
pub proof fn law_only_shader_files_surface(s: WatchState, file: ShaderFile)
    requires
        s.next_shader() == Ok::<Option<ShaderFile>, NextPathError>(Some(file)),
    ensures
        s.pending.contains(file) || exists|k: int, i: int|
            0 <= k < s.inbox.len() && #[trigger] named_by(s.inbox[k], i)
                && s.inbox[k].unwrap().paths[i].is_shader_file()
                && s.inbox[k].unwrap().paths[i].shader_file() == Some(file),
{
    if s.pending.len() > 0 {
        assert(s.pending[0] == file);
    } else {
        let k = silent_len(s.inbox) as int;
        lemma_prefix_lens_bounded(s.inbox);
        lemma_silent_prefix(s.inbox);
        let seen = s.inbox[k].unwrap().paths@;
        assert(shader_files(seen)[0] == file);
        assert(shader_files(seen).contains(file));
        seen.lemma_filter_map_contains(|o: Observed| o.shader_file(), file);
        let i = choose|i: int| 0 <= i < seen.len() && seen[i].shader_file() == Some(file);
        assert(named_by(s.inbox[k], i));
    }
}

/// An idle watch tells "nothing yet" from "closed": with nothing pending
/// and nothing arrived, a fetch gives `Ok(None)` and changes nothing while
/// the source lives, and `ChannelClosed` once it is gone.
pub proof fn law_idle_is_not_closed(s: WatchState)
    requires
        s.pending.len() == 0,
        s.inbox.len() == 0,
    ensures
        !s.closed ==> s.next_path() == Ok::<Option<String>, NextPathError>(None) && s.after_next()
            == s,
        s.close().next_path() == Err::<Option<String>, NextPathError>(NextPathError::ChannelClosed),
{
    assert(s.inbox == Seq::<Result<Event, notify::Error>>::empty());
}

/// Waiting loses nothing and reorders nothing: taking a change in moves its
/// shader files from the inbox to the pending buffer, and the queue is as
/// it was.
pub proof fn law_await_keeps_queue(s: WatchState)
    requires
        s.inbox.len() > 0,
    ensures
        s.after_await().queued() == s.queued(),
        s.await_result() is Ok <==> s.inbox[0] is Ok,
{
    let head = shaders_of(s.inbox[0]);
    let rest = all_shaders(s.inbox.skip(1));
    assert((s.pending + head) + rest == s.pending + (head + rest));
}

/// Whether `file` is the shader file of a path in `seen`: a regular file
/// with a recognised extension, whose path and stage `file` has.
pub open spec fn passed_filter(seen: Set<Observed>, file: ShaderFile) -> bool {
    exists|o: Observed| #[trigger] seen.contains(o) && o.shader_file() == Some(file)
}

/// Whether all that `s` holds stems from `seen`: every pending file passed
/// the filter as a path of `seen`, and every path of an arrived change is
/// in `seen`.
pub open spec fn stems_from(s: WatchState, seen: Set<Observed>) -> bool {
    &&& forall|i: int| 0 <= i < s.pending.len() ==> passed_filter(seen, #[trigger] s.pending[i])
    &&& forall|k: int, i: int|
        0 <= k < s.inbox.len() && #[trigger] named_by(s.inbox[k], i) ==> seen.contains(
            s.inbox[k].unwrap().paths[i],
        )
}

/// The shader files of an event whose paths are in `seen` passed the filter
/// as paths of `seen`.
proof fn lemma_shaders_passed_filter(
    raw: Result<Event, notify::Error>,
    seen: Set<Observed>,
    j: int,
)
    requires
        forall|i: int| #[trigger] named_by(raw, i) ==> seen.contains(raw.unwrap().paths[i]),
        0 <= j < shaders_of(raw).len(),
    ensures
        passed_filter(seen, shaders_of(raw)[j]),
{
    let file = shaders_of(raw)[j];
    let paths = raw.unwrap().paths@;
    assert(shader_files(paths).contains(file));
    paths.lemma_filter_map_contains(|o: Observed| o.shader_file(), file);
    let i = choose|i: int| 0 <= i < paths.len() && paths[i].shader_file() == Some(file);
    assert(named_by(raw, i));
    assert(seen.contains(paths[i]));
}

/// What is left of an inbox after some of its oldest events are dropped
/// stems from what the whole inbox stems from.
proof fn lemma_stems_from_suffix(s: WatchState, t: WatchState, n: int, seen: Set<Observed>)
    requires
        stems_from(s, seen),
        0 <= n <= s.inbox.len(),
        t.inbox == s.inbox.skip(n),
        forall|i: int| 0 <= i < t.pending.len() ==> passed_filter(seen, #[trigger] t.pending[i]),
    ensures
        stems_from(t, seen),
{
    assert forall|k: int, i: int| 0 <= k < t.inbox.len() && #[trigger] named_by(
        t.inbox[k],
        i,
    ) implies seen.contains(t.inbox[k].unwrap().paths[i]) by {
        assert(t.inbox[k] == s.inbox[k + n]);
        assert(named_by(s.inbox[k + n], i));
    }
}

/// A fresh watch holds nothing, so all that it holds stems from anything.
pub proof fn law_fresh_stems_from(seen: Set<Observed>)
    ensures
        stems_from(WatchState::fresh(), seen),
{
}

/// The filter is never passed by: where all that a watch holds stems from
/// `seen`, it still does after an event with paths of `seen` arrives, after
/// the source goes, and after every wait, fetch and drain; and every file
/// that a fetch or a drain hands out passed the filter as a path of `seen`.
/// So what is no regular file, or has no recognised extension, is never
/// handed out, whatever events name it.
pub proof fn law_filter_is_never_passed_by(
    s: WatchState,
    seen: Set<Observed>,
    raw: Result<Event, notify::Error>,
)
    requires
        stems_from(s, seen),
    ensures
        (forall|i: int| #[trigger] named_by(raw, i) ==> seen.contains(raw.unwrap().paths[i]))
            ==> stems_from(s.deliver(raw), seen),
        stems_from(s.close(), seen),
        stems_from(s.after_await(), seen),
        stems_from(s.after_next(), seen),
        stems_from(s.after_touched(), seen),
        s.next_shader() matches Ok(Some(file)) ==> passed_filter(seen, file),
        s.touched() matches Ok(entries) ==> forall|i: int|
            0 <= i < entries.len() ==> passed_filter(seen, #[trigger] entries[i]),
{
    lemma_prefix_lens_bounded(s.inbox);
    lemma_silent_prefix(s.inbox);
    // An arrival.
    if forall|i: int| #[trigger] named_by(raw, i) ==> seen.contains(raw.unwrap().paths[i]) {
        let t = s.deliver(raw);
        assert forall|k: int, i: int| 0 <= k < t.inbox.len() && #[trigger] named_by(
            t.inbox[k],
            i,
        ) implies seen.contains(t.inbox[k].unwrap().paths[i]) by {
            if k < s.inbox.len() {
                assert(named_by(s.inbox[k], i));
            }
        }
    }
    // A wait.
    if s.inbox.len() > 0 {
        let t = s.after_await();
        let head = shaders_of(s.inbox[0]);
        assert forall|i: int| 0 <= i < t.pending.len() implies passed_filter(
            seen,
            #[trigger] t.pending[i],
        ) by {
            if i >= s.pending.len() {
                assert forall|p: int| #[trigger] named_by(s.inbox[0], p) implies seen.contains(
                    s.inbox[0].unwrap().paths[p],
                ) by {}
                lemma_shaders_passed_filter(s.inbox[0], seen, i - s.pending.len());
            } else {
                assert(t.pending[i] == s.pending[i]);
            }
        }
        lemma_stems_from_suffix(s, t, 1, seen);
    }
    // A fetch.
    let k = silent_len(s.inbox) as int;
    let t = s.after_next();
    if s.pending.len() > 0 {
        assert forall|i: int| 0 <= i < t.pending.len() implies passed_filter(
            seen,
            #[trigger] t.pending[i],
        ) by {
            assert(t.pending[i] == s.pending[i + 1]);
        }
        assert(s.inbox.skip(0) == s.inbox);
        lemma_stems_from_suffix(s, t, 0, seen);
    } else if k == s.inbox.len() {
        assert(s.inbox.skip(k) == Seq::<Result<Event, notify::Error>>::empty());
        lemma_stems_from_suffix(s, t, k, seen);
    } else {
        let shaders = shaders_of(s.inbox[k]);
        assert forall|p: int| #[trigger] named_by(s.inbox[k], p) implies seen.contains(
            s.inbox[k].unwrap().paths[p],
        ) by {}
        if s.inbox[k] is Ok {
            lemma_shaders_passed_filter(s.inbox[k], seen, 0);
            assert forall|i: int| 0 <= i < t.pending.len() implies passed_filter(
                seen,
                #[trigger] t.pending[i],
            ) by {
                assert(t.pending[i] == shaders[i + 1]);
                lemma_shaders_passed_filter(s.inbox[k], seen, i + 1);
            }
        }
        lemma_stems_from_suffix(s, t, k + 1, seen);
    }
    // A drain.
    let j = calm_len(s.inbox) as int;
    let u = s.after_touched();
    if j < s.inbox.len() {
        lemma_stems_from_suffix(s, u, j + 1, seen);
    } else {
        assert(s.inbox.skip(j) == Seq::<Result<Event, notify::Error>>::empty());
        lemma_stems_from_suffix(s, u, j, seen);
    }
    if s.touched() is Ok {
        let queued = s.queued();
        let entries = first_seen(queued);
        assert forall|i: int| 0 <= i < entries.len() implies passed_filter(
            seen,
            #[trigger] entries[i],
        ) by {
            lemma_first_seen_within(queued, i);
            let q = choose|q: int| 0 <= q < queued.len() && queued[q] == entries[i];
            if q >= s.pending.len() {
                let file = all_shaders(s.inbox)[q - s.pending.len()];
                assert(all_shaders(s.inbox).contains(file));
                lemma_all_shaders_contains(s.inbox, file);
                let e = choose|e: int|
                    0 <= e < s.inbox.len() && (#[trigger] shaders_of(s.inbox[e])).contains(file);
                let x = choose|x: int|
                    0 <= x < shaders_of(s.inbox[e]).len() && shaders_of(s.inbox[e])[x] == file;
                assert forall|p: int| #[trigger] named_by(s.inbox[e], p) implies seen.contains(
                    s.inbox[e].unwrap().paths[p],
                ) by {}
                lemma_shaders_passed_filter(s.inbox[e], seen, x);
            } else {
                assert(queued[q] == s.pending[q]);
            }
        }
    }
}

/// Dropping repeats makes nothing up: every entry that stays was there.
proof fn lemma_first_seen_within(seen: Seq<ShaderFile>, i: int)
    requires
        0 <= i < first_seen(seen).len(),
    ensures
        exists|q: int| 0 <= q < seen.len() && seen[q] == first_seen(seen)[i],
    decreases seen.len(),
{
    let earlier = seen.drop_last();
    let before = first_seen(earlier);
    if i < before.len() {
        lemma_first_seen_within(earlier, i);
        let q = choose|q: int| 0 <= q < earlier.len() && earlier[q] == before[i];
        assert(seen[q] == first_seen(seen)[i]);
    } else {
        assert(seen[seen.len() - 1] == first_seen(seen)[i]);
    }
}

} // verus!
