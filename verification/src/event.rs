//! Raw change events: what the notification source hands over.

use crate::observe::{observe, shader_file, Observed, ShaderFile};
use vstd::prelude::*;

verus! {

/// One change notification: the paths it names, each with what was seen of
/// it when the notification was taken in, in the notification's own order.
#[derive(Debug)]
pub struct Event {
    pub paths: Vec<Observed>,
}

/// The shader files among `seen`, in the same order, duplicates and all.
pub open spec fn shader_files(seen: Seq<Observed>) -> Seq<ShaderFile> {
    seen.filter_map(|o: Observed| o.shader_file())
}

/// The shader files that a raw event brings: those among its paths for a
/// change, none for an error.
pub open spec fn shaders_of(raw: Result<Event, notify::Error>) -> Seq<ShaderFile> {
    match raw {
        Ok(event) => shader_files(event.paths@),
        Err(_) => Seq::empty(),
    }
}

impl Event {
    /// The event for a notification that names `paths`: each path is looked
    /// at now, and the order is kept.
    pub fn observed(paths: Vec<String>) -> (event: Event)
        ensures
            event.paths@.len() == paths@.len(),
            forall|i: int| 0 <= i < paths@.len() ==> (#[trigger] event.paths@[i]).path == paths@[i],
    {
        let ghost named = paths@;
        let mut seen: Vec<Observed> = Vec::new();
        for path in it: paths
            invariant
                it.seq() == named,
                seen@.len() == it.index(),
                forall|i: int| 0 <= i < seen@.len() ==> (#[trigger] seen@[i]).path == named[i],
        {
            seen.push(observe(path));
        }
        Event { paths: seen }
    }
}

/// The shader files that `event` relates to: every path of the event that
/// is a shader file, in the event's order. Paths that are not are dropped
/// without complaint.
pub fn shaders_related_to_event(event: Event) -> (shaders: Vec<ShaderFile>)
    ensures
        shaders@ == shader_files(event.paths@),
{
    let ghost named = event.paths@;
    let mut shaders: Vec<ShaderFile> = Vec::new();
    for seen in it: event.paths
        invariant
            it.seq() == named,
            shaders@ == shader_files(named.take(it.index())),
    {
        proof {
            let i = it.index();
            assert(seen == named[i]);
            assert(named.take(i + 1).drop_last() == named.take(i));
        }
        match shader_file(seen) {
            Some(file) => {
                shaders.push(file);
            },
            None => {},
        }
    }
    proof {
        assert(named.take(named.len() as int) == named);
    }
    shaders
}

} // verus!
