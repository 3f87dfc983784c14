//! Following a request to the thumbnail service: what to do with each
//! signal that the service sends.
use vstd::prelude::*;
use crate::uri::{file_prefix, path_of};

verus! {

/// A signal of the thumbnail service, as far as following a request goes.
pub enum Signal {
    /// The thumbnails of the files with URIs `uris`, asked for by the
    /// request `handle`, are ready.
    Ready { handle: u32, uris: Vec<String> },
    /// The request `handle` is finished.
    Finished { handle: u32 },
    /// Any other signal.
    Other,
}

/// What to do on a signal.
pub enum Reaction {
    /// Report these paths, whose thumbnails are ready.
    Report(Vec<String>),
    /// The request is finished: stop following it.
    Stop,
    /// Go on waiting.
    Wait,
}

/// The path of the file URI `u`, or `None` where `u` is no file URI.
pub open spec fn uri_path(u: Seq<char>) -> Option<Seq<char>> {
    if u.len() >= 7 && u.subrange(0, 7) == file_prefix() {
        Some(u.subrange(7, u.len() as int))
    } else {
        None
    }
}

/// The paths of those of `uris` that are file URIs, in order.
pub open spec fn paths_of(uris: Seq<String>) -> Seq<Seq<char>>
    decreases uris.len(),
{
    if uris.len() == 0 {
        Seq::empty()
    } else {
        let rest = paths_of(uris.drop_last());
        match uri_path(uris.last()@) {
            Some(p) => rest.push(p),
            None => rest,
        }
    }
}

/// The views of the strings `v`.
pub open spec fn views(v: Seq<String>) -> Seq<Seq<char>> {
    v.map_values(|s: String| s@)
}

/// The paths of those of `uris` that are file URIs, in order.
pub fn ready_paths(uris: &Vec<String>) -> (r: Vec<String>)
    ensures
        views(r@) == paths_of(uris@),
{
    let mut out: Vec<String> = Vec::new();
    let mut i: usize = 0;
    while i < uris.len()
        invariant
            i <= uris@.len(),
            views(out@) == paths_of(uris@.subrange(0, i as int)),
        decreases uris@.len() - i,
    {
        let ghost before = out@;
        assert(uris@.subrange(0, i + 1).drop_last() =~= uris@.subrange(0, i as int));
        assert(uris@.subrange(0, i + 1).last() == uris@[i as int]);
        match path_of(uris[i].as_str()) {
            Some(p) => {
                out.push(p);
                assert(views(out@) =~= views(before).push(out@[out@.len() - 1]@));
            },
            None => {},
        }
        i = i + 1;
    }
    assert(uris@.subrange(0, uris@.len() as int) =~= uris@);
    out
}

/// What to do on `signal` while following the request `watched`: report
/// the paths that its ready thumbnails are of, stop once it is finished,
/// and wait on anything else, signals of other requests included.
pub fn react(watched: u32, signal: Signal) -> (r: Reaction)
    ensures
        match signal {
            Signal::Ready { handle, uris } => if handle == watched {
                r is Report && views(r->Report_0@) == paths_of(uris@)
            } else {
                r is Wait
            },
            Signal::Finished { handle } => if handle == watched {
                r is Stop
            } else {
                r is Wait
            },
            Signal::Other => r is Wait,
        },
{
    match signal {
        Signal::Ready { handle, uris } => if handle == watched {
            Reaction::Report(ready_paths(&uris))
        } else {
            Reaction::Wait
        },
        Signal::Finished { handle } => if handle == watched {
            Reaction::Stop
        } else {
            Reaction::Wait
        },
        Signal::Other => Reaction::Wait,
    }
}

} // verus!
