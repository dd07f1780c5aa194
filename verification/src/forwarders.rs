//! Attaching streams to actors.

use crate::handlers::InstantAction;
use crate::lite_runtime::Tag;
use vstd::prelude::*;

verus! {

/// The request to attach a stream to an actor, with the tag of the task
/// that forwards it.
pub struct AttachStream<S, M> {
    stream: S,
    tag: M,
}

impl<S, M> AttachStream<S, M> {
    /// The stream.
    pub closed spec fn spec_stream(&self) -> S {
        self.stream
    }

    /// The tag.
    pub closed spec fn spec_tag(&self) -> M {
        self.tag
    }

    /// Creates the request.
    pub fn new(stream: S, tag: M) -> (a: Self)
        ensures
            a.spec_stream() == stream,
            a.spec_tag() == tag,
    {
        AttachStream { stream, tag }
    }

    /// Takes the request apart.
    pub fn into_parts(self) -> (parts: (S, M))
        ensures
            parts == (self.spec_stream(), self.spec_tag()),
    {
        (self.stream, self.tag)
    }
}

impl<S: Send + 'static, M: Tag> InstantAction for AttachStream<S, M> {}

} // verus!
