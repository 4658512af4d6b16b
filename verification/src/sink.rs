//! The ghost model of the output sink.
//!
//! A decode call is specified by the sequence of calls it makes into the
//! caller's [`crate::Builder`]: one [`SinkEvent`] per call.  A pixel-producing
//! phase is described by a [`PixelOutcome`]: the events it emits and the
//! error, if any, that stopped it.

use vstd::prelude::*;

use crate::errors::DecodeError;

verus! {

/// One call made into the output sink.
pub enum SinkEvent {
    /// A `set_size(width, height)` call.
    SizeSet { width: u32, height: u32 },
    /// A `set_pixel(x, y, r, g, b, a)` call.
    PixelSet { x: u32, y: u32, r: u8, g: u8, b: u8, a: u8 },
    /// The final `build()` call.
    Built,
}

/// What a pixel-producing phase did: the sink calls it made, in order, and
/// the error that aborted it, if one did.
#[verifier::ext_equal]
pub ghost struct PixelOutcome {
    pub events: Seq<SinkEvent>,
    pub err: Option<DecodeError>,
}

/// A phase that emitted nothing and finished cleanly.
pub open spec fn po_done() -> PixelOutcome {
    PixelOutcome { events: Seq::empty(), err: None }
}

/// A phase that emitted nothing and failed with `e`.
pub open spec fn po_fail(e: DecodeError) -> PixelOutcome {
    PixelOutcome { events: Seq::empty(), err: Some(e) }
}

/// `events` emitted first, then everything `rest` did.
pub open spec fn po_emit(events: Seq<SinkEvent>, rest: PixelOutcome) -> PixelOutcome {
    PixelOutcome { events: events + rest.events, err: rest.err }
}

/// Emitting in two steps is emitting the concatenation in one.
pub proof fn lemma_po_emit_assoc(a: Seq<SinkEvent>, b: Seq<SinkEvent>, c: PixelOutcome)
    ensures
        po_emit(a, po_emit(b, c)) == po_emit(a + b, c),
{
    assert(a + (b + c.events) =~= (a + b) + c.events);
    assert(po_emit(a, po_emit(b, c)) =~= po_emit(a + b, c));
}

/// Emitting nothing first changes nothing.
pub proof fn lemma_po_emit_empty(c: PixelOutcome)
    ensures
        po_emit(Seq::empty(), c) == c,
{
    assert(Seq::empty() + c.events =~= c.events);
    assert(po_emit(Seq::empty(), c) =~= c);
}

} // verus!
