//! The event relay: on each share event delivered by native code, decode the
//! JSON envelope and republish it on the application event bus under the fixed
//! `/share` topic. Exactly one publication is made per native invocation; a
//! payload that does not decode yields an empty element, never an error, and
//! the callback always reports success back to the native layer.

use vstd::prelude::*;
use vstd::string::StringExecFns;

use crate::json::{decode_share_event, parse_event_envelope};
use crate::models::{NativeEventBody, ShareEvent, ShareEventView};

verus! {

/// The event one native payload stands for: the decoded envelope for valid
/// JSON envelope text, nothing for any other text and for a binary blob.
pub open spec fn relayed_event_of(body: NativeEventBody) -> Option<ShareEventView> {
    match body {
        NativeEventBody::Json(s) => parse_event_envelope(s@),
        NativeEventBody::Raw(_) => None,
    }
}

/// One publication on the application event bus.
pub struct RelayPublication {
    /// The fixed topic every share event is published under.
    pub topic: String,
    /// The published payload: always exactly one element; the element is
    /// empty when the native payload did not decode to a share event.
    pub events: Vec<Option<ShareEvent>>,
    /// What the callback reports back to the native layer. Decode failure is
    /// swallowed, so this is always success.
    pub ack: bool,
}

/// Relays one native share event: decodes the envelope and builds the single
/// publication for the `/share` topic.
pub fn relay_share_event(body: &NativeEventBody) -> (p: RelayPublication)
    ensures
        p.topic@ == "/share"@,
        p.events@.len() == 1,
        (match (relayed_event_of(*body), p.events@[0]) {
            (Some(ev), Some(e)) => e@ == ev,
            (None, None) => true,
            _ => false,
        }),
        p.ack,
{
    let event: Option<ShareEvent> = match body {
        NativeEventBody::Json(payload) => decode_share_event(payload.as_str()),
        NativeEventBody::Raw(_) => None,
    };
    let mut events: Vec<Option<ShareEvent>> = Vec::new();
    events.push(event);
    RelayPublication { topic: String::from_str("/share"), events, ack: true }
}

} // verus!
