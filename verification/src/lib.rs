//! A bridge plugin exposing a mobile operating system's native "share" surface
//! to a cross-platform application shell: it forwards a "share text" request to
//! platform-native code and relays asynchronous share-completion events back to
//! the application's event bus.
//!
//! The verified core is the protocol between the cross-platform layer and
//! native platform code: the JSON payload a share request carries, the JSON
//! envelope a native share event arrives in, the relay's decode-and-republish
//! decision, the once-only registration of the event handler, and the single
//! error kind a failed bridge invocation surfaces. The host framework's own
//! plugin lifetime machinery and the platform calls themselves live with the
//! embedding application.

use vstd::prelude::*;
use vstd::string::StringExecFns;

pub mod error;
pub mod json;
pub mod models;
pub mod relay;

pub use error::Error;
pub use json::{decode_share_event, encode_share_event, encode_share_payload};
pub use models::{
    NativeEventBody, OptionsView, PayloadView, ShareEvent, ShareEventView, ShareRequest,
    SharesheetOptions, SharesheetPayload,
};
pub use relay::{relay_share_event, RelayPublication};

use crate::json::payload_json;

verus! {

/// Access to the sharesheet APIs: the cross-platform facade in front of the
/// native plugin. It owns the one piece of state this layer keeps: whether
/// the share-event handler has been registered with native code.
pub struct Sharesheet {
    registered: bool,
}

/// The registration transition `Sharesheet::setup` implements: the state
/// afterwards, and whether the native registration call is to be made.
pub closed spec fn setup_transition(s: Sharesheet) -> (Sharesheet, bool) {
    (Sharesheet { registered: true }, !s.registered)
}

impl Sharesheet {
    /// Whether the share-event handler has been registered.
    pub closed spec fn is_registered(&self) -> bool {
        self.registered
    }

    /// Registers the share-event handler at most once: the first call hands
    /// the host the method name of the native registration call to make with
    /// its callback reference; every later call is a no-op and hands back
    /// nothing.
    pub fn setup(&mut self) -> (register: Option<String>)
        ensures
            *final(self) == setup_transition(*old(self)).0,
            (register is Some) == setup_transition(*old(self)).1,
            final(self).is_registered(),
            (register is Some) == !old(self).is_registered(),
            (match register {
                Some(m) => m@ == "setShareEventHandler"@,
                None => true,
            }),
    {
        if self.registered {
            None
        } else {
            self.registered = true;
            Some(String::from_str("setShareEventHandler"))
        }
    }

    /// The remote call that forwards one "share text" request to native code:
    /// the fixed method name, and the request's wire payload carrying exactly
    /// `{text, options}`.
    pub fn share_text(&self, text: String, options: SharesheetOptions) -> (r: ShareRequest)
        ensures
            r.method@ == "share_text"@,
            r.payload@ == payload_json(PayloadView { text: text@, options: options@ }),
    {
        let p = SharesheetPayload { text, options };
        ShareRequest {
            method: String::from_str("share_text"),
            payload: encode_share_payload(&p),
        }
    }

    /// Maps the native bridge's answer to a share request: success passes
    /// through; a failure surfaces as the single defined error kind, with the
    /// bridge's diagnostic detail preserved.
    pub fn complete_share(&self, outcome: Result<(), String>) -> (r: Result<(), Error>)
        ensures
            (match (outcome, r) {
                (Ok(()), Ok(())) => true,
                (Err(d), Err(e)) => e is PluginInvoke && e.detail_spec() == d@,
                _ => false,
            }),
    {
        match outcome {
            Ok(()) => Ok(()),
            Err(d) => Err(Error::from_bridge_failure(d)),
        }
    }
}

/// Law: the event handler is registered exactly once per application
/// lifetime. From a fresh facade, the first `setup` performs the native
/// registration; running setup again does not register a second handler,
/// and the facade stays registered.
pub proof fn lemma_setup_registers_once(s0: Sharesheet)
    requires
        !s0.is_registered(),
    ensures
        ({
            let (s1, r1) = setup_transition(s0);
            let (s2, r2) = setup_transition(s1);
            r1 && s1.is_registered() && !r2 && s2.is_registered()
        }),
{
}

/// Initializes the plugin: the facade in its initial state, before the host
/// runs setup. No handler is registered yet.
pub fn init() -> (s: Sharesheet)
    ensures
        !s.is_registered(),
{
    Sharesheet { registered: false }
}

/// Extension for host-side handle types that own a `Sharesheet`: access to
/// the sharesheet APIs. The embedding application implements this for the
/// types that hold the facade in their managed state.
pub trait SharesheetExt {
    fn share_text(&self) -> &Sharesheet;
}

} // verus!
