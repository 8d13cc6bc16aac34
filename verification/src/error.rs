use vstd::prelude::*;

verus! {

/// The single error kind this plugin surfaces to callers: an invocation of the
/// native bridge failed. The diagnostic detail reported by the bridge is kept
/// verbatim.
#[derive(Clone, Debug)]
pub enum Error {
    PluginInvoke(String),
}

impl Error {
    /// The diagnostic detail carried by this error.
    pub open spec fn detail_spec(&self) -> Seq<char> {
        match self {
            Error::PluginInvoke(d) => d@,
        }
    }

    /// Wraps a failure report from the native bridge, preserving its detail.
    pub fn from_bridge_failure(detail: String) -> (e: Error)
        ensures
            e is PluginInvoke,
            e.detail_spec() == detail@,
    {
        Error::PluginInvoke(detail)
    }

    /// Read access to the diagnostic detail.
    pub fn detail(&self) -> (d: &str)
        ensures
            d@ == self.detail_spec(),
    {
        match self {
            Error::PluginInvoke(d) => d.as_str(),
        }
    }
}

} // verus!
