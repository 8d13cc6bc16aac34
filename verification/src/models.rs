use vstd::prelude::*;

verus! {

/// Optional platform hints attached to a share request. An absent field means
/// "platform default"; absent fields are omitted from the wire payload.
#[derive(Clone, Debug)]
pub struct SharesheetOptions {
    pub mime_type: Option<String>,
    pub title: Option<String>,
}

/// The mathematical value of a `SharesheetOptions`: each hint as an optional
/// character sequence.
pub ghost struct OptionsView {
    pub mime_type: Option<Seq<char>>,
    pub title: Option<Seq<char>>,
}

impl View for SharesheetOptions {
    type V = OptionsView;

    open spec fn view(&self) -> OptionsView {
        OptionsView {
            mime_type: match self.mime_type {
                Some(m) => Some(m@),
                None => None,
            },
            title: match self.title {
                Some(t) => Some(t@),
                None => None,
            },
        }
    }
}

impl Default for SharesheetOptions {
    /// No hints: the platform chooses all defaults.
    fn default() -> (o: Self)
        ensures
            o@.mime_type is None,
            o@.title is None,
    {
        SharesheetOptions { mime_type: None, title: None }
    }
}

/// The body of a "share text" request as handed to the native bridge:
/// the text to share together with the caller's hints.
#[derive(Clone, Debug)]
pub struct SharesheetPayload {
    pub text: String,
    pub options: SharesheetOptions,
}

/// The mathematical value of a `SharesheetPayload`.
pub ghost struct PayloadView {
    pub text: Seq<char>,
    pub options: OptionsView,
}

impl View for SharesheetPayload {
    type V = PayloadView;

    open spec fn view(&self) -> PayloadView {
        PayloadView { text: self.text@, options: self.options@ }
    }
}

/// A share-completion event decoded from the JSON envelope that native code
/// delivers: the shared content's mime type and the content itself.
#[derive(Clone, Debug)]
pub struct ShareEvent {
    pub mime_type: String,
    pub data: String,
}

/// The mathematical value of a `ShareEvent`.
pub ghost struct ShareEventView {
    pub mime_type: Seq<char>,
    pub data: Seq<char>,
}

impl View for ShareEvent {
    type V = ShareEventView;

    open spec fn view(&self) -> ShareEventView {
        ShareEventView { mime_type: self.mime_type@, data: self.data@ }
    }
}

/// A remote call to forward to the native plugin: a method name and the JSON
/// wire payload it carries.
#[derive(Clone, Debug)]
pub struct ShareRequest {
    pub method: String,
    pub payload: String,
}

/// The two shapes a native share event arrives in: structured JSON text, or an
/// opaque binary blob.
#[derive(Clone, Debug)]
pub enum NativeEventBody {
    Json(String),
    Raw(Vec<u8>),
}

} // verus!
