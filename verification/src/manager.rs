//! A manager of pooled websocket connections.
use vstd::prelude::*;

verus! {

/// Makes websocket connections to one URL.
#[derive(Debug, PartialEq, Eq)]
pub struct WebsocketConnectionManager {
    url: String,
}

impl View for WebsocketConnectionManager {
    type V = Seq<char>;

    /// The URL.
    closed spec fn view(&self) -> Seq<char> {
        self.url@
    }
}

impl WebsocketConnectionManager {
    /// A manager of connections to `url`.
    pub fn new(url: String) -> (manager: WebsocketConnectionManager)
        ensures
            manager@ == url@,
    {
        WebsocketConnectionManager { url }
    }

    /// The URL to connect to.
    pub fn url(&self) -> (url: String)
        ensures
            url@ == self@,
    {
        self.url.clone()
    }

    /// Whether a connection can be used. Each one is taken to be usable.
    pub fn is_valid(&self) -> (r: bool)
        ensures
            r,
    {
        true
    }

    /// Whether a connection is known to be broken. None is.
    pub fn has_broken(&self) -> (r: bool)
        ensures
            !r,
    {
        false
    }
}

} // verus!
