use vstd::prelude::*;
use crate::message::{DnsMessage, SocketAddress};

verus! {

/// The state of one query as it flows through the pipeline.
pub struct Context {
    pub client_addr: SocketAddress,
    pub request: DnsMessage,
    pub response: Option<DnsMessage>,
    pub abort: bool,
    pub is_remote: bool,
}

impl Context {
    /// A fresh context: no response yet, no abort, not remote.
    pub fn new(client_addr: SocketAddress, request: DnsMessage) -> (r: Context)
        ensures
            r.client_addr == client_addr,
            r.request == request,
            r.response.is_none(),
            !r.abort,
            !r.is_remote,
    {
        Context { client_addr, request, response: None, abort: false, is_remote: false }
    }

    /// A response, when present, carries the request's transaction id.
    pub open spec fn id_consistent(&self) -> bool {
        self.response matches Some(m) ==> m.header.id == self.request.header.id
    }
}

} // verus!
