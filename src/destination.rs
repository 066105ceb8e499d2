use vstd::prelude::*;
use crate::name::Name;

verus! {

/// A client request as it reaches the elders responsible for the data.
#[derive(Clone, Copy, Debug, PartialEq, Eq, Structural)]
pub enum Request {
    /// Store an immutable chunk with this name.
    PutIData(Name),
    /// Fetch the immutable chunk with this name.
    GetIData(Name),
    /// Delete the unpublished immutable chunk with this name.
    DeleteUnpubIData(Name),
    /// Any request on mutable data.
    MData,
    /// Any request on append-only data.
    AData,
    /// A coin transfer, which the data elders do not handle.
    TransferCoins,
    /// A request for balances, login packets or keys, which only the client's own elders
    /// handle.
    ClientOnly,
}

/// A response reaching the elders responsible for the data.
#[derive(Clone, Copy, Debug, PartialEq, Eq, Structural)]
pub enum Response {
    /// The outcome of a mutation.
    Mutation,
    /// An immutable chunk that was asked for.
    GetIData,
    /// Anything else, which the data elders never ask for.
    Other,
}

/// A message between vaults.
#[derive(Clone, Copy, Debug, PartialEq, Eq, Structural)]
pub enum Rpc {
    Request { request: Request, requester: Name, message_id: u64 },
    Response { response: Response, message_id: u64 },
}

/// The part of the elder that takes a message on.
#[derive(Clone, Copy, Debug, PartialEq, Eq, Structural)]
pub enum Route {
    /// This node stores (or serves) the chunk itself.
    IDataHolder,
    /// This node manages the chunk for the section.
    IDataHandler,
    MDataHandler,
    ADataHandler,
}

/// Where a message goes, on behalf of which client.
#[derive(Clone, Copy, Debug, PartialEq, Eq, Structural)]
pub struct Dispatch {
    pub route: Route,
    pub client: Name,
    pub message_id: u64,
}

/// A chunk operation in progress: the client it is for.
#[derive(Clone, Copy, Debug, PartialEq, Eq, Structural)]
pub struct IDataOp {
    pub message_id: u64,
    pub client: Name,
}

/// The client of the first recorded operation with this message id.
pub open spec fn client_of(ops: Seq<IDataOp>, mid: u64, i: int) -> Option<Name>
    decreases ops.len() - i,
{
    if i < 0 || i >= ops.len() {
        None
    } else if ops[i].message_id == mid {
        Some(ops[i].client)
    } else {
        client_of(ops, mid, i + 1)
    }
}

/// The elder of the section responsible for some data, seen as a dispatcher of messages.
pub struct DestinationElder {
    pub id: Name,
    pub ops: Vec<IDataOp>,
}

/// Where a request goes. A chunk request whose source is the chunk's own name comes from the
/// data elders to this node as a holder (and for a Get or a Delete, only for an operation
/// whose client is known); any other chunk request is managed for the section. Requests on
/// mutable and append-only data go to their handlers; the rest is not for the data elders.
pub open spec fn request_dispatch(ops: Seq<IDataOp>, src: Name, requester: Name, request: Request, mid: u64) -> Option<Dispatch> {
    match request {
        Request::PutIData(n) => if src == n {
            Some(Dispatch { route: Route::IDataHolder, client: requester, message_id: mid })
        } else {
            Some(Dispatch { route: Route::IDataHandler, client: requester, message_id: mid })
        },
        Request::GetIData(n) | Request::DeleteUnpubIData(n) => if src == n {
            match client_of(ops, mid, 0) {
                Some(c) => Some(Dispatch { route: Route::IDataHolder, client: c, message_id: mid }),
                None => None,
            }
        } else {
            Some(Dispatch { route: Route::IDataHandler, client: requester, message_id: mid })
        },
        Request::MData => Some(Dispatch { route: Route::MDataHandler, client: requester, message_id: mid }),
        Request::AData => Some(Dispatch { route: Route::ADataHandler, client: requester, message_id: mid }),
        Request::TransferCoins | Request::ClientOnly => None,
    }
}

impl DestinationElder {
    pub fn new(id: Name) -> (r: DestinationElder)
        ensures
            r.id == id,
            r.ops@.len() == 0,
    {
        DestinationElder { id, ops: Vec::new() }
    }

    /// Records that the chunk operation `message_id` is for `client`.
    pub fn record_op(&mut self, message_id: u64, client: Name)
        ensures
            final(self).ops@ == old(self).ops@.push(IDataOp { message_id, client }),
            final(self).id == old(self).id,
    {
        self.ops.push(IDataOp { message_id, client });
    }

    /// The client of the chunk operation `message_id`, if it is known.
    pub fn client_id(&self, message_id: u64) -> (r: Option<Name>)
        ensures
            r == client_of(self.ops@, message_id, 0),
    {
        let mut i: usize = 0;
        while i < self.ops.len()
            invariant
                i <= self.ops@.len(),
                client_of(self.ops@, message_id, 0) == client_of(self.ops@, message_id, i as int),
            decreases self.ops@.len() - i,
        {
            if self.ops[i].message_id == message_id {
                return Some(self.ops[i].client);
            }
            i = i + 1;
        }
        None
    }

    pub fn handle_vault_message(&self, src: Name, message: Rpc) -> (r: Option<Dispatch>)
        ensures
            r == match message {
                Rpc::Request { request, requester, message_id } => request_dispatch(self.ops@, src, requester, request, message_id),
                Rpc::Response { response, message_id } => response_dispatch(src, response, message_id),
            },
    {
        match message {
            Rpc::Request { request, requester, message_id } => self.handle_request(src, requester, request, message_id),
            Rpc::Response { response, message_id } => self.handle_response(src, response, message_id),
        }
    }

    fn handle_request(&self, src: Name, requester: Name, request: Request, message_id: u64) -> (r: Option<Dispatch>)
        ensures
            r == request_dispatch(self.ops@, src, requester, request, message_id),
    {
        match request {
            Request::PutIData(n) => self.handle_put_idata_req(src, requester, n, message_id),
            Request::GetIData(n) => self.handle_get_idata_req(src, requester, n, message_id),
            Request::DeleteUnpubIData(n) => self.handle_delete_unpub_idata_req(src, requester, n, message_id),
            Request::MData => Some(Dispatch { route: Route::MDataHandler, client: requester, message_id }),
            Request::AData => Some(Dispatch { route: Route::ADataHandler, client: requester, message_id }),
            Request::TransferCoins | Request::ClientOnly => None,
        }
    }

    fn handle_response(&self, src: Name, response: Response, message_id: u64) -> (r: Option<Dispatch>)
        ensures
            r == response_dispatch(src, response, message_id),
    {
        match response {
            Response::Mutation | Response::GetIData => Some(Dispatch { route: Route::IDataHandler, client: src, message_id }),
            Response::Other => None,
        }
    }

    fn handle_put_idata_req(&self, src: Name, requester: Name, name: Name, message_id: u64) -> (r: Option<Dispatch>)
        ensures
            r == request_dispatch(self.ops@, src, requester, Request::PutIData(name), message_id),
    {
        if src == name {
            Some(Dispatch { route: Route::IDataHolder, client: requester, message_id })
        } else {
            Some(Dispatch { route: Route::IDataHandler, client: requester, message_id })
        }
    }

    fn handle_get_idata_req(&self, src: Name, requester: Name, name: Name, message_id: u64) -> (r: Option<Dispatch>)
        ensures
            r == request_dispatch(self.ops@, src, requester, Request::GetIData(name), message_id),
    {
        if src == name {
            let client = self.client_id(message_id)?;
            Some(Dispatch { route: Route::IDataHolder, client, message_id })
        } else {
            Some(Dispatch { route: Route::IDataHandler, client: requester, message_id })
        }
    }

    fn handle_delete_unpub_idata_req(&self, src: Name, requester: Name, name: Name, message_id: u64) -> (r: Option<Dispatch>)
        ensures
            r == request_dispatch(self.ops@, src, requester, Request::DeleteUnpubIData(name), message_id),
    {
        if src == name {
            match self.client_id(message_id) {
                Some(client) => Some(Dispatch { route: Route::IDataHolder, client, message_id }),
                None => None,
            }
        } else {
            Some(Dispatch { route: Route::IDataHandler, client: requester, message_id })
        }
    }
}

/// Mutation outcomes and fetched chunks go to the chunk handler; nothing else is expected.
pub open spec fn response_dispatch(src: Name, response: Response, mid: u64) -> Option<Dispatch> {
    match response {
        Response::Mutation | Response::GetIData => Some(Dispatch { route: Route::IDataHandler, client: src, message_id: mid }),
        Response::Other => None,
    }
}

} // verus!
