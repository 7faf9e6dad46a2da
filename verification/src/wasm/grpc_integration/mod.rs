//! Delivery of the answer to a gRPC call to the module that made it.
//!
//! The answer reaches the module as callbacks, in a fixed order: initial
//! metadata, message, trailing metadata, close. Which callbacks are due is
//! decided here; the embedder makes them.

pub mod status;

use vstd::prelude::*;
use crate::wasm::types::pairs_view;

verus! {

/// The answer to a gRPC call.
#[derive(Debug, Clone)]
pub struct GrpcCallResponse {
    /// Name of the module that made the call.
    pub module_name: String,
    /// Id that `proxy_grpc_call` returned.
    pub call_id: u32,
    /// gRPC status code (0 is OK).
    pub status_code: i32,
    /// Initial metadata from the server.
    pub initial_metadata: Vec<(String, String)>,
    /// Message bytes.
    pub message: Vec<u8>,
    /// Trailing metadata from the server.
    pub trailing_metadata: Vec<(String, String)>,
}

/// One callback to a module about a gRPC call.
#[derive(Debug, Clone)]
pub enum GrpcCallback {
    /// `on_grpc_receive_initial_metadata`.
    InitialMetadata {
        /// Name of the module.
        module_name: String,
        /// Id of the call.
        call_id: u32,
        /// The metadata.
        headers: Vec<(String, String)>,
    },
    /// `on_grpc_receive`.
    Message {
        /// Name of the module.
        module_name: String,
        /// Id of the call.
        call_id: u32,
        /// The message.
        message: Vec<u8>,
    },
    /// `on_grpc_receive_trailing_metadata`.
    TrailingMetadata {
        /// Name of the module.
        module_name: String,
        /// Id of the call.
        call_id: u32,
        /// The metadata.
        trailers: Vec<(String, String)>,
    },
    /// `on_grpc_close`.
    Close {
        /// Name of the module.
        module_name: String,
        /// Id of the call.
        call_id: u32,
        /// gRPC status code.
        status_code: i32,
    },
}

/// Mathematical value of a callback.
pub enum CallbackModel {
    InitialMetadata { module_name: Seq<char>, call_id: u32, headers: Seq<(Seq<char>, Seq<char>)> },
    Message { module_name: Seq<char>, call_id: u32, message: Seq<u8> },
    TrailingMetadata { module_name: Seq<char>, call_id: u32, trailers: Seq<(Seq<char>, Seq<char>)> },
    Close { module_name: Seq<char>, call_id: u32, status_code: i32 },
}

impl View for GrpcCallback {
    type V = CallbackModel;

    open spec fn view(&self) -> CallbackModel {
        match self {
            GrpcCallback::InitialMetadata { module_name, call_id, headers } => CallbackModel::InitialMetadata {
                module_name: module_name@,
                call_id: *call_id,
                headers: pairs_view(headers@),
            },
            GrpcCallback::Message { module_name, call_id, message } => CallbackModel::Message {
                module_name: module_name@,
                call_id: *call_id,
                message: message@,
            },
            GrpcCallback::TrailingMetadata { module_name, call_id, trailers } => CallbackModel::TrailingMetadata {
                module_name: module_name@,
                call_id: *call_id,
                trailers: pairs_view(trailers@),
            },
            GrpcCallback::Close { module_name, call_id, status_code } => CallbackModel::Close {
                module_name: module_name@,
                call_id: *call_id,
                status_code: *status_code,
            },
        }
    }
}

/// The values of a list of callbacks.
pub open spec fn callbacks_view(list: Seq<GrpcCallback>) -> Seq<CallbackModel> {
    Seq::new(list.len(), |i: int| list[i]@)
}

/// The callbacks that deliver an answer: the initial metadata, the message
/// and the trailing metadata, each only where it is not empty, and then
/// the close, always.
pub open spec fn spec_callbacks(
    module_name: Seq<char>,
    call_id: u32,
    status_code: i32,
    initial_metadata: Seq<(Seq<char>, Seq<char>)>,
    message: Seq<u8>,
    trailing_metadata: Seq<(Seq<char>, Seq<char>)>,
) -> Seq<CallbackModel> {
    (if initial_metadata.len() > 0 {
        seq![CallbackModel::InitialMetadata { module_name, call_id, headers: initial_metadata }]
    } else {
        Seq::empty()
    }) + (if message.len() > 0 {
        seq![CallbackModel::Message { module_name, call_id, message }]
    } else {
        Seq::empty()
    }) + (if trailing_metadata.len() > 0 {
        seq![CallbackModel::TrailingMetadata { module_name, call_id, trailers: trailing_metadata }]
    } else {
        Seq::empty()
    }) + seq![CallbackModel::Close { module_name, call_id, status_code }]
}

fn copy_pairs(list: &[(String, String)]) -> (r: Vec<(String, String)>)
    ensures
        pairs_view(r@) == pairs_view(list@),
{
    let mut out: Vec<(String, String)> = Vec::new();
    let mut i: usize = 0;
    while i < list.len()
        invariant
            i <= list.len(),
            pairs_view(out@) == pairs_view(list@).subrange(0, i as int),
        decreases list.len() - i,
    {
        let ghost before = pairs_view(out@);
        let key = list[i].0.clone();
        let value = list[i].1.clone();
        assert(key@ == list@[i as int].0@ && value@ == list@[i as int].1@);
        out.push((key, value));
        assert(pairs_view(out@) =~= before.push((list@[i as int].0@, list@[i as int].1@)));
        assert(pairs_view(out@) =~= pairs_view(list@).subrange(0, i + 1));
        i += 1;
    }
    assert(pairs_view(list@).subrange(0, list.len() as int) =~= pairs_view(list@));
    out
}

/// The callback that tells a module of the initial metadata of a call.
pub fn on_grpc_initial_metadata(module_name: &str, call_id: u32, headers: &[(String, String)]) -> (r:
    GrpcCallback)
    ensures
        r@ == (CallbackModel::InitialMetadata {
            module_name: module_name@,
            call_id,
            headers: pairs_view(headers@),
        }),
{
    GrpcCallback::InitialMetadata { module_name: module_name.to_owned(), call_id, headers: copy_pairs(headers) }
}

/// The callback that tells a module of a message of a call.
pub fn on_grpc_message(module_name: &str, call_id: u32, message: &[u8]) -> (r: GrpcCallback)
    ensures
        r@ == (CallbackModel::Message { module_name: module_name@, call_id, message: message@ }),
{
    GrpcCallback::Message {
        module_name: module_name.to_owned(),
        call_id,
        message: vstd::slice::slice_to_vec(message),
    }
}

/// The callback that tells a module of the trailing metadata of a call.
pub fn on_grpc_trailing_metadata(module_name: &str, call_id: u32, trailers: &[(String, String)]) -> (r:
    GrpcCallback)
    ensures
        r@ == (CallbackModel::TrailingMetadata {
            module_name: module_name@,
            call_id,
            trailers: pairs_view(trailers@),
        }),
{
    GrpcCallback::TrailingMetadata {
        module_name: module_name.to_owned(),
        call_id,
        trailers: copy_pairs(trailers),
    }
}

/// The callback that tells a module that a call has ended.
pub fn on_grpc_close(module_name: &str, call_id: u32, status_code: i32) -> (r: GrpcCallback)
    ensures
        r@ == (CallbackModel::Close { module_name: module_name@, call_id, status_code }),
{
    GrpcCallback::Close { module_name: module_name.to_owned(), call_id, status_code }
}

/// The callbacks that deliver a whole answer, in the order in which they
/// are to be made.
pub fn process_grpc_response(response: GrpcCallResponse) -> (r: Vec<GrpcCallback>)
    ensures
        callbacks_view(r@) == spec_callbacks(
            response.module_name@,
            response.call_id,
            response.status_code,
            pairs_view(response.initial_metadata@),
            response.message@,
            pairs_view(response.trailing_metadata@),
        ),
{
    let mut callbacks: Vec<GrpcCallback> = Vec::new();
    let name = response.module_name.as_str();
    if response.initial_metadata.len() > 0 {
        callbacks.push(
            on_grpc_initial_metadata(name, response.call_id, response.initial_metadata.as_slice()),
        );
    }
    if response.message.len() > 0 {
        callbacks.push(on_grpc_message(name, response.call_id, response.message.as_slice()));
    }
    if response.trailing_metadata.len() > 0 {
        callbacks.push(
            on_grpc_trailing_metadata(name, response.call_id, response.trailing_metadata.as_slice()),
        );
    }
    callbacks.push(on_grpc_close(name, response.call_id, response.status_code));
    assert(callbacks_view(callbacks@) =~= spec_callbacks(
        response.module_name@,
        response.call_id,
        response.status_code,
        pairs_view(response.initial_metadata@),
        response.message@,
        pairs_view(response.trailing_metadata@),
    ));
    callbacks
}

} // verus!
