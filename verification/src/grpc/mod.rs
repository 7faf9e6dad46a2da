//! gRPC wire protocol: message framing, status codes and trailers, request
//! headers, stream bookkeeping, message compression and the gRPC-Web bridge.

pub mod compression;
pub mod framing;
pub mod headers;
pub mod status;
pub mod stream;
pub mod web;

pub use compression::GrpcCompression;
pub use framing::{GrpcError, GrpcFrame, GrpcFrameDecoder};
pub use headers::{is_grpc_content_type, is_grpc_request, parse_grpc_timeout, GrpcHeaders};
pub use status::{GrpcStatus, GrpcStatusCode};
pub use stream::{GrpcStreamState, GrpcStreamType};
