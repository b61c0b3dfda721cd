pub mod matcher;
pub mod handlers;
pub mod grpc;
