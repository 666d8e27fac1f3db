//! A small HTTP/1.1 server library: the message model (methods, statuses,
//! headers), a request parser over raw bytes, a response serializer, and the
//! scheduling rules of a fixed-size worker pool.
pub mod bytes;
pub mod text;
pub mod status;
pub mod header;
pub mod method;
pub mod request;
pub mod response;
pub mod dispatch;
pub mod pool;

pub use dispatch::{handle_connection, handle_request, Pages, ResponseResult};
pub use header::{Header, Headers};
pub use method::Method;
pub use pool::{Next, PoolClosed, PoolState};
pub use request::{parse_request, Request};
pub use response::Response;
pub use status::Status;
