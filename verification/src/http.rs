//! Request parsing and status lines.

pub mod http_status;
pub mod util;
