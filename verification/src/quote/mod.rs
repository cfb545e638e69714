//! The quote server: its command language, the framing of its messages,
//! its bookkeeping, the decisions of its loops, its secret key and its
//! lock-order discipline.

pub mod command;
pub mod console;
pub mod lock_order;
pub mod message;
pub mod receiver;
pub mod registry;
pub mod secret;
pub mod session;
pub mod stock;
pub mod udp_stream;
