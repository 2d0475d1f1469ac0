//! Verified core of a FastCGI application server.
//!
//! The crate covers the three load-bearing subsystems of such a server: the
//! wire-protocol codec with its per-connection state machine (`fastcgi`,
//! `reader`, `connection`), the worker-pool dispatcher that pairs accepted
//! connections with idle workers (`dispatch`), and the authenticated control
//! plane that drives an ordered shutdown (`control`).  Template and
//! translation lookup tables that the workers share read-only are in `html`
//! and `lang`.  All I/O stays outside: callers hand in bytes and plain
//! values and get bytes and plain values back.

pub mod control;
pub mod fastcgi;
pub mod reader;
pub mod connection;
pub mod dispatch;
pub mod html;
pub mod lang;
pub mod help;
