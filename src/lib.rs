//! Client/backend protocol for text-to-speech over a capability-addressed
//! message channel: message shapes and their wire format, the client's
//! request construction, the backend's chunk routing state machine, and the
//! process-wide handle count.

pub mod api;
pub mod lifecycle;
pub mod codec;
pub mod dispatch;
pub mod router;
