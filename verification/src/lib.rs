//! A room-based chat hub: named rooms with membership accounting and bounded
//! history, the per-connection session that multiplexes them, and the
//! client-side state that consumes the resulting event stream.

pub mod channel;
pub mod chat_room;
pub mod chat_session;
pub mod event;
pub mod identity;
pub mod message_queue;
pub mod room_manager;
pub mod state;
pub mod state_store;
pub mod text;
pub mod user_registry;
pub mod user_set;
pub mod user_session_handle;
