//! Remote desktop over a WebSocket: the verified core of a host that streams its screen
//! and of a viewer that shows it and sends input back.

pub mod calendar;
pub mod capture;
pub mod frame;
pub mod http;
pub mod input;
pub mod jpeg;
pub mod keys;
pub mod scale;
pub mod session;
pub mod stream;
pub mod text;
pub mod viewer;

pub use frame::parse_frame_header;
pub use frame::FRAME_MAGIC;
pub use input::InputMessage;
pub use input::MouseButton;
