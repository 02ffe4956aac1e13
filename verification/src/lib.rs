//! Quiz game logic: team buzzers, question categories, chat rooms and the
//! registry of live websocket rooms that relays messages between clients.

pub mod buzzer;
pub mod channel;
pub mod question;
pub mod replies;
pub mod room_hub;
pub mod rooms;
pub mod session;
