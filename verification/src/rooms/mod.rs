pub mod room;
pub mod room_registry;
