//! The drawing logic of a terminal messenger.

pub mod bounds;
pub mod channels;
pub mod channels_laws;
pub mod chat;
pub mod chat_laws;
pub mod clock;
pub mod columns;
pub mod data;
pub mod draw;
pub mod draw_laws;
pub mod input;
pub mod input_laws;
pub mod layout;
pub mod message;
pub mod message_laws;
pub mod names;
pub mod receipts;
pub mod receipts_laws;
pub mod text;
pub mod text_laws;
pub mod viewport;
pub mod viewport_laws;
pub mod widgets;
