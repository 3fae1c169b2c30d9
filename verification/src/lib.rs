//! The rules of a peer-to-peer chat and voice application, apart from its windows and sockets.
pub mod text;
pub mod digits;
pub mod node;
pub mod table;
pub mod clock;
pub mod message;
pub mod records;
pub mod conversation;
pub mod invite;
pub mod timeline;
pub mod delivery;
pub mod service;
pub mod sessions;
pub mod framing;
pub mod client_status;
pub mod notifications;
pub mod hotkeys;
pub mod dev_pair;
pub mod launch;
pub mod host;
pub mod persistence;
pub mod autostart;
pub mod keys;
pub mod sort;
pub mod contacts;
pub mod roster;
pub mod calls;
pub mod streams;
pub mod group_calls;
pub mod call_view;
pub mod chat_board;
pub mod chat_view;
pub mod attachments;
pub mod settings;
pub mod window;
pub mod session;
pub mod inputs;
pub mod panels;
