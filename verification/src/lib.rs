//! Accountless, end-to-end encrypted rooms: everything that is decided without
//! waiting.
//!
//! The modules fall into four groups.
//!
//! - Rooms: [`protocol`] has the messages, [`relay`] the rooms and who receives
//!   what, [`client`] and [`session`] one member of a room, [`transfer`] the
//!   files on their way, [`crypto`] the keys, and [`room`] what all of it comes
//!   to.
//! - Reaching a room: [`invite`] has relay addresses and invitations,
//!   [`connect`] and [`launch`] what follows from a command line, and [`tor`],
//!   [`tor_setup`] and [`tunnel`] the programs that carry the traffic.
//! - The terminal: [`tui`] has the screen, [`audio`] the samples of calls, and
//!   [`update`] the scripts that replace the program.
//! - Tools: [`names`], [`paths`], [`file_url`], [`table`] and [`text`].

pub mod audio;
pub mod client;
pub mod connect;
pub mod crypto;
pub mod file_url;
pub mod invite;
pub mod launch;
pub mod names;
pub mod paths;
pub mod protocol;
pub mod relay;
pub mod room;
pub mod session;
pub mod table;
pub mod text;
pub mod tor;
pub mod tor_setup;
pub mod transfer;
pub mod tui;
pub mod tunnel;
pub mod update;
