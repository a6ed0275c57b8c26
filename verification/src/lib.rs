//! Transfer of files to and from HP 48 series calculators, and inspection of
//! the calculator's binary objects.
//!
//! - `nibbles`, `crc` and `hp_object` find the length of a binary object and
//!   compute the checksum that the calculator shows for it.
//! - `kermit` and `xmodem` build and take apart the packets of the two
//!   transfer protocols.
//! - `kermit_session` and `xmodem_session` decide what a transfer writes and
//!   reads next; `transport` holds the actions and events through which
//!   they talk to whoever owns the serial line.
//! - `helpers` and `text` hold what the others share.

pub mod crc;
pub mod error;
pub mod helpers;
pub mod hp_object;
pub mod kermit;
pub mod kermit_session;
pub mod nibbles;
pub mod text;
pub mod transport;
pub mod xmodem;
pub mod xmodem_session;
