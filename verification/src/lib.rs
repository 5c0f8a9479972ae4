//! Body addressing and the integer skeleton of a planetary system's history and derivation.
//!
//! - [`index`]: the 16-bit body index, `slot << 8 | sub`, with its exact layout table.
//! - [`error`] and [`text`]: what goes wrong building, decoding and resolving a body index, and
//!   what the addressing types say of themselves.
//! - [`id`]: the system and body identifiers an index is read from and written into.
//! - [`time`]: the universe clock, in seconds and nanoseconds since the epoch.
//! - [`fate`]: a body's state sequence, and the time decisions of its history.
//! - [`bisect`]: the search for a body's engulfment, a scan then a halving on the clock.
//! - [`scatter`]: the resolution of unsettled neighbours after a supernova, pass by pass.
//! - [`quantity`]: a measured value carried unread, with the class its checks read.
//! - [`derive`], [`composition`], [`radius`], [`limits`], [`irradiation`], [`habitable_zone`],
//!   [`disc`], [`evolved`], [`young`], [`halo`]: the derivation's inputs, checks and kinds.

pub mod bisect;
pub mod composition;
pub mod derive;
pub mod disc;
pub mod error;
pub mod evolved;
pub mod fate;
pub mod habitable_zone;
pub mod halo;
pub mod id;
pub mod index;
pub mod irradiation;
pub mod limits;
pub mod quantity;
pub mod radius;
pub mod scatter;
pub mod text;
pub mod time;
pub mod young;
