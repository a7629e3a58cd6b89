//! The shape of instance data as a document.
//!
//! The top level is a table with the fields `version`, `mods` and
//! `profiles`, written in this order. The mod list is an array and the
//! profiles are a table from names to profiles, written by ascending name. A
//! profile is a table with the fields `display_name` and `mod_order`.
//!
//! The two kinds of item that an instance has most of are written short: an
//! enabled entry of a mod order is the bare index, any other entry is the
//! table `{ "i": index, "e": enabled }`; a declaration of a mod is the bare
//! name, any other declaration is the table `{ "name": name, "type": kind }`.

pub mod bytes;
pub mod decode;
pub mod encode;
pub mod laws;

pub use self::decode::{decoded_instance, loaded, loaded_from};
pub use self::encode::instance_document;
pub use self::laws::lemma_round_trip;
