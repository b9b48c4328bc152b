//! The data structures underneath a DNS qp-trie
//!
//! A qp-trie for DNS names is built from three things, and this library is
//! those three things, each with its contract proved:
//!
//!   * [`bmpvec`]: a sparse vector of up to 64 elements that stores only the
//!     elements that are present, found by counting the bits of a bitmap.
//!     [`blimpvec`] is its plain counterpart, with a slot for every
//!     position, against which it can be checked.
//!
//!   * [`dnsname`]: DNS names as they are read from the wire or from text,
//!     in three representations ([`WireLabels`], [`ScratchName`] and
//!     [`HeapName`]), with their canonical order.
//!
//!   * [`triebits`]: the key of a name in the trie, a string of bit
//!     positions whose order byte by byte is the canonical order of the
//!     names, and from which the name can be had back.
//!
//! What a value stands for is said by a view or by its `labels`: 64
//! optional elements for a vector, a sequence of labels for a name, a
//! sequence of bytes for a key. The contracts speak of those. Beside the
//! functions stand the laws that relate them, as proof functions: a name
//! written to the wire or as text reads back as itself, the
//! representations agree on what they read, the order of keys is the order
//! of names, and a key gives back its name.
//!
//! [`exercise`] holds functions that run one part of the library against
//! another and report whether they agreed.

pub mod blimpvec;
pub mod bmpvec;
pub mod dnsname;
pub mod error;
pub mod exercise;
pub mod scratchpad;
pub mod triebits;

pub use crate::blimpvec::BlimpVec;
pub use crate::bmpvec::bmp::bitmask;
pub use crate::bmpvec::bmp::Bit;
pub use crate::bmpvec::bmp::Bmp;
pub use crate::bmpvec::bmp::Mask;
pub use crate::bmpvec::slice::BmpSlice;
pub use crate::bmpvec::BmpVec;
pub use crate::dnsname::heap::HeapName;
pub use crate::dnsname::order::cmp_any_labels;
pub use crate::dnsname::order::cmp_any_names;
pub use crate::dnsname::order::eq_any_names;
pub use crate::dnsname::scratch::ScratchName;
pub use crate::dnsname::scratch::TempName;
pub use crate::dnsname::same_bytes;
pub use crate::dnsname::wire::from_message;
pub use crate::dnsname::wire::from_wire;
pub use crate::dnsname::wire::WireLabels;
pub use crate::dnsname::wire::WirePos;
pub use crate::dnsname::DnsLabels;
pub use crate::dnsname::DnsName;
pub use crate::dnsname::FromWire;
pub use crate::dnsname::MAX_LABS;
pub use crate::dnsname::MAX_LLEN;
pub use crate::dnsname::MAX_NAME;
pub use crate::error::Error;
pub use crate::exercise::bmpvec::bmpvec_blimpvec;
pub use crate::exercise::bmpvec::exercise_actions;
pub use crate::exercise::bmpvec::Action;
pub use crate::exercise::dnsname::exercise_text;
pub use crate::exercise::dnsname::exercise_wire;
pub use crate::exercise::triebits::exercise_vecs;
pub use crate::exercise::triebits::Vecs;
pub use crate::scratchpad::ScratchPad;
pub use crate::triebits::table::gen_bits_to_byte;
pub use crate::triebits::table::gen_byte_to_bits;
pub use crate::triebits::table::SHIFT_BITMAP;
pub use crate::triebits::table::SHIFT_BRANCH;
pub use crate::triebits::table::SHIFT_NOBYTE;
pub use crate::triebits::table::SHIFT_OFFSET;
pub use crate::triebits::TrieName;
pub use crate::triebits::MAX_TRIENAME;
