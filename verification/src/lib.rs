//! A self-registering polymorphic type registry with dual-format
//! serialization, for a small game engine.
//!
//! The engine supports an open-ended set of concrete record types for two
//! independent hierarchies (loadable assets and entity components) while
//! keeping a single generic storage/cache/serialization pipeline that never
//! special-cases a concrete type by name in its core logic:
//!
//! - each concrete type registers a [`catalog::Descriptor`] (its identity,
//!   display name, and dispatch tag) into a [`catalog::Catalog`];
//! - values are held type-erased as records ([`assets::AssetRecord`],
//!   [`ecs::CompRecord`]) and narrowed back to their concrete type by a
//!   checked operation;
//! - the dual-format codec ([`codec`]) encodes one such value to a compact
//!   binary stream or a human-readable structured-text stream, selected by a
//!   single leading discriminator byte;
//! - the cache ([`cache::AssetCache`]) maps logical names to loaded values
//!   with at-most-once load semantics;
//! - the dynamic attribute table ([`ecs`]) exposes per-entity
//!   presence/add/remove/copy-out/restore operations for the component
//!   hierarchy.

use vstd::prelude::*;

pub mod math;
pub mod decimal;
pub mod wire;
pub mod text;
pub mod assets;
pub mod catalog;
pub mod codec;
pub mod cache;
pub mod logger;
pub mod ecs;
pub mod scene;

verus! {

/// A standard error type used by various engine systems: a human-readable
/// message describing what went wrong.
///
/// Its view is the message's character sequence.
#[derive(Debug)]
pub struct Error {
    message: String,
}

impl View for Error {
    type V = Seq<char>;

    closed spec fn view(&self) -> Seq<char> {
        self.message@
    }
}

impl Error {
    /// Wraps a human-readable message.
    pub fn new(msg: &str) -> (r: Self)
        ensures
            r@ == msg@,
    {
        Self { message: String::from_str(msg) }
    }

    /// The human-readable message.
    pub fn message(&self) -> (r: &String)
        ensures
            r@ == self@,
    {
        &self.message
    }
}

impl Clone for Error {
    fn clone(&self) -> (r: Self)
        ensures
            r@ == self@,
    {
        Self { message: self.message.clone() }
    }
}

/// The human-readable form of a byte count: the count reduced by factors of
/// 1024 until it fits under 1024, with the matching unit; a count too large
/// for the largest unit falls back to the raw count in bytes.
pub open spec fn spec_mem_size_chars(size: nat) -> Seq<char> {
    let kib = 1024;
    let mib = 1024 * 1024;
    let gib = 1024 * 1024 * 1024;
    let tib = 1024 * 1024 * 1024 * 1024;
    if size < kib {
        decimal::dec_chars(size) + " B"@
    } else if size / kib < kib {
        decimal::dec_chars(size / kib) + " KiB"@
    } else if size / mib < kib {
        decimal::dec_chars(size / mib) + " MiB"@
    } else if size / gib < kib {
        decimal::dec_chars(size / gib) + " GiB"@
    } else if size / tib < kib {
        decimal::dec_chars(size / tib) + " TiB"@
    } else {
        decimal::dec_chars(size) + " B"@
    }
}

/// Renders a byte count human-readably, exactly as [`spec_mem_size_chars`].
pub fn to_mem_size_str(size: usize) -> (r: String)
    ensures
        r@ == spec_mem_size_chars(size as nat),
{
    let size64 = size as u64;
    let mut out = String::new();
    if size64 < 1024 {
        decimal::append_dec_chars(size64, &mut out);
        out.append(" B");
    } else if size64 / 1024 < 1024 {
        decimal::append_dec_chars(size64 / 1024, &mut out);
        out.append(" KiB");
    } else if size64 / (1024 * 1024) < 1024 {
        decimal::append_dec_chars(size64 / (1024 * 1024), &mut out);
        out.append(" MiB");
    } else if size64 / (1024 * 1024 * 1024) < 1024 {
        decimal::append_dec_chars(size64 / (1024 * 1024 * 1024), &mut out);
        out.append(" GiB");
    } else if size64 / (1024 * 1024 * 1024 * 1024) < 1024 {
        decimal::append_dec_chars(size64 / (1024 * 1024 * 1024 * 1024), &mut out);
        out.append(" TiB");
    } else {
        decimal::append_dec_chars(size64, &mut out);
        out.append(" B");
    }
    out
}

} // verus!
