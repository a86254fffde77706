//! Local self-backups: retention policy, self-validating manifests and the
//! decisions around the content-addressed object store.

pub mod rotation;
pub mod manifest;
pub mod listing;
pub mod restore;
pub mod snapshot;
pub mod objects;

use vstd::prelude::*;
use crate::backup::rotation::{has_suspect_suffix, is_suspect, suspect_suffix};

verus! {

/// Integrity verdict for a snapshot.
#[derive(Clone, Copy, Debug, PartialEq, Eq, Structural)]
pub enum Integrity {
    Intact,
    Suspect,
}

/// Integrity verdict implied by an id's `-SUSPECT` suffix.
pub fn suspect_of(id: &str) -> (r: Integrity)
    ensures
        r == (if is_suspect(id@) {
            Integrity::Suspect
        } else {
            Integrity::Intact
        }),
{
    if has_suspect_suffix(id) {
        Integrity::Suspect
    } else {
        Integrity::Intact
    }
}

/// The `<ts>` part of an id, with any `-SUSPECT` suffix stripped.
pub fn strip_suspect(id: &str) -> (r: String)
    ensures
        r@ == (if is_suspect(id@) {
            id@.subrange(0, id@.len() - suspect_suffix().len())
        } else {
            id@
        }),
{
    let v = crate::text::chars_of(id);
    if has_suspect_suffix(id) {
        crate::text::string_from_range(&v, 0, v.len() - 8)
    } else {
        crate::text::string_from_chars(&v)
    }
}

} // verus!
