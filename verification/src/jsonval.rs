//! Trusted boundary to serde_json for reading keypair metadata files.
//! A keypair file is an opaque document owned by the signing service;
//! the vault is permitted to read exactly two plaintext fields of it,
//! and never touches the private-key payload.
//!
//! serde_json parsing is deterministic, so what each extraction
//! returns is a function of the content string alone; the two
//! uninterpreted names below stand for those results, and every
//! contract of the vault speaks of the fields through them.

use vstd::prelude::*;

verus! {

/// The `public_key` member's text of a keypair document: `Some` when
/// the content parses as a JSON object whose `public_key` member is a
/// string, `None` for an unparsable document, a missing member or a
/// non-string value.
pub uninterp spec fn json_public_key_of(s: Seq<char>) -> Option<Seq<char>>;

/// The `created_at` member of a keypair document: `Some` when the
/// content parses as a JSON object whose `created_at` member is an
/// integer representable as u64, `None` otherwise.
pub uninterp spec fn json_created_at_of(s: Seq<char>) -> Option<u64>;

/// Relies on serde_json::from_str::<Value>, Value::get and
/// Value::as_str, composed: the chain is deterministic in the content,
/// and its result is exactly what `json_public_key_of` names.
#[verifier::external_body]
pub(crate) fn extract_public_key(content: &str) -> (r: Option<String>)
    ensures
        match r {
            Some(p) => json_public_key_of(content@) == Some(p@),
            None => json_public_key_of(content@) is None,
        },
{
    serde_json::from_str::<serde_json::Value>(content).ok().and_then(
        |v| v.get("public_key").and_then(|f| f.as_str()).map(|s| s.to_string()),
    )
}

/// Relies on serde_json::from_str::<Value>, Value::get and
/// Value::as_u64, composed: the chain is deterministic in the content,
/// and its result is exactly what `json_created_at_of` names.
#[verifier::external_body]
pub(crate) fn extract_created_at(content: &str) -> (r: Option<u64>)
    ensures
        r == json_created_at_of(content@),
{
    serde_json::from_str::<serde_json::Value>(content).ok().and_then(
        |v| v.get("created_at").and_then(|f| f.as_u64()),
    )
}

} // verus!
