//! The persistence pass: what a worker writes for each staged key, and the
//! change log it attaches to the transaction.
//!
//! A worker walks the staged batch in ascending key order and, for each key,
//! decides one tree operation from the batch's value and whether the tree
//! currently holds one. The surrounding process runs the actual transaction;
//! the decision and the encoded bytes come from here.

use vstd::prelude::*;

use crate::codec::{serialize_entry, spec_encode_entry};
use crate::keys::{spec_namespace_chars, split_key};
use crate::value::Entry;

verus! {

/// One entry of the change log a persistence commit carries: which key
/// changed, and whether the change was a deletion.
#[derive(Clone, Debug)]
pub struct ChangedKey {
    pub namespace: Option<String>,
    pub key: String,
    pub deleted: bool,
}

/// What the persistence pass does to one tree key.
pub enum TreeEntryOp {
    /// Store these bytes under the key.
    Write(Vec<u8>),
    /// Drop the key from the tree.
    Remove,
    /// Leave the tree untouched and record nothing.
    Skip,
}

/// True when the changed-key record carries the split of `full_key`.
pub open spec fn spec_changed_key_names(ck: ChangedKey, full_key: Seq<char>) -> bool {
    let ns_chars = spec_namespace_chars(
        match ck.namespace {
            Some(ns) => Some(ns@),
            None => None,
        },
    );
    &&& full_key == ns_chars + seq!['\0'] + ck.key@
    &&& !ns_chars.contains('\0')
    &&& (ck.namespace is Some <==> ns_chars.len() > 0)
}

/// Decides one key of a persistence pass. A staged record is written in its
/// stable encoding and logged as a change; a staged deletion becomes a tree
/// removal, logged as a deletion, but only when the tree still holds a
/// value — otherwise nothing happens and nothing is logged.
pub fn persist_key_action(
    full_key: &String,
    batch_value: &Option<Entry>,
    tree_has_value: bool,
) -> (r: (TreeEntryOp, Option<ChangedKey>))
    requires
        exists|i: int| 0 <= i < full_key@.len() && full_key@[i] == '\0',
    ensures
        match *batch_value {
            Some(entry) => {
                &&& r.0 matches TreeEntryOp::Write(bytes) && bytes@ == spec_encode_entry(entry@)
                &&& r.1 matches Some(ck) && ck.deleted == false && spec_changed_key_names(
                    ck,
                    full_key@,
                )
            },
            None => {
                if tree_has_value {
                    &&& r.0 is Remove
                    &&& r.1 matches Some(ck) && ck.deleted == true && spec_changed_key_names(
                        ck,
                        full_key@,
                    )
                } else {
                    &&& r.0 is Skip
                    &&& r.1 is None
                }
            },
        },
{
    let split = split_key(full_key.as_str());
    proof {
        if split is None {
            let i = choose|i: int| 0 <= i < full_key@.len() && full_key@[i] == '\0';
            assert(full_key@[i] == '\0');
            assert(false);
        }
    }
    let (namespace, key) = match split {
        Some(pair) => pair,
        None => (None, String::new()),
    };
    match batch_value {
        Some(entry) => {
            let bytes = serialize_entry(entry);
            (
                TreeEntryOp::Write(bytes),
                Some(ChangedKey { namespace, key, deleted: false }),
            )
        },
        None => {
            if tree_has_value {
                (TreeEntryOp::Remove, Some(ChangedKey { namespace, key, deleted: true }))
            } else {
                (TreeEntryOp::Skip, None)
            }
        },
    }
}

} // verus!
