//! Flat tree keys: a namespace and a key joined by a reserved NUL character.
//!
//! A missing namespace is encoded as empty, so every full key starts with its
//! namespace (possibly nothing), then one NUL, then the key. NUL is reserved:
//! it never occurs inside a namespace, which makes the split unambiguous.

use vstd::prelude::*;
use vstd::string::StrSliceExecFns;
use vstd::string::StringExecFns;

verus! {

/// The view of an optional namespace: missing means empty.
pub open spec fn spec_namespace_chars(namespace: Option<Seq<char>>) -> Seq<char> {
    match namespace {
        Some(ns) => ns,
        None => Seq::empty(),
    }
}

/// The flat key for `namespace` and `key`: namespace (or nothing), one NUL,
/// then the key.
pub open spec fn spec_full_key(namespace: Option<Seq<char>>, key: Seq<char>) -> Seq<char> {
    spec_namespace_chars(namespace) + seq!['\0'] + key
}

/// Joins a namespace and a key into the flat key used inside the tree.
pub fn full_key(namespace: Option<&str>, key: &str) -> (r: String)
    ensures
        r@ == spec_full_key(
            match namespace {
                Some(ns) => Some(ns@),
                None => None,
            },
            key@,
        ),
{
    proof {
        reveal_strlit("\0");
    }
    let mut r = String::new();
    if let Some(ns) = namespace {
        r.append(ns);
    }
    r.append("\0");
    r.append(key);
    proof {
        assert(r@ =~= spec_full_key(
            match namespace {
                Some(ns) => Some(ns@),
                None => None,
            },
            key@,
        ));
    }
    r
}

/// Splits a flat key at its first NUL. Returns `None` when the text holds no
/// NUL at all; an empty namespace comes back as a missing one.
pub fn split_key(full_key: &str) -> (r: Option<(Option<String>, String)>)
    ensures
        match r {
            Some((namespace, key)) => {
                let ns_chars = spec_namespace_chars(
                    match namespace {
                        Some(ns) => Some(ns@),
                        None => None,
                    },
                );
                &&& full_key@ == ns_chars + seq!['\0'] + key@
                &&& !ns_chars.contains('\0')
                &&& (namespace is Some <==> ns_chars.len() > 0)
            },
            None => forall|i: int| 0 <= i < full_key@.len() ==> full_key@[i] != '\0',
        },
{
    proof {
        reveal_strlit("\0");
    }
    let n = full_key.unicode_len();
    let mut i: usize = 0;
    while i < n
        invariant
            n == full_key@.len(),
            i <= n,
            forall|j: int| 0 <= j < i ==> full_key@[j] != '\0',
        decreases n - i,
    {
        if full_key.get_char(i) == '\0' {
            let ns_part = full_key.substring_char(0, i);
            let key_part = full_key.substring_char(i + 1, n);
            let key = key_part.to_owned();
            let namespace = if ns_part.unicode_len() == 0 {
                None
            } else {
                Some(ns_part.to_owned())
            };
            proof {
                let ns_chars = spec_namespace_chars(
                    match &namespace {
                        Some(ns) => Some(ns@),
                        None => None,
                    },
                );
                assert(ns_chars =~= full_key@.subrange(0, i as int));
                assert(full_key@ =~= ns_chars + seq!['\0'] + key@);
                assert forall|j: int| 0 <= j < ns_chars.len() implies ns_chars[j] != '\0' by {
                    assert(full_key@[j] != '\0');
                }
                assert(!ns_chars.contains('\0'));
            }
            return Some((namespace, key));
        }
        i = i + 1;
    }
    None
}

/// NUL is reserved, so joining and splitting are mutually inverse: splitting
/// the flat key of a NUL-free, non-empty namespace and a key gives the same
/// namespace and key back.
pub proof fn lemma_split_key_inverts_full_key(
    namespace: Option<Seq<char>>,
    key: Seq<char>,
    split_namespace: Option<Seq<char>>,
    split_key: Seq<char>,
)
    requires
        !spec_namespace_chars(namespace).contains('\0'),
        namespace is Some ==> spec_namespace_chars(namespace).len() > 0,
        spec_full_key(namespace, key) == spec_namespace_chars(split_namespace) + seq!['\0']
            + split_key,
        !spec_namespace_chars(split_namespace).contains('\0'),
        split_namespace is Some <==> spec_namespace_chars(split_namespace).len() > 0,
    ensures
        spec_namespace_chars(split_namespace) == spec_namespace_chars(namespace),
        split_key == key,
        split_namespace is Some <==> namespace is Some,
{
    let a = spec_namespace_chars(namespace);
    let b = spec_namespace_chars(split_namespace);
    let whole = spec_full_key(namespace, key);
    assert(whole[a.len() as int] == '\0');
    assert(whole[b.len() as int] == '\0');
    if a.len() < b.len() {
        assert(b[a.len() as int] == whole[a.len() as int]);
        assert(b.contains('\0'));
    }
    if b.len() < a.len() {
        assert(a[b.len() as int] == whole[b.len() as int]);
        assert(a.contains('\0'));
    }
    assert(a.len() == b.len());
    assert forall|i: int| 0 <= i < a.len() implies b[i] == a[i] by {
        assert(whole[i] == a[i]);
        assert((spec_namespace_chars(split_namespace) + seq!['\0'] + split_key)[i] == b[i]);
    }
    assert(b =~= a);
    assert(whole.len() == a.len() + 1 + key.len());
    assert((b + seq!['\0'] + split_key).len() == b.len() + 1 + split_key.len());
    assert(key.len() == split_key.len());
    assert forall|i: int| 0 <= i < key.len() implies split_key[i] == key[i] by {
        assert(whole[a.len() + 1 + i] == key[i]);
        assert((spec_namespace_chars(split_namespace) + seq!['\0'] + split_key)[b.len() + 1 + i]
            == split_key[i]);
    }
    assert(split_key =~= key);
}

} // verus!
