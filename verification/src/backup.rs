//! The backup tool's command model, and the parsing its export and import
//! passes rest on.
//!
//! The tool itself walks directories and files; what stands here is what can
//! be stated and checked: how a collection's tree name is recognised and how
//! an exported document's file name is read back into an id and a revision.

use vstd::prelude::*;
use vstd::string::StrSliceExecFns;

verus! {

/// The command line of the backup tool: a database path and a command.
#[derive(Clone, Debug)]
pub struct Cli {
    /// The path to the database to operate on.
    pub database_path: String,
    /// The command to execute on the database.
    pub subcommand: Command,
}

/// What the backup tool does: export everything into a plain file structure,
/// or load such an export back.
#[derive(Clone, Debug)]
pub enum Command {
    /// Exports all data into a folder per database and collection.
    Save {
        /// Where to create the export folder; next to the database when
        /// missing.
        output_directory: Option<String>,
        /// The export folder's name; the database's name with a suffix when
        /// missing.
        output_name: Option<String>,
    },
    /// Loads a previously saved export.
    Load {
        /// The path to the export.
        backup: String,
    },
}

/// The marker that separates a database name from a collection name inside a
/// tree name.
pub open spec fn spec_collection_marker() -> Seq<u8> {
    seq![58u8, 58u8, 99u8, 111u8, 108u8, 108u8, 101u8, 99u8, 116u8, 105u8, 111u8, 110u8, 58u8, 58u8]
}

/// True when position `pos` of `t` starts a `::` pair.
pub open spec fn spec_double_colon_at(t: Seq<u8>, pos: int) -> bool {
    &&& 0 <= pos
    &&& pos + 2 <= t.len()
    &&& t[pos] == 58u8
    &&& t[pos + 1] == 58u8
}

/// The marker bytes, for runtime comparison.
fn collection_marker() -> (r: Vec<u8>)
    ensures
        r@ == spec_collection_marker(),
{
    let r: Vec<u8> = vec![58, 58, 99, 111, 108, 108, 101, 99, 116, 105, 111, 110, 58, 58];
    proof {
        assert(r@ =~= spec_collection_marker());
    }
    r
}

/// Where a collection tree's database name ends: the first `::` of the tree
/// name, provided the full collection marker stands there. Yields nothing
/// for any other tree name.
pub fn find_collection_marker(tree: &Vec<u8>) -> (r: Option<usize>)
    ensures
        match r {
            Some(pos) => {
                &&& spec_double_colon_at(tree@, pos as int)
                &&& forall|j: int| 0 <= j < pos ==> !spec_double_colon_at(tree@, j)
                &&& pos + spec_collection_marker().len() <= tree@.len()
                &&& tree@.subrange(pos as int, pos + spec_collection_marker().len())
                    =~= spec_collection_marker()
            },
            None => forall|pos: int|
                (spec_double_colon_at(tree@, pos) && (forall|j: int|
                    0 <= j < pos ==> !spec_double_colon_at(tree@, j))) ==> !(pos
                    + spec_collection_marker().len() <= tree@.len() && tree@.subrange(
                    pos,
                    pos + spec_collection_marker().len(),
                ) =~= spec_collection_marker()),
        },
{
    let n = tree.len();
    let marker = collection_marker();
    let mut i: usize = 0;
    while n >= 2 && i <= n - 2
        invariant
            n == tree@.len(),
            marker@ == spec_collection_marker(),
            i <= n,
            forall|j: int| 0 <= j < i ==> !spec_double_colon_at(tree@, j),
        decreases n - i,
    {
        if tree[i] == 58 && tree[i + 1] == 58 {
            if n - i >= marker.len() {
                let mut k: usize = 0;
                let mut matches = true;
                while k < marker.len()
                    invariant
                        n == tree@.len(),
                        marker@ == spec_collection_marker(),
                        i + marker@.len() <= n,
                        k <= marker@.len(),
                        matches == (forall|q: int|
                            0 <= q < k ==> tree@[i + q] == marker@[q]),
                    decreases marker@.len() - k,
                {
                    if tree[i + k] != marker[k] {
                        matches = false;
                        proof {
                            assert(tree@[i + k] != marker@[k as int]);
                        }
                        k = marker.len();
                    } else {
                        proof {
                            assert(tree@[i + k] == marker@[k as int]);
                        }
                        k = k + 1;
                    }
                }
                if matches {
                    proof {
                        assert(tree@.subrange(
                            i as int,
                            i + spec_collection_marker().len(),
                        ) =~= spec_collection_marker());
                    }
                    return Some(i);
                }
            }
            proof {
                assert(spec_double_colon_at(tree@, i as int));
            }
            return None;
        }
        proof {
            assert(!spec_double_colon_at(tree@, i as int));
        }
        i = i + 1;
    }
    proof {
        assert forall|pos: int| !spec_double_colon_at(tree@, pos) by {
            if 0 <= pos < i {
            }
        }
    }
    None
}

/// True when every character of `s` is a decimal digit.
pub open spec fn spec_all_digits(s: Seq<char>) -> bool {
    forall|i: int| 0 <= i < s.len() ==> '0' <= #[trigger] s[i] <= '9'
}

/// The number a string of decimal digits denotes.
pub open spec fn spec_decimal(s: Seq<char>) -> int
    decreases s.len(),
{
    if s.len() == 0 {
        0
    } else {
        spec_decimal(s.drop_last()) * 10 + (s.last() as int - '0' as int)
    }
}

/// A digit string's value never goes negative.
proof fn lemma_decimal_nonneg(s: Seq<char>)
    requires
        spec_all_digits(s),
    ensures
        spec_decimal(s) >= 0,
    decreases s.len(),
{
    if s.len() > 0 {
        assert(spec_all_digits(s.drop_last()));
        lemma_decimal_nonneg(s.drop_last());
        assert('0' <= s.last() <= '9');
        assert(spec_decimal(s.drop_last()) * 10 >= 0) by (nonlinear_arith)
            requires
                spec_decimal(s.drop_last()) >= 0,
        ;
    }
}

/// A digit string is worth at least any of its prefixes.
proof fn lemma_decimal_prefix_le(s: Seq<char>, i: int)
    requires
        spec_all_digits(s),
        0 <= i <= s.len(),
    ensures
        spec_decimal(s.take(i)) <= spec_decimal(s),
    decreases s.len() - i,
{
    if i < s.len() {
        lemma_decimal_prefix_le(s, i + 1);
        let p = s.take(i);
        let q = s.take(i + 1);
        assert(q.drop_last() =~= p);
        assert(q.last() == s[i]);
        assert(spec_all_digits(p));
        lemma_decimal_nonneg(p);
        assert(spec_decimal(p) * 10 >= spec_decimal(p)) by (nonlinear_arith)
            requires
                spec_decimal(p) >= 0,
        ;
        assert('0' <= s[i] <= '9');
    } else {
        assert(s.take(i) =~= s);
    }
}

/// Reads a decimal number: the whole text must be digits and the value must
/// fit.
pub fn parse_decimal_u64(s: &str) -> (r: Option<u64>)
    ensures
        match r {
            Some(v) => s@.len() > 0 && spec_all_digits(s@) && spec_decimal(s@) == v,
            None => s@.len() == 0 || !spec_all_digits(s@) || spec_decimal(s@) > u64::MAX,
        },
{
    let n = s.unicode_len();
    if n == 0 {
        return None;
    }
    let mut acc: u64 = 0;
    let mut i: usize = 0;
    while i < n
        invariant
            n == s@.len(),
            i <= n,
            spec_all_digits(s@.take(i as int)),
            acc == spec_decimal(s@.take(i as int)),
        decreases n - i,
    {
        let c = s.get_char(i);
        if c < '0' || c > '9' {
            proof {
                assert(!('0' <= s@[i as int] <= '9'));
            }
            return None;
        }
        let d: u64 = (c as u32 as u64) - 48;
        proof {
            assert(s@.take(i as int + 1).drop_last() =~= s@.take(i as int));
            assert(s@.take(i as int + 1).last() == s@[i as int]);
            assert(spec_all_digits(s@.take(i as int + 1)));
            assert(d == s@[i as int] as int - '0' as int);
        }
        if acc > (u64::MAX - d) / 10 {
            proof {
                let grown = s@.take(i as int + 1);
                assert(spec_decimal(grown) == acc * 10 + d);
                assert(acc * 10 + d > u64::MAX) by (nonlinear_arith)
                    requires
                        acc > (u64::MAX as int - d) / 10,
                        0 <= d <= 9,
                ;
                if spec_all_digits(s@) {
                    lemma_decimal_prefix_le(s@, i as int + 1);
                    assert(spec_decimal(s@) > u64::MAX);
                }
            }
            return None;
        }
        proof {
            assert(acc * 10 + d <= u64::MAX) by (nonlinear_arith)
                requires
                    acc <= (u64::MAX as int - d) / 10,
                    0 <= d <= 9,
            ;
        }
        acc = acc * 10 + d;
        i = i + 1;
    }
    proof {
        assert(s@.take(n as int) =~= s@);
    }
    Some(acc)
}

/// Reads a decimal number that must fit a `u32`.
pub fn parse_decimal_u32(s: &str) -> (r: Option<u32>)
    ensures
        match r {
            Some(v) => s@.len() > 0 && spec_all_digits(s@) && spec_decimal(s@) == v,
            None => s@.len() == 0 || !spec_all_digits(s@) || spec_decimal(s@) > u32::MAX,
        },
{
    match parse_decimal_u64(s) {
        Some(v) => {
            if v <= u32::MAX as u64 {
                Some(v as u32)
            } else {
                None
            }
        },
        None => {
            proof {
                if !(s@.len() == 0 || !spec_all_digits(s@)) {
                    assert(spec_decimal(s@) > u64::MAX);
                }
            }
            None
        },
    }
}

/// One way to read a document file name: digits up to the first dot are the
/// id, digits from there to the second dot (or the end) are the revision,
/// and both fit their types.
pub open spec fn spec_document_name_shape(
    name: Seq<char>,
    p: int,
    q: int,
    id: int,
    revision: int,
) -> bool {
    &&& 0 <= p < q <= name.len()
    &&& name[p] == '.'
    &&& (q < name.len() ==> name[q] == '.')
    &&& (forall|j: int| 0 <= j < p ==> name[j] != '.')
    &&& (forall|j: int| p < j < q ==> name[j] != '.')
    &&& p > 0
    &&& spec_all_digits(name.subrange(0, p))
    &&& spec_decimal(name.subrange(0, p)) == id
    &&& q > p + 1
    &&& spec_all_digits(name.subrange(p + 1, q))
    &&& spec_decimal(name.subrange(p + 1, q)) == revision
    &&& 0 <= id <= u64::MAX
    &&& 0 <= revision <= u32::MAX
}

/// True when the file name reads as this id and revision.
pub open spec fn spec_parsed_document_name(name: Seq<char>, id: u64, revision: u32) -> bool {
    exists|p: int, q: int|
        #[trigger] spec_document_name_shape(name, p, q, id as int, revision as int)
}

/// Splits an exported document's file name into its id and revision: the
/// digits before the first dot and the digits between the first and second
/// dots (the extension follows). Yields nothing exactly when no such reading
/// exists.
pub fn parse_document_file_name(name: &str) -> (r: Option<(u64, u32)>)
    ensures
        match r {
            Some((id, revision)) => spec_parsed_document_name(name@, id, revision),
            None => forall|p: int, q: int, id: int, revision: int|
                !spec_document_name_shape(name@, p, q, id, revision),
        },
{
    let n = name.unicode_len();
    let mut p: usize = 0;
    while p < n && name.get_char(p) != '.'
        invariant
            n == name@.len(),
            p <= n,
            forall|j: int| 0 <= j < p ==> name@[j] != '.',
        decreases n - p,
    {
        p = p + 1;
    }
    if p >= n {
        proof {
            assert forall|p2: int, q2: int, id: int, revision: int| !spec_document_name_shape(
                name@,
                p2,
                q2,
                id,
                revision,
            ) by {
                if 0 <= p2 < name@.len() {
                    assert(name@[p2] != '.');
                }
            }
        }
        return None;
    }
    let mut q: usize = p + 1;
    while q < n && name.get_char(q) != '.'
        invariant
            n == name@.len(),
            p < q <= n,
            forall|j: int| p < j < q ==> name@[j] != '.',
        decreases n - q,
    {
        q = q + 1;
    }
    proof {
        lemma_unique_document_name_split(name@, p as int, q as int);
    }
    let id_part = name.substring_char(0, p);
    let revision_part = name.substring_char(p + 1, q);
    proof {
        assert(id_part@ =~= name@.subrange(0, p as int));
        assert(revision_part@ =~= name@.subrange(p as int + 1, q as int));
    }
    let id = match parse_decimal_u64(id_part) {
        Some(v) => v,
        None => {
            return None;
        },
    };
    let revision = match parse_decimal_u32(revision_part) {
        Some(v) => v,
        None => {
            return None;
        },
    };
    proof {
        assert(spec_document_name_shape(name@, p as int, q as int, id as int, revision as int));
        assert(spec_parsed_document_name(name@, id, revision));
    }
    Some((id, revision))
}

/// With `p` the first dot of `name` and `q` the next dot after it (or the
/// end), every valid reading of the name uses exactly these positions.
proof fn lemma_unique_document_name_split(name: Seq<char>, p: int, q: int)
    requires
        0 <= p < q <= name.len(),
        name[p] == '.',
        forall|j: int| 0 <= j < p ==> name[j] != '.',
        q < name.len() ==> name[q] == '.',
        forall|j: int| p < j < q ==> name[j] != '.',
    ensures
        forall|p2: int, q2: int, id: int, revision: int|
            #[trigger] spec_document_name_shape(name, p2, q2, id, revision) ==> p2 == p && q2 == q
                && spec_all_digits(name.subrange(0, p)) && spec_decimal(name.subrange(0, p)) == id
                && name.subrange(0, p).len() > 0 && id <= u64::MAX && spec_all_digits(
                name.subrange(p + 1, q),
            ) && spec_decimal(name.subrange(p + 1, q)) == revision && name.subrange(
                p + 1,
                q,
            ).len() > 0 && revision <= u32::MAX,
{
    assert forall|p2: int, q2: int, id: int, revision: int|
        #[trigger] spec_document_name_shape(name, p2, q2, id, revision) implies p2 == p && q2 == q
        && spec_all_digits(name.subrange(0, p)) && spec_decimal(name.subrange(0, p)) == id
        && name.subrange(0, p).len() > 0 && id <= u64::MAX && spec_all_digits(
        name.subrange(p + 1, q),
    ) && spec_decimal(name.subrange(p + 1, q)) == revision && name.subrange(p + 1, q).len() > 0
        && revision <= u32::MAX by {
        if p2 < p {
            assert(name[p2] != '.');
        }
        if p2 > p {
            assert(name[p] != '.');
        }
        assert(p2 == p);
        if q2 < q {
            assert(name[q2] != '.');
        }
        if q2 > q {
            assert(q < name.len());
            assert(name[q] != '.');
        }
        assert(q2 == q);
    }
}

} // verus!
