//! Whole-store views: a consistent snapshot across all three layers, and the
//! startup pass that rebuilds the expiration queue from persisted records.

use vstd::prelude::*;

use crate::keys::{full_key, spec_full_key, spec_namespace_chars, split_key};
use crate::kvmap::{spec_chars_lt, KvMap};
use crate::state::{spec_expiry_update, KeyValueState};
use crate::time::Timestamp;
use crate::value::{Entry, EntryView};

verus! {

/// True when the text holds the reserved NUL separator somewhere.
pub open spec fn spec_contains_nul(k: Seq<char>) -> bool {
    exists|i: int| 0 <= i < k.len() && k[i] == '\0'
}

/// The view of scanned tree rows: flat key characters and record content.
pub open spec fn spec_disk_pairs(rows: Seq<(String, Entry)>) -> Seq<(Seq<char>, EntryView)> {
    rows.map_values(|p: (String, Entry)| (p.0@, p.1@))
}

/// One step of reading a scanned row into the snapshot: the first occurrence
/// of a well-formed flat key wins, everything else is dropped.
pub open spec fn spec_scan_step(
    m: Map<Seq<char>, EntryView>,
    p: (Seq<char>, EntryView),
) -> Map<Seq<char>, EntryView> {
    if spec_contains_nul(p.0) && !m.contains_key(p.0) {
        m.insert(p.0, p.1)
    } else {
        m
    }
}

/// The snapshot's base: the scanned rows read in order.
pub open spec fn spec_scan_base(
    m: Map<Seq<char>, EntryView>,
    rows: Seq<(Seq<char>, EntryView)>,
) -> Map<Seq<char>, EntryView>
    decreases rows.len(),
{
    if rows.len() == 0 {
        m
    } else {
        spec_scan_base(spec_scan_step(m, rows[0]), rows.drop_first())
    }
}

/// One step of overlaying an in-memory layer: a record replaces, a pending
/// deletion removes.
pub open spec fn spec_overlay_step(
    m: Map<Seq<char>, EntryView>,
    p: (Seq<char>, Option<EntryView>),
) -> Map<Seq<char>, EntryView> {
    match p.1 {
        Some(e) => m.insert(p.0, e),
        None => m.remove(p.0),
    }
}

/// An in-memory layer overlaid onto the snapshot, key by key.
pub open spec fn spec_overlay_layer(
    m: Map<Seq<char>, EntryView>,
    pairs: Seq<(Seq<char>, Option<EntryView>)>,
) -> Map<Seq<char>, EntryView>
    decreases pairs.len(),
{
    if pairs.len() == 0 {
        m
    } else {
        spec_overlay_layer(spec_overlay_step(m, pairs[0]), pairs.drop_first())
    }
}

/// A layer's pairs in its own ascending key order.
pub open spec fn spec_layer_pairs(m: KvMap<Option<Entry>>) -> Seq<(Seq<char>, Option<EntryView>)> {
    Seq::new(m.spec_keys().len(), |i: int| (m.spec_keys()[i], m.spec_values()[i]))
}

/// The consistent snapshot the store presents when the scanned rows are
/// `disk`: the scan first, the in-flight batch over it, the dirty layer over
/// both; pending deletions remove.
pub open spec fn spec_all_entries_map(
    s: KeyValueState,
    disk: Seq<(Seq<char>, EntryView)>,
) -> Map<Seq<char>, EntryView> {
    let base = spec_scan_base(Map::empty(), disk);
    let with_batch = match s.keys_being_persisted {
        Some(b) => spec_overlay_layer(base, spec_layer_pairs(b)),
        None => base,
    };
    spec_overlay_layer(with_batch, spec_layer_pairs(s.dirty_keys))
}

/// The flat key a snapshot row stands for.
pub open spec fn spec_row_key(row: (Option<String>, String, Entry)) -> Seq<char> {
    spec_full_key(
        match row.0 {
            Some(ns) => Some(ns@),
            None => None,
        },
        row.1@,
    )
}

/// Reading a row sequence one longer reads the last row last.
proof fn lemma_scan_base_push(
    m: Map<Seq<char>, EntryView>,
    rows: Seq<(Seq<char>, EntryView)>,
    x: (Seq<char>, EntryView),
)
    ensures
        spec_scan_base(m, rows.push(x)) == spec_scan_step(spec_scan_base(m, rows), x),
    decreases rows.len(),
{
    if rows.len() == 0 {
        assert(rows.push(x)[0] == x);
        assert(rows.push(x).drop_first() =~= Seq::<(Seq<char>, EntryView)>::empty());
        assert(spec_scan_base(spec_scan_step(m, x), Seq::<(Seq<char>, EntryView)>::empty())
            == spec_scan_step(m, x));
    } else {
        assert(rows.push(x)[0] == rows[0]);
        assert(rows.push(x).drop_first() =~= rows.drop_first().push(x));
        lemma_scan_base_push(spec_scan_step(m, rows[0]), rows.drop_first(), x);
    }
}

/// Overlaying a pair sequence one longer overlays the last pair last.
proof fn lemma_overlay_layer_push(
    m: Map<Seq<char>, EntryView>,
    pairs: Seq<(Seq<char>, Option<EntryView>)>,
    x: (Seq<char>, Option<EntryView>),
)
    ensures
        spec_overlay_layer(m, pairs.push(x)) == spec_overlay_step(spec_overlay_layer(m, pairs), x),
    decreases pairs.len(),
{
    if pairs.len() == 0 {
        assert(pairs.push(x)[0] == x);
        assert(pairs.push(x).drop_first() =~= Seq::<(Seq<char>, Option<EntryView>)>::empty());
        assert(spec_overlay_layer(
            spec_overlay_step(m, x),
            Seq::<(Seq<char>, Option<EntryView>)>::empty(),
        ) == spec_overlay_step(m, x));
    } else {
        assert(pairs.push(x)[0] == pairs[0]);
        assert(pairs.push(x).drop_first() =~= pairs.drop_first().push(x));
        lemma_overlay_layer_push(spec_overlay_step(m, pairs[0]), pairs.drop_first(), x);
    }
}

/// Overlays one in-memory layer onto the snapshot under construction.
fn overlay_layer(snapshot: &mut KvMap<Entry>, layer: &KvMap<Option<Entry>>)
    requires
        old(snapshot).wf(),
        layer.wf(),
    ensures
        final(snapshot).wf(),
        final(snapshot)@ == spec_overlay_layer(old(snapshot)@, spec_layer_pairs(*layer)),
{
    proof {
        layer.lemma_keys();
    }
    let n = layer.len();
    let mut j: usize = 0;
    while j < n
        invariant
            snapshot.wf(),
            layer.wf(),
            n == layer.spec_len(),
            j <= n,
            snapshot@ == spec_overlay_layer(
                old(snapshot)@,
                spec_layer_pairs(*layer).take(j as int),
            ),
        decreases n - j,
    {
        proof {
            layer.lemma_keys();
        }
        let ghost prefix = spec_layer_pairs(*layer).take(j as int);
        let (key, value) = layer.pair_at(j);
        let key_copy = key.clone();
        proof {
            assert(spec_layer_pairs(*layer).take(j as int + 1) =~= prefix.push(
                spec_layer_pairs(*layer)[j as int],
            ));
            lemma_overlay_layer_push(
                old(snapshot)@,
                prefix,
                spec_layer_pairs(*layer)[j as int],
            );
        }
        match value {
            Some(entry) => {
                let copy = entry.duplicate();
                snapshot.insert(key_copy, copy);
            },
            None => {
                snapshot.remove(&key_copy);
            },
        }
        j = j + 1;
    }
    proof {
        assert(spec_layer_pairs(*layer).take(n as int) =~= spec_layer_pairs(*layer));
    }
}

impl KeyValueState {
    /// The consistent snapshot across all three layers, split back into
    /// namespace and key: every well-formed key of the snapshot appears
    /// exactly once, ascending by flat key, with its visible record.
    #[verifier::spinoff_prover]
    #[verifier::rlimit(100)]
    pub fn all_key_value_entries(&self, disk_entries: &Vec<(String, Entry)>) -> (r: Vec<
        (Option<String>, String, Entry),
    >)
        requires
            self.wf(),
        ensures
            ({
                let overlay = spec_all_entries_map(*self, spec_disk_pairs(disk_entries@));
                &&& forall|i: int|
                    0 <= i < r@.len() ==> {
                        let fk = #[trigger] spec_row_key(r@[i]);
                        &&& overlay.contains_key(fk)
                        &&& overlay[fk] == r@[i].2@
                        &&& !spec_namespace_chars(
                            match r@[i].0 {
                                Some(ns) => Some(ns@),
                                None => None,
                            },
                        ).contains('\0')
                        &&& (r@[i].0 is Some <==> spec_namespace_chars(
                            match r@[i].0 {
                                Some(ns) => Some(ns@),
                                None => None,
                            },
                        ).len() > 0)
                    }
                &&& forall|i: int, j: int|
                    0 <= i < j < r@.len() ==> spec_chars_lt(
                        #[trigger] spec_row_key(r@[i]),
                        #[trigger] spec_row_key(r@[j]),
                    )
                &&& forall|k: Seq<char>|
                    overlay.contains_key(k) && spec_contains_nul(k) ==> exists|i: int|
                        0 <= i < r@.len() && #[trigger] spec_row_key(r@[i]) == k
            }),
    {
        let mut snapshot: KvMap<Entry> = KvMap::new();
        let n = disk_entries.len();
        let mut i: usize = 0;
        while i < n
            invariant
                snapshot.wf(),
                self.wf(),
                n == disk_entries@.len(),
                i <= n,
                snapshot@ == spec_scan_base(
                    Map::<Seq<char>, EntryView>::empty(),
                    spec_disk_pairs(disk_entries@).take(i as int),
                ),
            decreases n - i,
        {
            let ghost prefix = spec_disk_pairs(disk_entries@).take(i as int);
            let row = &disk_entries[i];
            proof {
                assert(spec_disk_pairs(disk_entries@).take(i as int + 1) =~= prefix.push(
                    spec_disk_pairs(disk_entries@)[i as int],
                ));
                lemma_scan_base_push(
                    Map::<Seq<char>, EntryView>::empty(),
                    prefix,
                    spec_disk_pairs(disk_entries@)[i as int],
                );
            }
            let split = split_key(row.0.as_str());
            let splittable = split.is_some();
            proof {
                if split is Some {
                    let ns_chars = spec_namespace_chars(
                        match split->Some_0.0 {
                            Some(ns) => Some(ns@),
                            None => None,
                        },
                    );
                    assert(row.0@[ns_chars.len() as int] == '\0');
                    assert(spec_contains_nul(row.0@));
                }
                assert(splittable == spec_contains_nul(row.0@));
            }
            if splittable {
                let absent = match snapshot.get(&row.0) {
                    Some(_) => false,
                    None => true,
                };
                if absent {
                    snapshot.insert(row.0.clone(), row.1.duplicate());
                }
            }
            i = i + 1;
        }
        proof {
            assert(spec_disk_pairs(disk_entries@).take(n as int) =~= spec_disk_pairs(
                disk_entries@,
            ));
        }
        match &self.keys_being_persisted {
            Some(batch) => {
                overlay_layer(&mut snapshot, batch);
            },
            None => {},
        }
        overlay_layer(&mut snapshot, &self.dirty_keys);
        let ghost overlay = spec_all_entries_map(*self, spec_disk_pairs(disk_entries@));
        proof {
            assert(snapshot@ == overlay);
            snapshot.lemma_keys();
        }
        let mut out: Vec<(Option<String>, String, Entry)> = Vec::new();
        let m = snapshot.len();
        let mut j: usize = 0;
        while j < m
            invariant
                snapshot.wf(),
                snapshot@ == overlay,
                m == snapshot.spec_len(),
                j <= m,
                forall|p: int|
                    0 <= p < out@.len() ==> {
                        let fk = #[trigger] spec_row_key(out@[p]);
                        &&& overlay.contains_key(fk)
                        &&& overlay[fk] == out@[p].2@
                        &&& !spec_namespace_chars(
                            match out@[p].0 {
                                Some(ns) => Some(ns@),
                                None => None,
                            },
                        ).contains('\0')
                        &&& (out@[p].0 is Some <==> spec_namespace_chars(
                            match out@[p].0 {
                                Some(ns) => Some(ns@),
                                None => None,
                            },
                        ).len() > 0)
                    },
                forall|p: int|
                    0 <= p < out@.len() ==> exists|s: int|
                        0 <= s < j && #[trigger] spec_row_key(out@[p])
                            == snapshot.spec_keys()[s],
                forall|p: int, q: int|
                    0 <= p < q < out@.len() ==> spec_chars_lt(
                        #[trigger] spec_row_key(out@[p]),
                        #[trigger] spec_row_key(out@[q]),
                    ),
                forall|s: int|
                    0 <= s < j && spec_contains_nul(#[trigger] snapshot.spec_keys()[s])
                        ==> exists|p: int|
                        0 <= p < out@.len() && #[trigger] spec_row_key(out@[p])
                            == snapshot.spec_keys()[s],
            decreases m - j,
        {
            proof {
                snapshot.lemma_keys();
            }
            let (key, entry) = snapshot.pair_at(j);
            let ghost out0 = out@;
            let split = split_key(key.as_str());
            proof {
                if split is Some {
                    let ns_chars = spec_namespace_chars(
                        match split->Some_0.0 {
                            Some(ns) => Some(ns@),
                            None => None,
                        },
                    );
                    assert(key@[ns_chars.len() as int] == '\0');
                    assert(spec_contains_nul(key@));
                }
            }
            match split {
                Some((namespace, short_key)) => {
                    let copy = entry.duplicate();
                    let row = (namespace, short_key, copy);
                    proof {
                        assert(spec_row_key(row) == key@);
                    }
                    out.push(row);
                    proof {
                        assert(out@ =~= out0.push(row));
                        assert forall|ss: int|
                            0 <= ss < j + 1 && spec_contains_nul(
                                #[trigger] snapshot.spec_keys()[ss],
                            ) implies exists|p: int|
                            0 <= p < out@.len() && #[trigger] spec_row_key(out@[p])
                                == snapshot.spec_keys()[ss] by {
                            if ss == j {
                                assert(spec_row_key(out@[out@.len() - 1])
                                    == snapshot.spec_keys()[j as int]);
                            } else {
                                let p = choose|p: int|
                                    0 <= p < out0.len() && #[trigger] spec_row_key(out0[p])
                                        == snapshot.spec_keys()[ss];
                                assert(out@[p] == out0[p]);
                                assert(spec_row_key(out@[p]) == snapshot.spec_keys()[ss]);
                            }
                        }
                        assert forall|p: int, q: int|
                            0 <= p < q < out@.len() implies spec_chars_lt(
                            #[trigger] spec_row_key(out@[p]),
                            #[trigger] spec_row_key(out@[q]),
                        ) by {
                            if q == out@.len() - 1 {
                                let s = choose|s: int|
                                    0 <= s < j && #[trigger] spec_row_key(out0[p])
                                        == snapshot.spec_keys()[s];
                                assert(spec_chars_lt(
                                    snapshot.spec_keys()[s],
                                    snapshot.spec_keys()[j as int],
                                ));
                            } else {
                                assert(spec_row_key(out@[p]) == spec_row_key(out0[p]));
                                assert(spec_row_key(out@[q]) == spec_row_key(out0[q]));
                            }
                        }
                    }
                },
                None => {
                    proof {
                        assert(!spec_contains_nul(snapshot.spec_keys()[j as int]));
                    }
                },
            }
            j = j + 1;
        }
        proof {
            assert forall|k: Seq<char>|
                overlay.contains_key(k) && spec_contains_nul(k) implies exists|i2: int|
                0 <= i2 < out@.len() && #[trigger] spec_row_key(out@[i2]) == k by {
                let s = choose|s: int|
                    0 <= s < snapshot.spec_keys().len() && #[trigger] snapshot.spec_keys()[s] == k;
                assert(spec_contains_nul(snapshot.spec_keys()[s]));
            }
        }
        out
    }

    /// True when a persisted record should re-enter the expiration queue at
    /// startup: it predates this launch and carries an expiration.
    pub open spec fn spec_needs_expiration_reload(e: EntryView, launched_at: Timestamp) -> bool {
        &&& e.last_updated.nanos < launched_at.nanos
        &&& e.expiration is Some
    }

    /// Rebuilds the expiration queue from a snapshot at startup: every
    /// record written before this launch that carries an expiration re-enters
    /// the queue under its flat key — provided that key appears once in the
    /// snapshot — and nothing else enters it: every queued pair either
    /// predates the load or comes from such a record, so rows updated since
    /// launch or without an expiration add nothing. Only the queue and the
    /// published target change.
    pub fn load_expirations(
        &mut self,
        entries: &Vec<(Option<String>, String, Entry)>,
        launched_at: Timestamp,
        now: Timestamp,
    )
        requires
            old(self).wf(),
        ensures
            final(self).wf(),
            KeyValueState::spec_store_unchanged(*old(self), *final(self)),
            forall|i: int|
                0 <= i < entries@.len() && Self::spec_needs_expiration_reload(
                    #[trigger] entries@[i].2@,
                    launched_at,
                ) && (forall|j: int|
                    0 <= j < entries@.len() && j != i ==> spec_row_key(#[trigger] entries@[j])
                        != spec_row_key(entries@[i])) ==> exists|p: int|
                    0 <= p < final(self).spec_expirations().len()
                        && #[trigger] final(self).spec_expirations()[p] == (
                    spec_row_key(entries@[i]),
                    entries@[i].2@.expiration->Some_0,
                ),
            spec_reloaded_queue_bounded(
                old(self).spec_expirations(),
                final(self).spec_expirations(),
                entries@,
                launched_at,
            ),
    {
        proof {
            assert forall|q: int|
                0 <= q < self.spec_expirations().len() implies #[trigger] spec_reloaded_pair_from(
                old(self).spec_expirations(),
                self.spec_expirations()[q],
                entries@,
                launched_at,
            ) by {
                assert(old(self).spec_expirations()[q] == self.spec_expirations()[q]);
            }
        }
        let n = entries.len();
        let mut i: usize = 0;
        while i < n
            invariant
                self.wf(),
                n == entries@.len(),
                i <= n,
                KeyValueState::spec_store_unchanged(*old(self), *self),
                forall|p: int|
                    0 <= p < i && Self::spec_needs_expiration_reload(
                        #[trigger] entries@[p].2@,
                        launched_at,
                    ) && (forall|j: int|
                        0 <= j < entries@.len() && j != p ==> spec_row_key(#[trigger] entries@[j])
                            != spec_row_key(entries@[p])) ==> exists|q: int|
                        0 <= q < self.spec_expirations().len()
                            && #[trigger] self.spec_expirations()[q] == (
                        spec_row_key(entries@[p]),
                        entries@[p].2@.expiration->Some_0,
                    ),
                spec_reloaded_queue_bounded(
                    old(self).spec_expirations(),
                    self.spec_expirations(),
                    entries@,
                    launched_at,
                ),
            decreases n - i,
        {
            let row = &entries[i];
            let qualifies = row.2.last_updated.nanos < launched_at.nanos && match &row.2.expiration {
                Some(_) => true,
                None => false,
            };
            if qualifies {
                let ns = match &row.0 {
                    Some(s) => Some(s.as_str()),
                    None => None,
                };
                let fk = full_key(ns, row.1.as_str());
                proof {
                    assert(fk@ == spec_row_key(entries@[i as int]));
                }
                let ghost pre_exp = self.spec_expirations();
                self.update_key_expiration(fk, row.2.expiration, now);
                proof {
                    let t = entries@[i as int].2@.expiration->Some_0;
                    let republished = choose|republished: bool|
                        #[trigger] spec_expiry_update(
                            pre_exp,
                            self.spec_expirations(),
                            spec_row_key(entries@[i as int]),
                            entries@[i as int].2.expiration,
                            republished,
                        );
                    lemma_expiry_set_member(
                        pre_exp,
                        self.spec_expirations(),
                        spec_row_key(entries@[i as int]),
                        t,
                        republished,
                    );
                    assert forall|p: int|
                        0 <= p < i && Self::spec_needs_expiration_reload(
                            #[trigger] entries@[p].2@,
                            launched_at,
                        ) && (forall|j: int|
                            0 <= j < entries@.len() && j != p ==> spec_row_key(
                                #[trigger] entries@[j],
                            ) != spec_row_key(entries@[p])) implies exists|q: int|
                        0 <= q < self.spec_expirations().len()
                            && #[trigger] self.spec_expirations()[q] == (
                        spec_row_key(entries@[p]),
                        entries@[p].2@.expiration->Some_0,
                    ) by {
                        assert(spec_row_key(entries@[i as int]) != spec_row_key(entries@[p]));
                        lemma_expiry_update_preserves_member(
                            pre_exp,
                            self.spec_expirations(),
                            spec_row_key(entries@[i as int]),
                            entries@[i as int].2.expiration,
                            republished,
                            spec_row_key(entries@[p]),
                            entries@[p].2@.expiration->Some_0,
                        );
                    }
                    lemma_expiry_update_members(
                        pre_exp,
                        self.spec_expirations(),
                        spec_row_key(entries@[i as int]),
                        entries@[i as int].2.expiration,
                        republished,
                    );
                    assert forall|q: int|
                        0 <= q < self.spec_expirations().len() implies
                        #[trigger] spec_reloaded_pair_from(
                        old(self).spec_expirations(),
                        self.spec_expirations()[q],
                        entries@,
                        launched_at,
                    ) by {
                        let here = self.spec_expirations()[q];
                        assert(spec_queue_pair_kept_or_added(
                            pre_exp,
                            here,
                            spec_row_key(entries@[i as int]),
                            entries@[i as int].2.expiration,
                        ));
                        if here == (
                            spec_row_key(entries@[i as int]),
                            entries@[i as int].2@.expiration->Some_0,
                        ) {
                            assert(Self::spec_needs_expiration_reload(
                                entries@[i as int].2@,
                                launched_at,
                            ));
                        } else {
                            let p0 = choose|p0: int|
                                0 <= p0 < pre_exp.len() && #[trigger] pre_exp[p0] == here;
                            assert(spec_reloaded_pair_from(
                                old(self).spec_expirations(),
                                pre_exp[p0],
                                entries@,
                                launched_at,
                            ));
                            assert(pre_exp[p0] == here);
                        }
                    }
                }
            }
            i = i + 1;
        }
    }
}

/// One queued pair is accounted for: it already stood in the queue before
/// the load, or it carries the flat key and expiration of a snapshot row
/// that needed reloading.
pub open spec fn spec_reloaded_pair_from(
    pre: Seq<(Seq<char>, Timestamp)>,
    pair: (Seq<char>, Timestamp),
    entries: Seq<(Option<String>, String, Entry)>,
    launched_at: Timestamp,
) -> bool {
    (exists|p: int| 0 <= p < pre.len() && #[trigger] pre[p] == pair) || (exists|i: int|
        0 <= i < entries.len() && #[trigger] KeyValueState::spec_needs_expiration_reload(
            entries[i].2@,
            launched_at,
        ) && pair == (spec_row_key(entries[i]), entries[i].2@.expiration->Some_0))
}

/// Every queued pair is accounted for — so rows updated since launch, or
/// without an expiration, add nothing.
pub open spec fn spec_reloaded_queue_bounded(
    pre: Seq<(Seq<char>, Timestamp)>,
    post: Seq<(Seq<char>, Timestamp)>,
    entries: Seq<(Option<String>, String, Entry)>,
    launched_at: Timestamp,
) -> bool {
    forall|q: int|
        0 <= q < post.len() ==> #[trigger] spec_reloaded_pair_from(
            pre,
            post[q],
            entries,
            launched_at,
        )
}

/// One pair of the queue after an update already stood in it, or is the
/// updated key with its new instant.
pub open spec fn spec_queue_pair_kept_or_added(
    pre: Seq<(Seq<char>, Timestamp)>,
    pair: (Seq<char>, Timestamp),
    k: Seq<char>,
    expiration: Option<Timestamp>,
) -> bool {
    (exists|p: int| 0 <= p < pre.len() && #[trigger] pre[p] == pair) || (expiration matches Some(t)
        && pair == (k, t))
}

/// Every pair of `post` already stood in `pre`, or is the key `k` with the
/// new instant.
pub open spec fn spec_queue_grew_only_by(
    pre: Seq<(Seq<char>, Timestamp)>,
    post: Seq<(Seq<char>, Timestamp)>,
    k: Seq<char>,
    expiration: Option<Timestamp>,
) -> bool {
    forall|q: int|
        0 <= q < post.len() ==> #[trigger] spec_queue_pair_kept_or_added(
            pre,
            post[q],
            k,
            expiration,
        )
}

/// An expiration update adds at most its own pair: every pair of the queue
/// afterwards already stood in it, or is the updated key with its new
/// instant.
proof fn lemma_expiry_update_members(
    pre: Seq<(Seq<char>, Timestamp)>,
    post: Seq<(Seq<char>, Timestamp)>,
    k: Seq<char>,
    expiration: Option<Timestamp>,
    republished: bool,
)
    requires
        spec_expiry_update(pre, post, k, expiration, republished),
    ensures
        spec_queue_grew_only_by(pre, post, k, expiration),
{
    match expiration {
        Some(t) => {
            let (idx, pos) = choose|idx: int, pos: int|
                crate::state::spec_expiry_set_witness(pre, post, k, t, republished, idx, pos);
            let mid = if idx >= 0 {
                pre.remove(idx)
            } else {
                pre
            };
            assert forall|q: int|
                0 <= q < post.len() implies #[trigger] spec_queue_pair_kept_or_added(
                pre,
                post[q],
                k,
                expiration,
            ) by {
                if q == pos {
                    assert(post[q] == (k, t));
                } else {
                    let qm: int = if q < pos {
                        q
                    } else {
                        q - 1
                    };
                    assert(post[q] == mid[qm]);
                    let qp: int = if idx >= 0 && qm >= idx {
                        qm + 1
                    } else {
                        qm
                    };
                    assert(pre[qp] == post[q]);
                }
            }
        },
        None => {
            if exists|i: int| 0 <= i < pre.len() && (#[trigger] pre[i]).0 == k {
                let i = choose|i: int|
                    0 <= i < pre.len() && (#[trigger] pre[i]).0 == k && post == pre.remove(i)
                        && republished == (i == 0);
                assert forall|q: int|
                    0 <= q < post.len() implies #[trigger] spec_queue_pair_kept_or_added(
                    pre,
                    post[q],
                    k,
                    expiration,
                ) by {
                    let qp: int = if q < i {
                        q
                    } else {
                        q + 1
                    };
                    assert(pre[qp] == post[q]);
                }
            } else {
                assert forall|q: int|
                    0 <= q < post.len() implies #[trigger] spec_queue_pair_kept_or_added(
                    pre,
                    post[q],
                    k,
                    expiration,
                ) by {
                    assert(pre[q] == post[q]);
                }
            }
        },
    }
}

/// Giving a key an expiration puts its pair into the queue.
proof fn lemma_expiry_set_member(
    pre: Seq<(Seq<char>, Timestamp)>,
    post: Seq<(Seq<char>, Timestamp)>,
    k: Seq<char>,
    t: Timestamp,
    republished: bool,
)
    requires
        crate::state::spec_expiry_set(pre, post, k, t, republished),
    ensures
        exists|q: int| 0 <= q < post.len() && #[trigger] post[q] == (k, t),
{
    let (idx, pos) = choose|idx: int, pos: int|
        crate::state::spec_expiry_set_witness(pre, post, k, t, republished, idx, pos);
    assert(post[pos] == (k, t));
}

/// Updating one key's expiration never drops another key's pair from the
/// queue.
proof fn lemma_expiry_update_preserves_member(
    pre: Seq<(Seq<char>, Timestamp)>,
    post: Seq<(Seq<char>, Timestamp)>,
    k: Seq<char>,
    expiration: Option<Timestamp>,
    republished: bool,
    other: Seq<char>,
    other_time: Timestamp,
)
    requires
        spec_expiry_update(pre, post, k, expiration, republished),
        other != k,
        exists|q: int| 0 <= q < pre.len() && #[trigger] pre[q] == (other, other_time),
    ensures
        exists|q: int| 0 <= q < post.len() && #[trigger] post[q] == (other, other_time),
{
    let q0 = choose|q: int| 0 <= q < pre.len() && #[trigger] pre[q] == (other, other_time);
    match expiration {
        Some(t) => {
            let (idx, pos) = choose|idx: int, pos: int|
                crate::state::spec_expiry_set_witness(pre, post, k, t, republished, idx, pos);
            let mid = if idx >= 0 {
                pre.remove(idx)
            } else {
                pre
            };
            let q1: int = if idx >= 0 && q0 > idx {
                q0 - 1
            } else {
                q0
            };
            assert(idx != q0);
            assert(mid[q1] == (other, other_time));
            let q2: int = if q1 >= pos {
                q1 + 1
            } else {
                q1
            };
            assert(post[q2] == (other, other_time));
        },
        None => {
            if exists|i: int| 0 <= i < pre.len() && (#[trigger] pre[i]).0 == k {
                let i = choose|i: int|
                    0 <= i < pre.len() && (#[trigger] pre[i]).0 == k && post == pre.remove(i)
                        && republished == (i == 0);
                assert(i != q0);
                let q1: int = if q0 > i {
                    q0 - 1
                } else {
                    q0
                };
                assert(post[q1] == (other, other_time));
            } else {
                assert(post[q0] == (other, other_time));
            }
        },
    }
}

} // verus!
