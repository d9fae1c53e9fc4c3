//! The merge engine: combining the two sides' record lists into one
//! ordered timeline.
//!
//! Records are joined by identity (the destination record matching a source
//! record, if any, is attached to it) and the joined entries are ordered by
//! the source side's creation ordinal, ties broken by identity, so that the
//! timeline reflects the source's creation order.

use vstd::prelude::*;

use crate::record::Record;
use crate::strutil::{lex_lt, str_compare, Comparison};

verus! {

/// One position in the merged timeline: a source record together with the
/// identity-matching destination record, when one exists.
#[derive(Debug)]
pub struct MergedEntry {
    pub guid: String,
    pub source: Record,
    pub destination: Option<Record>,
}

/// Strict order on timeline keys: by source creation ordinal, ties broken
/// by identity.
pub open spec fn entry_key_lt(a: MergedEntry, b: MergedEntry) -> bool {
    ||| lex_lt(a.source.create_ordinal@, b.source.create_ordinal@)
    ||| (a.source.create_ordinal@ == b.source.create_ordinal@ && lex_lt(
        a.source.guid@,
        b.source.guid@,
    ))
}

/// The two entries carry the same key.
pub open spec fn entry_key_eq(a: MergedEntry, b: MergedEntry) -> bool {
    a.source.create_ordinal@ == b.source.create_ordinal@ && a.source.guid@ == b.source.guid@
}

/// The entry carries the key of the given source record.
pub open spec fn entry_has_record_key(e: MergedEntry, r: Record) -> bool {
    e.source.create_ordinal@ == r.create_ordinal@ && e.source.guid@ == r.guid@
}

/// The timeline is strictly ordered by key; in particular every key occurs
/// at most once.
pub open spec fn timeline_sorted(t: Seq<MergedEntry>) -> bool {
    forall|i: int, j: int|
        0 <= i < j < t.len() ==> entry_key_lt(#[trigger] t[i], #[trigger] t[j])
}

/// The key order is transitive.
pub proof fn lemma_entry_key_lt_trans(a: MergedEntry, b: MergedEntry, c: MergedEntry)
    requires
        entry_key_lt(a, b),
        entry_key_lt(b, c),
    ensures
        entry_key_lt(a, c),
{
    if lex_lt(a.source.create_ordinal@, b.source.create_ordinal@) && lex_lt(
        b.source.create_ordinal@,
        c.source.create_ordinal@,
    ) {
        crate::strutil::lemma_lex_lt_trans(
            a.source.create_ordinal@,
            b.source.create_ordinal@,
            c.source.create_ordinal@,
        );
    } else if entry_key_eq(a, b) || entry_key_eq(b, c) {
    } else if a.source.create_ordinal@ == b.source.create_ordinal@ && a.source.create_ordinal@
        == c.source.create_ordinal@ {
        crate::strutil::lemma_lex_lt_trans(a.source.guid@, b.source.guid@, c.source.guid@);
    }
}

/// Some record in `rs` carries identity `g`.
pub open spec fn guid_in(rs: Seq<Record>, g: Seq<char>) -> bool {
    exists|i: int| 0 <= i < rs.len() && (#[trigger] rs[i]).guid@ == g
}

/// The record `r` occurs in `rs`.
pub open spec fn rec_in(rs: Seq<Record>, r: Record) -> bool {
    exists|i: int| 0 <= i < rs.len() && #[trigger] rs[i] == r
}

/// No two records in `rs` share an identity.
pub open spec fn distinct_guids(rs: Seq<Record>) -> bool {
    forall|i: int, j: int|
        0 <= i < j < rs.len() ==> (#[trigger] rs[i]).guid@ != (#[trigger] rs[j]).guid@
}

/// Three-way comparison of two timeline keys.
pub fn entry_key_compare(a: &MergedEntry, b: &MergedEntry) -> (r: Comparison)
    ensures
        (r == Comparison::Less) == entry_key_lt(*a, *b),
        (r == Comparison::Equal) == entry_key_eq(*a, *b),
        (r == Comparison::Greater) == entry_key_lt(*b, *a),
{
    match str_compare(a.source.create_ordinal.as_str(), b.source.create_ordinal.as_str()) {
        Comparison::Less => Comparison::Less,
        Comparison::Greater => Comparison::Greater,
        Comparison::Equal => str_compare(a.source.guid.as_str(), b.source.guid.as_str()),
    }
}

/// Pairs every source record with the identity-matching destination record,
/// in source listing order.
///
/// Each destination record is attached to at most one source record: a
/// matched record is taken out of the pool, and records left unmatched at
/// the end are the destination-only ones, which the timeline never surfaces.
/// When several destination records share an identity the one listed last is
/// preferred.
fn pair_records(src: &Vec<Record>, dst: Vec<Record>) -> (out: Vec<MergedEntry>)
    ensures
        out@.len() == src@.len(),
        forall|k: int| 0 <= k < src@.len() ==> (#[trigger] out@[k]).source == src@[k],
        forall|k: int| 0 <= k < src@.len() ==> (#[trigger] out@[k]).guid@ == src@[k].guid@,
        forall|k: int|
            0 <= k < src@.len() ==> ((#[trigger] out@[k]).destination matches Some(d) ==> rec_in(
                dst@,
                d,
            ) && d.guid@ == src@[k].guid@),
        distinct_guids(src@) ==> forall|k: int|
            0 <= k < src@.len() ==> (((#[trigger] out@[k]).destination is Some) == guid_in(
                dst@,
                src@[k].guid@,
            )),
{
    let ghost d0 = dst@;
    let mut remaining = dst;
    let mut out: Vec<MergedEntry> = Vec::new();
    let n = src.len();
    let mut i: usize = 0;
    while i < n
        invariant
            i <= n,
            n == src@.len(),
            out@.len() == i,
            forall|k: int| 0 <= k < i ==> (#[trigger] out@[k]).source == src@[k],
            forall|k: int| 0 <= k < i ==> (#[trigger] out@[k]).guid@ == src@[k].guid@,
            forall|k: int|
                0 <= k < i ==> ((#[trigger] out@[k]).destination matches Some(d) ==> rec_in(
                    d0,
                    d,
                ) && d.guid@ == src@[k].guid@),
            forall|jj: int| 0 <= jj < remaining@.len() ==> rec_in(d0, #[trigger] remaining@[jj]),
            forall|jj: int|
                0 <= jj < d0.len() ==> guid_in(remaining@, (#[trigger] d0[jj]).guid@) || (
                exists|k: int|
                    0 <= k < i && (#[trigger] out@[k]).guid@ == d0[jj].guid@ && out@[k].destination
                        is Some),
            distinct_guids(src@) ==> forall|k: int|
                0 <= k < i ==> ((#[trigger] out@[k]).destination is None ==> !guid_in(
                    d0,
                    src@[k].guid@,
                )),
        decreases n - i,
    {
        let rec = src[i].clone();
        // remember the last identity match in the pool: of several records
        // with one identity, the one listed last wins
        let mut found: Option<usize> = None;
        let m = remaining.len();
        let mut j: usize = 0;
        while j < m
            invariant
                j <= m,
                m == remaining@.len(),
                rec == src@[i as int],
                i < n == src@.len(),
                match found {
                    Some(f) => f < j && remaining@[f as int].guid@ == rec.guid@,
                    None => forall|jj: int|
                        0 <= jj < j ==> (#[trigger] remaining@[jj]).guid@ != rec.guid@,
                },
            decreases m - j,
        {
            if remaining[j].guid == rec.guid {
                found = Some(j);
            }
            j = j + 1;
        }
        let ghost r_old = remaining@;
        let destination = match found {
            Some(f) => {
                let d = remaining.remove(f);
                proof {
                    r_old.remove_ensures(f as int);
                }
                Some(d)
            },
            None => None,
        };
        let guid = rec.guid.clone();
        let ghost out_old = out@;
        let ghost rec_g = rec.guid@;
        out.push(MergedEntry { guid, source: rec, destination });
        proof {
            let gi = rec_g;
            assert(forall|k: int| 0 <= k < i ==> #[trigger] out@[k] == out_old[k]);
            assert(out@[i as int].guid@ == gi);
            // the pool still holds only destination records
            assert forall|jj: int| 0 <= jj < remaining@.len() implies rec_in(
                d0,
                #[trigger] remaining@[jj],
            ) by {
                if found is Some {
                    let f = found->Some_0 as int;
                    if jj < f {
                        assert(remaining@[jj] == r_old[jj]);
                    } else {
                        assert(remaining@[jj] == r_old[jj + 1]);
                    }
                }
            }
            // every destination identity is still in the pool or already
            // attached to an emitted entry
            assert forall|jj: int| 0 <= jj < d0.len() implies guid_in(
                remaining@,
                (#[trigger] d0[jj]).guid@,
            ) || (exists|k: int|
                0 <= k < i + 1 && (#[trigger] out@[k]).guid@ == d0[jj].guid@ && out@[k].destination
                    is Some) by {
                let g = d0[jj].guid@;
                if exists|k: int|
                    0 <= k < i && (#[trigger] out_old[k]).guid@ == g && out_old[k].destination
                        is Some {
                    let k = choose|k: int|
                        0 <= k < i && (#[trigger] out_old[k]).guid@ == g && out_old[k].destination
                            is Some;
                    assert(out@[k].guid@ == g && out@[k].destination is Some);
                } else if guid_in(r_old, g) {
                    match found {
                        Some(f0) => {
                            let f = f0 as int;
                            if g == gi {
                                assert(out@[i as int].guid@ == g && out@[i as int].destination
                                    is Some);
                            } else {
                                let w = choose|w: int|
                                    0 <= w < r_old.len() && (#[trigger] r_old[w]).guid@ == g;
                                assert(r_old[f].guid@ == gi);
                                assert(w != f);
                                if w < f {
                                    assert(remaining@[w].guid@ == g);
                                } else {
                                    assert(remaining@[w - 1].guid@ == g);
                                }
                            }
                        },
                        None => {
                        },
                    }
                }
            }
            // when source identities are distinct, an entry without a match
            // proves its identity absent from the destination
            if distinct_guids(src@) {
                assert forall|k: int|
                    0 <= k < i + 1 implies ((#[trigger] out@[k]).destination is None
                    ==> !guid_in(d0, src@[k].guid@)) by {
                    if k == i as int && out@[k].destination is None && guid_in(d0, src@[k].guid@) {
                        let jj = choose|jj: int|
                            0 <= jj < d0.len() && (#[trigger] d0[jj]).guid@ == gi;
                        assert(guid_in(r_old, gi) || (exists|kk: int|
                            0 <= kk < i && (#[trigger] out_old[kk]).guid@ == gi
                                && out_old[kk].destination is Some));
                        if guid_in(r_old, gi) {
                            let w = choose|w: int|
                                0 <= w < r_old.len() && (#[trigger] r_old[w]).guid@ == gi;
                            assert(false);
                        } else {
                            let kk = choose|kk: int|
                                0 <= kk < i && (#[trigger] out_old[kk]).guid@ == gi
                                    && out_old[kk].destination is Some;
                            assert(out_old[kk].guid@ == src@[kk].guid@);
                            assert(src@[kk].guid@ != src@[i as int].guid@);
                            assert(false);
                        }
                    }
                }
            }
        }
        i = i + 1;
    }
    out
}

/// The entry `e` occurs in `es`.
pub open spec fn entry_in(es: Seq<MergedEntry>, e: MergedEntry) -> bool {
    exists|i: int| 0 <= i < es.len() && #[trigger] es[i] == e
}

/// Some entry in `es` carries the same key as `e`.
pub open spec fn key_in(es: Seq<MergedEntry>, e: MergedEntry) -> bool {
    exists|i: int| 0 <= i < es.len() && entry_key_eq(#[trigger] es[i], e)
}

/// No two entries in `es` share a key.
pub open spec fn distinct_keys(es: Seq<MergedEntry>) -> bool {
    forall|i: int, j: int|
        0 <= i < j < es.len() ==> !entry_key_eq(#[trigger] es[i], #[trigger] es[j])
}

/// Orders entries by key.  On a key already present the later entry wins,
/// so a duplicate key is tolerated rather than fatal.
#[verifier::rlimit(60)]
fn sort_entries(list: Vec<MergedEntry>) -> (out: Vec<MergedEntry>)
    ensures
        timeline_sorted(out@),
        forall|i: int| 0 <= i < out@.len() ==> entry_in(list@, #[trigger] out@[i]),
        forall|j: int| 0 <= j < list@.len() ==> key_in(out@, #[trigger] list@[j]),
        distinct_keys(list@) ==> forall|j: int|
            0 <= j < list@.len() ==> entry_in(out@, #[trigger] list@[j]),
{
    let ghost l0 = list@;
    let mut list = list;
    let mut out: Vec<MergedEntry> = Vec::new();
    let ghost idx: int = 0;
    while list.len() > 0
        invariant
            0 <= idx <= l0.len(),
            list@ =~= l0.skip(idx),
            timeline_sorted(out@),
            forall|i: int|
                0 <= i < out@.len() ==> exists|j: int|
                    0 <= j < idx && #[trigger] out@[i] == l0[j],
            forall|j: int| 0 <= j < idx ==> key_in(out@, #[trigger] l0[j]),
            distinct_keys(l0) ==> forall|j: int|
                0 <= j < idx ==> entry_in(out@, #[trigger] l0[j]),
        decreases list@.len(),
    {
        let e = list.remove(0);
        proof {
            assert(e == l0[idx]);
            assert(list@ =~= l0.skip(idx + 1));
        }
        // find the insertion point
        let mut p: usize = 0;
        while p < out.len()
            invariant
                p <= out@.len(),
                forall|q: int| 0 <= q < p ==> entry_key_lt(#[trigger] out@[q], e),
            ensures
                p <= out@.len(),
                forall|q: int| 0 <= q < p ==> entry_key_lt(#[trigger] out@[q], e),
                p < out@.len() ==> !entry_key_lt(out@[p as int], e),
            decreases out@.len() - p,
        {
            if !matches!(entry_key_compare(&out[p], &e), Comparison::Less) {
                break ;
            }
            p = p + 1;
        }
        let ghost out_old = out@;
        let ghost ev = e;
        let mut replaced = false;
        if p < out.len() {
            if matches!(entry_key_compare(&out[p], &e), Comparison::Equal) {
                replaced = true;
            }
        }
        if replaced {
            out.remove(p);
            out.insert(p, e);
            proof {
                out_old.remove_ensures(p as int);
                out_old.remove(p as int).insert_ensures(p as int, ev);
                assert(out@ =~= out_old.update(p as int, ev));
            }
        } else {
            out.insert(p, e);
            proof {
                out_old.insert_ensures(p as int, ev);
            }
        }
        proof {
            let pi = p as int;
            if replaced {
                assert(entry_key_eq(out_old[pi], ev));
                // an equal key takes the old key's place in the order
                assert forall|i: int, j: int| 0 <= i < j < out@.len() implies entry_key_lt(
                    #[trigger] out@[i],
                    #[trigger] out@[j],
                ) by {
                    assert(out@[i] == if i == pi {
                        ev
                    } else {
                        out_old[i]
                    });
                    assert(out@[j] == if j == pi {
                        ev
                    } else {
                        out_old[j]
                    });
                    assert(entry_key_lt(out_old[i], out_old[j]));
                }
                assert forall|j: int| 0 <= j < idx + 1 implies key_in(
                    out@,
                    #[trigger] l0[j],
                ) by {
                    if j < idx {
                        let w = choose|w: int|
                            0 <= w < out_old.len() && entry_key_eq(#[trigger] out_old[w], l0[j]);
                        if w == pi {
                            assert(entry_key_eq(out@[pi], l0[j]));
                        } else {
                            assert(entry_key_eq(out@[w], l0[j]));
                        }
                    } else {
                        assert(entry_key_eq(out@[pi], l0[j]));
                    }
                }
                if distinct_keys(l0) {
                    // a replacement would mean two input entries share a key
                    let wj = choose|wj: int| 0 <= wj < idx && #[trigger] out_old[pi] == l0[wj];
                    assert(entry_key_eq(l0[wj], l0[idx]));
                    assert(false);
                }
            } else {
                if pi < out_old.len() {
                    assert(entry_key_lt(ev, out_old[pi]));
                }
                assert forall|i: int, j: int| 0 <= i < j < out@.len() implies entry_key_lt(
                    #[trigger] out@[i],
                    #[trigger] out@[j],
                ) by {
                    if i < pi && j == pi {
                        assert(out@[i] == out_old[i] && out@[j] == ev);
                    } else if i == pi && j > pi {
                        assert(out@[i] == ev && out@[j] == out_old[j - 1]);
                        if pi < out_old.len() {
                            if j - 1 > pi {
                                lemma_entry_key_lt_trans(ev, out_old[pi], out_old[j - 1]);
                            }
                        }
                    } else if i < pi && j > pi {
                        assert(out@[i] == out_old[i] && out@[j] == out_old[j - 1]);
                        assert(entry_key_lt(out_old[i], out_old[j - 1]));
                    } else if j < pi {
                        assert(out@[i] == out_old[i] && out@[j] == out_old[j]);
                    } else {
                        assert(i > pi);
                        assert(out@[i] == out_old[i - 1] && out@[j] == out_old[j - 1]);
                    }
                }
                assert forall|j: int| 0 <= j < idx + 1 implies key_in(
                    out@,
                    #[trigger] l0[j],
                ) by {
                    if j < idx {
                        let w = choose|w: int|
                            0 <= w < out_old.len() && entry_key_eq(#[trigger] out_old[w], l0[j]);
                        if w < pi {
                            assert(entry_key_eq(out@[w], l0[j]));
                        } else {
                            assert(entry_key_eq(out@[w + 1], l0[j]));
                        }
                    } else {
                        assert(entry_key_eq(out@[pi], l0[j]));
                    }
                }
            }
            // every held entry came from the input prefix
            assert forall|i: int| 0 <= i < out@.len() implies exists|j: int|
                0 <= j < idx + 1 && #[trigger] out@[i] == l0[j] by {
                if replaced {
                    if i == pi {
                        assert(out@[i] == l0[idx]);
                    } else {
                        let j = choose|j: int| 0 <= j < idx && #[trigger] out_old[i] == l0[j];
                        assert(out@[i] == l0[j]);
                    }
                } else {
                    if i == pi {
                        assert(out@[i] == l0[idx]);
                    } else if i < pi {
                        let j = choose|j: int| 0 <= j < idx && #[trigger] out_old[i] == l0[j];
                        assert(out@[i] == l0[j]);
                    } else {
                        let j = choose|j: int|
                            0 <= j < idx && #[trigger] out_old[i - 1] == l0[j];
                        assert(out@[i] == l0[j]);
                    }
                }
            }
            if distinct_keys(l0) {
                if replaced {
                    let wj = choose|wj: int| 0 <= wj < idx && #[trigger] out_old[pi] == l0[wj];
                    assert(entry_key_eq(l0[wj], l0[idx]));
                    assert(false);
                }
                assert forall|j: int| 0 <= j < idx + 1 implies entry_in(
                    out@,
                    #[trigger] l0[j],
                ) by {
                    if j < idx {
                        let w = choose|w: int| 0 <= w < out_old.len() && #[trigger] out_old[w]
                            == l0[j];
                        if w < pi {
                            assert(out@[w] == l0[j]);
                        } else {
                            assert(out@[w + 1] == l0[j]);
                        }
                    } else {
                        assert(out@[pi] == l0[j]);
                    }
                }
            }
            idx = idx + 1;
        }
    }
    proof {
        assert(idx == l0.len());
    }
    out
}

/// Some entry in `es` carries the key of source record `r`.
pub open spec fn record_key_in(es: Seq<MergedEntry>, r: Record) -> bool {
    exists|i: int| 0 <= i < es.len() && entry_has_record_key(#[trigger] es[i], r)
}

/// Some entry in `es` has `r` as its source record.
pub open spec fn source_in(es: Seq<MergedEntry>, r: Record) -> bool {
    exists|i: int| 0 <= i < es.len() && (#[trigger] es[i]).source == r
}

/// A key never precedes itself.
pub proof fn lemma_entry_key_lt_irrefl(a: MergedEntry, b: MergedEntry)
    requires
        entry_key_eq(a, b),
    ensures
        !entry_key_lt(a, b),
{
    crate::strutil::lemma_lex_lt_irrefl(a.source.create_ordinal@);
    crate::strutil::lemma_lex_lt_irrefl(a.source.guid@);
}

/// Merges the two sides' listings into the timeline.
///
/// Every source record contributes its key to the timeline; destination
/// records are attached to the identity-matching source entry and
/// destination-only records are dropped, because the destination's own
/// retention decisions are not the source's to revisit.  The result is
/// strictly ordered by (creation ordinal, identity).
///
/// When no two source records share an identity — the normal state of a
/// listing — the contract pins the timeline down completely: the entries'
/// sources are exactly the source records, each identity appears exactly
/// once, and an entry carries a destination record exactly when the
/// destination listed that identity.
pub fn merge_records(src: &Vec<Record>, dst: Vec<Record>) -> (t: Vec<MergedEntry>)
    ensures
        timeline_sorted(t@),
        forall|i: int|
            0 <= i < t@.len() ==> (#[trigger] t@[i]).guid@ == t@[i].source.guid@,
        forall|i: int| 0 <= i < t@.len() ==> rec_in(src@, (#[trigger] t@[i]).source),
        forall|j: int| 0 <= j < src@.len() ==> record_key_in(t@, #[trigger] src@[j]),
        forall|i: int|
            0 <= i < t@.len() ==> ((#[trigger] t@[i]).destination matches Some(d) ==> rec_in(
                dst@,
                d,
            ) && d.guid@ == t@[i].guid@),
        distinct_guids(src@) ==> forall|i: int|
            0 <= i < t@.len() ==> (((#[trigger] t@[i]).destination is Some) == guid_in(
                dst@,
                t@[i].guid@,
            )),
        distinct_guids(src@) ==> forall|j: int|
            0 <= j < src@.len() ==> source_in(t@, #[trigger] src@[j]),
        distinct_guids(src@) ==> forall|i1: int, i2: int|
            0 <= i1 < t@.len() && 0 <= i2 < t@.len() && (#[trigger] t@[i1]).guid@ == (
            #[trigger] t@[i2]).guid@ ==> i1 == i2,
{
    let paired = pair_records(src, dst);
    let ghost pv = paired@;
    let t = sort_entries(paired);
    proof {
        assert forall|i: int| 0 <= i < t@.len() implies (#[trigger] t@[i]).guid@
            == t@[i].source.guid@ && rec_in(src@, t@[i].source) by {
            let k = choose|k: int| 0 <= k < pv.len() && #[trigger] pv[k] == t@[i];
            assert(pv[k].source == src@[k]);
        }
        assert forall|j: int| 0 <= j < src@.len() implies record_key_in(
            t@,
            #[trigger] src@[j],
        ) by {
            let i = choose|i: int| 0 <= i < t@.len() && entry_key_eq(#[trigger] t@[i], pv[j]);
            assert(entry_has_record_key(t@[i], src@[j]));
        }
        assert forall|i: int| 0 <= i < t@.len() implies ((#[trigger] t@[i]).destination
            matches Some(d) ==> rec_in(dst@, d) && d.guid@ == t@[i].guid@) by {
            let k = choose|k: int| 0 <= k < pv.len() && #[trigger] pv[k] == t@[i];
            assert(pv[k].destination matches Some(d) ==> rec_in(dst@, d) && d.guid@
                == src@[k].guid@);
        }
        if distinct_guids(src@) {
            assert forall|i: int| 0 <= i < t@.len() implies (((#[trigger] t@[i]).destination
                is Some) == guid_in(dst@, t@[i].guid@)) by {
                let k = choose|k: int| 0 <= k < pv.len() && #[trigger] pv[k] == t@[i];
                assert((pv[k].destination is Some) == guid_in(dst@, src@[k].guid@));
            }
            assert(distinct_keys(pv)) by {
                assert forall|i: int, j: int| 0 <= i < j < pv.len() implies !entry_key_eq(
                    #[trigger] pv[i],
                    #[trigger] pv[j],
                ) by {
                    assert(pv[i].source == src@[i] && pv[j].source == src@[j]);
                    assert(src@[i].guid@ != src@[j].guid@);
                }
            }
            assert forall|j: int| 0 <= j < src@.len() implies source_in(
                t@,
                #[trigger] src@[j],
            ) by {
                let i = choose|i: int| 0 <= i < t@.len() && #[trigger] t@[i] == pv[j];
                assert(t@[i].source == src@[j]);
            }
            assert forall|i1: int, i2: int|
                0 <= i1 < t@.len() && 0 <= i2 < t@.len() && (#[trigger] t@[i1]).guid@ == (
                #[trigger] t@[i2]).guid@ implies i1 == i2 by {
                if i1 != i2 {
                    let k1 = choose|k: int| 0 <= k < pv.len() && #[trigger] pv[k] == t@[i1];
                    let k2 = choose|k: int| 0 <= k < pv.len() && #[trigger] pv[k] == t@[i2];
                    assert(t@[i1].guid@ == src@[k1].guid@ && t@[i2].guid@ == src@[k2].guid@);
                    assert(k1 == k2);
                    assert(t@[i1] == t@[i2]);
                    if i1 < i2 {
                        assert(entry_key_lt(t@[i1], t@[i2]));
                        lemma_entry_key_lt_irrefl(t@[i1], t@[i2]);
                    } else {
                        assert(entry_key_lt(t@[i2], t@[i1]));
                        lemma_entry_key_lt_irrefl(t@[i2], t@[i1]);
                    }
                }
            }
        }
    }
    t
}

/// Along any well-ordered timeline the source creation ordinals never
/// decrease: the merge orders entries by ordinal first.
pub proof fn lemma_timeline_ordinals_nondecreasing(t: Seq<MergedEntry>)
    requires
        timeline_sorted(t),
    ensures
        forall|i: int, j: int|
            0 <= i <= j < t.len() ==> crate::strutil::lex_le(
                (#[trigger] t[i]).source.create_ordinal@,
                (#[trigger] t[j]).source.create_ordinal@,
            ),
{
    assert forall|i: int, j: int| 0 <= i <= j < t.len() implies crate::strutil::lex_le(
        (#[trigger] t[i]).source.create_ordinal@,
        (#[trigger] t[j]).source.create_ordinal@,
    ) by {
        if i < j {
            assert(entry_key_lt(t[i], t[j]));
        }
    }
}

} // verus!
