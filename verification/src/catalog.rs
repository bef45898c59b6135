//! Merging access points by network name.
//!
//! A catalog is a sequence of access points in which no network name occurs
//! twice. Records arrive one at a time; a record whose name the catalog
//! already holds replaces the held one only if it is strictly stronger, and
//! takes its place. A new name goes to the end. So the catalog holds, for
//! each name, the earliest of the strongest records that came under it, and
//! lists the names in the order in which they first came.

use vstd::prelude::*;
use crate::access_point::{AccessPoint, AccessPointView};

verus! {

/// Index of the first record named `ssid`, or the catalog's length if there is none.
pub open spec fn slot(catalog: Seq<AccessPointView>, ssid: Seq<char>) -> int
    decreases catalog.len(),
{
    if catalog.len() == 0 {
        0
    } else if catalog.first().ssid == ssid {
        0
    } else {
        1 + slot(catalog.drop_first(), ssid)
    }
}

/// No network name occurs twice.
pub open spec fn distinct_ssids(catalog: Seq<AccessPointView>) -> bool {
    forall|i: int, j: int|
        0 <= i < j < catalog.len() ==> #[trigger] catalog[i].ssid != #[trigger] catalog[j].ssid
}

/// The catalog after one more record has arrived.
pub open spec fn merge_one(catalog: Seq<AccessPointView>, ap: AccessPointView) -> Seq<
    AccessPointView,
> {
    let at = slot(catalog, ap.ssid);
    if at == catalog.len() {
        catalog.push(ap)
    } else if ap.strength > catalog[at].strength {
        catalog.update(at, ap)
    } else {
        catalog
    }
}

/// The catalog that holds `catalog` after `records` have arrived in order.
pub open spec fn merge_onto(catalog: Seq<AccessPointView>, records: Seq<AccessPointView>) -> Seq<
    AccessPointView,
>
    decreases records.len(),
{
    if records.len() == 0 {
        catalog
    } else {
        merge_one(merge_onto(catalog, records.drop_last()), records.last())
    }
}

/// The catalog of `records`, starting from nothing.
pub open spec fn merge_all(records: Seq<AccessPointView>) -> Seq<AccessPointView> {
    merge_onto(Seq::empty(), records)
}

/// What [`slot`] finds: the first record of that name and nothing before it.
pub proof fn lemma_slot(catalog: Seq<AccessPointView>, ssid: Seq<char>)
    ensures
        0 <= slot(catalog, ssid) <= catalog.len(),
        slot(catalog, ssid) < catalog.len() ==> catalog[slot(catalog, ssid)].ssid == ssid,
        forall|j: int| 0 <= j < slot(catalog, ssid) ==> (#[trigger] catalog[j]).ssid != ssid,
    decreases catalog.len(),
{
    if catalog.len() > 0 && catalog.first().ssid != ssid {
        let rest = catalog.drop_first();
        lemma_slot(rest, ssid);
        assert forall|j: int| 0 <= j < slot(catalog, ssid) implies (#[trigger] catalog[j]).ssid
            != ssid by {
            if j > 0 {
                assert(catalog[j] == rest[j - 1]);
            }
        }
    }
}

/// The position [`slot`] finds is the only one with its properties.
pub proof fn lemma_slot_is(catalog: Seq<AccessPointView>, ssid: Seq<char>, at: int)
    requires
        0 <= at <= catalog.len(),
        at < catalog.len() ==> catalog[at].ssid == ssid,
        forall|j: int| 0 <= j < at ==> (#[trigger] catalog[j]).ssid != ssid,
    ensures
        slot(catalog, ssid) == at,
{
    lemma_slot(catalog, ssid);
    let found = slot(catalog, ssid);
    if found < at {
        assert(catalog[found].ssid != ssid);
    } else if found > at {
        assert(catalog[at].ssid != ssid);
    }
}

/// Where a name is found after one record was appended.
pub proof fn lemma_slot_push(catalog: Seq<AccessPointView>, ap: AccessPointView, ssid: Seq<char>)
    ensures
        slot(catalog.push(ap), ssid) == if slot(catalog, ssid) < catalog.len() {
            slot(catalog, ssid)
        } else if ap.ssid == ssid {
            catalog.len() as int
        } else {
            catalog.len() as int + 1
        },
{
    lemma_slot(catalog, ssid);
    let longer = catalog.push(ap);
    let at = if slot(catalog, ssid) < catalog.len() {
        slot(catalog, ssid)
    } else if ap.ssid == ssid {
        catalog.len() as int
    } else {
        catalog.len() as int + 1
    };
    assert forall|j: int| 0 <= j < at implies (#[trigger] longer[j]).ssid != ssid by {
        if j < catalog.len() {
            assert(longer[j] == catalog[j]);
        }
    }
    lemma_slot_is(longer, ssid, at);
}

/// Replacing a record by one of the same name moves no name.
pub proof fn lemma_slot_update(
    catalog: Seq<AccessPointView>,
    at: int,
    ap: AccessPointView,
    ssid: Seq<char>,
)
    requires
        0 <= at < catalog.len(),
        catalog[at].ssid == ap.ssid,
    ensures
        slot(catalog.update(at, ap), ssid) == slot(catalog, ssid),
{
    lemma_slot(catalog, ssid);
    let changed = catalog.update(at, ap);
    let found = slot(catalog, ssid);
    assert forall|j: int| 0 <= j < found implies (#[trigger] changed[j]).ssid != ssid by {
        assert(catalog[j].ssid != ssid);
    }
    lemma_slot_is(changed, ssid, found);
}

/// In a catalog without repeated names every record sits at its name's slot.
pub proof fn lemma_slot_of_record(catalog: Seq<AccessPointView>, at: int)
    requires
        distinct_ssids(catalog),
        0 <= at < catalog.len(),
    ensures
        slot(catalog, catalog[at].ssid) == at,
{
    lemma_slot_is(catalog, catalog[at].ssid, at);
}

/// The merge rule keeps names apart.
pub proof fn lemma_merge_one_distinct(catalog: Seq<AccessPointView>, ap: AccessPointView)
    requires
        distinct_ssids(catalog),
    ensures
        distinct_ssids(merge_one(catalog, ap)),
{
    lemma_slot(catalog, ap.ssid);
    let at = slot(catalog, ap.ssid);
    let merged = merge_one(catalog, ap);
    assert forall|i: int, j: int| 0 <= i < j < merged.len() implies (#[trigger] merged[i]).ssid != (
    #[trigger] merged[j]).ssid by {
        if at == catalog.len() {
            assert(merged[i] == catalog[i]);
            if j < catalog.len() {
                assert(merged[j] == catalog[j]);
            }
        } else {
            assert(merged[i].ssid == catalog[i].ssid);
            assert(merged[j].ssid == catalog[j].ssid);
        }
    }
}

/// Where a name is found after one record was merged in: where it was, or
/// at the new end if the record brought it.
pub proof fn lemma_slot_merge_one(
    catalog: Seq<AccessPointView>,
    ap: AccessPointView,
    ssid: Seq<char>,
)
    ensures
        merge_one(catalog, ap).len() == if slot(catalog, ap.ssid) == catalog.len() {
            catalog.len() as int + 1
        } else {
            catalog.len() as int
        },
        slot(merge_one(catalog, ap), ssid) == if slot(catalog, ssid) < catalog.len() {
            slot(catalog, ssid)
        } else if ap.ssid == ssid {
            catalog.len() as int
        } else {
            merge_one(catalog, ap).len() as int
        },
{
    lemma_slot(catalog, ap.ssid);
    lemma_slot(catalog, ssid);
    let at = slot(catalog, ap.ssid);
    if at == catalog.len() {
        lemma_slot_push(catalog, ap, ssid);
    } else if ap.strength > catalog[at].strength {
        lemma_slot_update(catalog, at, ap, ssid);
        if slot(catalog, ssid) == catalog.len() && ap.ssid == ssid {
            assert(false);
        }
    } else {
        if slot(catalog, ssid) == catalog.len() && ap.ssid == ssid {
            assert(false);
        }
    }
}

/// Records may arrive in one batch or in two.
pub proof fn lemma_merge_onto_concat(
    catalog: Seq<AccessPointView>,
    first: Seq<AccessPointView>,
    second: Seq<AccessPointView>,
)
    ensures
        merge_onto(catalog, first + second) == merge_onto(merge_onto(catalog, first), second),
    decreases second.len(),
{
    if second.len() == 0 {
        assert(first + second =~= first);
    } else {
        lemma_merge_onto_concat(catalog, first, second.drop_last());
        assert((first + second).drop_last() =~= first + second.drop_last());
        assert((first + second).last() == second.last());
    }
}

/// A batch of one record is that record merged in.
pub proof fn lemma_merge_onto_one(catalog: Seq<AccessPointView>, ap: AccessPointView)
    ensures
        merge_onto(catalog, seq![ap]) == merge_one(catalog, ap),
{
    assert(seq![ap].drop_last() =~= Seq::<AccessPointView>::empty());
    assert(merge_onto(catalog, seq![ap].drop_last()) == catalog);
}

/// `records[at]` is the earliest among the strongest records of its name.
pub open spec fn leads(records: Seq<AccessPointView>, at: int) -> bool {
    &&& 0 <= at < records.len()
    &&& forall|j: int|
        0 <= j < records.len() && (#[trigger] records[j]).ssid == records[at].ssid ==> {
            ||| records[j].strength < records[at].strength
            ||| records[j].strength == records[at].strength && at <= j
        }
}

/// `ap` is one of `records`: the earliest among the strongest of its name.
pub open spec fn champion(records: Seq<AccessPointView>, ap: AccessPointView) -> bool {
    exists|i: int| #[trigger] leads(records, i) && records[i] == ap
}

/// The catalog of any records holds each name that occurs among them, and
/// holds it once.
pub proof fn lemma_merge_all_names(records: Seq<AccessPointView>)
    ensures
        distinct_ssids(merge_all(records)),
        forall|ssid: Seq<char>|
            #![trigger slot(merge_all(records), ssid)]
            slot(merge_all(records), ssid) < merge_all(records).len() <==> slot(records, ssid)
                < records.len(),
    decreases records.len(),
{
    if records.len() > 0 {
        let earlier = records.drop_last();
        let ap = records.last();
        let held = merge_all(earlier);
        lemma_merge_all_names(earlier);
        lemma_merge_one_distinct(held, ap);
        assert(records =~= earlier.push(ap));
        assert forall|ssid: Seq<char>|
            #![trigger slot(merge_all(records), ssid)]
            slot(merge_all(records), ssid) < merge_all(records).len() <==> slot(records, ssid)
                < records.len() by {
            lemma_slot_merge_one(held, ap, ssid);
            lemma_slot_push(earlier, ap, ssid);
            assert(slot(held, ssid) < held.len() <==> slot(earlier, ssid) < earlier.len());
            assert(slot(held, ap.ssid) < held.len() <==> slot(earlier, ap.ssid) < earlier.len());
            lemma_slot(held, ssid);
            lemma_slot(earlier, ssid);
        }
    }
}

/// The record the catalog holds under a name is as strong as any record of
/// that name, and it is the earliest of the strongest.
pub proof fn lemma_merge_all_strongest(records: Seq<AccessPointView>)
    ensures
        forall|i: int|
            0 <= i < records.len() ==> {
                let at = slot(merge_all(records), (#[trigger] records[i]).ssid);
                at < merge_all(records).len() && records[i].strength <= merge_all(
                    records,
                )[at].strength
            },
        forall|k: int|
            0 <= k < merge_all(records).len() ==> champion(
                records,
                #[trigger] merge_all(records)[k],
            ),
    decreases records.len(),
{
    if records.len() > 0 {
        let earlier = records.drop_last();
        let ap = records.last();
        let held = merge_all(earlier);
        let merged = merge_all(records);
        let last = records.len() - 1;
        let at = slot(held, ap.ssid);
        lemma_merge_all_strongest(earlier);
        lemma_merge_all_names(earlier);
        lemma_slot(held, ap.ssid);
        lemma_slot(earlier, ap.ssid);
        assert(merged == merge_one(held, ap));
        assert(slot(held, ap.ssid) < held.len() <==> slot(earlier, ap.ssid) < earlier.len());
        assert forall|i: int| 0 <= i < records.len() implies {
            let to = slot(merged, (#[trigger] records[i]).ssid);
            to < merged.len() && records[i].strength <= merged[to].strength
        } by {
            let ssid = records[i].ssid;
            lemma_slot_merge_one(held, ap, ssid);
            lemma_slot(held, ssid);
            let to = slot(merged, ssid);
            if i < last {
                assert(records[i] == earlier[i]);
                assert(to == slot(held, ssid));
                assert(earlier[i].strength <= held[to].strength);
                if at == held.len() {
                    assert(merged[to] == held[to]);
                } else if to != at {
                    assert(merged[to] == held[to]);
                }
            } else {
                if at == held.len() {
                    assert(merged[to] == ap);
                }
            }
        }
        assert forall|k: int| 0 <= k < merged.len() implies champion(
            records,
            #[trigger] merged[k],
        ) by {
            if merged[k] == ap && (at == held.len() || ap.strength > held[at].strength) && (k
                == at) {
                assert forall|j: int|
                    0 <= j < records.len() && (#[trigger] records[j]).ssid
                        == records[last].ssid implies {
                    ||| records[j].strength < records[last].strength
                    ||| records[j].strength == records[last].strength && last <= j
                } by {
                    if j < last {
                        assert(records[j] == earlier[j]);
                        assert(earlier[j].ssid == ap.ssid);
                    }
                }
                assert(leads(records, last));
            } else {
                assert(k < held.len());
                assert(merged[k] == held[k]);
                assert(champion(earlier, held[k]));
                let i = choose|i: int| #[trigger] leads(earlier, i) && earlier[i] == held[k];
                assert(records[i] == earlier[i]);
                assert forall|j: int|
                    0 <= j < records.len() && (#[trigger] records[j]).ssid
                        == records[i].ssid implies {
                    ||| records[j].strength < records[i].strength
                    ||| records[j].strength == records[i].strength && i <= j
                } by {
                    if j < last {
                        assert(records[j] == earlier[j]);
                    } else {
                        lemma_slot_of_record(held, k);
                    }
                }
                assert(leads(records, i));
            }
        }
    }
}

/// The catalog lists the names in the order in which they first arrived.
pub proof fn lemma_merge_all_order(records: Seq<AccessPointView>)
    ensures
        forall|k: int, l: int|
            0 <= k < l < merge_all(records).len() ==> slot(
                records,
                (#[trigger] merge_all(records)[k]).ssid,
            ) < slot(records, (#[trigger] merge_all(records)[l]).ssid),
    decreases records.len(),
{
    if records.len() > 0 {
        let earlier = records.drop_last();
        let ap = records.last();
        let held = merge_all(earlier);
        let merged = merge_all(records);
        lemma_merge_all_order(earlier);
        lemma_merge_all_names(earlier);
        lemma_slot(held, ap.ssid);
        assert(records =~= earlier.push(ap));
        assert(merged == merge_one(held, ap));
        assert forall|k: int, l: int| 0 <= k < l < merged.len() implies slot(
            records,
            (#[trigger] merged[k]).ssid,
        ) < slot(records, (#[trigger] merged[l]).ssid) by {
            lemma_slot_push(earlier, ap, merged[k].ssid);
            lemma_slot_push(earlier, ap, merged[l].ssid);
            lemma_slot_of_record(held, k);
            assert(merged[k].ssid == held[k].ssid);
            assert(slot(held, held[k].ssid) < held.len() <==> slot(earlier, held[k].ssid)
                < earlier.len());
            if l < held.len() {
                lemma_slot_of_record(held, l);
                assert(merged[l].ssid == held[l].ssid);
                assert(slot(held, held[l].ssid) < held.len() <==> slot(earlier, held[l].ssid)
                    < earlier.len());
            } else {
                assert(merged[l] == ap);
                assert(slot(held, ap.ssid) < held.len() <==> slot(earlier, ap.ssid)
                    < earlier.len());
            }
        }
    }
}

/// Adds `ap` to the catalog under the merge rule: it takes the place of the
/// record of its name if it is strictly stronger, is dropped if it is not,
/// and goes to the end if the catalog has no record of its name. A catalog
/// without repeated names stays one.
pub fn merge_access_point(catalog: &mut Vec<AccessPoint>, ap: AccessPoint)
    ensures
        final(catalog).deep_view() == merge_one(old(catalog).deep_view(), ap@),
        distinct_ssids(old(catalog).deep_view()) ==> distinct_ssids(final(catalog).deep_view()),
{
    let ghost before = catalog.deep_view();
    proof {
        if distinct_ssids(before) {
            lemma_merge_one_distinct(before, ap@);
        }
    }
    let mut i: usize = 0;
    while i < catalog.len()
        invariant
            i <= catalog.len(),
            catalog.deep_view() == before,
            before == old(catalog).deep_view(),
            forall|j: int| 0 <= j < i ==> (#[trigger] before[j]).ssid != ap@.ssid,
        decreases catalog.len() - i,
    {
        if catalog[i].ssid == ap.ssid {
            proof {
                lemma_slot(before, ap@.ssid);
                assert(before[i as int] == catalog@[i as int]@);
            }
            if ap.strength > catalog[i].strength {
                catalog[i] = ap;
                assert(catalog.deep_view() =~= before.update(i as int, ap@));
            }
            return ;
        }
        assert(before[i as int] == catalog@[i as int]@);
        i += 1;
    }
    proof {
        lemma_slot(before, ap@.ssid);
    }
    catalog.push(ap);
    assert(catalog.deep_view() =~= before.push(ap@));
}

} // verus!
