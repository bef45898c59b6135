//! Ranking a catalog of access points by signal strength.
//!
//! The ranked catalog runs from strongest to weakest. Records of equal
//! strength stay in the order the catalog had them, so the ranking of a
//! catalog is one definite sequence.

use vstd::prelude::*;
use crate::access_point::{AccessPoint, AccessPointView};
use crate::catalog::{
    champion, distinct_ssids, lemma_merge_all_names, lemma_merge_all_order,
    lemma_merge_all_strongest, lemma_slot, lemma_slot_is, lemma_slot_push, merge_all, slot,
};

verus! {

/// Index of the first record weaker than `strength`, or the length if none is.
pub open spec fn landing(ranked: Seq<AccessPointView>, strength: u8) -> int
    decreases ranked.len(),
{
    if ranked.len() == 0 {
        0
    } else if ranked.first().strength < strength {
        0
    } else {
        1 + landing(ranked.drop_first(), strength)
    }
}

/// `ap` put behind every record that is at least as strong.
pub open spec fn place(ranked: Seq<AccessPointView>, ap: AccessPointView) -> Seq<AccessPointView> {
    ranked.insert(landing(ranked, ap.strength), ap)
}

/// The catalog from strongest to weakest, equally strong records in catalog order.
pub open spec fn rank(catalog: Seq<AccessPointView>) -> Seq<AccessPointView>
    decreases catalog.len(),
{
    if catalog.len() == 0 {
        catalog
    } else {
        place(rank(catalog.drop_last()), catalog.last())
    }
}

/// Strength never rises along the sequence.
pub open spec fn descending(ranked: Seq<AccessPointView>) -> bool {
    forall|i: int, j: int|
        0 <= i < j < ranked.len() ==> (#[trigger] ranked[i]).strength >= (
        #[trigger] ranked[j]).strength
}

/// What [`landing`] finds: the first weaker record and none before it.
pub proof fn lemma_landing(ranked: Seq<AccessPointView>, strength: u8)
    ensures
        0 <= landing(ranked, strength) <= ranked.len(),
        landing(ranked, strength) < ranked.len() ==> ranked[landing(ranked, strength)].strength
            < strength,
        forall|j: int|
            0 <= j < landing(ranked, strength) ==> (#[trigger] ranked[j]).strength >= strength,
    decreases ranked.len(),
{
    if ranked.len() > 0 && ranked.first().strength >= strength {
        let rest = ranked.drop_first();
        lemma_landing(rest, strength);
        assert forall|j: int| 0 <= j < landing(ranked, strength) implies (
        #[trigger] ranked[j]).strength >= strength by {
            if j > 0 {
                assert(ranked[j] == rest[j - 1]);
            }
        }
    }
}

/// Ranking keeps the number of records.
pub proof fn lemma_rank_len(catalog: Seq<AccessPointView>)
    ensures
        rank(catalog).len() == catalog.len(),
    decreases catalog.len(),
{
    if catalog.len() > 0 {
        lemma_rank_len(catalog.drop_last());
        lemma_landing(rank(catalog.drop_last()), catalog.last().strength);
    }
}

/// Every ranked record is the catalog's record of its name.
pub open spec fn drawn_from(ranked: Seq<AccessPointView>, catalog: Seq<AccessPointView>) -> bool {
    forall|i: int|
        0 <= i < ranked.len() ==> {
            let at = slot(catalog, (#[trigger] ranked[i]).ssid);
            at < catalog.len() && catalog[at] == ranked[i]
        }
}

/// Placing a record into a descending sequence leaves it descending.
pub proof fn lemma_place_descending(ranked: Seq<AccessPointView>, ap: AccessPointView)
    requires
        descending(ranked),
    ensures
        descending(place(ranked, ap)),
{
    lemma_landing(ranked, ap.strength);
    let at = landing(ranked, ap.strength);
    let placed = place(ranked, ap);
    assert forall|i: int, j: int| 0 <= i < j < placed.len() implies (
    #[trigger] placed[i]).strength >= (#[trigger] placed[j]).strength by {
        if j < at {
            assert(placed[i] == ranked[i] && placed[j] == ranked[j]);
        } else if j == at {
            assert(placed[i] == ranked[i]);
        } else if i < at {
            assert(placed[i] == ranked[i] && placed[j] == ranked[j - 1]);
        } else if i == at {
            assert(placed[j] == ranked[j - 1]);
            assert(ranked[at].strength >= ranked[j - 1].strength || at == j - 1);
        } else {
            assert(placed[i] == ranked[i - 1] && placed[j] == ranked[j - 1]);
        }
    }
}

/// The ranked catalog never rises in strength.
pub proof fn lemma_rank_descending(catalog: Seq<AccessPointView>)
    ensures
        descending(rank(catalog)),
    decreases catalog.len(),
{
    if catalog.len() > 0 {
        lemma_rank_descending(catalog.drop_last());
        lemma_place_descending(rank(catalog.drop_last()), catalog.last());
    }
}

/// Ranking rearranges: it neither drops a record nor adds one.
pub proof fn lemma_rank_permutes(catalog: Seq<AccessPointView>)
    ensures
        rank(catalog).to_multiset() == catalog.to_multiset(),
    decreases catalog.len(),
{
    if catalog.len() > 0 {
        let earlier = catalog.drop_last();
        let ranked = rank(earlier);
        lemma_rank_permutes(earlier);
        lemma_landing(ranked, catalog.last().strength);
        vstd::seq_lib::to_multiset_insert(
            ranked,
            landing(ranked, catalog.last().strength),
            catalog.last(),
        );
        vstd::seq_lib::to_multiset_build(earlier, catalog.last());
        assert(catalog =~= earlier.push(catalog.last()));
    }
}

/// Of two equally strong records the ranking puts first the one that the
/// catalog had first.
pub proof fn lemma_rank_ties(catalog: Seq<AccessPointView>)
    requires
        distinct_ssids(catalog),
    ensures
        drawn_from(rank(catalog), catalog),
        forall|i: int, j: int|
            0 <= i < j < rank(catalog).len() && rank(catalog)[i].strength == rank(
                catalog,
            )[j].strength ==> slot(catalog, (#[trigger] rank(catalog)[i]).ssid) < slot(
                catalog,
                (#[trigger] rank(catalog)[j]).ssid,
            ),
    decreases catalog.len(),
{
    if catalog.len() > 0 {
        let earlier = catalog.drop_last();
        let ap = catalog.last();
        let ranked = rank(earlier);
        let placed = rank(catalog);
        let at = landing(ranked, ap.strength);
        let last = catalog.len() - 1;
        assert(distinct_ssids(earlier)) by {
            assert forall|i: int, j: int| 0 <= i < j < earlier.len() implies (
            #[trigger] earlier[i]).ssid != (#[trigger] earlier[j]).ssid by {
                assert(earlier[i] == catalog[i] && earlier[j] == catalog[j]);
            }
        }
        lemma_rank_ties(earlier);
        lemma_rank_descending(earlier);
        lemma_landing(ranked, ap.strength);
        assert(catalog =~= earlier.push(ap));
        lemma_slot_is(catalog, ap.ssid, last);
        assert forall|i: int| 0 <= i < placed.len() implies {
            let to = slot(catalog, (#[trigger] placed[i]).ssid);
            to < catalog.len() && catalog[to] == placed[i]
        } by {
            if i != at {
                let from = if i < at {
                    i
                } else {
                    i - 1
                };
                assert(placed[i] == ranked[from]);
                lemma_slot_push(earlier, ap, ranked[from].ssid);
                lemma_slot(earlier, ranked[from].ssid);
                assert(catalog[slot(earlier, ranked[from].ssid)] == earlier[slot(
                    earlier,
                    ranked[from].ssid,
                )]);
            }
        }
        assert forall|i: int, j: int|
            0 <= i < j < placed.len() && placed[i].strength
                == placed[j].strength implies slot(catalog, (#[trigger] placed[i]).ssid) < slot(
            catalog,
            (#[trigger] placed[j]).ssid,
        ) by {
            if i == at {
                assert(placed[j] == ranked[j - 1]);
                assert(ranked[at].strength >= ranked[j - 1].strength || at == j - 1);
            } else {
                let from = if i < at {
                    i
                } else {
                    i - 1
                };
                assert(placed[i] == ranked[from]);
                lemma_slot_push(earlier, ap, ranked[from].ssid);
                if j != at {
                    let till = if j < at {
                        j
                    } else {
                        j - 1
                    };
                    assert(placed[j] == ranked[till]);
                    lemma_slot_push(earlier, ap, ranked[till].ssid);
                }
            }
        }
    }
}

/// Ranking keeps names apart.
pub proof fn lemma_rank_distinct(catalog: Seq<AccessPointView>)
    requires
        distinct_ssids(catalog),
    ensures
        distinct_ssids(rank(catalog)),
    decreases catalog.len(),
{
    if catalog.len() > 0 {
        let earlier = catalog.drop_last();
        let ap = catalog.last();
        let ranked = rank(earlier);
        let placed = rank(catalog);
        let at = landing(ranked, ap.strength);
        assert(distinct_ssids(earlier)) by {
            assert forall|i: int, j: int| 0 <= i < j < earlier.len() implies (
            #[trigger] earlier[i]).ssid != (#[trigger] earlier[j]).ssid by {
                assert(earlier[i] == catalog[i] && earlier[j] == catalog[j]);
            }
        }
        lemma_rank_distinct(earlier);
        lemma_rank_ties(earlier);
        lemma_landing(ranked, ap.strength);
        assert forall|i: int| 0 <= i < ranked.len() implies (#[trigger] ranked[i]).ssid
            != ap.ssid by {
            let from = slot(earlier, ranked[i].ssid);
            lemma_slot(earlier, ranked[i].ssid);
            assert(earlier[from] == catalog[from]);
        }
        assert forall|i: int, j: int| 0 <= i < j < placed.len() implies (
        #[trigger] placed[i]).ssid != (#[trigger] placed[j]).ssid by {
            let from = if i < at {
                i
            } else {
                i - 1
            };
            let till = if j < at {
                j
            } else {
                j - 1
            };
            if i != at {
                assert(placed[i] == ranked[from]);
            }
            if j != at {
                assert(placed[j] == ranked[till]);
            }
        }
    }
}

/// The catalog from strongest to weakest: what holds of the ranked catalog
/// of any records.
///
/// It never rises in strength. It holds every name that occurs among the
/// records, once, with the earliest of the strongest records of that name.
/// Of two equally strong records it puts first the one whose name arrived
/// first.
pub proof fn lemma_ranked_catalog(records: Seq<AccessPointView>)
    ensures
        descending(rank(merge_all(records))),
        distinct_ssids(rank(merge_all(records))),
        forall|i: int|
            0 <= i < records.len() ==> {
                let at = slot(rank(merge_all(records)), (#[trigger] records[i]).ssid);
                at < rank(merge_all(records)).len() && records[i].strength <= rank(
                    merge_all(records),
                )[at].strength
            },
        forall|k: int|
            0 <= k < rank(merge_all(records)).len() ==> champion(
                records,
                #[trigger] rank(merge_all(records))[k],
            ),
        forall|k: int, l: int|
            0 <= k < l < rank(merge_all(records)).len() && rank(merge_all(records))[k].strength
                == rank(merge_all(records))[l].strength ==> slot(
                records,
                (#[trigger] rank(merge_all(records))[k]).ssid,
            ) < slot(records, (#[trigger] rank(merge_all(records))[l]).ssid),
{
    let merged = merge_all(records);
    let ranked = rank(merged);
    lemma_merge_all_names(records);
    lemma_merge_all_strongest(records);
    lemma_merge_all_order(records);
    lemma_rank_descending(merged);
    lemma_rank_distinct(merged);
    lemma_rank_ties(merged);
    lemma_rank_permutes(merged);
    assert forall|i: int| 0 <= i < records.len() implies {
        let at = slot(ranked, (#[trigger] records[i]).ssid);
        at < ranked.len() && records[i].strength <= ranked[at].strength
    } by {
        let held = slot(merged, records[i].ssid);
        lemma_slot(merged, records[i].ssid);
        vstd::seq_lib::to_multiset_contains(merged, merged[held]);
        vstd::seq_lib::to_multiset_contains(ranked, merged[held]);
        assert(merged.contains(merged[held]));
        let at = choose|at: int| 0 <= at < ranked.len() && ranked[at] == merged[held];
        assert forall|j: int| 0 <= j < at implies (#[trigger] ranked[j]).ssid
            != records[i].ssid by {
            assert(ranked[j].ssid != ranked[at].ssid);
        }
        lemma_slot_is(ranked, records[i].ssid, at);
    }
    assert forall|k: int| 0 <= k < ranked.len() implies champion(records, #[trigger] ranked[k]) by {
        let held = slot(merged, ranked[k].ssid);
        lemma_slot(merged, ranked[k].ssid);
        assert(champion(records, merged[held]));
    }
    assert forall|k: int, l: int|
        0 <= k < l < ranked.len() && ranked[k].strength == ranked[l].strength implies slot(
        records,
        (#[trigger] ranked[k]).ssid,
    ) < slot(records, (#[trigger] ranked[l]).ssid) by {
        let from = slot(merged, ranked[k].ssid);
        let till = slot(merged, ranked[l].ssid);
        lemma_slot(merged, ranked[k].ssid);
        lemma_slot(merged, ranked[l].ssid);
        assert(merged[from] == ranked[k] && merged[till] == ranked[l]);
    }
}

/// Orders the catalog from strongest to weakest signal; records of equal
/// strength keep the order they had.
pub fn sort_by_strength(catalog: &mut Vec<AccessPoint>)
    ensures
        final(catalog).deep_view() == rank(old(catalog).deep_view()),
        descending(final(catalog).deep_view()),
        final(catalog).deep_view().to_multiset() == old(catalog).deep_view().to_multiset(),
        final(catalog).len() == old(catalog).len(),
{
    let ghost before = catalog.deep_view();
    proof {
        lemma_rank_descending(before);
        lemma_rank_permutes(before);
        lemma_rank_len(before);
    }
    let mut i: usize = 0;
    proof {
        assert(before.take(0) =~= Seq::empty());
        assert(catalog.deep_view() =~= rank(before.take(0)) + before.skip(0));
    }
    while i < catalog.len()
        invariant
            i <= catalog.len(),
            catalog.len() == before.len(),
            before == old(catalog).deep_view(),
            catalog.deep_view() == rank(before.take(i as int)) + before.skip(i as int),
        decreases catalog.len() - i,
    {
        let ghost ranked = rank(before.take(i as int));
        proof {
            lemma_rank_len(before.take(i as int));
        }
        let ghost mixed = catalog.deep_view();
        let ap = catalog.remove(i);
        proof {
            assert(ap@ == mixed[i as int]);
            assert forall|j: int| 0 <= j < catalog.len() implies catalog.deep_view()[j] == (ranked
                + before.skip(i as int + 1))[j] by {
                if j < i {
                    assert(catalog.deep_view()[j] == mixed[j]);
                } else {
                    assert(catalog.deep_view()[j] == mixed[j + 1]);
                }
            }
            assert(catalog.deep_view() =~= ranked + before.skip(i as int + 1));
            lemma_landing(ranked, ap@.strength);
        }
        let mut p: usize = 0;
        while p < i && catalog[p].strength >= ap.strength
            invariant
                p <= i < before.len(),
                catalog.len() + 1 == before.len(),
                ranked.len() == i,
                catalog.deep_view() == ranked + before.skip(i as int + 1),
                forall|j: int| 0 <= j < p ==> (#[trigger] ranked[j]).strength >= ap@.strength,
            decreases i - p,
        {
            assert(ranked[p as int] == catalog.deep_view()[p as int]);
            p += 1;
        }
        proof {
            if p < i {
                assert(ranked[p as int] == catalog.deep_view()[p as int]);
            }
            assert(landing(ranked, ap@.strength) == p);
        }
        let ghost parted = catalog.deep_view();
        catalog.insert(p, ap);
        proof {
            assert forall|j: int| 0 <= j < catalog.len() implies catalog.deep_view()[j] == (
            ranked.insert(p as int, ap@) + before.skip(i as int + 1))[j] by {
                if j < p {
                    assert(catalog.deep_view()[j] == parted[j]);
                } else if j > p {
                    assert(catalog.deep_view()[j] == parted[j - 1]);
                }
            }
            let next = before.take(i as int + 1);
            assert(next.drop_last() =~= before.take(i as int));
            assert(next.last() == before[i as int]);
            assert(rank(next) == place(ranked, ap@));
            assert(catalog.deep_view() =~= rank(next) + before.skip(i as int + 1));
        }
        i += 1;
    }
    proof {
        assert(before.take(i as int) =~= before);
        assert(catalog.deep_view() =~= rank(before));
    }
}

} // verus!
