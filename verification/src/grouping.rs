//! The records grouped by their pages: for every page that has a record, the
//! places of its records among all, in the order given.

use vstd::prelude::*;
use std::collections::HashMap;
use crate::reader::{record_models, AnnotationRecord, RecordModel};
use crate::writer::records_for;

verus! {

broadcast use vstd::std_specs::hash::group_hash_axioms;

/// The places of the records for `page` among the first `n` records, in
/// order.
pub open spec fn places_upto(records: Seq<RecordModel>, page: nat, n: nat) -> Seq<usize>
    decreases n,
{
    if n == 0 {
        Seq::empty()
    } else if records[n - 1].page == page {
        places_upto(records, page, (n - 1) as nat).push((n - 1) as usize)
    } else {
        places_upto(records, page, (n - 1) as nat)
    }
}

/// The records at places, in order.
pub open spec fn records_at(records: Seq<RecordModel>, places: Seq<usize>) -> Seq<RecordModel> {
    places.map_values(|i: usize| records[i as int])
}

/// The places kept for a page in a grouping: none where the grouping has no
/// entry for the page.
pub open spec fn places_of(groups: Map<usize, Vec<usize>>, page: usize) -> Seq<usize> {
    if groups.dom().contains(page) {
        groups[page]@
    } else {
        Seq::empty()
    }
}

/// The records at the places of a page are the records for the page.
pub proof fn lemma_places(records: Seq<RecordModel>, page: nat, n: nat)
    requires
        n <= records.len() <= usize::MAX,
    ensures
        records_at(records, places_upto(records, page, n)) == records_for(
            records.take(n as int),
            page,
        ),
        forall|k: int|
            0 <= k < places_upto(records, page, n).len() ==> (#[trigger] places_upto(
                records,
                page,
                n,
            )[k]) < n,
    decreases n,
{
    reveal(Seq::filter);
    if n > 0 {
        let m = (n - 1) as nat;
        lemma_places(records, page, m);
        assert(records.take(n as int).drop_last() =~= records.take(m as int));
        assert(records.take(n as int).last() == records[m as int]);
        let before = places_upto(records, page, m);
        if records[m as int].page == page {
            assert(records_at(records, before.push(m as usize)) =~= records_at(records, before).push(
                records[m as int],
            ));
        }
    } else {
        assert(records.take(0) =~= Seq::<RecordModel>::empty());
        assert(records_at(records, places_upto(records, page, n)) =~= Seq::<RecordModel>::empty());
    }
}

/// Groups the places of the records by their pages, each group in the order
/// given.
pub fn group_by_page(records: &Vec<AnnotationRecord>) -> (groups: HashMap<usize, Vec<usize>>)
    ensures
        forall|page: usize| #[trigger]
            places_of(groups@, page) == places_upto(
                record_models(records@),
                page as nat,
                records@.len(),
            ),
{
    let ghost all = record_models(records@);
    let mut groups: HashMap<usize, Vec<usize>> = HashMap::new();
    let mut i: usize = 0;
    while i < records.len()
        invariant
            i <= records.len(),
            all == record_models(records@),
            forall|page: usize| #[trigger]
                places_of(groups@, page) == places_upto(all, page as nat, i as nat),
        decreases records.len() - i,
    {
        let page = records[i].page;
        let ghost before = groups@;
        assert(places_of(before, page) == places_upto(all, page as nat, i as nat));
        let mut places = match groups.remove(&page) {
            Some(places) => places,
            None => Vec::new(),
        };
        assert(places@ =~= places_of(before, page));
        places.push(i);
        groups.insert(page, places);
        proof {
            assert(all[i as int] == records@[i as int]@);
            assert forall|other: usize| #[trigger]
                places_of(groups@, other) == places_upto(all, other as nat, (i + 1) as nat) by {
                if other != page {
                    assert(places_of(before, other) == places_upto(all, other as nat, i as nat));
                    assert(places_of(groups@, other) == places_of(before, other));
                }
            }
        }
        i += 1;
    }
    groups
}

/// The places kept for a page in a grouping; `none` where the grouping has
/// no entry for the page.
pub fn places_for<'a>(groups: &'a HashMap<usize, Vec<usize>>, page: usize, none: &'a Vec<usize>) -> (places:
    &'a Vec<usize>)
    requires
        none@.len() == 0,
    ensures
        places@ == places_of(groups@, page),
{
    let places = match groups.get(&page) {
        Some(places) => places,
        None => none,
    };
    assert(places@ =~= places_of(groups@, page));
    places
}

} // verus!
