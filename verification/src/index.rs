//! The index of the types: every value that stands in the `Type` field of
//! some record, once.

use vstd::prelude::*;
use crate::record::{CsvRecord, Record};

verus! {

/// The values of the `Type` fields of the records, record after record.
pub open spec fn all_types(records: Seq<Record>) -> Seq<Seq<char>>
    decreases records.len(),
{
    if records.len() == 0 {
        Seq::empty()
    } else {
        all_types(records.drop_last()) + records.last().type_
    }
}

/// The values of `values`, each once, in the order in which they first occur.
pub open spec fn distinct(values: Seq<Seq<char>>) -> Seq<Seq<char>>
    decreases values.len(),
{
    if values.len() == 0 {
        Seq::empty()
    } else {
        let before = distinct(values.drop_last());
        if before.contains(values.last()) {
            before
        } else {
            before.push(values.last())
        }
    }
}

/// The index holds exactly the values that occur, and none of them twice.
pub proof fn lemma_distinct(values: Seq<Seq<char>>)
    ensures
        distinct(values).no_duplicates(),
        forall|value: Seq<char>|
            #[trigger] distinct(values).contains(value) ==> values.contains(value),
        forall|value: Seq<char>|
            #[trigger] values.contains(value) ==> distinct(values).contains(value),
    decreases values.len(),
{
    if values.len() > 0 {
        let front = values.drop_last();
        let last = values.last();
        lemma_distinct(front);
        let before = distinct(front);
        assert forall|value: Seq<char>|
            (#[trigger] distinct(values).contains(value) ==> values.contains(value)) && (
            #[trigger] values.contains(value) ==> distinct(values).contains(value)) by {
            if distinct(values).contains(value) {
                let at = choose|at: int| 0 <= at < distinct(values).len() && distinct(values)[at]
                    == value;
                if at < before.len() {
                    assert(before[at] == value);
                    assert(before.contains(value));
                    let k = choose|k: int| 0 <= k < front.len() && front[k] == value;
                    assert(values[k] == value);
                } else {
                    assert(values[values.len() - 1] == value);
                }
            }
            if values.contains(value) {
                let k = choose|k: int| 0 <= k < values.len() && values[k] == value;
                if k < front.len() {
                    assert(front[k] == value);
                    assert(front.contains(value));
                    assert(before.contains(value));
                    let at = choose|at: int| 0 <= at < before.len() && before[at] == value;
                    assert(distinct(values)[at] == value);
                } else if before.contains(last) {
                } else {
                    assert(distinct(values)[before.len() as int] == value);
                }
            }
        }
    }
}

/// A value of the `Type` field of a record is a value of the index.
pub proof fn lemma_types_of_record(records: Seq<Record>, at: int, k: int)
    requires
        0 <= at < records.len(),
        0 <= k < records[at].type_.len(),
    ensures
        distinct(all_types(records)).contains(records[at].type_[k]),
    decreases records.len(),
{
    let front = records.drop_last();
    let all = all_types(records);
    let value = records[at].type_[k];
    if at == records.len() - 1 {
        assert(all[all_types(front).len() + k] == value);
    } else {
        lemma_types_of_record(front, at, k);
        lemma_distinct(all_types(front));
        assert(front[at] == records[at]);
        assert(all_types(front).contains(value));
        let w = choose|w: int| 0 <= w < all_types(front).len() && all_types(front)[w] == value;
        assert(all[w] == value);
    }
    assert(all.contains(value));
    lemma_distinct(all);
}

/// Tells whether `values` holds `value`.
fn holds(values: &Vec<String>, value: &String) -> (found: bool)
    ensures
        found == values.deep_view().contains(value@),
{
    let mut i: usize = 0;
    while i < values.len()
        invariant
            i <= values.len(),
            forall|k: int| 0 <= k < i ==> values@[k]@ != value@,
        decreases values.len() - i,
    {
        if values[i] == *value {
            assert(values.deep_view()[i as int] == value@);
            return true;
        }
        i = i + 1;
    }
    assert forall|k: int| 0 <= k < values.deep_view().len() implies values.deep_view()[k]
        != value@ by {
        assert(values.deep_view()[k] == values@[k]@);
    }
    false
}

/// The index of the types of the records: each value of a `Type` field
/// once, in the order in which the values first occur.
pub fn distinct_types(records: &Vec<CsvRecord>) -> (types: Vec<String>)
    ensures
        types.deep_view() == distinct(all_types(records.deep_view())),
{
    let ghost all = records.deep_view();
    let mut types: Vec<String> = Vec::new();
    let mut i: usize = 0;
    proof {
        assert(all.take(0) =~= Seq::empty());
        assert(types.deep_view() =~= Seq::<Seq<char>>::empty());
    }
    while i < records.len()
        invariant
            i <= records.len(),
            all == records.deep_view(),
            types.deep_view() == distinct(all_types(all.take(i as int))),
        decreases records.len() - i,
    {
        let record = &records[i];
        let ghost front = all_types(all.take(i as int));
        let ghost values = record.type_.deep_view();
        proof {
            assert(all.take(i + 1).drop_last() =~= all.take(i as int));
            assert(all.take(i + 1).last().type_ == values);
            assert(front + values.take(0) =~= front);
        }
        let mut k: usize = 0;
        while k < record.type_.len()
            invariant
                k <= record.type_.len(),
                values == record.type_.deep_view(),
                types.deep_view() == distinct(front + values.take(k as int)),
            decreases record.type_.len() - k,
        {
            let ghost before = types.deep_view();
            proof {
                let seen = front + values.take(k + 1);
                assert(seen.drop_last() =~= front + values.take(k as int));
                assert(seen.last() == record.type_@[k as int]@);
            }
            if !holds(&types, &record.type_[k]) {
                types.push(record.type_[k].clone());
                assert(types.deep_view() =~= before.push(record.type_@[k as int]@));
            }
            k = k + 1;
        }
        proof {
            assert(values.take(values.len() as int) =~= values);
        }
        i = i + 1;
    }
    assert(all.take(records.len() as int) =~= all);
    types
}

} // verus!
