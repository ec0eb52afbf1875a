//! The columns of the output: an ordered set of names without repetition,
//! filled in the order in which the names are first seen.

use vstd::prelude::*;
use crate::json::{Json, JsonValue, Members, member_models, models, lemma_object_model};
use crate::text::texts;
use linked_hash_set::LinkedHashSet;
use std::collections::hash_map::RandomState;

verus! {

/// `linked_hash_set::LinkedHashSet`: a hash set that hands its items out in
/// the order of their insertion. What it holds is `names_in`.
#[verifier::external_type_specification]
#[verifier::external_body]
#[verifier::reject_recursive_types(T)]
#[verifier::reject_recursive_types(S)]
pub struct ExLinkedHashSet<T, S>(LinkedHashSet<T, S>);

/// The strings that a `LinkedHashSet` of strings holds, in the order in which
/// it hands them out: that of their insertion.
pub uninterp spec fn names_in(set: LinkedHashSet<String, RandomState>) -> Seq<Seq<char>>;

/// `LinkedHashSet::new`: a set that holds nothing.
#[verifier::external_body]
fn empty_set() -> (set: LinkedHashSet<String, RandomState>)
    ensures
        names_in(set) == Seq::<Seq<char>>::empty(),
{
    LinkedHashSet::new()
}

/// `LinkedHashSet::insert_if_absent`: a string that the set does not hold yet
/// goes to the end and `true` comes back; for one that it holds the set stays
/// as it is and `false` comes back.
#[verifier::external_body]
fn insert_if_absent(set: &mut LinkedHashSet<String, RandomState>, name: String) -> (added: bool)
    ensures
        added == !names_in(*old(set)).contains(name@),
        names_in(*final(set)) == with_name(names_in(*old(set)), name@),
{
    set.insert_if_absent(name)
}

/// `LinkedHashSet::iter`, each string copied: the strings of the set in its
/// order.
#[verifier::external_body]
fn set_names(set: &LinkedHashSet<String, RandomState>) -> (names: Vec<String>)
    ensures
        texts(names@) == names_in(*set),
{
    set.iter().cloned().collect()
}

/// The names with `name` added at the end, unless it is among them.
pub open spec fn with_name(seen: Seq<Seq<char>>, name: Seq<char>) -> Seq<Seq<char>> {
    if seen.contains(name) {
        seen
    } else {
        seen.push(name)
    }
}

/// The names with those of the members added, one after another.
pub open spec fn with_names_of(seen: Seq<Seq<char>>, fields: Members) -> Seq<Seq<char>>
    decreases fields.len(),
{
    if fields.len() == 0 {
        seen
    } else {
        with_name(with_names_of(seen, fields.drop_last()), fields.last().0)
    }
}

/// The names with those of every record added, record after record.
pub open spec fn with_records(seen: Seq<Seq<char>>, records: Seq<Json>) -> Seq<Seq<char>>
    decreases records.len(),
{
    if records.len() == 0 {
        seen
    } else {
        with_names_of(with_records(seen, records.drop_last()), records.last().members())
    }
}

/// Adding a name keeps the names free of repetition.
pub proof fn lemma_with_name_no_duplicates(seen: Seq<Seq<char>>, name: Seq<char>)
    requires
        seen.no_duplicates(),
    ensures
        with_name(seen, name).no_duplicates(),
        with_name(seen, name).contains(name),
        forall|other: Seq<char>| seen.contains(other) ==> with_name(seen, name).contains(other),
{
    let after = with_name(seen, name);
    if !seen.contains(name) {
        assert(after[seen.len() as int] == name);
        assert forall|other: Seq<char>| seen.contains(other) implies after.contains(other) by {
            let i = choose|i: int| 0 <= i < seen.len() && seen[i] == other;
            assert(after[i] == other);
        }
    }
}

/// The columns of the output: names in the order in which they were first
/// added, none of them twice.
pub struct HeaderSet {
    names: LinkedHashSet<String, RandomState>,
}

impl View for HeaderSet {
    type V = Seq<Seq<char>>;

    closed spec fn view(&self) -> Seq<Seq<char>> {
        names_in(self.names)
    }
}

impl HeaderSet {
    /// No name stands twice. Every header set that this module makes is well
    /// formed, and its methods keep it so.
    pub open spec fn wf(&self) -> bool {
        self@.no_duplicates()
    }

    /// A set without names.
    pub fn new() -> (r: HeaderSet)
        ensures
            r.wf(),
            r@ == Seq::<Seq<char>>::empty(),
    {
        HeaderSet { names: empty_set() }
    }

    /// Adds `name` at the end unless the set holds it; tells whether it was
    /// added.
    pub fn insert(&mut self, name: String) -> (added: bool)
        requires
            old(self).wf(),
        ensures
            final(self).wf(),
            added == !old(self)@.contains(name@),
            final(self)@ == with_name(old(self)@, name@),
    {
        proof {
            lemma_with_name_no_duplicates(self@, name@);
        }
        insert_if_absent(&mut self.names, name)
    }

    /// Adds the names of the record's members, in their order. A value that
    /// is no object has no members and adds nothing.
    pub fn add_record(&mut self, record: &JsonValue)
        requires
            old(self).wf(),
        ensures
            final(self).wf(),
            final(self)@ == with_names_of(old(self)@, record@.members()),
    {
        match record {
            JsonValue::Object(fields) => {
                proof {
                    lemma_object_model(*fields);
                }
                let ghost all = member_models(fields@);
                let mut i: usize = 0;
                while i < fields.len()
                    invariant
                        i <= fields.len(),
                        all == member_models(fields@),
                        self.wf(),
                        self@ == with_names_of(old(self)@, all.take(i as int)),
                    decreases fields.len() - i,
                {
                    proof {
                        assert(all.take(i + 1).drop_last() =~= all.take(i as int));
                        assert(all.take(i + 1).last() == all[i as int]);
                    }
                    self.insert(fields[i].0.clone());
                    i += 1;
                }
                assert(all.take(i as int) =~= all);
            },
            _ => {},
        }
    }

    /// Adds the names of the members of every record, record after record.
    pub fn add_records(&mut self, records: &Vec<JsonValue>)
        requires
            old(self).wf(),
        ensures
            final(self).wf(),
            final(self)@ == with_records(old(self)@, models(records@)),
    {
        let ghost all = models(records@);
        let mut i: usize = 0;
        while i < records.len()
            invariant
                i <= records.len(),
                all == models(records@),
                self.wf(),
                self@ == with_records(old(self)@, all.take(i as int)),
            decreases records.len() - i,
        {
            proof {
                assert(all.take(i + 1).drop_last() =~= all.take(i as int));
                assert(all.take(i + 1).last() == all[i as int]);
            }
            self.add_record(&records[i]);
            i += 1;
        }
        assert(all.take(i as int) =~= all);
    }

    /// The names in their order.
    pub fn names(&self) -> (r: Vec<String>)
        ensures
            texts(r@) == self@,
    {
        set_names(&self.names)
    }
}

/// The columns that the records show: the names of their members, each where
/// it is first seen and none of them twice.
pub fn detect_headers(records: &Vec<JsonValue>) -> (r: Vec<String>)
    ensures
        texts(r@) == with_records(Seq::empty(), models(records@)),
        texts(r@).no_duplicates(),
{
    let mut set = HeaderSet::new();
    set.add_records(records);
    set.names()
}

} // verus!
