//! Which commands were observed for which database.

use crate::command::CommandStatistics;
use crate::metric::DatabaseMetric;
use vstd::prelude::*;

verus! {

/// The request ids observed for one database, in order of arrival.
struct DatabaseAccess {
    name: String,
    request_ids: Vec<i32>,
}

/// For each database name the request ids observed for it. Ids are only
/// ever appended.
pub struct AccessPattern {
    databases: Vec<DatabaseAccess>,
}

/// The records that `ids` stand for in `ledger`, in the order of the ids.
/// An id that the ledger does not hold is passed over.
pub open spec fn resolved(ledger: Map<i32, CommandStatistics>, ids: Seq<i32>) -> Seq<
    CommandStatistics,
>
    decreases ids.len(),
{
    if ids.len() == 0 {
        Seq::empty()
    } else {
        let earlier = resolved(ledger, ids.drop_last());
        if ledger.contains_key(ids.last()) {
            earlier.push(ledger[ids.last()])
        } else {
            earlier
        }
    }
}

/// The names after `name` has been accessed: it joins at the end unless it
/// is there already.
pub open spec fn names_with(names: Seq<Seq<char>>, name: Seq<char>) -> Seq<Seq<char>> {
    if names.contains(name) {
        names
    } else {
        names.push(name)
    }
}

/// Resolving never yields more records than there are ids, and yields one
/// for each id when the ledger holds them all.
pub proof fn lemma_resolved_len(ledger: Map<i32, CommandStatistics>, ids: Seq<i32>)
    ensures
        resolved(ledger, ids).len() <= ids.len(),
        (forall|i: int| 0 <= i < ids.len() ==> ledger.contains_key(ids[i])) ==> resolved(
            ledger,
            ids,
        ).len() == ids.len(),
        (forall|i: int| 0 <= i < ids.len() ==> !ledger.contains_key(ids[i])) ==> resolved(
            ledger,
            ids,
        ).len() == 0,
    decreases ids.len(),
{
    if ids.len() > 0 {
        lemma_resolved_len(ledger, ids.drop_last());
        assert(forall|i: int|
            0 <= i < ids.drop_last().len() ==> ids.drop_last()[i] == ids[i]);
    }
}

impl AccessPattern {
    #[verifier::type_invariant]
    spec fn well_formed(&self) -> bool {
        &&& forall|i: int, j: int|
            0 <= i < j < self.databases@.len() ==> self.databases@[i].name@
                != self.databases@[j].name@
        &&& forall|i: int|
            0 <= i < self.databases@.len() ==> self.databases@[i].request_ids@.len() > 0
    }

    /// The names of the databases accessed so far, in order of first access.
    pub closed spec fn names(&self) -> Seq<Seq<char>> {
        self.databases@.map_values(|entry: DatabaseAccess| entry.name@)
    }

    /// The request ids observed for the database `name`, in order of
    /// arrival; none for a database that was never accessed.
    pub closed spec fn ids_of(&self, name: Seq<char>) -> Seq<i32> {
        if exists|i: int| 0 <= i < self.databases@.len() && self.databases@[i].name@ == name {
            let i = choose|i: int|
                0 <= i < self.databases@.len() && self.databases@[i].name@ == name;
            self.databases@[i].request_ids@
        } else {
            Seq::empty()
        }
    }

    /// An index without any access.
    pub fn new() -> (index: Self)
        ensures
            index.names() == Seq::<Seq<char>>::empty(),
            forall|name: Seq<char>| index.ids_of(name) == Seq::<i32>::empty(),
    {
        let index = AccessPattern { databases: Vec::new() };
        assert(index.names() =~= Seq::<Seq<char>>::empty());
        index
    }

    /// Where the entry for `name` stands, if there is one.
    fn position(databases: &Vec<DatabaseAccess>, name: &String) -> (found: Option<usize>)
        ensures
            match found {
                Some(at) => at < databases@.len() && databases@[at as int].name@ == name@,
                None => forall|i: int|
                    0 <= i < databases@.len() ==> databases@[i].name@ != name@,
            },
    {
        let mut i: usize = 0;
        while i < databases.len()
            invariant
                i <= databases@.len(),
                forall|k: int| 0 <= k < i ==> databases@[k].name@ != name@,
            decreases databases@.len() - i,
        {
            if databases[i].name == *name {
                return Some(i);
            }
            i += 1;
        }
        None
    }

    /// Notes that the command `request_id` was observed for the database
    /// `db_name`: the id joins the end of that database's ids, and the
    /// ids of every other database stay as they are.
    pub fn record(&mut self, db_name: String, request_id: i32)
        ensures
            final(self).names() == names_with(old(self).names(), db_name@),
            forall|name: Seq<char>|
                #[trigger] final(self).ids_of(name) == if name == db_name@ {
                    old(self).ids_of(name).push(request_id)
                } else {
                    old(self).ids_of(name)
                },
    {
        proof {
            use_type_invariant(&*self);
        }
        let ghost before = self.databases@;
        let mut databases: Vec<DatabaseAccess> = Vec::new();
        core::mem::swap(&mut self.databases, &mut databases);
        match Self::position(&databases, &db_name) {
            Some(at) => {
                databases[at].request_ids.push(request_id);
                assert(databases@.map_values(|entry: DatabaseAccess| entry.name@)
                    =~= before.map_values(|entry: DatabaseAccess| entry.name@));
                assert(before.map_values(|entry: DatabaseAccess| entry.name@)[at as int]
                    == db_name@);
            },
            None => {
                let mut request_ids: Vec<i32> = Vec::new();
                request_ids.push(request_id);
                databases.push(DatabaseAccess { name: db_name, request_ids });
                assert(databases@.map_values(|entry: DatabaseAccess| entry.name@)
                    =~= before.map_values(|entry: DatabaseAccess| entry.name@).push(db_name@));
                assert(!before.map_values(|entry: DatabaseAccess| entry.name@).contains(db_name@));
            },
        }
        let ghost after = databases@;
        self.databases = databases;
        proof {
            assert forall|name: Seq<char>|
                #[trigger] self.ids_of(name) == if name == db_name@ {
                    old(self).ids_of(name).push(request_id)
                } else {
                    old(self).ids_of(name)
                } by {
                if exists|i: int| 0 <= i < before.len() && before[i].name@ == name {
                    let i = choose|i: int| 0 <= i < before.len() && before[i].name@ == name;
                    assert(after[i].name@ == name);
                    let k = choose|k: int| 0 <= k < after.len() && after[k].name@ == name;
                    assert(k == i);
                } else if name == db_name@ {
                    assert(after[after.len() - 1].name@ == name);
                    let k = choose|k: int| 0 <= k < after.len() && after[k].name@ == name;
                    assert(k == after.len() - 1);
                    assert(old(self).ids_of(name).push(request_id) =~= after[k].request_ids@);
                } else {
                    assert forall|k: int| 0 <= k < after.len() implies after[k].name@ != name by {
                        if k < before.len() {
                            assert(before[k].name@ == after[k].name@);
                        }
                    }
                }
            }
        }
    }

    /// The records observed for each database: one pair per database, in
    /// order of first access, holding a copy of the record that `metric`
    /// files under each of its ids, in order of arrival. An id without a
    /// record in the ledger is passed over.
    pub fn by_database(&self, metric: &DatabaseMetric) -> (listing: Vec<
        (String, Vec<CommandStatistics>),
    >)
        ensures
            listing@.len() == self.names().len(),
            forall|i: int|
                0 <= i < listing@.len() ==> {
                    &&& (#[trigger] listing@[i]).0@ == self.names()[i]
                    &&& listing@[i].1@ == resolved(metric.ledger(), self.ids_of(self.names()[i]))
                },
    {
        proof {
            use_type_invariant(self);
        }
        let mut listing: Vec<(String, Vec<CommandStatistics>)> = Vec::new();
        let mut i: usize = 0;
        while i < self.databases.len()
            invariant
                i <= self.databases@.len(),
                self.well_formed(),
                listing@.len() == i,
                forall|k: int|
                    0 <= k < i ==> {
                        &&& (#[trigger] listing@[k]).0@ == self.databases@[k].name@
                        &&& listing@[k].1@ == resolved(
                            metric.ledger(),
                            self.databases@[k].request_ids@,
                        )
                    },
            decreases self.databases@.len() - i,
        {
            let entry = &self.databases[i];
            let mut records: Vec<CommandStatistics> = Vec::new();
            let mut j: usize = 0;
            while j < entry.request_ids.len()
                invariant
                    j <= entry.request_ids@.len(),
                    records@ == resolved(metric.ledger(), entry.request_ids@.take(j as int)),
                decreases entry.request_ids@.len() - j,
            {
                let found = metric.get_command(entry.request_ids[j]);
                proof {
                    assert(entry.request_ids@.take(j + 1).drop_last()
                        =~= entry.request_ids@.take(j as int));
                }
                match found {
                    Some(record) => {
                        records.push(record);
                    },
                    None => {
                    },
                }
                j += 1;
            }
            assert(entry.request_ids@.take(j as int) =~= entry.request_ids@);
            listing.push((entry.name.clone(), records));
            i += 1;
        }
        proof {
            assert forall|k: int| 0 <= k < listing@.len() implies {
                &&& (#[trigger] listing@[k]).0@ == self.names()[k]
                &&& listing@[k].1@ == resolved(metric.ledger(), self.ids_of(self.names()[k]))
            } by {
                let name = self.databases@[k].name@;
                let c = choose|c: int|
                    0 <= c < self.databases@.len() && self.databases@[c].name@ == name;
                assert(c == k);
            }
        }
        listing
    }
}

impl Default for AccessPattern {
    fn default() -> (index: Self)
        ensures
            index.names() == Seq::<Seq<char>>::empty(),
            forall|name: Seq<char>| index.ids_of(name) == Seq::<i32>::empty(),
    {
        AccessPattern::new()
    }
}

} // verus!
