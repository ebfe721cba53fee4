//! How often each field of a set of documents holds each kind of value.

use crate::model::{kind_of_tag, BsonType};
use mongodb::bson::Document;
use vstd::prelude::*;

verus! {

/// The fields of a document in the document's own order: each key with the
/// element tag of the value stored under it.
pub uninterp spec fn document_fields(document: Document) -> Seq<(Seq<char>, u8)>;

/// `Document::iter` walks the entries of a document in order, and
/// `Bson::element_type` gives the kind of each value, whose discriminant is
/// its element tag. The result is trusted to hold, in that order, each key
/// with the tag of its value, and every such tag to be one that stands for a
/// kind.
#[verifier::external_body]
fn field_tags(document: &Document) -> (fields: Vec<(String, u8)>)
    ensures
        fields@.len() == document_fields(*document).len(),
        forall|i: int|
            0 <= i < fields@.len() ==> {
                &&& (#[trigger] fields@[i]).0@ == document_fields(*document)[i].0
                &&& fields@[i].1 == document_fields(*document)[i].1
                &&& kind_of_tag(fields@[i].1) is Some
            },
{
    document.iter().map(|(key, value)| (key.clone(), value.element_type() as u8)).collect()
}

/// The fields of all of `documents`, one document after the other.
pub open spec fn all_fields(documents: Seq<Document>) -> Seq<(Seq<char>, u8)>
    decreases documents.len(),
{
    if documents.len() == 0 {
        Seq::empty()
    } else {
        all_fields(documents.drop_last()) + document_fields(documents.last())
    }
}

/// Whether `typed` holds the same fields as `tagged`, each tag replaced by
/// the kind it stands for.
pub open spec fn fields_typed(tagged: Seq<(Seq<char>, u8)>, typed: Seq<(String, BsonType)>) -> bool {
    &&& typed.len() == tagged.len()
    &&& forall|i: int|
        0 <= i < typed.len() ==> {
            &&& (#[trigger] typed[i]).0@ == tagged[i].0
            &&& Some(typed[i].1) == kind_of_tag(tagged[i].1)
        }
}

/// How many of `fields` have the key `key` and a value of kind `kind`.
pub open spec fn occurrences(fields: Seq<(String, BsonType)>, key: Seq<char>, kind: BsonType) -> nat
    decreases fields.len(),
{
    if fields.len() == 0 {
        0
    } else {
        occurrences(fields.drop_last(), key, kind) + if fields.last().0@ == key && fields.last().1
            == kind {
            1nat
        } else {
            0nat
        }
    }
}

/// A count as a `u64` can hold it: counts beyond its range read as its maximum.
pub open spec fn capped(count: nat) -> u64 {
    if count <= u64::MAX {
        count as u64
    } else {
        u64::MAX
    }
}

/// Whether `summary` lists the kind `kind` for the key `key` at entry `i`,
/// place `j`.
pub open spec fn lists(
    summary: Seq<(String, Vec<(BsonType, u64)>)>,
    i: int,
    j: int,
    key: Seq<char>,
    kind: BsonType,
) -> bool {
    &&& 0 <= i < summary.len()
    &&& 0 <= j < summary[i].1@.len()
    &&& summary[i].0@ == key
    &&& summary[i].1@[j].0 == kind
}

/// The keys of `fields`, each once, in the order in which they first occur.
pub open spec fn keys_in_order(fields: Seq<(String, BsonType)>) -> Seq<Seq<char>>
    decreases fields.len(),
{
    if fields.len() == 0 {
        Seq::empty()
    } else {
        let earlier = keys_in_order(fields.drop_last());
        if earlier.contains(fields.last().0@) {
            earlier
        } else {
            earlier.push(fields.last().0@)
        }
    }
}

/// The kinds of the values that `fields` hold under `key`, each once, in the
/// order in which they first occur.
pub open spec fn kinds_in_order(fields: Seq<(String, BsonType)>, key: Seq<char>) -> Seq<BsonType>
    decreases fields.len(),
{
    if fields.len() == 0 {
        Seq::empty()
    } else {
        let earlier = kinds_in_order(fields.drop_last(), key);
        if fields.last().0@ != key || earlier.contains(fields.last().1) {
            earlier
        } else {
            earlier.push(fields.last().1)
        }
    }
}

/// The keys that a summary names, in its order.
pub open spec fn listed_keys(summary: Seq<(String, Vec<(BsonType, u64)>)>) -> Seq<Seq<char>> {
    summary.map_values(|entry: (String, Vec<(BsonType, u64)>)| entry.0@)
}

/// The kinds that one entry of a summary lists, in its order.
pub open spec fn listed_kinds(entry: (String, Vec<(BsonType, u64)>)) -> Seq<BsonType> {
    entry.1@.map_values(|pair: (BsonType, u64)| pair.0)
}

/// Whether `summary` is the tally of `fields`: it names every key once, in
/// order of first occurrence, and under it every kind once, in order of
/// first occurrence under that key; it lists a kind under a key exactly
/// when some field has that key and kind, and the number it gives is how
/// many do.
pub open spec fn tallies(
    fields: Seq<(String, BsonType)>,
    summary: Seq<(String, Vec<(BsonType, u64)>)>,
) -> bool {
    &&& listed_keys(summary) == keys_in_order(fields)
    &&& forall|i: int|
        0 <= i < summary.len() ==> listed_kinds(#[trigger] summary[i]) == kinds_in_order(
            fields,
            summary[i].0@,
        )
    &&& forall|i: int, j: int|
        0 <= i < j < summary.len() ==> (#[trigger] summary[i]).0@ != (#[trigger] summary[j]).0@
    &&& forall|i: int, j: int, k: int|
        0 <= i < summary.len() && 0 <= j < k < summary[i].1@.len() ==> (
        #[trigger] summary[i].1@[j]).0 != (#[trigger] summary[i].1@[k]).0
    &&& forall|i: int, j: int|
        0 <= i < summary.len() && 0 <= j < summary[i].1@.len() ==> {
            &&& occurrences(fields, summary[i].0@, (#[trigger] summary[i].1@[j]).0) > 0
            &&& summary[i].1@[j].1 == capped(
                occurrences(fields, summary[i].0@, summary[i].1@[j].0),
            )
        }
    &&& forall|key: Seq<char>, kind: BsonType| #[trigger]
        occurrences(fields, key, kind) > 0 ==> exists|i: int, j: int| #[trigger]
            lists(summary, i, j, key, kind)
}

/// The fields of `documents`, one document after the other, each with the
/// kind of its value.
pub fn typed_fields(documents: &Vec<Document>) -> (typed: Vec<(String, BsonType)>)
    ensures
        fields_typed(all_fields(documents@), typed@),
{
    let mut typed: Vec<(String, BsonType)> = Vec::new();
    let mut d: usize = 0;
    while d < documents.len()
        invariant
            d <= documents@.len(),
            fields_typed(all_fields(documents@.take(d as int)), typed@),
        decreases documents@.len() - d,
    {
        let tagged = field_tags(&documents[d]);
        let ghost earlier = all_fields(documents@.take(d as int));
        let ghost own = document_fields(documents@[d as int]);
        proof {
            assert(documents@.take(d + 1).drop_last() =~= documents@.take(d as int));
            assert(all_fields(documents@.take(d + 1)) == earlier + own);
        }
        let mut f: usize = 0;
        while f < tagged.len()
            invariant
                f <= tagged@.len(),
                tagged@.len() == own.len(),
                forall|i: int|
                    0 <= i < tagged@.len() ==> {
                        &&& (#[trigger] tagged@[i]).0@ == own[i].0
                        &&& tagged@[i].1 == own[i].1
                        &&& kind_of_tag(tagged@[i].1) is Some
                    },
                fields_typed((earlier + own).take(earlier.len() + f), typed@),
            decreases tagged@.len() - f,
        {
            let ghost at = f as int;
            match BsonType::from_element_tag(tagged[f].1) {
                Some(kind) => {
                    typed.push((tagged[f].0.clone(), kind));
                },
                None => {
                },
            }
            f += 1;
            proof {
                let joined = earlier + own;
                assert(tagged@[at].0@ == own[at].0);
                assert(joined.take(earlier.len() + f).drop_last() =~= joined.take(
                    earlier.len() + at,
                ));
                assert(joined[earlier.len() + at] == own[at]);
            }
        }
        proof {
            assert((earlier + own).take(earlier.len() + f) =~= earlier + own);
        }
        d += 1;
    }
    assert(documents@.take(d as int) =~= documents@);
    typed
}

/// One more field raises by one the occurrences of its own key and kind and
/// of no other.
pub proof fn lemma_occurrences_step(
    fields: Seq<(String, BsonType)>,
    n: int,
    key: Seq<char>,
    kind: BsonType,
)
    requires
        0 <= n < fields.len(),
    ensures
        occurrences(fields.take(n + 1), key, kind) == occurrences(fields.take(n), key, kind)
            + if fields[n].0@ == key && fields[n].1 == kind {
            1nat
        } else {
            0nat
        },
{
    assert(fields.take(n + 1).drop_last() =~= fields.take(n));
}

/// A key under which no field of any kind occurs has no kinds in order.
pub proof fn lemma_no_kinds_without_fields(fields: Seq<(String, BsonType)>, key: Seq<char>)
    requires
        forall|kind: BsonType| occurrences(fields, key, kind) == 0,
    ensures
        kinds_in_order(fields, key) == Seq::<BsonType>::empty(),
    decreases fields.len(),
{
    if fields.len() > 0 {
        assert(occurrences(fields, key, fields.last().1) == 0);
        assert forall|kind: BsonType| occurrences(fields.drop_last(), key, kind) == 0 by {
            assert(occurrences(fields, key, kind) == 0);
        }
        lemma_no_kinds_without_fields(fields.drop_last(), key);
    }
}

/// How the keys and kinds in order grow with one more field.
pub proof fn lemma_order_step(fields: Seq<(String, BsonType)>, n: int, key: Seq<char>)
    requires
        0 <= n < fields.len(),
    ensures
        keys_in_order(fields.take(n + 1)) == if keys_in_order(fields.take(n)).contains(
            fields[n].0@,
        ) {
            keys_in_order(fields.take(n))
        } else {
            keys_in_order(fields.take(n)).push(fields[n].0@)
        },
        kinds_in_order(fields.take(n + 1), key) == if fields[n].0@ != key || kinds_in_order(
            fields.take(n),
            key,
        ).contains(fields[n].1) {
            kinds_in_order(fields.take(n), key)
        } else {
            kinds_in_order(fields.take(n), key).push(fields[n].1)
        },
{
    assert(fields.take(n + 1).drop_last() =~= fields.take(n));
}

/// Where the entry for `key` stands in a summary, if there is one.
fn key_position(summary: &Vec<(String, Vec<(BsonType, u64)>)>, key: &String) -> (found: Option<
    usize,
>)
    ensures
        match found {
            Some(at) => at < summary@.len() && summary@[at as int].0@ == key@,
            None => forall|i: int| 0 <= i < summary@.len() ==> summary@[i].0@ != key@,
        },
{
    let mut i: usize = 0;
    while i < summary.len()
        invariant
            i <= summary@.len(),
            forall|k: int| 0 <= k < i ==> summary@[k].0@ != key@,
        decreases summary@.len() - i,
    {
        if summary[i].0 == *key {
            return Some(i);
        }
        i += 1;
    }
    None
}

/// Where `kind` stands among the kinds listed for a key, if it is listed.
fn kind_position(kinds: &Vec<(BsonType, u64)>, kind: BsonType) -> (found: Option<usize>)
    ensures
        match found {
            Some(at) => at < kinds@.len() && kinds@[at as int].0 == kind,
            None => forall|j: int| 0 <= j < kinds@.len() ==> kinds@[j].0 != kind,
        },
{
    let mut j: usize = 0;
    while j < kinds.len()
        invariant
            j <= kinds@.len(),
            forall|k: int| 0 <= k < j ==> kinds@[k].0 != kind,
        decreases kinds@.len() - j,
    {
        if kinds[j].0 == kind {
            return Some(j);
        }
        j += 1;
    }
    None
}

/// Tallies `fields`: for every key, how many fields under that key hold a
/// value of each kind. Keys and kinds come in the order in which they first
/// occur; a count that a `u64` cannot hold reads as `u64::MAX`.
pub fn count_field_types(fields: &Vec<(String, BsonType)>) -> (summary: Vec<
    (String, Vec<(BsonType, u64)>),
>)
    ensures
        tallies(fields@, summary@),
{
    let mut summary: Vec<(String, Vec<(BsonType, u64)>)> = Vec::new();
    let mut n: usize = 0;
    assert(fields@.take(0) =~= Seq::<(String, BsonType)>::empty());
    assert(listed_keys(summary@) =~= Seq::<Seq<char>>::empty());
    while n < fields.len()
        invariant
            n <= fields@.len(),
            tallies(fields@.take(n as int), summary@),
        decreases fields@.len() - n,
    {
        let ghost seen = fields@.take(n as int);
        let ghost next = fields@.take(n + 1);
        let ghost earlier = summary@;
        let kind = fields[n].1;
        let ghost key = fields@[n as int].0@;
        proof {
            assert forall|other: Seq<char>, sort: BsonType|
                #[trigger] occurrences(next, other, sort) == occurrences(seen, other, sort)
                    + if key == other && kind == sort {
                    1nat
                } else {
                    0nat
                } by {
                lemma_occurrences_step(fields@, n as int, other, sort);
            }
            assert forall|other: Seq<char>|
                #[trigger] kinds_in_order(next, other) == if key != other || kinds_in_order(
                    seen,
                    other,
                ).contains(kind) {
                    kinds_in_order(seen, other)
                } else {
                    kinds_in_order(seen, other).push(kind)
                } by {
                lemma_order_step(fields@, n as int, other);
            }
            lemma_order_step(fields@, n as int, key);
        }
        match key_position(&summary, &fields[n].0) {
            Some(i) => {
                match kind_position(&summary[i].1, kind) {
                    Some(j) => {
                        let count = summary[i].1[j].1;
                        let bumped: u64 = if count < u64::MAX {
                            count + 1
                        } else {
                            count
                        };
                        summary[i].1[j] = (kind, bumped);
                        proof {
                            let now = summary@;
                            assert(now.len() == earlier.len());
                            assert(listed_keys(earlier)[i as int] == key);
                            assert(listed_kinds(earlier[i as int])[j as int] == kind);
                            assert(listed_keys(now) =~= listed_keys(earlier));
                            assert forall|a: int| 0 <= a < now.len() implies listed_kinds(
                                #[trigger] now[a],
                            ) == kinds_in_order(next, now[a].0@) by {
                                assert(listed_kinds(now[a]) =~= listed_kinds(earlier[a]));
                                assert(now[a].0@ == earlier[a].0@);
                                if a != i {
                                    assert(earlier[i as int].0@ != earlier[a].0@);
                                }
                            }
                            assert forall|a: int| 0 <= a < now.len() implies (#[trigger] now[a]).0@
                                == earlier[a].0@ && now[a].1@.len() == earlier[a].1@.len() by {}
                            assert forall|a: int, b: int|
                                0 <= a < now.len() && 0 <= b < now[a].1@.len() implies (
                            #[trigger] now[a].1@[b]).0 == earlier[a].1@[b].0 by {}
                            assert forall|a: int, b: int|
                                0 <= a < now.len() && 0 <= b < now[a].1@.len() implies {
                                &&& occurrences(next, now[a].0@, (#[trigger] now[a].1@[b]).0) > 0
                                &&& now[a].1@[b].1 == capped(
                                    occurrences(next, now[a].0@, now[a].1@[b].0),
                                )
                            } by {
                                let was = earlier[a].1@[b];
                                if a == i && b == j {
                                } else if a == i {
                                    assert(earlier[i as int].1@[j as int].0 != was.0);
                                } else {
                                    assert(earlier[i as int].0@ != earlier[a].0@);
                                }
                            }
                            assert forall|other: Seq<char>, sort: BsonType| #[trigger]
                                occurrences(next, other, sort) > 0 implies exists|a: int, b: int| #[trigger]
                                lists(now, a, b, other, sort) by {
                                if other == key && sort == kind {
                                    assert(lists(now, i as int, j as int, other, sort));
                                } else {
                                    let (a, b) = choose|a: int, b: int| #[trigger]
                                        lists(earlier, a, b, other, sort);
                                    assert(lists(now, a, b, other, sort));
                                }
                            }
                        }
                    },
                    None => {
                        summary[i].1.push((kind, 1u64));
                        proof {
                            let now = summary@;
                            let last = now[i as int].1@.len() - 1;
                            assert(listed_keys(earlier)[i as int] == key);
                            assert(listed_keys(now) =~= listed_keys(earlier));
                            assert(!listed_kinds(earlier[i as int]).contains(kind));
                            assert forall|a: int| 0 <= a < now.len() implies listed_kinds(
                                #[trigger] now[a],
                            ) == kinds_in_order(next, now[a].0@) by {
                                assert(now[a].0@ == earlier[a].0@);
                                if a != i {
                                    assert(listed_kinds(now[a]) =~= listed_kinds(earlier[a]));
                                    assert(earlier[i as int].0@ != earlier[a].0@);
                                } else {
                                    assert(listed_kinds(now[a]) =~= listed_kinds(earlier[a]).push(
                                        kind,
                                    ));
                                }
                            }
                            assert(occurrences(seen, key, kind) == 0) by {
                                if occurrences(seen, key, kind) > 0 {
                                    let (a, b) = choose|a: int, b: int| #[trigger]
                                        lists(earlier, a, b, key, kind);
                                    assert(a == i);
                                }
                            }
                            assert forall|a: int| 0 <= a < now.len() implies (#[trigger] now[a]).0@
                                == earlier[a].0@ by {}
                            assert forall|a: int, b: int|
                                0 <= a < now.len() && 0 <= b < earlier[a].1@.len() implies (
                            #[trigger] now[a].1@[b]) == earlier[a].1@[b] by {}
                            assert forall|a: int, b: int|
                                0 <= a < now.len() && 0 <= b < now[a].1@.len() implies {
                                &&& occurrences(next, now[a].0@, (#[trigger] now[a].1@[b]).0) > 0
                                &&& now[a].1@[b].1 == capped(
                                    occurrences(next, now[a].0@, now[a].1@[b].0),
                                )
                            } by {
                                if a == i && b == last {
                                } else if a == i {
                                    assert(earlier[a].1@[b].0 != kind);
                                } else {
                                    assert(earlier[i as int].0@ != earlier[a].0@);
                                }
                            }
                            assert forall|a: int, b: int, c: int|
                                0 <= a < now.len() && 0 <= b < c < now[a].1@.len() implies (
                            #[trigger] now[a].1@[b]).0 != (#[trigger] now[a].1@[c]).0 by {
                                if a == i && c == last {
                                    assert(earlier[a].1@[b].0 != kind);
                                }
                            }
                            assert forall|other: Seq<char>, sort: BsonType| #[trigger]
                                occurrences(next, other, sort) > 0 implies exists|a: int, b: int| #[trigger]
                                lists(now, a, b, other, sort) by {
                                if other == key && sort == kind {
                                    assert(lists(now, i as int, last, other, sort));
                                } else {
                                    let (a, b) = choose|a: int, b: int| #[trigger]
                                        lists(earlier, a, b, other, sort);
                                    assert(lists(now, a, b, other, sort));
                                }
                            }
                        }
                    },
                }
            },
            None => {
                let mut kinds: Vec<(BsonType, u64)> = Vec::new();
                kinds.push((kind, 1u64));
                summary.push((fields[n].0.clone(), kinds));
                proof {
                    let now = summary@;
                    let last = now.len() - 1;
                    assert forall|sort: BsonType| occurrences(seen, key, sort) == 0 by {
                        if occurrences(seen, key, sort) > 0 {
                            let (a, b) = choose|a: int, b: int| #[trigger]
                                lists(earlier, a, b, key, sort);
                            assert(earlier[a].0@ == key);
                        }
                    }
                    assert forall|a: int| 0 <= a < earlier.len() implies (#[trigger] now[a])
                        == earlier[a] by {}
                    assert(now[last].0@ == key);
                    assert(now[last].1@ =~= seq![(kind, 1u64)]);
                    assert(!listed_keys(earlier).contains(key));
                    assert(listed_keys(now) =~= listed_keys(earlier).push(key));
                    lemma_no_kinds_without_fields(seen, key);
                    assert forall|a: int| 0 <= a < now.len() implies listed_kinds(
                        #[trigger] now[a],
                    ) == kinds_in_order(next, now[a].0@) by {
                        if a == last {
                            assert(listed_kinds(now[a]) =~= seq![kind]);
                            assert(Seq::<BsonType>::empty().push(kind) =~= seq![kind]);
                        } else {
                            assert(earlier[a].0@ != key);
                        }
                    }
                    assert forall|a: int, b: int|
                        0 <= a < now.len() && 0 <= b < now[a].1@.len() implies {
                        &&& occurrences(next, now[a].0@, (#[trigger] now[a].1@[b]).0) > 0
                        &&& now[a].1@[b].1 == capped(occurrences(next, now[a].0@, now[a].1@[b].0))
                    } by {
                        if a == last {
                        } else {
                            assert(earlier[a].0@ != key);
                        }
                    }
                    assert forall|other: Seq<char>, sort: BsonType| #[trigger]
                        occurrences(next, other, sort) > 0 implies exists|a: int, b: int| #[trigger]
                        lists(now, a, b, other, sort) by {
                        if other == key && sort == kind {
                            assert(lists(now, last, 0, other, sort));
                        } else {
                            let (a, b) = choose|a: int, b: int| #[trigger]
                                lists(earlier, a, b, other, sort);
                            assert(lists(now, a, b, other, sort));
                        }
                    }
                }
            },
        }
        n += 1;
    }
    assert(fields@.take(n as int) =~= fields@);
    summary
}

/// Tallies the fields of `documents`: for every key, how many of the
/// documents' fields under that key hold a value of each kind.
pub fn analyze_documents(documents: &Vec<Document>) -> (summary: Vec<(String, Vec<(BsonType, u64)>)>)
    ensures
        exists|typed: Seq<(String, BsonType)>|
            fields_typed(all_fields(documents@), typed) && #[trigger] tallies(typed, summary@),
{
    let typed = typed_fields(documents);
    count_field_types(&typed)
}

} // verus!
