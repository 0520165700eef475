//! Gathering what was found under the name of the secret it belongs to.
//!
//! A grouped view is a list of groups, one for each name, in the order in
//! which the names were first seen; the members of a group stand in the
//! order in which they were found.

use vstd::prelude::*;

verus! {

/// A name and what was found under it.
#[derive(Debug)]
pub struct Group<T> {
    pub name: String,
    pub members: Vec<T>,
}

/// Each of `names` once, in the order of first occurrence.
pub open spec fn first_seen(names: Seq<Seq<char>>) -> Seq<Seq<char>>
    decreases names.len(),
{
    if names.len() == 0 {
        Seq::empty()
    } else {
        let before = first_seen(names.drop_last());
        if before.contains(names.last()) {
            before
        } else {
            before.push(names.last())
        }
    }
}

/// The names under which `labelled` items stand, one for one.
pub open spec fn labels<V>(labelled: Seq<(Seq<char>, V)>) -> Seq<Seq<char>> {
    labelled.map_values(|item: (Seq<char>, V)| item.0)
}

/// The items of `labelled` that stand under `name`, in order.
pub open spec fn members_named<V>(labelled: Seq<(Seq<char>, V)>, name: Seq<char>) -> Seq<V> {
    labelled.filter_map(
        |item: (Seq<char>, V)|
            if item.0 == name {
                Some(item.1)
            } else {
                None
            },
    )
}

/// `labelled` gathered by name: one group for each name, in the order in
/// which the names first occur, each with its items in their order.
pub open spec fn grouped<V>(labelled: Seq<(Seq<char>, V)>) -> Seq<(Seq<char>, Seq<V>)> {
    first_seen(labels(labelled)).map_values(|name: Seq<char>| (name, members_named(labelled, name)))
}

/// What `groups` hold, their members seen through `model`.
pub open spec fn groups_model<T, V>(
    groups: Seq<Group<T>>,
    model: spec_fn(T) -> V,
) -> Seq<(Seq<char>, Seq<V>)> {
    groups.map_values(|group: Group<T>| (group.name@, group.members@.map_values(model)))
}

/// What `labelled` holds, its items seen through `model`.
pub open spec fn labelled_model<T, V>(
    labelled: Seq<(String, T)>,
    model: spec_fn(T) -> V,
) -> Seq<(Seq<char>, V)> {
    labelled.map_values(|item: (String, T)| (item.0@, model(item.1)))
}

/// Among the names seen first are exactly the names that occur, each once.
pub proof fn lemma_first_seen(names: Seq<Seq<char>>)
    ensures
        first_seen(names).no_duplicates(),
        forall|name: Seq<char>| first_seen(names).contains(name) <==> names.contains(name),
    decreases names.len(),
{
    if names.len() > 0 {
        let before = first_seen(names.drop_last());
        let last = names.last();
        lemma_first_seen(names.drop_last());
        assert forall|name: Seq<char>| first_seen(names).contains(name) <==> names.contains(
            name,
        ) by {
            if names.contains(name) {
                let j = choose|j: int| 0 <= j < names.len() && names[j] == name;
                if j < names.len() - 1 {
                    assert(names.drop_last()[j] == name);
                    assert(names.drop_last().contains(name));
                    assert(before.contains(name));
                    let k = choose|k: int| 0 <= k < before.len() && before[k] == name;
                    assert(first_seen(names)[k] == name);
                } else if !before.contains(last) {
                    assert(before.push(last)[before.len() as int] == name);
                }
            }
            if first_seen(names).contains(name) {
                let k = choose|k: int| 0 <= k < first_seen(names).len() && first_seen(names)[k]
                    == name;
                if k < before.len() {
                    assert(before[k] == name);
                    assert(before.contains(name));
                    assert(names.drop_last().contains(name));
                    let j = choose|j: int| 0 <= j < names.drop_last().len()
                        && names.drop_last()[j] == name;
                    assert(names[j] == name);
                } else {
                    assert(names[names.len() - 1] == name);
                }
            }
        }
    }
}

/// No item stands under a name that does not occur.
pub proof fn lemma_no_members<V>(labelled: Seq<(Seq<char>, V)>, name: Seq<char>)
    requires
        !labels(labelled).contains(name),
    ensures
        members_named(labelled, name) == Seq::<V>::empty(),
    decreases labelled.len(),
{
    if labelled.len() > 0 {
        assert(labels(labelled)[labelled.len() - 1] == labelled.last().0);
        assert forall|n: Seq<char>| labels(labelled.drop_last()).contains(n) implies labels(
            labelled,
        ).contains(n) by {
            let j = choose|j: int| 0 <= j < labelled.drop_last().len() && labels(
                labelled.drop_last(),
            )[j] == n;
            assert(labels(labelled)[j] == n);
        }
        lemma_no_members(labelled.drop_last(), name);
    }
}

/// What one more item does to the grouped view: it joins the group of its
/// name where there is one, and else opens a new group at the end.
pub proof fn lemma_grouped_push<V>(labelled: Seq<(Seq<char>, V)>, name: Seq<char>, item: V)
    ensures
        ({
            let before = grouped(labelled);
            let after = grouped(labelled.push((name, item)));
            if labels(labelled).contains(name) {
                &&& after.len() == before.len()
                &&& forall|g: int|
                    0 <= g < before.len() ==> #[trigger] after[g] == (if before[g].0 == name {
                        (name, before[g].1.push(item))
                    } else {
                        before[g]
                    })
            } else {
                after == before.push((name, seq![item]))
            }
        }),
{
    let more = labelled.push((name, item));
    let before = grouped(labelled);
    let after = grouped(more);
    assert(more.drop_last() =~= labelled);
    assert(labels(more).drop_last() =~= labels(labelled));
    assert(labels(more).last() == name);
    lemma_first_seen(labels(labelled));
    assert forall|other: Seq<char>| #[trigger]
        members_named(more, other) == (if other == name {
            members_named(labelled, other).push(item)
        } else {
            members_named(labelled, other)
        }) by {
        if other == name {
            assert(members_named(labelled, other) + seq![item] =~= members_named(
                labelled,
                other,
            ).push(item));
        }
    }
    if labels(labelled).contains(name) {
        assert(first_seen(labels(more)) == first_seen(labels(labelled)));
        assert forall|g: int| 0 <= g < before.len() implies #[trigger] after[g] == (if before[g].0
            == name {
            (name, before[g].1.push(item))
        } else {
            before[g]
        }) by {
            let other = first_seen(labels(labelled))[g];
            assert(after[g] == (other, members_named(more, other)));
        }
    } else {
        lemma_no_members(labelled, name);
        assert(first_seen(labels(more)) == first_seen(labels(labelled)).push(name));
        assert(members_named(more, name) =~= seq![item]);
        assert forall|g: int| 0 <= g < before.len() implies #[trigger] after[g] == before[g] by {
            let other = first_seen(labels(labelled))[g];
            assert(first_seen(labels(labelled)).contains(other));
            assert(other != name);
            assert(after[g] == (other, members_named(more, other)));
        }
        assert(after =~= before.push((name, seq![item])));
    }
}

/// The texts that `strings` hold, one for one.
pub open spec fn texts_of(strings: Seq<String>) -> Seq<Seq<char>> {
    strings.map_values(|s: String| s@)
}

/// Each of `names` once, in the order of first occurrence.
pub fn distinct(names: Vec<String>) -> (once: Vec<String>)
    ensures
        texts_of(once@) == first_seen(texts_of(names@)),
{
    let ghost all = texts_of(names@);
    let mut once: Vec<String> = Vec::new();
    assert(all.take(0) =~= Seq::<Seq<char>>::empty());
    assert(texts_of(once@) =~= first_seen(all.take(0)));
    for name in it: names
        invariant
            all == texts_of(it.seq()),
            texts_of(once@) == first_seen(all.take(it.index() as int)),
    {
        let ghost before = once@;
        proof {
            assert(all.take(it.index() + 1).drop_last() =~= all.take(it.index() as int));
            assert(all.take(it.index() + 1).last() == name@);
        }
        let mut g: usize = 0;
        while g < once.len() && !(once[g] == name)
            invariant
                g <= once.len(),
                forall|j: int| 0 <= j < g ==> (#[trigger] once@[j])@ != name@,
            decreases once.len() - g,
        {
            g += 1;
        }
        if g < once.len() {
            assert(texts_of(before)[g as int] == name@);
        } else {
            once.push(name);
            proof {
                if texts_of(before).contains(name@) {
                    let j = choose|j: int| 0 <= j < before.len() && texts_of(before)[j] == name@;
                    assert(before[j]@ == name@);
                }
                assert(texts_of(once@) =~= texts_of(before).push(name@));
            }
        }
    }
    assert(all.take(all.len() as int) =~= all);
    once
}

/// Gathers `labelled` items by their names.
pub(crate) fn group_by_name<T, V>(
    labelled: Vec<(String, T)>,
    Ghost(model): Ghost<spec_fn(T) -> V>,
) -> (groups: Vec<Group<T>>)
    ensures
        groups_model(groups@, model) == grouped(labelled_model(labelled@, model)),
{
    let ghost all = labelled_model(labelled@, model);
    let mut groups: Vec<Group<T>> = Vec::new();
    assert(all.take(0) =~= Seq::<(Seq<char>, V)>::empty());
    assert(groups_model(groups@, model) =~= grouped(all.take(0)));
    for entry in it: labelled
        invariant
            all == labelled_model(it.seq(), model),
            groups_model(groups@, model) == grouped(all.take(it.index() as int)),
    {
        let ghost seen = all.take(it.index() as int);
        let ghost before = groups@;
        let (name, item) = entry;
        proof {
            assert(all.take(it.index() + 1) =~= seen.push((name@, model(item))));
            lemma_grouped_push(seen, name@, model(item));
            lemma_first_seen(labels(seen));
        }
        let mut g: usize = 0;
        while g < groups.len() && !(groups[g].name == name)
            invariant
                g <= groups.len(),
                forall|j: int| 0 <= j < g ==> (#[trigger] groups@[j]).name@ != name@,
            decreases groups.len() - g,
        {
            g += 1;
        }
        let ghost names = first_seen(labels(seen));
        let ghost after = grouped(seen.push((name@, model(item))));
        proof {
            assert(names.len() == before.len());
            assert forall|j: int| 0 <= j < before.len() implies names[j] == (
            #[trigger] before[j]).name@ by {
                assert(groups_model(before, model)[j].0 == names[j]);
            }
        }
        if g < groups.len() {
            groups[g].members.push(item);
            proof {
                assert(names[g as int] == name@);
                assert(names.contains(name@));
                assert forall|j: int| 0 <= j < before.len() implies #[trigger] groups_model(
                    groups@,
                    model,
                )[j] == after[j] by {
                    assert(groups_model(before, model)[j] == grouped(seen)[j]);
                    if j == g {
                        assert(groups@[j].members@.map_values(model) =~= before[j].members@.map_values(
                            model,
                        ).push(model(item)));
                    } else {
                        assert(names[j] != names[g as int]);
                        assert(groups@[j] == before[j]);
                    }
                }
            }
        } else {
            let mut members: Vec<T> = Vec::new();
            members.push(item);
            groups.push(Group { name, members });
            proof {
                if labels(seen).contains(name@) {
                    assert(names.contains(name@));
                    let j = choose|j: int| 0 <= j < names.len() && names[j] == name@;
                    assert(before[j].name@ == name@);
                }
                assert(members@.map_values(model) =~= seq![model(item)]);
                assert(groups_model(groups@, model) =~= groups_model(before, model).push(
                    (name@, seq![model(item)]),
                ));
            }
        }
        assert(groups_model(groups@, model) =~= grouped(all.take(it.index() + 1)));
    }
    assert(all.take(all.len() as int) =~= all);
    groups
}

} // verus!
