//! Facts about sequences that the search and the extractors rest on.

use vstd::prelude::*;

verus! {

/// `answers[i]` is what `f` returned for `asked[i]`, for every `i`.
pub open spec fn answered<A, R, F: Fn(&A) -> R>(f: F, asked: Seq<A>, answers: Seq<R>) -> bool {
    &&& asked.len() == answers.len()
    &&& forall|i: int|
        0 <= i < asked.len() ==> call_ensures(f, (&asked[i],), #[trigger] answers[i])
}

/// What `f` returns for each of `asked`, in order.
pub fn ask_each<A, R, F: Fn(&A) -> R>(f: &F, asked: &Vec<A>) -> (answers: Vec<R>)
    requires
        forall|i: int| 0 <= i < asked@.len() ==> call_requires(*f, (&asked@[i],)),
    ensures
        answered(*f, asked@, answers@),
{
    let mut answers: Vec<R> = Vec::new();
    let mut i: usize = 0;
    while i < asked.len()
        invariant
            i <= asked.len(),
            forall|k: int| 0 <= k < asked@.len() ==> call_requires(*f, (&asked@[k],)),
            answers@.len() == i,
            forall|k: int|
                0 <= k < i ==> call_ensures(*f, (&asked@[k],), #[trigger] answers@[k]),
        decreases asked.len() - i,
    {
        let answer = f(&asked[i]);
        answers.push(answer);
        i += 1;
    }
    answers
}

/// The values among `yields`, in order, with every `None` left out.
pub open spec fn kept<T>(yields: Seq<Option<T>>) -> Seq<T> {
    yields.filter_map(|y: Option<T>| y)
}

/// `model` applied to what `y` holds, if it holds anything.
pub open spec fn shown<T, V>(y: Option<T>, model: spec_fn(T) -> V) -> Option<V> {
    match y {
        Some(t) => Some(model(t)),
        None => None,
    }
}

/// Where every yield agrees, under `model`, with what `g` makes of the
/// matching input under `view`, the yields that were kept are, under
/// `model`, what `g` keeps of the inputs under `view`.
pub proof fn lemma_kept_models<A, B, T, V>(
    inputs: Seq<A>,
    view: spec_fn(A) -> B,
    yields: Seq<Option<T>>,
    model: spec_fn(T) -> V,
    g: spec_fn(B) -> Option<V>,
)
    requires
        inputs.len() == yields.len(),
        forall|i: int|
            0 <= i < inputs.len() ==> shown(#[trigger] yields[i], model) == g(view(inputs[i])),
    ensures
        kept(yields).map_values(model) == inputs.map_values(view).filter_map(g),
    decreases inputs.len(),
{
    if inputs.len() == 0 {
        assert(kept(yields).map_values(model) =~= Seq::<V>::empty());
        assert(inputs.map_values(view).filter_map(g) =~= Seq::<V>::empty());
    } else {
        lemma_kept_models(inputs.drop_last(), view, yields.drop_last(), model, g);
        assert(inputs.map_values(view).drop_last() =~= inputs.drop_last().map_values(view));
        assert(inputs.map_values(view).last() == view(inputs.last()));
        match yields.last() {
            Some(t) => {
                assert(kept(yields) == kept(yields.drop_last()) + seq![t]);
                assert((kept(yields.drop_last()) + seq![t]).map_values(model) =~= kept(
                    yields.drop_last(),
                ).map_values(model) + seq![model(t)]);
            },
            None => {},
        }
    }
}

/// The sequences that `groups` hold, one for one.
pub open spec fn seqs_of<T>(groups: Seq<Vec<T>>) -> Seq<Seq<T>> {
    groups.map_values(|group: Vec<T>| group@)
}

/// The items of every group, group after group.
pub fn flatten_all<T>(groups: Vec<Vec<T>>) -> (flat: Vec<T>)
    ensures
        flat@ == seqs_of(groups@).flatten(),
{
    let ghost all = seqs_of(groups@);
    let mut flat: Vec<T> = Vec::new();
    assert(all.take(0) =~= Seq::<Seq<T>>::empty());
    for group in outer: groups
        invariant
            all == seqs_of(outer.seq()),
            flat@ == all.take(outer.index() as int).flatten(),
    {
        let ghost before = flat@;
        let ghost items = group@;
        assert(items.take(0) =~= Seq::<T>::empty());
        for item in inner: group
            invariant
                inner.seq() == items,
                flat@ == before + items.take(inner.index() as int),
        {
            flat.push(item);
            assert(flat@ =~= before + items.take(inner.index() + 1));
        }
        proof {
            let done = all.take(outer.index() as int);
            assert(items.take(items.len() as int) =~= items);
            assert(all.take(outer.index() + 1) =~= done.push(items));
            done.lemma_flatten_push(items);
        }
    }
    assert(all.take(all.len() as int) =~= all);
    flat
}

/// Taking the model of every item commutes with flattening.
pub proof fn lemma_flatten_models<T, V>(groups: Seq<Seq<T>>, model: spec_fn(T) -> V)
    ensures
        groups.flatten().map_values(model) == groups.map_values(
            |group: Seq<T>| group.map_values(model),
        ).flatten(),
    decreases groups.len(),
{
    let inner = |group: Seq<T>| group.map_values(model);
    if groups.len() == 0 {
        assert(groups.flatten().map_values(model) =~= Seq::<V>::empty());
    } else {
        lemma_flatten_models(groups.drop_first(), model);
        assert(groups.map_values(inner).drop_first() =~= groups.drop_first().map_values(inner));
        assert((groups.first() + groups.drop_first().flatten()).map_values(model)
            =~= groups.first().map_values(model) + groups.drop_first().flatten().map_values(
            model,
        ));
    }
}

/// Keeping what `f` recognises commutes with concatenation.
pub proof fn lemma_filter_map_concat<A, B>(a: Seq<A>, b: Seq<A>, f: spec_fn(A) -> Option<B>)
    ensures
        (a + b).filter_map(f) == a.filter_map(f) + b.filter_map(f),
    decreases b.len(),
{
    if b.len() == 0 {
        assert(a + b =~= a);
        assert(a.filter_map(f) + b.filter_map(f) =~= a.filter_map(f));
    } else {
        assert((a + b).drop_last() =~= a + b.drop_last());
        lemma_filter_map_concat(a, b.drop_last(), f);
        assert((a + b).last() == b.last());
        match f(b.last()) {
            Some(x) => {
                assert(a.filter_map(f) + (b.drop_last().filter_map(f) + seq![x]) =~= (a.filter_map(
                    f,
                ) + b.drop_last().filter_map(f)) + seq![x]);
            },
            None => {},
        }
    }
}

/// What `f` keeps of a single item.
pub proof fn lemma_filter_map_one<A, B>(item: A, f: spec_fn(A) -> Option<B>)
    ensures
        seq![item].filter_map(f) == match f(item) {
            Some(x) => seq![x],
            None => Seq::empty(),
        },
{
    reveal_with_fuel(Seq::filter_map, 2);
    assert(seq![item].drop_last() =~= Seq::<A>::empty());
    match f(item) {
        Some(x) => {
            assert(Seq::<B>::empty() + seq![x] =~= seq![x]);
        },
        None => {},
    }
}

/// Every member of either part of a concatenation is a member of the
/// whole.
pub proof fn lemma_concat_contains<A>(a: Seq<A>, b: Seq<A>)
    ensures
        forall|x: A| a.contains(x) ==> #[trigger] (a + b).contains(x),
        forall|x: A| b.contains(x) ==> #[trigger] (a + b).contains(x),
{
    assert forall|x: A| a.contains(x) implies #[trigger] (a + b).contains(x) by {
        let j = choose|j: int| 0 <= j < a.len() && a[j] == x;
        assert((a + b)[j] == x);
    }
    assert forall|x: A| b.contains(x) implies #[trigger] (a + b).contains(x) by {
        let j = choose|j: int| 0 <= j < b.len() && b[j] == x;
        assert((a + b)[a.len() + j] == x);
    }
}

} // verus!
