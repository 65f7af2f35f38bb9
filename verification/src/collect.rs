//! Gathering candidate URLs from lists of JSON values, and deciding which of the
//! candidates are new: a URL that is already known is never extracted again.

use vstd::prelude::*;
use crate::json::{items_model, lemma_items_model, Json, JsonModel};
use crate::text::{contains_string, strs};

verus! {

/// The character sequences of an optional list of strings.
pub open spec fn opt_strs(r: Option<Vec<String>>) -> Option<Seq<Seq<char>>> {
    match r {
        Some(v) => Some(strs(v@)),
        None => None,
    }
}

/// Both lists, one after the other, when neither is missing.
pub open spec fn cat(a: Option<Seq<Seq<char>>>, b: Option<Seq<Seq<char>>>) -> Option<Seq<Seq<char>>> {
    match (a, b) {
        (Some(x), Some(y)) => Some(x + y),
        _ => None,
    }
}

/// What `f` gives for each of `items`, in order, one after the other; missing as soon
/// as `f` gives nothing for one of them.
pub open spec fn collect_all(items: Seq<JsonModel>, f: spec_fn(JsonModel) -> Option<Seq<Seq<char>>>) -> Option<Seq<Seq<char>>>
    decreases items.len(),
{
    if items.len() == 0 {
        Some(Seq::empty())
    } else {
        cat(collect_all(items.drop_last(), f), f(items.last()))
    }
}

proof fn lemma_collect_missing(items: Seq<JsonModel>, f: spec_fn(JsonModel) -> Option<Seq<Seq<char>>>, i: int)
    requires
        0 <= i <= items.len(),
        collect_all(items.take(i), f) is None,
    ensures
        collect_all(items, f) is None,
    decreases items.len(),
{
    if i == items.len() {
        assert(items.take(i) =~= items);
    } else {
        let prev = items.drop_last();
        assert(prev.take(i) =~= items.take(i));
        lemma_collect_missing(prev, f, i);
    }
}

/// What `f` gives for two lists one after the other is what it gives for the first,
/// then what it gives for the second.
pub proof fn lemma_collect_concat(a: Seq<JsonModel>, b: Seq<JsonModel>, f: spec_fn(JsonModel) -> Option<Seq<Seq<char>>>)
    ensures
        collect_all(a + b, f) == cat(collect_all(a, f), collect_all(b, f)),
    decreases b.len(),
{
    if b.len() == 0 {
        assert(a + b =~= a);
        if let Some(x) = collect_all(a, f) {
            assert(x + Seq::<Seq<char>>::empty() =~= x);
        }
    } else {
        let prev = b.drop_last();
        lemma_collect_concat(a, prev, f);
        assert((a + b).drop_last() =~= a + prev);
        assert((a + b).last() == b.last());
        match (collect_all(a, f), collect_all(prev, f), f(b.last())) {
            (Some(x), Some(y), Some(z)) => {
                assert(x + y + z =~= x + (y + z));
            },
            _ => {},
        }
    }
}

/// Every string of `part` is one of `whole`.
pub open spec fn all_in(part: Seq<Seq<char>>, whole: Seq<Seq<char>>) -> bool {
    forall|k: int| 0 <= k < part.len() ==> whole.contains(#[trigger] part[k])
}

/// When two lists joined give `u`, both are there, and every string of each is in `u`.
pub proof fn lemma_cat_parts(a: Option<Seq<Seq<char>>>, b: Option<Seq<Seq<char>>>, u: Seq<Seq<char>>)
    requires
        cat(a, b) == Some(u),
    ensures
        a is Some,
        b is Some,
        u == a.unwrap() + b.unwrap(),
        all_in(a.unwrap(), u),
        all_in(b.unwrap(), u),
{
    let x = a.unwrap();
    let y = b.unwrap();
    assert forall|k: int| 0 <= k < x.len() implies u.contains(#[trigger] x[k]) by {
        assert(u[k] == x[k]);
    }
    assert forall|k: int| 0 <= k < y.len() implies u.contains(#[trigger] y[k]) by {
        assert(u[x.len() + k] == y[k]);
    }
}

/// Being among is passed on.
pub proof fn lemma_all_in_trans(a: Seq<Seq<char>>, b: Seq<Seq<char>>, c: Seq<Seq<char>>)
    requires
        all_in(a, b),
        all_in(b, c),
    ensures
        all_in(a, c),
{
    assert forall|k: int| 0 <= k < a.len() implies c.contains(#[trigger] a[k]) by {
        assert(b.contains(a[k]));
        let w = choose|w: int| 0 <= w < b.len() && b[w] == a[k];
        assert(c.contains(b[w]));
    }
}

/// When `f` gives something for the whole list, it gives something for each item, and
/// every string it gives for an item is among those for the whole list.
pub proof fn lemma_collect_parts(items: Seq<JsonModel>, f: spec_fn(JsonModel) -> Option<Seq<Seq<char>>>, u: Seq<Seq<char>>)
    requires
        collect_all(items, f) == Some(u),
    ensures
        forall|i: int| 0 <= i < items.len() ==> (#[trigger] f(items[i])) is Some && all_in(f(items[i]).unwrap(), u),
    decreases items.len(),
{
    if items.len() > 0 {
        let prev = items.drop_last();
        lemma_cat_parts(collect_all(prev, f), f(items.last()), u);
        let v = collect_all(prev, f).unwrap();
        lemma_collect_parts(prev, f, v);
        assert forall|i: int| 0 <= i < items.len() implies (#[trigger] f(items[i])) is Some && all_in(f(items[i]).unwrap(), u) by {
            if i < items.len() - 1 {
                assert(items[i] == prev[i]);
                assert(f(prev[i]) is Some && all_in(f(prev[i]).unwrap(), v));
                lemma_all_in_trans(f(items[i]).unwrap(), v, u);
            } else {
                assert(items[i] == items.last());
            }
        }
    }
}

/// The items that `drop` does not pick, in order.
pub open spec fn without(items: Seq<JsonModel>, drop: spec_fn(JsonModel) -> bool) -> Seq<JsonModel>
    decreases items.len(),
{
    if items.len() == 0 {
        Seq::empty()
    } else {
        let rest = without(items.drop_last(), drop);
        if drop(items.last()) {
            rest
        } else {
            rest.push(items.last())
        }
    }
}

/// Leaving out items for which `f` gives an empty list changes nothing of what `f`
/// gives for the whole list.
pub proof fn lemma_collect_without_quiet(
    items: Seq<JsonModel>,
    f: spec_fn(JsonModel) -> Option<Seq<Seq<char>>>,
    drop: spec_fn(JsonModel) -> bool,
)
    requires
        forall|x: JsonModel| #[trigger] drop(x) ==> f(x) == Some(Seq::<Seq<char>>::empty()),
    ensures
        collect_all(without(items, drop), f) == collect_all(items, f),
    decreases items.len(),
{
    if items.len() > 0 {
        let prev = items.drop_last();
        let x = items.last();
        lemma_collect_without_quiet(prev, f, drop);
        if drop(x) {
            if let Some(v) = collect_all(prev, f) {
                assert(v + Seq::<Seq<char>>::empty() =~= v);
            }
        } else {
            let w = without(prev, drop);
            assert(w.push(x).drop_last() =~= w);
            assert(w.push(x).last() == x);
        }
    }
}

/// When `drop` picks every item, none is left.
pub proof fn lemma_without_all(items: Seq<JsonModel>, drop: spec_fn(JsonModel) -> bool)
    requires
        forall|i: int| 0 <= i < items.len() ==> #[trigger] drop(items[i]),
    ensures
        without(items, drop) == Seq::<JsonModel>::empty(),
    decreases items.len(),
{
    if items.len() > 0 {
        let prev = items.drop_last();
        assert forall|i: int| 0 <= i < prev.len() implies #[trigger] drop(prev[i]) by {
            assert(prev[i] == items[i]);
        }
        lemma_without_all(prev, drop);
        assert(drop(items[items.len() - 1]));
    }
}

/// Applies `f` to each item and joins the results; `None` as soon as `f` gives `None`.
pub(crate) fn collect_each<F: Fn(&Json) -> Option<Vec<String>>>(
    items: &Vec<Json>,
    f: F,
    Ghost(spec_f): Ghost<spec_fn(JsonModel) -> Option<Seq<Seq<char>>>>,
) -> (r: Option<Vec<String>>)
    requires
        forall|j: &Json| #[trigger] f.requires((j,)),
        forall|j: &Json, out: Option<Vec<String>>| #[trigger] f.ensures((j,), out) ==> opt_strs(out) == spec_f(j.model()),
    ensures
        opt_strs(r) == collect_all(items_model(items@), spec_f),
{
    let ghost models = items_model(items@);
    proof {
        lemma_items_model(items@);
    }
    let mut acc: Vec<String> = Vec::new();
    let n = items.len();
    assert(models.take(0) =~= Seq::<JsonModel>::empty());
    for i in 0..n
        invariant
            n == items@.len(),
            models == items_model(items@),
            models.len() == n,
            forall|k: int| 0 <= k < n ==> #[trigger] models[k] == items@[k].model(),
            forall|j: &Json| #[trigger] f.requires((j,)),
            forall|j: &Json, out: Option<Vec<String>>| #[trigger] f.ensures((j,), out) ==> opt_strs(out) == spec_f(j.model()),
            collect_all(models.take(i as int), spec_f) == Some(strs(acc@)),
    {
        let part = f(&items[i]);
        assert(models.take(i + 1).drop_last() =~= models.take(i as int));
        assert(models.take(i + 1).last() == items@[i as int].model());
        match part {
            Some(mut more) => {
                let ghost before = strs(acc@);
                let ghost added = strs(more@);
                acc.append(&mut more);
                assert(strs(acc@) =~= before + added);
            },
            None => {
                proof {
                    lemma_collect_missing(models, spec_f, i + 1);
                }
                return None;
            },
        }
    }
    assert(models.take(n as int) =~= models);
    Some(acc)
}

/// The candidates that are not among `known`, in order.
pub open spec fn keep_new(known: Seq<Seq<char>>, cands: Seq<Seq<char>>) -> Seq<Seq<char>>
    decreases cands.len(),
{
    if cands.len() == 0 {
        Seq::empty()
    } else {
        let rest = keep_new(known, cands.drop_last());
        if known.contains(cands.last()) {
            rest
        } else {
            rest.push(cands.last())
        }
    }
}

/// Appends to `urls` each candidate that is not among `ignores`.
pub fn add_unignored(urls: &mut Vec<String>, ignores: &Vec<String>, cands: Vec<String>)
    ensures
        strs(final(urls)@) == strs(old(urls)@) + keep_new(strs(ignores@), strs(cands@)),
{
    let n = cands.len();
    let ghost start = strs(urls@);
    assert(cands@.take(0) =~= Seq::<String>::empty());
    assert(start + Seq::empty() =~= start);
    for i in 0..n
        invariant
            n == cands@.len(),
            strs(urls@) == start + keep_new(strs(ignores@), strs(cands@.take(i as int))),
    {
        let c = &cands[i];
        assert(strs(cands@.take(i + 1)).drop_last() =~= strs(cands@.take(i as int)));
        assert(strs(cands@.take(i + 1)).last() == c@);
        if !contains_string(ignores, c.as_str()) {
            let ghost before = strs(urls@);
            urls.push(c.clone());
            assert(strs(urls@) =~= before.push(c@));
        }
        assert(strs(urls@) =~= start + keep_new(strs(ignores@), strs(cands@.take(i + 1))));
    }
    assert(cands@.take(n as int) =~= cands@);
}

/// Every URL that `keep_new` keeps is one of the candidates and is not known.
pub proof fn lemma_keep_new_unknown(known: Seq<Seq<char>>, cands: Seq<Seq<char>>)
    ensures
        forall|k: int| 0 <= k < keep_new(known, cands).len() ==> {
            &&& !known.contains(#[trigger] keep_new(known, cands)[k])
            &&& cands.contains(keep_new(known, cands)[k])
        },
    decreases cands.len(),
{
    if cands.len() > 0 {
        let prev = cands.drop_last();
        lemma_keep_new_unknown(known, prev);
        let rest = keep_new(known, prev);
        assert forall|k: int| 0 <= k < keep_new(known, cands).len() implies {
            &&& !known.contains(#[trigger] keep_new(known, cands)[k])
            &&& cands.contains(keep_new(known, cands)[k])
        } by {
            if k < rest.len() {
                assert(keep_new(known, cands)[k] == rest[k]);
                let w = choose|w: int| 0 <= w < prev.len() && prev[w] == rest[k];
                assert(cands[w] == prev[w]);
            } else {
                assert(keep_new(known, cands)[k] == cands.last());
                assert(cands[cands.len() - 1] == cands.last());
            }
        }
    }
}

/// The first occurrences of the candidates that are neither among `known` nor earlier
/// among the candidates, in order.
pub open spec fn fresh(known: Seq<Seq<char>>, cands: Seq<Seq<char>>) -> Seq<Seq<char>>
    decreases cands.len(),
{
    if cands.len() == 0 {
        Seq::empty()
    } else {
        let rest = fresh(known, cands.drop_last());
        if known.contains(cands.last()) || rest.contains(cands.last()) {
            rest
        } else {
            rest.push(cands.last())
        }
    }
}

/// Records the candidates one by one: a candidate that is not yet known becomes
/// both a new URL and a known one.
pub open spec fn absorb(urls: Seq<Seq<char>>, known: Seq<Seq<char>>, cands: Seq<Seq<char>>) -> (Seq<Seq<char>>, Seq<Seq<char>>)
    decreases cands.len(),
{
    if cands.len() == 0 {
        (urls, known)
    } else {
        let prev = absorb(urls, known, cands.drop_last());
        let c = cands.last();
        if prev.1.contains(c) {
            prev
        } else {
            (prev.0.push(c), prev.1.push(c))
        }
    }
}


/// The URLs gathered so far and the URLs known so far.
pub struct RetVal {
    pub urls: Vec<String>,
    pub ignores: Vec<String>,
}

/// Records the candidates one by one, as `absorb` describes.
pub fn absorb_new(state: &mut RetVal, cands: Vec<String>)
    ensures
        (strs(final(state).urls@), strs(final(state).ignores@)) == absorb(
            strs(old(state).urls@),
            strs(old(state).ignores@),
            strs(cands@),
        ),
{
    let n = cands.len();
    let ghost u0 = strs(state.urls@);
    let ghost k0 = strs(state.ignores@);
    assert(cands@.take(0) =~= Seq::<String>::empty());
    for i in 0..n
        invariant
            n == cands@.len(),
            (strs(state.urls@), strs(state.ignores@)) == absorb(u0, k0, strs(cands@.take(i as int))),
    {
        let c = &cands[i];
        assert(strs(cands@.take(i + 1)).drop_last() =~= strs(cands@.take(i as int)));
        assert(strs(cands@.take(i + 1)).last() == c@);
        if !contains_string(&state.ignores, c.as_str()) {
            let ghost bu = strs(state.urls@);
            let ghost bk = strs(state.ignores@);
            state.urls.push(c.clone());
            state.ignores.push(c.clone());
            assert(strs(state.urls@) =~= bu.push(c@));
            assert(strs(state.ignores@) =~= bk.push(c@));
        }
    }
    assert(cands@.take(n as int) =~= cands@);
}

/// A list of two parts holds what either part holds.
pub proof fn lemma_contains_concat(a: Seq<Seq<char>>, b: Seq<Seq<char>>, x: Seq<char>)
    ensures
        (a + b).contains(x) <==> (a.contains(x) || b.contains(x)),
{
    if (a + b).contains(x) {
        let w = choose|w: int| 0 <= w < (a + b).len() && (a + b)[w] == x;
        if w < a.len() {
            assert(a[w] == x);
        } else {
            assert(b[w - a.len()] == x);
        }
    }
    if a.contains(x) {
        let w = choose|w: int| 0 <= w < a.len() && a[w] == x;
        assert((a + b)[w] == x);
    }
    if b.contains(x) {
        let w = choose|w: int| 0 <= w < b.len() && b[w] == x;
        assert((a + b)[a.len() + w] == x);
    }
}

/// Recording candidates one by one appends the same fresh URLs to the gathered
/// and to the known ones.
pub proof fn lemma_absorb_fresh(urls: Seq<Seq<char>>, known: Seq<Seq<char>>, cands: Seq<Seq<char>>)
    ensures
        absorb(urls, known, cands) == (urls + fresh(known, cands), known + fresh(known, cands)),
    decreases cands.len(),
{
    if cands.len() == 0 {
        assert(urls + Seq::<Seq<char>>::empty() =~= urls);
        assert(known + Seq::<Seq<char>>::empty() =~= known);
    } else {
        let prev = cands.drop_last();
        lemma_absorb_fresh(urls, known, prev);
        let f = fresh(known, prev);
        let c = cands.last();
        lemma_contains_concat(known, f, c);
        assert((urls + f).push(c) =~= urls + f.push(c));
        assert((known + f).push(c) =~= known + f.push(c));
    }
}

/// The fresh URLs are distinct, none of them is known, and each is a candidate.
pub proof fn lemma_fresh_props(known: Seq<Seq<char>>, cands: Seq<Seq<char>>)
    ensures
        fresh(known, cands).no_duplicates(),
        forall|k: int| 0 <= k < fresh(known, cands).len() ==> {
            &&& !known.contains(#[trigger] fresh(known, cands)[k])
            &&& cands.contains(fresh(known, cands)[k])
        },
    decreases cands.len(),
{
    if cands.len() > 0 {
        let prev = cands.drop_last();
        lemma_fresh_props(known, prev);
        let f = fresh(known, prev);
        let c = cands.last();
        assert forall|k: int| 0 <= k < fresh(known, cands).len() implies {
            &&& !known.contains(#[trigger] fresh(known, cands)[k])
            &&& cands.contains(fresh(known, cands)[k])
        } by {
            if k < f.len() {
                assert(fresh(known, cands)[k] == f[k]);
                let w = choose|w: int| 0 <= w < prev.len() && prev[w] == f[k];
                assert(cands[w] == prev[w]);
            } else {
                assert(cands[cands.len() - 1] == c);
            }
        }
        if !(known.contains(c) || f.contains(c)) {
            let g = f.push(c);
            assert forall|i: int, j: int| 0 <= i < g.len() && 0 <= j < g.len() && i != j implies g[i] != g[j] by {
                if i < f.len() && j < f.len() {
                    assert(g[i] == f[i] && g[j] == f[j]);
                } else if i < f.len() {
                    assert(g[i] == f[i]);
                } else {
                    assert(g[j] == f[j]);
                }
            }
        }
    }
}

/// Recording keeps the gathered URLs distinct and known, and adds none that was known
/// before: a URL is extracted at most once, and never when it was to be ignored.
pub proof fn lemma_absorb_distinct(urls: Seq<Seq<char>>, known: Seq<Seq<char>>, cands: Seq<Seq<char>>)
    requires
        urls.no_duplicates(),
        forall|k: int| 0 <= k < urls.len() ==> known.contains(#[trigger] urls[k]),
    ensures
        absorb(urls, known, cands).0.no_duplicates(),
        forall|k: int| 0 <= k < absorb(urls, known, cands).0.len() ==>
            absorb(urls, known, cands).1.contains(#[trigger] absorb(urls, known, cands).0[k]),
        absorb(urls, known, cands).0.take(urls.len() as int) == urls,
        forall|k: int| urls.len() <= k < absorb(urls, known, cands).0.len() ==>
            !known.contains(#[trigger] absorb(urls, known, cands).0[k]),
{
    lemma_absorb_fresh(urls, known, cands);
    lemma_fresh_props(known, cands);
    let f = fresh(known, cands);
    let u = urls + f;
    let kn = known + f;
    assert(u.take(urls.len() as int) =~= urls);
    assert forall|i: int, j: int| 0 <= i < u.len() && 0 <= j < u.len() && i != j implies u[i] != u[j] by {
        if i < urls.len() && j < urls.len() {
        } else if i < urls.len() {
            assert(u[j] == f[j - urls.len()]);
            assert(known.contains(urls[i]));
        } else if j < urls.len() {
            assert(u[i] == f[i - urls.len()]);
            assert(known.contains(urls[j]));
        } else {
            assert(u[i] == f[i - urls.len()] && u[j] == f[j - urls.len()]);
        }
    }
    assert forall|k: int| 0 <= k < u.len() implies kn.contains(#[trigger] u[k]) by {
        lemma_contains_concat(known, f, u[k]);
        if k < urls.len() {
        } else {
            assert(f[k - urls.len()] == u[k]);
        }
    }
    assert forall|k: int| urls.len() <= k < u.len() implies !known.contains(#[trigger] u[k]) by {
        assert(u[k] == f[k - urls.len()]);
    }
}

} // verus!
