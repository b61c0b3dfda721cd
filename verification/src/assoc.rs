//! Association lists: vectors of pairs keyed by text, read as maps.
use crate::text::same_text;
use vstd::prelude::*;

verus! {

/// Values by key, later pairs overriding earlier ones.
pub open spec fn assoc_map<V>(v: Seq<(String, V)>) -> Map<Seq<char>, V>
    decreases v.len(),
{
    if v.len() == 0 {
        Map::empty()
    } else {
        assoc_map(v.drop_last()).insert(v.last().0@, v.last().1)
    }
}

/// No key occurs twice.
pub open spec fn distinct_keys<V>(v: Seq<(String, V)>) -> bool {
    forall|i: int, j: int| 0 <= i < j < v.len() ==> #[trigger] v[i].0@ != #[trigger] v[j].0@
}

pub proof fn lemma_assoc_absent<V>(v: Seq<(String, V)>, k: Seq<char>)
    requires
        forall|i: int| 0 <= i < v.len() ==> #[trigger] v[i].0@ != k,
    ensures
        !assoc_map(v).dom().contains(k),
    decreases v.len(),
{
    if v.len() > 0 {
        assert forall|i: int| 0 <= i < v.drop_last().len() implies #[trigger] v.drop_last()[i].0@ != k by {
            assert(v.drop_last()[i] == v[i]);
        }
        lemma_assoc_absent(v.drop_last(), k);
        assert(v.last() == v[v.len() - 1]);
    }
}

pub proof fn lemma_assoc_lookup<V>(v: Seq<(String, V)>, i: int)
    requires
        distinct_keys(v),
        0 <= i < v.len(),
    ensures
        assoc_map(v).dom().contains(v[i].0@),
        assoc_map(v)[v[i].0@] == v[i].1,
    decreases v.len(),
{
    if i < v.len() - 1 {
        assert(distinct_keys(v.drop_last())) by {
            assert forall|a: int, b: int| 0 <= a < b < v.drop_last().len() implies #[trigger] v.drop_last()[a].0@
                != #[trigger] v.drop_last()[b].0@ by {
                assert(v.drop_last()[a] == v[a]);
                assert(v.drop_last()[b] == v[b]);
            }
        }
        lemma_assoc_lookup(v.drop_last(), i);
        assert(v.drop_last()[i] == v[i]);
        assert(v[i].0@ != v[v.len() - 1].0@);
    }
}

pub proof fn lemma_distinct_prefix<V>(v: Seq<(String, V)>)
    requires
        distinct_keys(v),
        v.len() > 0,
    ensures
        distinct_keys(v.drop_last()),
        forall|i: int| 0 <= i < v.len() - 1 ==> #[trigger] v.drop_last()[i].0@ != v.last().0@,
{
    assert forall|a: int, b: int| 0 <= a < b < v.drop_last().len() implies #[trigger] v.drop_last()[a].0@
        != #[trigger] v.drop_last()[b].0@ by {
        assert(v.drop_last()[a] == v[a]);
        assert(v.drop_last()[b] == v[b]);
    }
    assert forall|i: int| 0 <= i < v.len() - 1 implies #[trigger] v.drop_last()[i].0@ != v.last().0@ by {
        assert(v.drop_last()[i] == v[i]);
        assert(v.last() == v[v.len() - 1]);
    }
}

pub proof fn lemma_assoc_update<V>(v: Seq<(String, V)>, i: int, s: V)
    requires
        distinct_keys(v),
        0 <= i < v.len(),
    ensures
        assoc_map(v.update(i, (v[i].0, s))) == assoc_map(v).insert(v[i].0@, s),
        distinct_keys(v.update(i, (v[i].0, s))),
    decreases v.len(),
{
    let w = v.update(i, (v[i].0, s));
    assert(distinct_keys(w)) by {
        assert forall|a: int, b: int| 0 <= a < b < w.len() implies #[trigger] w[a].0@ != #[trigger] w[b].0@ by {
            assert(w[a].0 == v[a].0);
            assert(w[b].0 == v[b].0);
        }
    }
    lemma_distinct_prefix(v);
    if i == v.len() - 1 {
        assert(w.drop_last() =~= v.drop_last());
        assert(assoc_map(w) =~= assoc_map(v).insert(v[i].0@, s));
    } else {
        lemma_assoc_update(v.drop_last(), i, s);
        assert(w.drop_last() =~= v.drop_last().update(i, (v[i].0, s)));
        assert(v.drop_last()[i] == v[i]);
        assert(v[i].0@ != v.last().0@);
        assert(assoc_map(w) =~= assoc_map(v).insert(v[i].0@, s));
    }
}

pub proof fn lemma_assoc_push<V>(v: Seq<(String, V)>, k: String, s: V)
    requires
        distinct_keys(v),
        !assoc_map(v).dom().contains(k@),
    ensures
        assoc_map(v.push((k, s))) == assoc_map(v).insert(k@, s),
        distinct_keys(v.push((k, s))),
{
    let w = v.push((k, s));
    assert(w.drop_last() =~= v);
    assert forall|a: int, b: int| 0 <= a < b < w.len() implies #[trigger] w[a].0@ != #[trigger] w[b].0@ by {
        if b == v.len() {
            lemma_assoc_lookup(v, a);
        }
    }
}

pub proof fn lemma_assoc_remove<V>(v: Seq<(String, V)>, i: int)
    requires
        distinct_keys(v),
        0 <= i < v.len(),
    ensures
        assoc_map(v.remove(i)) == assoc_map(v).remove(v[i].0@),
        distinct_keys(v.remove(i)),
    decreases v.len(),
{
    let w = v.remove(i);
    assert(distinct_keys(w)) by {
        assert forall|a: int, b: int| 0 <= a < b < w.len() implies #[trigger] w[a].0@ != #[trigger] w[b].0@ by {
            let a2 = if a < i { a } else { a + 1 };
            let b2 = if b < i { b } else { b + 1 };
            assert(w[a] == v[a2]);
            assert(w[b] == v[b2]);
        }
    }
    lemma_distinct_prefix(v);
    if i == v.len() - 1 {
        assert(w =~= v.drop_last());
        lemma_assoc_absent(v.drop_last(), v.last().0@);
        assert(assoc_map(w) =~= assoc_map(v).remove(v[i].0@));
    } else {
        lemma_assoc_remove(v.drop_last(), i);
        assert(w.drop_last() =~= v.drop_last().remove(i));
        assert(w.last() == v.last());
        assert(v.drop_last()[i] == v[i]);
        assert(v[i].0@ != v.last().0@);
        assert(assoc_map(w) =~= assoc_map(v).remove(v[i].0@));
    }
}

/// Index of the pair keyed `id`.
pub fn assoc_index<V>(stats: &Vec<(String, V)>, id: &str) -> (r: Option<usize>)
    ensures
        match r {
            Some(i) => i < stats@.len() && stats@[i as int].0@ == id@,
            None => forall|k: int| 0 <= k < stats@.len() ==> #[trigger] stats@[k].0@ != id@,
        },
{
    let mut i: usize = 0;
    while i < stats.len()
        invariant
            0 <= i <= stats@.len(),
            forall|k: int| 0 <= k < i ==> #[trigger] stats@[k].0@ != id@,
        decreases stats@.len() - i,
    {
        if same_text(stats[i].0.as_str(), id) {
            return Some(i);
        }
        i += 1;
    }
    None
}

} // verus!
