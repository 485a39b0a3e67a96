//! Putting things in order: by how well they match, then by name, then by where
//! they stood before.

use vstd::prelude::*;

use crate::chars;

verus! {

/// What one thing is ordered by.
#[derive(Debug)]
pub struct Key {
    pub score: i32,
    pub name: Vec<char>,
    pub index: usize,
}

impl View for Key {
    type V = (i32, Seq<char>, usize);

    open spec fn view(&self) -> (i32, Seq<char>, usize) {
        (self.score, self.name@, self.index)
    }
}

pub open spec fn keys(list: Seq<Key>) -> Seq<(i32, Seq<char>, usize)> {
    Seq::new(list.len(), |i: int| list[i]@)
}

/// A higher score comes first, then a name that comes first, then what stood
/// first.
pub open spec fn precedes(a: (i32, Seq<char>, usize), b: (i32, Seq<char>, usize)) -> bool {
    a.0 > b.0 || (a.0 == b.0 && (chars::before(a.1, b.1) || (a.1 == b.1 && a.2 < b.2)))
}

pub open spec fn in_order(list: Seq<(i32, Seq<char>, usize)>) -> bool {
    forall|i: int, j: int|
        0 <= i < j < list.len() ==> precedes(#[trigger] list[i], #[trigger] list[j])
}

pub proof fn lemma_precedes_total(a: (i32, Seq<char>, usize), b: (i32, Seq<char>, usize))
    ensures
        !(precedes(a, b) && precedes(b, a)),
        a.2 != b.2 ==> precedes(a, b) || precedes(b, a),
{
    chars::before_is_total(a.1, b.1);
}

proof fn lemma_precedes_transitive(
    a: (i32, Seq<char>, usize),
    b: (i32, Seq<char>, usize),
    c: (i32, Seq<char>, usize),
)
    requires
        precedes(a, b),
        precedes(b, c),
    ensures
        precedes(a, c),
{
    if chars::before(a.1, b.1) && chars::before(b.1, c.1) {
        chars::before_is_transitive(a.1, b.1, c.1);
    }
}

fn comes_first(a: &Key, b: &Key) -> (first: bool)
    ensures
        first == precedes(a@, b@),
{
    if a.score != b.score {
        return a.score > b.score;
    }
    if chars::same(&a.name, &b.name) {
        proof {
            chars::before_is_total(a.name@, b.name@);
        }
        return a.index < b.index;
    }
    chars::comes_before(&a.name, &b.name)
}

/// Whether no two keys share an index.
pub open spec fn distinct(list: Seq<(i32, Seq<char>, usize)>) -> bool {
    forall|i: int, j: int| 0 <= i < j < list.len() ==> (#[trigger] list[i]).2 != (
    #[trigger] list[j]).2
}

/// The keys, in order.
pub fn sort(list: Vec<Key>) -> (sorted: Vec<Key>)
    requires
        distinct(keys(list@)),
    ensures
        in_order(keys(sorted@)),
        sorted@.len() == list@.len(),
        forall|k: (i32, Seq<char>, usize)|
            keys(sorted@).contains(k) <==> keys(list@).contains(k),
{
    let ghost all = keys(list@);
    let mut list: Vec<Key> = list;
    let mut sorted: Vec<Key> = Vec::new();
    assert(keys(sorted@) =~= Seq::<(i32, Seq<char>, usize)>::empty());
    assert(all.skip(all.len() as int) =~= Seq::<(i32, Seq<char>, usize)>::empty());
    assert(all.take(all.len() as int) =~= all);
    while list.len() > 0
        invariant
            distinct(all),
            list@.len() <= all.len(),
            keys(list@) == all.take(list@.len() as int),
            sorted@.len() + list@.len() == all.len(),
            in_order(keys(sorted@)),
            forall|k: (i32, Seq<char>, usize)|
                keys(sorted@).contains(k) <==> all.skip(list@.len() as int).contains(k),
        decreases list@.len(),
    {
        let ghost n = list@.len() as int;
        match list.pop() {
            Some(key) => {
                let ghost held = key@;
                proof {
                    assert(all.take(n)[n - 1] == held) by {
                        assert(keys(list@.push(key))[n - 1] == held);
                    }
                    assert(keys(list@) =~= all.take(n - 1)) by {
                        assert forall|i: int| 0 <= i < n - 1 implies keys(list@)[i]
                            == all.take(n - 1)[i] by {
                            assert(all.take(n)[i] == keys(list@.push(key))[i]);
                        }
                    }
                    assert forall|i: int| 0 <= i < sorted@.len() implies (
                    #[trigger] keys(sorted@)[i]).2 != held.2 by {
                        let k = keys(sorted@)[i];
                        assert(keys(sorted@).contains(k));
                        let rest = all.skip(n);
                        assert(rest.contains(k));
                        let j = rest.index_of(k);
                        assert(all[n + j] == k);
                        assert(all[n - 1] == held);
                    }
                }
                let ghost before = keys(sorted@);
                place(&mut sorted, key);
                proof {
                    let (rest, more) = (all.skip(n), all.skip(n - 1));
                    assert(more =~= seq![held] + rest);
                    assert forall|k: (i32, Seq<char>, usize)|
                        keys(sorted@).contains(k) <==> more.contains(k) by {
                        if rest.contains(k) {
                            assert(more[rest.index_of(k) + 1] == k);
                        }
                        if k == held {
                            assert(more[0] == k);
                        }
                        if more.contains(k) && k != held {
                            assert(rest[more.index_of(k) - 1] == k);
                        }
                    }
                }
            },
            None => {},
        }
    }
    assert(all.skip(0) =~= all);
    sorted
}

/// Puts one more key where it belongs.
fn place(sorted: &mut Vec<Key>, key: Key)
    requires
        in_order(keys(old(sorted)@)),
        forall|i: int|
            0 <= i < old(sorted)@.len() ==> (#[trigger] keys(old(sorted)@)[i]).2 != key@.2,
    ensures
        in_order(keys(final(sorted)@)),
        final(sorted)@.len() == old(sorted)@.len() + 1,
        forall|k: (i32, Seq<char>, usize)|
            keys(final(sorted)@).contains(k) <==> keys(old(sorted)@).contains(k) || k == key@,
{
    let ghost before = keys(sorted@);
    let ghost held = key@;
    let mut at: usize = 0;
    while at < sorted.len() && comes_first(&sorted[at], &key)
        invariant
            at <= sorted@.len(),
            keys(sorted@) == before,
            held == key@,
            forall|i: int| 0 <= i < at ==> precedes(#[trigger] before[i], held),
        decreases sorted@.len() - at,
    {
        assert(before[at as int] == sorted@[at as int]@);
        at = at + 1;
    }
    proof {
        if at < sorted@.len() {
            assert(before[at as int] == sorted@[at as int]@);
            lemma_precedes_total(before[at as int], held);
        }
        assert forall|i: int| at <= i < before.len() implies precedes(
            held,
            #[trigger] before[i],
        ) by {
            if i > at {
                lemma_precedes_transitive(held, before[at as int], before[i]);
            }
        }
    }
    sorted.insert(at, key);
    proof {
        let after = keys(sorted@);
        assert(after =~= before.insert(at as int, held));
        assert forall|i: int, j: int| 0 <= i < j < after.len() implies precedes(
            #[trigger] after[i],
            #[trigger] after[j],
        ) by {
            if j < at {
                assert(after[i] == before[i] && after[j] == before[j]);
            } else if j == at {
                assert(after[i] == before[i]);
            } else {
                assert(after[j] == before[j - 1]);
                if i < at {
                    assert(after[i] == before[i]);
                    lemma_precedes_transitive(before[i], held, before[j - 1]);
                } else if i > at {
                    assert(after[i] == before[i - 1]);
                }
            }
        }
        assert forall|k: (i32, Seq<char>, usize)|
            after.contains(k) <==> before.contains(k) || k == held by {
            if before.contains(k) {
                let i = before.index_of(k);
                if i < at {
                    assert(after[i] == k);
                } else {
                    assert(after[i + 1] == k);
                }
            }
            if k == held {
                assert(after[at as int] == k);
            }
            if after.contains(k) && k != held {
                let i = after.index_of(k);
                if i < at {
                    assert(before[i] == k);
                } else {
                    assert(before[i - 1] == k);
                }
            }
        }
    }
}

/// Whether `order` lists, best first, the indices that have a score.
pub open spec fn is_ranking(
    order: Seq<usize>,
    scores: Seq<Option<i32>>,
    names: Seq<Seq<char>>,
) -> bool {
    &&& forall|i: int|
        0 <= i < order.len() ==> (#[trigger] order[i]) < scores.len() && scores[order[i] as int]
            is Some
    &&& forall|k: usize|
        k < scores.len() && scores[k as int] is Some ==> #[trigger] order.contains(k)
    &&& forall|i: int, j: int|
        0 <= i < j < order.len() ==> precedes(
            ranked_by(#[trigger] order[i], scores, names),
            ranked_by(#[trigger] order[j], scores, names),
        )
}

pub open spec fn ranked_by(k: usize, scores: Seq<Option<i32>>, names: Seq<Seq<char>>) -> (
    i32,
    Seq<char>,
    usize,
) {
    (scores[k as int]->Some_0, names[k as int], k)
}

/// There is one ranking only: what is ranked, and in what order, is settled by
/// the scores and the names.
pub proof fn a_ranking_is_unique(
    a: Seq<usize>,
    b: Seq<usize>,
    scores: Seq<Option<i32>>,
    names: Seq<Seq<char>>,
)
    requires
        is_ranking(a, scores, names),
        is_ranking(b, scores, names),
    ensures
        a == b,
{
    assert forall|k: usize| a.contains(k) == b.contains(k) by {
        if a.contains(k) {
            assert(a[a.index_of(k)] == k);
        }
        if b.contains(k) {
            assert(b[b.index_of(k)] == k);
        }
    }
    lemma_unique(a, b, scores, names);
}

proof fn lemma_unique(
    a: Seq<usize>,
    b: Seq<usize>,
    scores: Seq<Option<i32>>,
    names: Seq<Seq<char>>,
)
    requires
        forall|i: int, j: int|
            0 <= i < j < a.len() ==> precedes(
                ranked_by(#[trigger] a[i], scores, names),
                ranked_by(#[trigger] a[j], scores, names),
            ),
        forall|i: int, j: int|
            0 <= i < j < b.len() ==> precedes(
                ranked_by(#[trigger] b[i], scores, names),
                ranked_by(#[trigger] b[j], scores, names),
            ),
        forall|k: usize| a.contains(k) == b.contains(k),
    ensures
        a == b,
    decreases a.len() + b.len(),
{
    if a.len() == 0 || b.len() == 0 {
        if a.len() > 0 {
            assert(a.contains(a[0]));
        }
        if b.len() > 0 {
            assert(b.contains(b[0]));
        }
        assert(a =~= b);
    } else {
        let (x, y) = (a.last(), b.last());
        assert(a[a.len() - 1] == x && b[b.len() - 1] == y);
        assert(a.contains(x) && b.contains(y));
        if x != y {
            let i = b.index_of(x);
            let j = a.index_of(y);
            lemma_precedes_total(ranked_by(x, scores, names), ranked_by(y, scores, names));
            assert(b[i] == x && a[j] == y);
            assert(false);
        }
        let (p, q) = (a.drop_last(), b.drop_last());
        assert forall|k: usize| p.contains(k) == q.contains(k) by {
            if p.contains(k) {
                let i = p.index_of(k);
                assert(a[i] == k);
                assert(b.contains(k));
                let j = b.index_of(k);
                lemma_precedes_total(ranked_by(x, scores, names), ranked_by(k, scores, names));
                assert(a[a.len() - 1] == x);
                assert(q[j] == k);
            }
            if q.contains(k) {
                let i = q.index_of(k);
                assert(b[i] == k);
                assert(a.contains(k));
                let j = a.index_of(k);
                lemma_precedes_total(ranked_by(x, scores, names), ranked_by(k, scores, names));
                assert(b[b.len() - 1] == x);
                assert(p[j] == k);
            }
        }
        lemma_unique(p, q, scores, names);
        assert(a =~= p.push(x));
        assert(b =~= q.push(y));
    }
}

/// The indices that have a score, best first.
pub fn ranking(scores: &Vec<Option<i32>>, names: &Vec<Vec<char>>) -> (order: Vec<usize>)
    requires
        scores@.len() == names@.len(),
    ensures
        is_ranking(order@, scores@, chars::texts(names@)),
{
    let ghost titles = chars::texts(names@);
    let mut list: Vec<Key> = Vec::new();
    for k in 0..scores.len()
        invariant
            scores@.len() == names@.len(),
            titles == chars::texts(names@),
            forall|i: int|
                0 <= i < list@.len() ==> {
                    &&& (#[trigger] keys(list@)[i]).2 < k
                    &&& scores@[keys(list@)[i].2 as int] is Some
                    &&& keys(list@)[i] == ranked_by(keys(list@)[i].2, scores@, titles)
                },
            distinct(keys(list@)),
            forall|j: usize|
                j < k && scores@[j as int] is Some ==> keys(list@).contains(
                    #[trigger] ranked_by(j, scores@, titles),
                ),
    {
        let ghost before = keys(list@);
        match scores[k] {
            Some(score) => {
                let name: Vec<char> = chars::part(&names[k], 0, names[k].len());
                assert(name@ =~= names@[k as int]@);
                let key: Key = Key { score, name, index: k };
                let ghost held = key@;
                list.push(key);
                proof {
                    assert(held == ranked_by(k, scores@, titles));
                    let after = keys(list@);
                    assert(after =~= before.push(held));
                    assert forall|j: usize| j < k + 1 && scores@[j as int] is Some implies
                        after.contains(#[trigger] ranked_by(j, scores@, titles)) by {
                        if j < k {
                            let i = before.index_of(ranked_by(j, scores@, titles));
                            assert(after[i] == before[i]);
                        } else {
                            assert(after[before.len() as int] == held);
                        }
                    }
                    assert forall|i: int, j: int| 0 <= i < j < after.len() implies (
                    #[trigger] after[i]).2 != (#[trigger] after[j]).2 by {
                        assert(after[i] == before[i]);
                        if j < before.len() {
                            assert(after[j] == before[j]);
                        }
                    }
                    assert forall|i: int| 0 <= i < after.len() implies {
                        &&& (#[trigger] after[i]).2 < k + 1
                        &&& scores@[after[i].2 as int] is Some
                        &&& after[i] == ranked_by(after[i].2, scores@, titles)
                    } by {
                        if i < before.len() {
                            assert(after[i] == before[i]);
                        }
                    }
                }
            },
            None => {},
        }
    }
    let ghost unsorted = keys(list@);
    let sorted: Vec<Key> = sort(list);
    let ghost all = keys(sorted@);
    let mut order: Vec<usize> = Vec::new();
    for i in 0..sorted.len()
        invariant
            all == keys(sorted@),
            order@.len() == i,
            forall|k: int| 0 <= k < i ==> order@[k] == (#[trigger] all[k]).2,
    {
        assert(all[i as int] == sorted@[i as int]@);
        order.push(sorted[i].index);
    }
    proof {
        assert forall|i: int| 0 <= i < order@.len() implies (#[trigger] order@[i]) < scores@.len()
            && scores@[order@[i] as int] is Some && all[i] == ranked_by(
            order@[i],
            scores@,
            titles,
        ) by {
            assert(all.contains(all[i]));
            let j = unsorted.index_of(all[i]);
            assert(unsorted[j] == all[i]);
        }
        assert forall|k: usize| k < scores@.len() && scores@[k as int] is Some implies
            #[trigger] order@.contains(k) by {
            let key = ranked_by(k, scores@, titles);
            assert(unsorted.contains(key));
            assert(all.contains(key));
            let i = all.index_of(key);
            assert(all[i] == key);
            assert(order@[i] == k);
        }
        assert forall|i: int, j: int| 0 <= i < j < order@.len() implies precedes(
            ranked_by(#[trigger] order@[i], scores@, titles),
            ranked_by(#[trigger] order@[j], scores@, titles),
        ) by {
            assert(precedes(all[i], all[j]));
        }
    }
    order
}

} // verus!
