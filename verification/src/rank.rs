//! Ranking: which candidates a prompt keeps, and in which order.

use crate::matcher::{lowercase_of, match_score, score_text};
use vstd::prelude::*;

verus! {

/// The display texts of a list of strings.
pub open spec fn texts(labels: Seq<String>) -> Seq<Seq<char>> {
    Seq::new(labels.len(), |i: int| labels[i]@)
}

/// Candidate `i` is kept: every candidate where `all` holds, otherwise
/// those whose key is not zero.
pub open spec fn kept(keys: Seq<i64>, all: bool, i: int) -> bool {
    0 <= i < keys.len() && (all || keys[i] != 0)
}

/// Candidate `i` is listed before candidate `j`: it has the higher key, or
/// the same key and the earlier place in the candidate list.
pub open spec fn precedes(keys: Seq<i64>, i: int, j: int) -> bool {
    keys[i] > keys[j] || (keys[i] == keys[j] && i < j)
}

/// `order` is listed best first: each entry precedes every later one.
pub open spec fn best_first(keys: Seq<i64>, order: Seq<usize>) -> bool {
    forall|k: int, l: int|
        0 <= k < l < order.len() ==> precedes(
            keys,
            #[trigger] order[k] as int,
            #[trigger] order[l] as int,
        )
}

/// Candidate `i` stands in `order`.
pub open spec fn listed(order: Seq<usize>, i: int) -> bool {
    exists|k: int| 0 <= k < order.len() && order[k] == i
}

/// `order` lists exactly the kept candidates, best first, equal keys in
/// the order of the candidate list.
pub open spec fn is_arrangement(keys: Seq<i64>, all: bool, order: Seq<usize>) -> bool {
    &&& forall|k: int| 0 <= k < order.len() ==> kept(keys, all, #[trigger] order[k] as int)
    &&& forall|i: int| #[trigger] kept(keys, all, i) ==> listed(order, i)
    &&& best_first(keys, order)
}

/// The keys by which the candidates are ordered under a prompt: the match
/// score of each, or zero for every candidate while the prompt is empty.
pub open spec fn rank_keys(labels: Seq<Seq<char>>, prompt: Seq<char>) -> Seq<i64> {
    Seq::new(
        labels.len(),
        |i: int|
            if prompt.len() == 0 {
                0i64
            } else {
                match_score(labels[i], prompt)
            },
    )
}

/// Candidate `i` is kept under a prompt: always under an empty prompt,
/// otherwise exactly when its match score is not zero.
pub open spec fn included(labels: Seq<Seq<char>>, prompt: Seq<char>, i: int) -> bool {
    0 <= i < labels.len() && (prompt.len() == 0 || match_score(labels[i], prompt) != 0)
}

/// `order` is the ranking of the candidates under a prompt: it lists
/// exactly the kept candidates by descending match score, equal scores in
/// the order of the candidate list.
pub open spec fn is_ranking(labels: Seq<Seq<char>>, prompt: Seq<char>, order: Seq<usize>) -> bool {
    is_arrangement(rank_keys(labels, prompt), prompt.len() == 0, order)
}

/// The filtered list that a ranking stands for: the display text of each
/// listed candidate, in the ranking's order.
pub open spec fn ranked_texts(labels: Seq<Seq<char>>, order: Seq<usize>) -> Seq<Seq<char>> {
    Seq::new(order.len(), |k: int| labels[order[k] as int])
}

/// The ranking of the candidates under a prompt.
pub open spec fn ranking(labels: Seq<Seq<char>>, prompt: Seq<char>) -> Seq<usize> {
    choose|order: Seq<usize>| is_ranking(labels, prompt, order)
}

/// The filtered list: the display texts of the kept candidates, best first.
pub open spec fn filtered(labels: Seq<Seq<char>>, prompt: Seq<char>) -> Seq<Seq<char>> {
    ranked_texts(labels, ranking(labels, prompt))
}

/// Every entry of `a` occurs in `b`.
pub open spec fn occurs_in(a: Seq<usize>, b: Seq<usize>) -> bool {
    forall|k: int| 0 <= k < a.len() ==> b.contains(#[trigger] a[k])
}

/// The tail of a list that is best first is best first.
proof fn lemma_tail_best_first(keys: Seq<i64>, a: Seq<usize>)
    requires
        best_first(keys, a),
        a.len() > 0,
    ensures
        best_first(keys, a.skip(1)),
{
    let t = a.skip(1);
    assert forall|k: int, l: int| 0 <= k < l < t.len() implies precedes(
        keys,
        #[trigger] t[k] as int,
        #[trigger] t[l] as int,
    ) by {
        assert(precedes(keys, a[k + 1] as int, a[l + 1] as int));
    }
}

/// Where a list that is best first begins with the same candidate as
/// another and occurs in it, its tail occurs in the other's tail.
proof fn lemma_tail_occurs(keys: Seq<i64>, a: Seq<usize>, b: Seq<usize>)
    requires
        best_first(keys, a),
        occurs_in(a, b),
        a.len() > 0,
        b.len() > 0,
        a[0] == b[0],
    ensures
        occurs_in(a.skip(1), b.skip(1)),
{
    let s = a.skip(1);
    let t = b.skip(1);
    assert forall|k: int| 0 <= k < s.len() implies t.contains(#[trigger] s[k]) by {
        assert(precedes(keys, a[0] as int, a[k + 1] as int));
        assert(b.contains(a[k + 1]));
        let l = choose|l: int| 0 <= l < b.len() && b[l] == a[k + 1];
        assert(t[l - 1] == s[k]);
    }
}

/// Two lists that are best first and hold the same candidates begin with
/// the same candidate.
proof fn lemma_same_head(keys: Seq<i64>, a: Seq<usize>, b: Seq<usize>)
    requires
        best_first(keys, a),
        best_first(keys, b),
        occurs_in(a, b),
        occurs_in(b, a),
        a.len() > 0,
    ensures
        b.len() > 0,
        a[0] == b[0],
{
    assert(b.contains(a[0]));
    let l0 = choose|l: int| 0 <= l < b.len() && b[l] == a[0];
    if l0 > 0 {
        assert(precedes(keys, b[0] as int, b[l0] as int));
        assert(a.contains(b[0]));
        let k0 = choose|k: int| 0 <= k < a.len() && a[k] == b[0];
        if k0 > 0 {
            assert(precedes(keys, a[0] as int, a[k0] as int));
        }
        assert(false);
    }
}

/// Two lists that are both best first and hold the same candidates are the
/// same list: the order leaves no freedom, equal keys included.
pub proof fn lemma_best_first_unique(keys: Seq<i64>, a: Seq<usize>, b: Seq<usize>)
    requires
        best_first(keys, a),
        best_first(keys, b),
        occurs_in(a, b),
        occurs_in(b, a),
    ensures
        a == b,
    decreases a.len(),
{
    if a.len() == 0 {
        if b.len() > 0 {
            assert(a.contains(b[0]));
        }
        assert(a =~= b);
    } else {
        lemma_same_head(keys, a, b);
        let s = a.skip(1);
        let t = b.skip(1);
        lemma_tail_best_first(keys, a);
        lemma_tail_best_first(keys, b);
        lemma_tail_occurs(keys, a, b);
        lemma_tail_occurs(keys, b, a);
        lemma_best_first_unique(keys, s, t);
        assert forall|k: int| 0 <= k < a.len() implies a[k] == b[k] by {
            if k > 0 {
                assert(s[k - 1] == a[k]);
                assert(t[k - 1] == b[k]);
            }
        }
        assert(a =~= b);
    }
}

/// The arrangement of given keys is unique: two lists that each hold
/// exactly the kept candidates, best first, are equal.
pub proof fn lemma_arrangement_unique(keys: Seq<i64>, all: bool, a: Seq<usize>, b: Seq<usize>)
    requires
        is_arrangement(keys, all, a),
        is_arrangement(keys, all, b),
    ensures
        a == b,
{
    assert forall|k: int| 0 <= k < a.len() implies b.contains(#[trigger] a[k]) by {
        assert(kept(keys, all, a[k] as int));
        assert(listed(b, a[k] as int));
    }
    assert forall|k: int| 0 <= k < b.len() implies a.contains(#[trigger] b[k]) by {
        assert(kept(keys, all, b[k] as int));
        assert(listed(a, b[k] as int));
    }
    lemma_best_first_unique(keys, a, b);
}

/// The ranking of the candidates under a prompt is unique. With a scoring
/// function that depends on its arguments alone, the filtered list is
/// therefore determined by the candidates and the prompt, the order of
/// equal scores included.
pub proof fn lemma_ranking_unique(
    labels: Seq<Seq<char>>,
    prompt: Seq<char>,
    a: Seq<usize>,
    b: Seq<usize>,
)
    requires
        is_ranking(labels, prompt, a),
        is_ranking(labels, prompt, b),
    ensures
        a == b,
{
    lemma_arrangement_unique(rank_keys(labels, prompt), prompt.len() == 0, a, b);
}

/// A list that is a ranking is the ranking.
pub proof fn lemma_ranking_is(labels: Seq<Seq<char>>, prompt: Seq<char>, order: Seq<usize>)
    requires
        is_ranking(labels, prompt, order),
    ensures
        ranking(labels, prompt) == order,
{
    let r = ranking(labels, prompt);
    assert(is_ranking(labels, prompt, r));
    lemma_ranking_unique(labels, prompt, order, r);
}

/// `order` arranges the first `n` candidates: it lists exactly the kept
/// ones among them, best first.
pub open spec fn arranges_first(keys: Seq<i64>, all: bool, n: int, order: Seq<usize>) -> bool {
    &&& forall|k: int|
        0 <= k < order.len() ==> (#[trigger] order[k]) < n && kept(keys, all, order[k] as int)
    &&& forall|i: int| 0 <= i < n && #[trigger] kept(keys, all, i) ==> listed(order, i)
    &&& best_first(keys, order)
}

/// In a list that is best first, the place before which every key is at
/// least `key` and from which on every key is below it.
proof fn lemma_place(keys: Seq<i64>, order: Seq<usize>, key: i64) -> (at: int)
    requires
        best_first(keys, order),
    ensures
        0 <= at <= order.len(),
        forall|k: int| 0 <= k < at ==> keys[(#[trigger] order[k]) as int] >= key,
        forall|k: int| at <= k < order.len() ==> keys[(#[trigger] order[k]) as int] < key,
    decreases order.len(),
{
    if order.len() == 0 {
        0
    } else if keys[order.last() as int] >= key {
        assert forall|k: int| 0 <= k < order.len() implies keys[(#[trigger] order[k]) as int]
            >= key by {
            if k < order.len() - 1 {
                assert(precedes(keys, order[k] as int, order[order.len() - 1] as int));
            }
        }
        order.len() as int
    } else {
        let head = order.drop_last();
        assert(best_first(keys, head)) by {
            assert forall|k: int, l: int| 0 <= k < l < head.len() implies precedes(
                keys,
                #[trigger] head[k] as int,
                #[trigger] head[l] as int,
            ) by {
                assert(precedes(keys, order[k] as int, order[l] as int));
            }
        }
        let at = lemma_place(keys, head, key);
        assert forall|k: int| 0 <= k < at implies keys[(#[trigger] order[k]) as int] >= key by {
            assert(order[k] == head[k]);
        }
        assert forall|k: int| at <= k < order.len() implies keys[(#[trigger] order[k]) as int]
            < key by {
            if k < head.len() {
                assert(order[k] == head[k]);
            }
        }
        at
    }
}

/// The first `n` candidates have an arrangement.
proof fn lemma_arrange_first(keys: Seq<i64>, all: bool, n: nat) -> (order: Seq<usize>)
    requires
        n <= keys.len(),
        n <= usize::MAX + 1,
    ensures
        arranges_first(keys, all, n as int, order),
    decreases n,
{
    if n == 0 {
        Seq::empty()
    } else {
        let before = lemma_arrange_first(keys, all, (n - 1) as nat);
        let i = (n - 1) as int;
        if kept(keys, all, i) {
            let at = lemma_place(keys, before, keys[i]);
            let order = before.insert(at, i as usize);
            assert forall|k: int| 0 <= k < order.len() implies (#[trigger] order[k]) < n && kept(
                keys,
                all,
                order[k] as int,
            ) by {
                if k < at {
                    assert(order[k] == before[k]);
                } else if k > at {
                    assert(order[k] == before[k - 1]);
                }
            }
            assert forall|j: int| 0 <= j < n && #[trigger] kept(keys, all, j) implies listed(
                order,
                j,
            ) by {
                if j == i {
                    assert(order[at] == j);
                } else {
                    assert(listed(before, j));
                    let k0 = choose|k: int| 0 <= k < before.len() && before[k] == j;
                    if k0 < at {
                        assert(order[k0] == j);
                    } else {
                        assert(order[k0 + 1] == j);
                    }
                }
            }
            assert forall|k: int, l: int| 0 <= k < l < order.len() implies precedes(
                keys,
                #[trigger] order[k] as int,
                #[trigger] order[l] as int,
            ) by {
                let a = if k < at {
                    k
                } else {
                    k - 1
                };
                let b = if l < at {
                    l
                } else {
                    l - 1
                };
                if k != at {
                    assert(order[k] == before[a]);
                }
                if l != at {
                    assert(order[l] == before[b]);
                }
                if k != at && l != at {
                    assert(precedes(keys, before[a] as int, before[b] as int));
                }
            }
            order
        } else {
            assert forall|j: int| 0 <= j < n && #[trigger] kept(keys, all, j) implies listed(
                before,
                j,
            ) by {
                assert(j < n - 1);
            }
            before
        }
    }
}

/// Keys whose places fit the machine's index type have an arrangement.
pub proof fn lemma_arrangement_exists(keys: Seq<i64>, all: bool) -> (order: Seq<usize>)
    requires
        keys.len() <= usize::MAX + 1,
    ensures
        is_arrangement(keys, all, order),
{
    lemma_arrange_first(keys, all, keys.len())
}

/// Candidates whose places fit the machine's index type have a ranking
/// under every prompt, so that the filtered list is the list of the kept
/// candidates, best first.
pub proof fn lemma_ranking_exists(labels: Seq<Seq<char>>, prompt: Seq<char>)
    requires
        labels.len() <= usize::MAX + 1,
    ensures
        is_ranking(labels, prompt, ranking(labels, prompt)),
{
    let order = lemma_arrangement_exists(rank_keys(labels, prompt), prompt.len() == 0);
    lemma_ranking_is(labels, prompt, order);
}

/// The filtered list is drawn from the candidates by the rule of the
/// prompt: each of its entries is the display text of a kept candidate, no
/// candidate is listed twice, and every kept candidate is listed. A
/// candidate is kept exactly when the prompt is empty or its match score
/// is not zero.
pub proof fn lemma_filtered_is_kept(labels: Seq<Seq<char>>, prompt: Seq<char>, order: Seq<usize>)
    requires
        is_ranking(labels, prompt, order),
    ensures
        ranked_texts(labels, order).len() == order.len(),
        forall|k: int|
            0 <= k < order.len() ==> {
                &&& included(labels, prompt, #[trigger] order[k] as int)
                &&& ranked_texts(labels, order)[k] == labels[order[k] as int]
            },
        forall|i: int| #[trigger] included(labels, prompt, i) <==> listed(order, i),
        forall|k: int, l: int|
            0 <= k < l < order.len() ==> (#[trigger] order[k]) != (#[trigger] order[l]),
{
    let keys = rank_keys(labels, prompt);
    let all = prompt.len() == 0;
    assert forall|k: int| 0 <= k < order.len() implies {
        &&& included(labels, prompt, #[trigger] order[k] as int)
        &&& ranked_texts(labels, order)[k] == labels[order[k] as int]
    } by {
        assert(kept(keys, all, order[k] as int));
    }
    assert forall|i: int| #[trigger] included(labels, prompt, i) <==> listed(order, i) by {
        if included(labels, prompt, i) {
            assert(kept(keys, all, i));
        }
        if listed(order, i) {
            let k = choose|k: int| 0 <= k < order.len() && order[k] == i;
            assert(kept(keys, all, order[k] as int));
        }
    }
    assert forall|k: int, l: int| 0 <= k < l < order.len() implies (#[trigger] order[k]) != (
    #[trigger] order[l]) by {
        assert(precedes(keys, order[k] as int, order[l] as int));
    }
}

/// Under a prompt that is not empty the filtered list descends by match
/// score, and entries of equal score stand in candidate order.
pub proof fn lemma_filtered_descends(labels: Seq<Seq<char>>, prompt: Seq<char>, order: Seq<usize>)
    requires
        is_ranking(labels, prompt, order),
        prompt.len() > 0,
    ensures
        forall|k: int, l: int|
            0 <= k < l < order.len() ==> {
                let upper = match_score(labels[(#[trigger] order[k]) as int], prompt);
                let lower = match_score(labels[(#[trigger] order[l]) as int], prompt);
                upper > lower || (upper == lower && order[k] < order[l])
            },
{
    let keys = rank_keys(labels, prompt);
    assert forall|k: int, l: int| 0 <= k < l < order.len() implies {
        let upper = match_score(labels[(#[trigger] order[k]) as int], prompt);
        let lower = match_score(labels[(#[trigger] order[l]) as int], prompt);
        upper > lower || (upper == lower && order[k] < order[l])
    } by {
        assert(kept(keys, false, order[k] as int));
        assert(kept(keys, false, order[l] as int));
        assert(precedes(keys, order[k] as int, order[l] as int));
    }
}

/// Under an empty prompt the filtered list is the candidate list.
pub proof fn lemma_empty_prompt_keeps_all(
    labels: Seq<Seq<char>>,
    prompt: Seq<char>,
    order: Seq<usize>,
)
    requires
        is_ranking(labels, prompt, order),
        prompt.len() == 0,
    ensures
        ranked_texts(labels, order) == labels,
{
    let keys = rank_keys(labels, prompt);
    if labels.len() <= usize::MAX + 1 {
        let every = Seq::new(labels.len(), |i: int| i as usize);
        assert(is_arrangement(keys, true, every)) by {
            assert forall|i: int| #[trigger] kept(keys, true, i) implies listed(every, i) by {
                assert(every[i] == i);
            }
        }
        lemma_arrangement_unique(keys, true, order, every);
        assert(ranked_texts(labels, order) =~= labels);
    } else {
        let beyond = usize::MAX + 1;
        assert(kept(keys, true, beyond));
        assert(listed(order, beyond));
        assert(false);
    }
}

/// The first place in `keys`, which descends, whose key is below `key`.
fn insertion_point(keys: &Vec<i64>, key: i64) -> (at: usize)
    requires
        forall|k: int, l: int| 0 <= k < l < keys.len() ==> keys[k] >= keys[l],
    ensures
        at <= keys.len(),
        forall|k: int| 0 <= k < at ==> keys[k] >= key,
        forall|k: int| at <= k < keys.len() ==> keys[k] < key,
{
    let mut at: usize = 0;
    while at < keys.len() && keys[at] >= key
        invariant
            at <= keys.len(),
            forall|k: int| 0 <= k < at ==> keys[k] >= key,
        decreases keys.len() - at,
    {
        at += 1;
    }
    at
}

/// Arranges candidates by their keys: keeps every candidate where `all`
/// holds and those with a key other than zero otherwise, and lists the
/// kept ones by descending key, equal keys in candidate order.
pub fn arrange(keys: &Vec<i64>, all: bool) -> (order: Vec<usize>)
    ensures
        is_arrangement(keys@, all, order@),
{
    let mut order: Vec<usize> = Vec::new();
    let mut sorted: Vec<i64> = Vec::new();
    let mut i: usize = 0;
    while i < keys.len()
        invariant
            i <= keys.len(),
            order.len() == sorted.len(),
            forall|k: int|
                0 <= k < order.len() ==> (#[trigger] order[k]) < i && kept(
                    keys@,
                    all,
                    order[k] as int,
                ) && sorted[k] == keys[order[k] as int],
            forall|j: int| 0 <= j < i && #[trigger] kept(keys@, all, j) ==> listed(order@, j),
            forall|k: int, l: int|
                0 <= k < l < order.len() ==> (#[trigger] sorted[k]) > (#[trigger] sorted[l]) || (
                sorted[k] == sorted[l] && order[k] < order[l]),
        decreases keys.len() - i,
    {
        let key: i64 = keys[i];
        if all || key != 0 {
            let at = insertion_point(&sorted, key);
            let ghost before = order@;
            order.insert(at, i);
            sorted.insert(at, key);
            proof {
                assert forall|j: int| 0 <= j < i + 1 && #[trigger] kept(keys@, all, j) implies listed(
                    order@,
                    j,
                ) by {
                    if j == i {
                        assert(order[at as int] == j);
                    } else {
                        assert(listed(before, j));
                        let k0 = choose|k: int| 0 <= k < before.len() && before[k] == j;
                        if k0 < at {
                            assert(order[k0] == j);
                        } else {
                            assert(order[k0 + 1] == j);
                        }
                    }
                }
            }
        }
        i += 1;
    }
    assert(best_first(keys@, order@)) by {
        assert forall|k: int, l: int| 0 <= k < l < order.len() implies precedes(
            keys@,
            #[trigger] order[k] as int,
            #[trigger] order[l] as int,
        ) by {
            assert(sorted[k] > sorted[l] || (sorted[k] == sorted[l] && order[k] < order[l]));
        }
    }
    order
}

/// Computes the key of every candidate under a prompt: its match score, or
/// zero for every candidate while the prompt is empty.
pub fn score_all(labels: &Vec<String>, prompt: &str) -> (keys: Vec<i64>)
    ensures
        keys@ == rank_keys(texts(labels@), prompt@),
{
    let all = prompt.is_empty();
    let needle = prompt.to_lowercase();
    let mut keys: Vec<i64> = Vec::new();
    let mut i: usize = 0;
    while i < labels.len()
        invariant
            i <= labels.len(),
            all == (prompt@.len() == 0),
            needle@ == lowercase_of(prompt@),
            keys.len() == i,
            forall|j: int| 0 <= j < i ==> keys[j] == rank_keys(texts(labels@), prompt@)[j],
        decreases labels.len() - i,
    {
        let key: i64 = if all {
            0
        } else {
            score_text(labels[i].as_str(), needle.as_str())
        };
        keys.push(key);
        i += 1;
    }
    assert(keys@ =~= rank_keys(texts(labels@), prompt@));
    keys
}

/// Ranks the candidates against the prompt: keeps every candidate while the
/// prompt is empty and those with a match score other than zero otherwise,
/// and lists them by descending score, equal scores in candidate order.
pub fn rank(labels: &Vec<String>, prompt: &str) -> (order: Vec<usize>)
    ensures
        is_ranking(texts(labels@), prompt@, order@),
        order@ == ranking(texts(labels@), prompt@),
{
    let keys = score_all(labels, prompt);
    let order = arrange(&keys, prompt.is_empty());
    proof {
        lemma_ranking_is(texts(labels@), prompt@, order@);
    }
    order
}

/// Computes the filtered list for a prompt: the display text of every kept
/// candidate, best match first. The list holds a candidate exactly when the
/// prompt is empty or the candidate's match score is not zero, and is
/// ordered by descending score, equal scores in candidate order.
pub fn filter(labels: &Vec<String>, prompt: &str) -> (shown: Vec<String>)
    ensures
        is_ranking(texts(labels@), prompt@, ranking(texts(labels@), prompt@)),
        texts(shown@) == filtered(texts(labels@), prompt@),
{
    let order = rank(labels, prompt);
    let mut shown: Vec<String> = Vec::new();
    let mut k: usize = 0;
    while k < order.len()
        invariant
            k <= order.len(),
            shown.len() == k,
            is_ranking(texts(labels@), prompt@, order@),
            forall|j: int| 0 <= j < k ==> (#[trigger] shown[j])@ == labels[order[j] as int]@,
        decreases order.len() - k,
    {
        assert(kept(rank_keys(texts(labels@), prompt@), prompt@.len() == 0, order[k as int] as int));
        shown.push(labels[order[k]].clone());
        k += 1;
    }
    assert(texts(shown@) =~= ranked_texts(texts(labels@), order@));
    shown
}

} // verus!
