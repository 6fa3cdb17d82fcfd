use vstd::prelude::*;

verus! {

/// The place of the first `id` in `ids`, or -1 where there is none.
pub open spec fn first_index(ids: Seq<Seq<char>>, id: Seq<char>) -> int
    decreases ids.len(),
{
    if ids.len() == 0 {
        -1
    } else if ids[0] == id {
        0
    } else {
        let r = first_index(ids.drop_first(), id);
        if r < 0 {
            -1
        } else {
            r + 1
        }
    }
}

/// `first_index` is the least place that holds `id`.
pub proof fn lemma_first_index(ids: Seq<Seq<char>>, id: Seq<char>)
    ensures
        first_index(ids, id) < 0 <==> !ids.contains(id),
        first_index(ids, id) >= 0 ==> first_index(ids, id) < ids.len() && ids[first_index(ids, id)]
            == id,
        forall|j: int| 0 <= j < first_index(ids, id) ==> ids[j] != id,
        first_index(ids, id) >= -1,
    decreases ids.len(),
{
    if ids.len() > 0 {
        lemma_first_index(ids.drop_first(), id);
        if ids[0] != id {
            if ids.contains(id) {
                let k = choose|k: int| 0 <= k < ids.len() && ids[k] == id;
                assert(ids.drop_first()[k - 1] == id);
            }
            assert forall|j: int| 0 <= j < first_index(ids, id) implies ids[j] != id by {
                if j > 0 {
                    assert(ids[j] == ids.drop_first()[j - 1]);
                }
            }
        }
    }
}

/// A place `i` that holds `id`, with no `id` before it, is the first index.
pub proof fn lemma_first_index_at(ids: Seq<Seq<char>>, id: Seq<char>, i: int)
    requires
        0 <= i < ids.len(),
        ids[i] == id,
        forall|j: int| 0 <= j < i ==> ids[j] != id,
    ensures
        first_index(ids, id) == i,
{
    lemma_first_index(ids, id);
    let f = first_index(ids, id);
    assert(ids.contains(id));
    if f < i {
        assert(ids[f] != id);
    }
    if f > i {
        assert(ids[i] != id);
    }
}

/// Appending an id leaves the first index of every id already present.
pub proof fn lemma_first_index_push(ids: Seq<Seq<char>>, x: Seq<char>, k: Seq<char>)
    ensures
        first_index(ids.push(x), k) == if first_index(ids, k) >= 0 {
            first_index(ids, k)
        } else if k == x {
            ids.len() as int
        } else {
            -1
        },
{
    lemma_first_index(ids, k);
    lemma_first_index(ids.push(x), k);
    let f = first_index(ids, k);
    if f >= 0 {
        assert(ids.push(x)[f] == k);
        assert forall|j: int| 0 <= j < f implies ids.push(x)[j] != k by {
            assert(ids.push(x)[j] == ids[j]);
        }
        lemma_first_index_at(ids.push(x), k, f);
    } else if k == x {
        assert forall|j: int| 0 <= j < ids.len() implies ids.push(x)[j] != k by {
            assert(ids.push(x)[j] == ids[j]);
            if ids[j] == k {
                assert(ids.contains(k));
            }
        }
        lemma_first_index_at(ids.push(x), k, ids.len() as int);
    } else {
        if ids.push(x).contains(k) {
            let j = choose|j: int| 0 <= j < ids.push(x).len() && ids.push(x)[j] == k;
            if j < ids.len() {
                assert(ids[j] == k);
            }
        }
    }
}

} // verus!
