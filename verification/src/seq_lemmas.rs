//! Facts about sequences.

use vstd::prelude::*;

verus! {

/// Taking a value out of a sequence without duplicates leaves the other values, still
/// without duplicates.
pub proof fn lemma_remove_value<A>(s: Seq<A>, v: A)
    requires
        s.no_duplicates(),
    ensures
        s.remove_value(v).no_duplicates(),
        forall|x: A| #[trigger] s.remove_value(v).contains(x) <==> s.contains(x) && x != v,
        s.contains(v) ==> s.remove_value(v).len() == s.len() - 1,
        !s.contains(v) ==> s.remove_value(v) == s,
{
    s.index_of_first_ensures(v);
    match s.index_of_first(v) {
        Some(i) => {
            let r = s.remove(i);
            s.remove_ensures(i);
            assert(r.no_duplicates());
            assert forall|x: A| #[trigger] r.contains(x) <==> s.contains(x) && x != v by {
                if r.contains(x) {
                    let k = choose|k: int| 0 <= k < r.len() && r[k] == x;
                    if k < i {
                        assert(s[k] == x);
                    } else {
                        assert(s[k + 1] == x);
                    }
                }
                if s.contains(x) && x != v {
                    let k = choose|k: int| 0 <= k < s.len() && s[k] == x;
                    if k < i {
                        assert(r[k] == x);
                    } else {
                        assert(r[k - 1] == x);
                    }
                }
            }
        },
        None => {},
    }
}

/// Taking out what was just pushed onto a sequence that did not hold it gives the
/// sequence back.
pub proof fn lemma_pushed_then_removed<A>(s: Seq<A>, v: A)
    requires
        !s.contains(v),
    ensures
        s.push(v).remove_value(v) == s,
{
    let grown = s.push(v);
    grown.index_of_first_ensures(v);
    assert(grown[s.len() as int] == v);
    assert(grown.contains(v));
    let i = grown.index_of_first(v).unwrap();
    if i < s.len() {
        assert(s[i] == v);
        assert(s.contains(v));
    }
    assert(grown.remove(i) =~= s);
}

/// What is left of a sequence after filtering is what was there and passes, and nothing
/// occurs twice that did not before.
pub proof fn lemma_filter_members<A>(s: Seq<A>, pred: spec_fn(A) -> bool)
    ensures
        forall|x: A| #[trigger] s.filter(pred).contains(x) <==> s.contains(x) && pred(x),
        s.no_duplicates() ==> s.filter(pred).no_duplicates(),
    decreases s.len(),
{
    if s.len() == 0 {
        s.lemma_filter_len(pred);
    } else {
        let front = s.drop_last();
        let last = s.last();
        lemma_filter_members(front, pred);
        assert(front.push(last) =~= s);
        front.lemma_filter_push(last, pred);
        let kept = front.filter(pred);
        let all = s.filter(pred);
        assert(all == if pred(last) {
            kept.push(last)
        } else {
            kept
        });
        assert forall|x: A| #[trigger] all.contains(x) <==> s.contains(x) && pred(x) by {
            assert(kept.contains(x) <==> front.contains(x) && pred(x));
            if all.contains(x) {
                let k = choose|k: int| 0 <= k < all.len() && all[k] == x;
                if k < kept.len() {
                    assert(kept[k] == x);
                    assert(kept.contains(x));
                    let j = choose|j: int| 0 <= j < front.len() && front[j] == x;
                    assert(s[j] == x);
                } else {
                    assert(s[s.len() - 1] == x);
                }
            }
            if s.contains(x) && pred(x) {
                let j = choose|j: int| 0 <= j < s.len() && s[j] == x;
                if j < front.len() {
                    assert(front[j] == x);
                    assert(front.contains(x));
                    let k = choose|k: int| 0 <= k < kept.len() && kept[k] == x;
                    assert(all[k] == x);
                } else {
                    assert(all[all.len() - 1] == x);
                }
            }
        }
        if s.no_duplicates() {
            assert(front.no_duplicates());
            if pred(last) {
                assert forall|i: int, j: int|
                    0 <= i < all.len() && 0 <= j < all.len() && i != j implies all[i] != all[j] by {
                    if i < kept.len() && j < kept.len() {
                    } else {
                        let k = if i < kept.len() {
                            i
                        } else {
                            j
                        };
                        assert(kept.contains(kept[k]));
                        let m = choose|m: int| 0 <= m < front.len() && front[m] == kept[k];
                        assert(s[m] == kept[k]);
                    }
                }
            }
        }
    }
}

} // verus!
