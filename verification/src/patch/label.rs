//! Relabelling a patch: which labels it carries after an edit.

use vstd::prelude::*;

verus! {

/// The labels kept from `current`, in order: those that `remove` does not name.
pub open spec fn kept_labels(current: Seq<Seq<char>>, remove: Seq<Seq<char>>) -> Seq<Seq<char>>
    decreases current.len(),
{
    if current.len() == 0 {
        Seq::empty()
    } else {
        kept_labels(current.drop_last(), remove)
            + (if remove.contains(current.last()) {
                Seq::<Seq<char>>::empty()
            } else {
                seq![current.last()]
            })
    }
}

/// The views of a list of labels.
pub open spec fn label_views(labels: Seq<String>) -> Seq<Seq<char>> {
    labels.map_values(|l: String| l@)
}

/// Compute the labels a patch carries after an edit: every current label not
/// slated for removal is kept, in order, and the added labels follow, in
/// order. The caller stores the result on the patch.
pub fn run(current: &Vec<String>, add: &Vec<String>, remove: &Vec<String>) -> (r: Vec<String>)
    ensures
        label_views(r@) == kept_labels(label_views(current@), label_views(remove@))
            + label_views(add@),
{
    let ghost rem = label_views(remove@);
    let ghost cur = label_views(current@);
    let mut out: Vec<String> = Vec::new();
    let mut i: usize = 0;
    while i < current.len()
        invariant
            i <= current@.len(),
            cur == label_views(current@),
            rem == label_views(remove@),
            label_views(out@) == kept_labels(cur.take(i as int), rem),
        decreases current@.len() - i,
    {
        let l = &current[i];
        let mut removed: bool = false;
        let mut j: usize = 0;
        while j < remove.len()
            invariant
                j <= remove@.len(),
                0 <= i < current@.len(),
                rem == label_views(remove@),
                l == current@[i as int],
                removed <==> rem.take(j as int).contains(l@),
            decreases remove@.len() - j,
        {
            proof {
                assert(rem.take(j + 1).drop_last() =~= rem.take(j as int));
                if rem.take(j as int).contains(l@) {
                    let k = choose|k: int| 0 <= k < j && rem.take(j as int)[k] == l@;
                    assert(rem.take(j + 1)[k] == l@);
                }
            }
            if l.eq(&remove[j]) {
                proof {
                    assert(rem.take(j + 1).last() == l@);
                }
                removed = true;
            } else {
                proof {
                    if rem.take(j + 1).contains(l@) && !rem.take(j as int).contains(l@) {
                        let k = choose|k: int| 0 <= k <= j && #[trigger] rem.take(j + 1)[k] == l@;
                        assert(k == j);
                    }
                }
            }
            j += 1;
        }
        proof {
            assert(rem.take(remove@.len() as int) =~= rem);
        }
        let ghost prev = out@;
        if !removed {
            out.push(l.clone());
            proof {
                assert(label_views(out@) =~= label_views(prev) + seq![l@]);
            }
        }
        proof {
            assert(cur.take(i + 1).drop_last() =~= cur.take(i as int));
            assert(cur.take(i + 1).last() == l@);
            assert(label_views(out@) =~= kept_labels(cur.take(i + 1), rem));
        }
        i += 1;
    }
    proof {
        assert(cur.take(current@.len() as int) =~= cur);
    }
    let mut k: usize = 0;
    while k < add.len()
        invariant
            k <= add@.len(),
            cur == label_views(current@),
            rem == label_views(remove@),
            label_views(out@) == kept_labels(cur, rem) + label_views(add@).take(k as int),
        decreases add@.len() - k,
    {
        let ghost prev = out@;
        out.push(add[k].clone());
        proof {
            assert(label_views(out@) =~= label_views(prev) + seq![add@[k as int]@]);
            assert(label_views(add@).take(k + 1) =~= label_views(add@).take(k as int)
                + seq![add@[k as int]@]);
        }
        k += 1;
    }
    proof {
        assert(label_views(add@).take(add@.len() as int) =~= label_views(add@));
        assert(label_views(out@) == kept_labels(cur, rem) + label_views(add@));
    }
    out
}

} // verus!
