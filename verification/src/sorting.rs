//! Ordered sets of texts.

use vstd::prelude::*;
use crate::model::Ingredient;
use crate::text::{
    chars_of, compare_chars, lemma_text_lt_asymmetric, lemma_text_lt_transitive, text_lt, TextOrder,
};

verus! {

/// The texts of a sequence of strings.
pub open spec fn views(s: Seq<String>) -> Seq<Seq<char>> {
    s.map_values(|x: String| x@)
}

/// Each text comes strictly before the next (so none occurs twice).
pub open spec fn strictly_sorted(s: Seq<Seq<char>>) -> bool {
    forall|i: int, j: int| 0 <= i < j < s.len() ==> text_lt(#[trigger] s[i], #[trigger] s[j])
}

/// Adds `x` to a strictly sorted list of strings, unless it is already there.
pub fn insert_sorted_unique(v: &mut Vec<String>, x: String)
    requires
        strictly_sorted(views(old(v)@)),
    ensures
        strictly_sorted(views(final(v)@)),
        forall|t: Seq<char>|
            #![trigger views(final(v)@).contains(t)]
            views(final(v)@).contains(t) <==> (views(old(v)@).contains(t) || t == x@),
{
    let xc = chars_of(x.as_str());
    let mut p: usize = 0;
    let mut found = false;
    while p < v.len()
        invariant_except_break
            !found,
        invariant
            p <= v@.len(),
            xc@ == x@,
            strictly_sorted(views(v@)),
            v@ == old(v)@,
            forall|i: int| 0 <= i < p ==> text_lt(#[trigger] views(v@)[i], x@),
        ensures
            p <= v@.len(),
            v@ == old(v)@,
            forall|i: int| 0 <= i < p ==> text_lt(#[trigger] views(v@)[i], x@),
            found ==> p < v@.len() && views(v@)[p as int] == x@,
            !found ==> p == v@.len() || text_lt(x@, views(v@)[p as int]),
        decreases v@.len() - p,
    {
        let pc = chars_of(v[p].as_str());
        match compare_chars(pc.as_slice(), xc.as_slice()) {
            TextOrder::Before => {
                p = p + 1;
            },
            TextOrder::Same => {
                found = true;
                break;
            },
            TextOrder::After => {
                break;
            },
        }
    }
    let ghost old_views = views(v@);
    if found {
        assert(p < v@.len() && views(v@)[p as int] == x@);
        assert forall|t: Seq<char>|
            #![trigger views(v@).contains(t)]
            views(v@).contains(t) <==> (views(old(v)@).contains(t) || t == x@) by {
            if t == x@ {
                assert(views(v@)[p as int] == t);
            }
        }
        return ;
    }
    // every later text comes after x
    assert forall|j: int| p <= j < old_views.len() implies text_lt(x@, #[trigger] old_views[j]) by {
        assert(text_lt(x@, old_views[p as int]));
        if j > p {
            assert(text_lt(old_views[p as int], old_views[j]));
            lemma_text_lt_transitive(x@, old_views[p as int], old_views[j]);
        }
    }
    v.insert(p, x);
    assert(views(v@) =~= old_views.insert(p as int, x@));
    assert forall|i: int, j: int|
        0 <= i < j < views(v@).len() implies text_lt(
        #[trigger] views(v@)[i],
        #[trigger] views(v@)[j],
    ) by {
        if j < p {
        } else if j == p {
        } else if i < p {
            assert(views(v@)[j] == old_views[j - 1]);
            assert(text_lt(old_views[i], old_views[j - 1]));
        } else if i == p {
            assert(views(v@)[j] == old_views[j - 1]);
        } else {
            assert(views(v@)[j] == old_views[j - 1]);
            assert(views(v@)[i] == old_views[i - 1]);
            assert(text_lt(old_views[i - 1], old_views[j - 1]));
        }
    }
    assert forall|t: Seq<char>|
        #![trigger views(v@).contains(t)]
        views(v@).contains(t) <==> (old_views.contains(t) || t == x@) by {
        if views(v@).contains(t) {
            let k = choose|k: int| 0 <= k < views(v@).len() && views(v@)[k] == t;
            if k < p {
                assert(old_views[k] == t);
            } else if k > p {
                assert(old_views[k - 1] == t);
            }
        }
        if old_views.contains(t) {
            let k = choose|k: int| 0 <= k < old_views.len() && old_views[k] == t;
            if k < p {
                assert(views(v@)[k] == t);
            } else {
                assert(views(v@)[k + 1] == t);
            }
        }
        if t == x@ {
            assert(views(v@)[p as int] == t);
        }
    }
}

/// Two strictly sorted sequences with the same texts are the same sequence.
pub proof fn lemma_sorted_unique(a: Seq<Seq<char>>, b: Seq<Seq<char>>)
    requires
        strictly_sorted(a),
        strictly_sorted(b),
        forall|t: Seq<char>| a.contains(t) <==> b.contains(t),
    ensures
        a == b,
    decreases a.len(),
{
    if a.len() == 0 {
        if b.len() > 0 {
            assert(b.contains(b[0]));
        }
        assert(a =~= b);
    } else if b.len() == 0 {
        assert(a.contains(a[0]));
    } else {
        assert(a.contains(a[0]));
        assert(b.contains(b[0]));
        let k = choose|k: int| 0 <= k < b.len() && b[k] == a[0];
        let m = choose|m: int| 0 <= m < a.len() && a[m] == b[0];
        if k > 0 {
            assert(text_lt(b[0], b[k]));
            if m > 0 {
                assert(text_lt(a[0], a[m]));
                lemma_text_lt_asymmetric(a[0], b[0]);
            } else {
                lemma_text_lt_asymmetric(a[0], a[0]);
            }
        }
        assert(a[0] == b[0]);
        let a1 = a.drop_first();
        let b1 = b.drop_first();
        assert forall|t: Seq<char>| a1.contains(t) <==> b1.contains(t) by {
            if a1.contains(t) {
                let i = choose|i: int| 0 <= i < a1.len() && a1[i] == t;
                assert(a.contains(t));
                assert(text_lt(a[0], a[i + 1]));
                lemma_text_lt_asymmetric(t, t);
                let j = choose|j: int| 0 <= j < b.len() && b[j] == t;
                if j == 0 {
                    assert(false);
                }
                assert(b1[j - 1] == t);
            }
            if b1.contains(t) {
                let i = choose|i: int| 0 <= i < b1.len() && b1[i] == t;
                assert(b.contains(t));
                assert(text_lt(b[0], b[i + 1]));
                lemma_text_lt_asymmetric(t, t);
                let j = choose|j: int| 0 <= j < a.len() && a[j] == t;
                if j == 0 {
                    assert(false);
                }
                assert(a1[j - 1] == t);
            }
        }
        assert(strictly_sorted(a1)) by {
            assert forall|i: int, j: int| 0 <= i < j < a1.len() implies text_lt(
                #[trigger] a1[i],
                #[trigger] a1[j],
            ) by {
                assert(text_lt(a[i + 1], a[j + 1]));
            }
        }
        assert(strictly_sorted(b1)) by {
            assert forall|i: int, j: int| 0 <= i < j < b1.len() implies text_lt(
                #[trigger] b1[i],
                #[trigger] b1[j],
            ) by {
                assert(text_lt(b[i + 1], b[j + 1]));
            }
        }
        lemma_sorted_unique(a1, b1);
        assert(a.len() == b.len());
        assert forall|i: int| 0 <= i < a.len() implies a[i] == b[i] by {
            if i > 0 {
                assert(a[i] == a1[i - 1]);
                assert(b[i] == b1[i - 1]);
            }
        }
        assert(a =~= b);
    }
}

/// The names of a sequence of ingredients.
pub open spec fn names(s: Seq<&Ingredient>) -> Seq<Seq<char>> {
    s.map_values(|x: &Ingredient| x.name@)
}

/// Adds an ingredient to a list kept strictly sorted by name; its name is not
/// in the list yet.
pub fn insert_by_name<'a>(v: &mut Vec<&'a Ingredient>, x: &'a Ingredient)
    requires
        strictly_sorted(names(old(v)@)),
        !names(old(v)@).contains(x.name@),
    ensures
        strictly_sorted(names(final(v)@)),
        final(v)@.len() == old(v)@.len() + 1,
        forall|y: &Ingredient|
            #![trigger final(v)@.contains(y)]
            final(v)@.contains(y) <==> (old(v)@.contains(y) || y == x),
{
    let xc = chars_of(x.name.as_str());
    let mut p: usize = 0;
    while p < v.len()
        invariant
            p <= v@.len(),
            xc@ == x.name@,
            strictly_sorted(names(v@)),
            v@ == old(v)@,
            !names(v@).contains(x.name@),
            forall|i: int| 0 <= i < p ==> text_lt(#[trigger] names(v@)[i], x.name@),
        ensures
            p <= v@.len(),
            v@ == old(v)@,
            forall|i: int| 0 <= i < p ==> text_lt(#[trigger] names(v@)[i], x.name@),
            p == v@.len() || text_lt(x.name@, names(v@)[p as int]),
        decreases v@.len() - p,
    {
        let pc = chars_of(v[p].name.as_str());
        match compare_chars(pc.as_slice(), xc.as_slice()) {
            TextOrder::Before => {
                p = p + 1;
            },
            TextOrder::Same => {
                assert(names(v@)[p as int] == x.name@);
                assert(false);
                break;
            },
            TextOrder::After => {
                break;
            },
        }
    }
    let ghost old_names = names(v@);
    let ghost old_v = v@;
    assert forall|j: int| p <= j < old_names.len() implies text_lt(x.name@, #[trigger] old_names[j]) by {
        assert(text_lt(x.name@, old_names[p as int]));
        if j > p {
            assert(text_lt(old_names[p as int], old_names[j]));
            lemma_text_lt_transitive(x.name@, old_names[p as int], old_names[j]);
        }
    }
    v.insert(p, x);
    assert(names(v@) =~= old_names.insert(p as int, x.name@));
    assert forall|i: int, j: int|
        0 <= i < j < names(v@).len() implies text_lt(
        #[trigger] names(v@)[i],
        #[trigger] names(v@)[j],
    ) by {
        if j < p {
        } else if j == p {
        } else if i < p {
            assert(names(v@)[j] == old_names[j - 1]);
            assert(text_lt(old_names[i], old_names[j - 1]));
        } else if i == p {
            assert(names(v@)[j] == old_names[j - 1]);
        } else {
            assert(names(v@)[j] == old_names[j - 1]);
            assert(names(v@)[i] == old_names[i - 1]);
            assert(text_lt(old_names[i - 1], old_names[j - 1]));
        }
    }
    assert forall|y: &Ingredient|
        #![trigger v@.contains(y)]
        v@.contains(y) <==> (old_v.contains(y) || y == x) by {
        if v@.contains(y) {
            let k = choose|k: int| 0 <= k < v@.len() && v@[k] == y;
            if k < p {
                assert(old_v[k] == y);
            } else if k > p {
                assert(old_v[k - 1] == y);
            }
        }
        if old_v.contains(y) {
            let k = choose|k: int| 0 <= k < old_v.len() && old_v[k] == y;
            if k < p {
                assert(v@[k] == y);
            } else {
                assert(v@[k + 1] == y);
            }
        }
        if y == x {
            assert(v@[p as int] == y);
        }
    }
}

} // verus!
