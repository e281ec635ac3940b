//! Searching and removing in sequences of records that carry an identifier
//! and a label (a key or a name).

use vstd::prelude::*;

verus! {

/// A record with a 128-bit identifier.
pub trait Identified {
    spec fn ident(&self) -> u128;

    fn get_ident(&self) -> (r: u128)
        ensures
            r == self.ident(),
    ;
}

/// A record with a textual label that must be unique among its siblings.
pub trait Labelled {
    spec fn label(&self) -> Seq<char>;

    fn get_label(&self) -> (r: &String)
        ensures
            r@ == self.label(),
    ;
}

/// Some element of `s` has identifier `id`.
pub open spec fn has_ident<T: Identified>(s: Seq<T>, id: u128) -> bool {
    exists|i: int| 0 <= i < s.len() && (#[trigger] s[i]).ident() == id
}

/// Some element of `s` has label `l`.
pub open spec fn has_label<T: Labelled>(s: Seq<T>, l: Seq<char>) -> bool {
    exists|i: int| 0 <= i < s.len() && (#[trigger] s[i]).label() == l
}

/// Some element of `s` has label `l` and an identifier other than `id`.
pub open spec fn has_label_except<T: Labelled + Identified>(s: Seq<T>, l: Seq<char>, id: u128) -> bool {
    exists|i: int| 0 <= i < s.len() && (#[trigger] s[i]).label() == l && s[i].ident() != id
}

/// The index of the first element of `s` with identifier `id`.
pub open spec fn first_with_ident<T: Identified>(s: Seq<T>, id: u128) -> Option<int>
    decreases s.len(),
{
    if s.len() == 0 {
        None
    } else if s[0].ident() == id {
        Some(0)
    } else {
        match first_with_ident(s.drop_first(), id) {
            Some(i) => Some(i + 1),
            None => None,
        }
    }
}

/// `s` without the elements whose identifier is `id`, the others in their order.
pub open spec fn without_ident<T: Identified>(s: Seq<T>, id: u128) -> Seq<T>
    decreases s.len(),
{
    if s.len() == 0 {
        s
    } else if s.last().ident() == id {
        without_ident(s.drop_last(), id)
    } else {
        without_ident(s.drop_last(), id).push(s.last())
    }
}

/// `r` holds of every pair of elements of `s`, the earlier one first.
pub open spec fn pairwise<T>(s: Seq<T>, r: spec_fn(T, T) -> bool) -> bool {
    forall|i: int, j: int| 0 <= i < j < s.len() ==> r(#[trigger] s[i], #[trigger] s[j])
}

/// Two records have different labels.
pub open spec fn labels_differ<T: Labelled>() -> spec_fn(T, T) -> bool {
    |a: T, b: T| a.label() != b.label()
}

/// No two elements of `s` share a label.
pub open spec fn labels_unique<T: Labelled>(s: Seq<T>) -> bool {
    pairwise(s, labels_differ::<T>())
}

/// Two sequences with the same identifiers in the same places find the same
/// first index for every identifier.
pub proof fn lemma_same_idents_first<T: Identified>(a: Seq<T>, b: Seq<T>, id: u128)
    requires
        a.len() == b.len(),
        forall|k: int| 0 <= k < a.len() ==> #[trigger] b[k].ident() == a[k].ident(),
    ensures
        first_with_ident(b, id) == first_with_ident(a, id),
    decreases a.len(),
{
    if a.len() > 0 {
        assert forall|k: int| 0 <= k < a.len() - 1 implies #[trigger] b.drop_first()[k].ident()
            == a.drop_first()[k].ident() by {
            assert(b.drop_first()[k] == b[k + 1] && a.drop_first()[k] == a[k + 1]);
        }
        lemma_same_idents_first(a.drop_first(), b.drop_first(), id);
    }
}

/// What `first_with_ident` finds.
pub proof fn lemma_first_with_ident<T: Identified>(s: Seq<T>, id: u128)
    ensures
        match first_with_ident(s, id) {
            Some(i) => 0 <= i < s.len() && s[i].ident() == id && forall|j: int|
                0 <= j < i ==> (#[trigger] s[j]).ident() != id,
            None => !has_ident(s, id),
        },
    decreases s.len(),
{
    if s.len() > 0 {
        lemma_first_with_ident(s.drop_first(), id);
        if s[0].ident() != id {
            match first_with_ident(s.drop_first(), id) {
                Some(i) => {
                    assert forall|j: int| 0 <= j < i + 1 implies (#[trigger] s[j]).ident() != id by {
                        if j > 0 {
                            assert(s[j] == s.drop_first()[j - 1]);
                        }
                    }
                },
                None => {
                    assert forall|j: int| 0 <= j < s.len() implies (#[trigger] s[j]).ident()
                        != id by {
                        if j > 0 {
                            assert(s[j] == s.drop_first()[j - 1]);
                        }
                    }
                },
            }
        }
    }
}

/// The elements of `without_ident(s, id)` are those of `s` whose identifier is not `id`.
pub proof fn lemma_without_ident_contains<T: Identified>(s: Seq<T>, id: u128, x: T)
    ensures
        without_ident(s, id).contains(x) <==> (s.contains(x) && x.ident() != id),
        without_ident(s, id).len() <= s.len(),
        without_ident(s, id).len() == s.len() <==> !has_ident(s, id),
    decreases s.len(),
{
    if s.len() > 0 {
        lemma_without_ident_contains(s.drop_last(), id, x);
        let r = without_ident(s.drop_last(), id);
        assert(s =~= s.drop_last().push(s.last()));
        if s.contains(x) && x != s.last() {
            let k = choose|k: int| 0 <= k < s.len() && s[k] == x;
            assert(s.drop_last()[k] == x);
        }
        if s.last().ident() != id {
            assert(r.push(s.last()).last() == s.last());
            if r.push(s.last()).contains(x) && x != s.last() {
                let k = choose|k: int| 0 <= k < r.len() + 1 && r.push(s.last())[k] == x;
                assert(r[k] == x);
            }
            if r.contains(x) {
                let k = choose|k: int| 0 <= k < r.len() && r[k] == x;
                assert(r.push(s.last())[k] == x);
            }
        }
        if s.drop_last().contains(x) {
            let k = choose|k: int| 0 <= k < s.len() - 1 && s.drop_last()[k] == x;
            assert(s[k] == x);
        }
        if has_ident(s.drop_last(), id) {
            let k = choose|k: int| 0 <= k < s.len() - 1 && (#[trigger] s.drop_last()[k]).ident()
                == id;
            assert(s[k] == s.drop_last()[k]);
        }
        if has_ident(s, id) && s.last().ident() != id {
            let k = choose|k: int| 0 <= k < s.len() && (#[trigger] s[k]).ident() == id;
            assert(s.drop_last()[k] == s[k]);
        }
    }
}

/// Removing an identifier that does not occur changes nothing.
pub proof fn lemma_without_ident_absent<T: Identified>(s: Seq<T>, id: u128)
    requires
        !has_ident(s, id),
    ensures
        without_ident(s, id) == s,
    decreases s.len(),
{
    if s.len() > 0 {
        assert(!has_ident(s.drop_last(), id)) by {
            if has_ident(s.drop_last(), id) {
                let k = choose|k: int| 0 <= k < s.len() - 1 && (#[trigger] s.drop_last()[k]).ident() == id;
                assert(s[k] == s.drop_last()[k]);
            }
        }
        lemma_without_ident_absent(s.drop_last(), id);
        assert(s[s.len() - 1].ident() != id);
        assert(s.drop_last().push(s.last()) =~= s);
    }
}

/// Removing elements keeps a pairwise property.
pub proof fn lemma_without_ident_pairwise<T: Identified>(s: Seq<T>, id: u128, r: spec_fn(T, T) -> bool)
    requires
        pairwise(s, r),
    ensures
        pairwise(without_ident(s, id), r),
    decreases s.len(),
{
    if s.len() > 0 {
        let p = s.drop_last();
        assert(pairwise(p, r)) by {
            assert forall|i: int, j: int| 0 <= i < j < p.len() implies r(
                #[trigger] p[i],
                #[trigger] p[j],
            ) by {
                assert(p[i] == s[i] && p[j] == s[j]);
            }
        }
        lemma_without_ident_pairwise(p, id, r);
        let w = without_ident(p, id);
        if s.last().ident() != id {
            let q = w.push(s.last());
            assert forall|i: int, j: int| 0 <= i < j < q.len() implies r(
                #[trigger] q[i],
                #[trigger] q[j],
            ) by {
                if j == q.len() - 1 {
                    lemma_without_ident_contains(p, id, q[i]);
                    assert(w.contains(q[i])) by {
                        assert(w[i] == q[i]);
                    }
                    let k = choose|k: int| 0 <= k < p.len() && p[k] == q[i];
                    assert(s[k] == q[i]);
                    assert(s[s.len() - 1] == q[j]);
                } else {
                    assert(q[i] == w[i] && q[j] == w[j]);
                }
            }
        }
    }
}

/// Adding a record with a fresh label keeps labels distinct.
pub proof fn lemma_push_labels_unique<T: Labelled>(s: Seq<T>, x: T)
    requires
        labels_unique(s),
        !has_label(s, x.label()),
    ensures
        labels_unique(s.push(x)),
{
    let t = s.push(x);
    assert forall|i: int, j: int| 0 <= i < j < t.len() implies (labels_differ::<T>())(#[trigger] t[i], #[trigger] t[j]) by {
        assert(t[i] == s[i]);
        if j < s.len() {
            assert(t[j] == s[j]);
        } else {
            assert(t[j] == x);
            if t[i].label() == x.label() {
                assert(has_label(s, x.label()));
            }
        }
    }
}

/// The index of the first element of `v` with identifier `id`.
pub fn position_of<T: Identified>(v: &Vec<T>, id: u128) -> (r: Option<usize>)
    ensures
        match r {
            Some(i) => first_with_ident(v@, id) == Some(i as int),
            None => first_with_ident(v@, id) is None,
        },
        r is Some <==> has_ident(v@, id),
        r matches Some(i) ==> i < v@.len() && v@[i as int].ident() == id,
{
    proof {
        lemma_first_with_ident(v@, id);
    }
    let mut i: usize = 0;
    while i < v.len()
        invariant
            i <= v@.len(),
            forall|j: int| 0 <= j < i ==> (#[trigger] v@[j]).ident() != id,
        decreases v.len() - i,
    {
        if v[i].get_ident() == id {
            proof {
                lemma_first_with_ident(v@, id);
                match first_with_ident(v@, id) {
                    Some(k) => {
                        if k < i {
                            assert(v@[k].ident() != id);
                        }
                        if k > i {
                            assert(v@[i as int].ident() != id);
                        }
                    },
                    None => {
                        assert(has_ident(v@, id)) by {
                            assert(v@[i as int].ident() == id);
                        }
                    },
                }
            }
            return Some(i);
        }
        i = i + 1;
    }
    proof {
        if let Some(k) = first_with_ident(v@, id) {
            assert(v@[k].ident() == id);
        }
    }
    None
}

/// Whether some element of `v` has label `l`.
pub fn any_labelled<T: Labelled>(v: &Vec<T>, l: &String) -> (b: bool)
    ensures
        b == has_label(v@, l@),
{
    let mut i: usize = 0;
    while i < v.len()
        invariant
            i <= v@.len(),
            forall|j: int| 0 <= j < i ==> (#[trigger] v@[j]).label() != l@,
        decreases v.len() - i,
    {
        if v[i].get_label().eq(l) {
            assert(v@[i as int].label() == l@);
            return true;
        }
        i = i + 1;
    }
    false
}

/// Whether some element of `v` has label `l` and an identifier other than `id`.
pub fn any_labelled_except<T: Labelled + Identified>(v: &Vec<T>, l: &String, id: u128) -> (b: bool)
    ensures
        b == has_label_except(v@, l@, id),
{
    let mut i: usize = 0;
    while i < v.len()
        invariant
            i <= v@.len(),
            forall|j: int|
                0 <= j < i ==> !((#[trigger] v@[j]).label() == l@ && v@[j].ident() != id),
        decreases v.len() - i,
    {
        if v[i].get_label().eq(l) && v[i].get_ident() != id {
            assert(v@[i as int].label() == l@);
            return true;
        }
        i = i + 1;
    }
    false
}

/// Removes every element of `v` whose identifier is `id`; says whether there was one.
pub fn remove_with_ident<T: Identified>(v: &mut Vec<T>, id: u128) -> (found: bool)
    ensures
        final(v)@ == without_ident(old(v)@, id),
        found == has_ident(old(v)@, id),
        !found ==> *final(v) == *old(v),
{
    if position_of(v, id).is_none() {
        proof {
            lemma_without_ident_absent(v@, id);
        }
        return false;
    }
    let ghost s = v@;
    let old_len = v.len();
    let mut i: usize = 0;
    let ghost mut j: int = 0;
    while i < v.len()
        invariant
            0 <= j <= s.len(),
            v@ == without_ident(s.take(j), id) + s.skip(j),
            i == without_ident(s.take(j), id).len(),
        decreases v.len() - i,
    {
        proof {
            assert(s.take(j + 1).drop_last() =~= s.take(j));
            assert(s.take(j + 1).last() == s[j]);
            assert(v@[i as int] == s[j]);
        }
        if v[i].get_ident() == id {
            v.remove(i);
            proof {
                assert(v@ =~= without_ident(s.take(j + 1), id) + s.skip(j + 1));
                j = j + 1;
            }
        } else {
            proof {
                assert(without_ident(s.take(j + 1), id) =~= without_ident(s.take(j), id).push(s[j]));
                assert(v@ =~= without_ident(s.take(j + 1), id) + s.skip(j + 1));
                j = j + 1;
            }
            i = i + 1;
        }
    }
    proof {
        assert(j == s.len()) by {
            if j < s.len() {
                assert((without_ident(s.take(j), id) + s.skip(j)).len() > i);
            }
        }
        assert(s.take(j) =~= s);
        assert(v@ =~= without_ident(s, id));
        let w = without_ident(s, id);
        if has_ident(s, id) {
            let k = choose|k: int| 0 <= k < s.len() && (#[trigger] s[k]).ident() == id;
            lemma_without_ident_contains(s, id, s[k]);
        } else {
            lemma_without_ident_contains(s, id, s[0]);
        }
    }
    v.len() < old_len
}

} // verus!
