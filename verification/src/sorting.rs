//! Sorting and uniqueness checks keyed on record ids.
//!
//! Sorting is modelled by a deterministic insertion sort at the
//! specification level; the executable sort returns exactly that
//! sequence. A run of records with equal ids keeps its existing order,
//! so sorting an already-sorted list is the identity.

use vstd::prelude::*;
use vstd::multiset::Multiset;
use vstd::relations::{sorted_by, strongly_connected, transitive};
use vstd::seq_lib::lemma_multiset_commutative;
use crate::text::{str_le, str_le_exec, lemma_str_le_antisymmetric, lemma_str_le_total, lemma_str_le_transitive};

verus! {

/// A record with a string id; sorting and uniqueness checks key on it.
pub trait HasId: Sized + DeepView {
    /// The id as a character sequence.
    spec fn id_spec(&self) -> Seq<char>;

    /// The id of the record's model.
    spec fn view_id(v: Self::V) -> Seq<char>;

    /// Taking the model preserves the id.
    proof fn id_view_compat(&self)
        ensures
            Self::view_id(self.deep_view()) == self.id_spec(),
    ;

    /// Returns a copy of the record's id.
    fn id(&self) -> (r: String)
        ensures
            r@ == self.id_spec(),
    ;
}

/// The key order on records: compare by `str_le` on the ids.
pub open spec fn id_le<T: HasId>() -> spec_fn(T, T) -> bool {
    |a: T, b: T| str_le(a.id_spec(), b.id_spec())
}

/// The key order on record models.
pub open spec fn id_le_v<T: HasId>() -> spec_fn(T::V, T::V) -> bool {
    |a: T::V, b: T::V| str_le(T::view_id(a), T::view_id(b))
}

/// The model of each record, in order.
pub open spec fn deep_of<T: HasId>(s: Seq<T>) -> Seq<T::V> {
    s.map_values(|x: T| x.deep_view())
}

/// The ids of a sequence of records, in order.
pub open spec fn ids_of<T: HasId>(s: Seq<T>) -> Seq<Seq<char>> {
    s.map_values(|x: T| x.id_spec())
}

/// The key order is transitive and total (though not antisymmetric:
/// distinct records may share an id).
pub proof fn lemma_id_le_key_order<T: HasId>()
    ensures
        transitive(id_le::<T>()),
        strongly_connected(id_le::<T>()),
{
    assert forall|a: T, b: T, c: T|
        #[trigger] id_le::<T>()(a, b) && #[trigger] id_le::<T>()(b, c) implies id_le::<T>()(
        a,
        c,
    ) by {
        lemma_str_le_transitive(a.id_spec(), b.id_spec(), c.id_spec());
    }
    assert forall|a: T, b: T| !(#[trigger] id_le::<T>()(a, b)) implies id_le::<T>()(b, a) by {
        lemma_str_le_total(a.id_spec(), b.id_spec());
    }
}

/// The model-level key order is transitive and total.
pub proof fn lemma_id_le_v_key_order<T: HasId>()
    ensures
        transitive(id_le_v::<T>()),
        strongly_connected(id_le_v::<T>()),
{
    assert forall|a: T::V, b: T::V, c: T::V|
        #[trigger] id_le_v::<T>()(a, b) && #[trigger] id_le_v::<T>()(b, c) implies id_le_v::<T>()(
        a,
        c,
    ) by {
        lemma_str_le_transitive(T::view_id(a), T::view_id(b), T::view_id(c));
    }
    assert forall|a: T::V, b: T::V| !(#[trigger] id_le_v::<T>()(a, b)) implies id_le_v::<T>()(
        b,
        a,
    ) by {
        lemma_str_le_total(T::view_id(a), T::view_id(b));
    }
}

/// Inserting into a sorted sequence: the new element goes before the
/// first element it does not follow, after any run of equal keys.
pub open spec fn insert_sorted_by<T>(s: Seq<T>, x: T, leq: spec_fn(T, T) -> bool) -> Seq<T>
    decreases s.len(),
{
    if s.len() == 0 {
        seq![x]
    } else if leq(s[0], x) {
        seq![s[0]] + insert_sorted_by(s.drop_first(), x, leq)
    } else {
        seq![x] + s
    }
}

/// Insertion sort, inserting the elements in order of appearance.
pub open spec fn isort_by<T>(s: Seq<T>, leq: spec_fn(T, T) -> bool) -> Seq<T>
    decreases s.len(),
{
    if s.len() == 0 {
        Seq::<T>::empty()
    } else {
        insert_sorted_by(isort_by(s.drop_last(), leq), s.last(), leq)
    }
}

/// The multiset of a one-element sequence holds that element once.
proof fn lemma_singleton_multiset<T>(x: T)
    ensures
        seq![x].to_multiset() =~= Multiset::<T>::empty().insert(x),
{
    broadcast use vstd::seq_lib::group_to_multiset_ensures;
    broadcast use vstd::multiset::group_multiset_axioms;

    assert(Seq::<T>::empty().to_multiset() =~= Multiset::<T>::empty()) by {
        vstd::multiset::lemma_multiset_empty_len(Seq::<T>::empty().to_multiset());
    }
    assert(seq![x] =~= Seq::<T>::empty().push(x));
    assert(Seq::<T>::empty().push(x).to_multiset() =~= Seq::<T>::empty().to_multiset().insert(x));
}

/// Insertion adds exactly the new element to the multiset.
pub proof fn lemma_insert_sorted_multiset<T>(s: Seq<T>, x: T, leq: spec_fn(T, T) -> bool)
    ensures
        insert_sorted_by(s, x, leq).to_multiset() == s.to_multiset().insert(x),
    decreases s.len(),
{
    broadcast use vstd::seq_lib::group_to_multiset_ensures;
    broadcast use vstd::multiset::group_multiset_axioms;

    lemma_singleton_multiset(x);
    if s.len() == 0 {
        assert(insert_sorted_by(s, x, leq).to_multiset() =~= s.to_multiset().insert(x));
    } else if leq(s[0], x) {
        lemma_insert_sorted_multiset(s.drop_first(), x, leq);
        lemma_singleton_multiset(s[0]);
        lemma_multiset_commutative(seq![s[0]], insert_sorted_by(s.drop_first(), x, leq));
        lemma_multiset_commutative(seq![s[0]], s.drop_first());
        assert(s =~= seq![s[0]] + s.drop_first());
        assert(insert_sorted_by(s, x, leq).to_multiset() =~= s.to_multiset().insert(x));
    } else {
        lemma_multiset_commutative(seq![x], s);
        assert(insert_sorted_by(s, x, leq).to_multiset() =~= s.to_multiset().insert(x));
    }
}

/// Insertion grows the sequence by one element.
pub proof fn lemma_insert_sorted_len<T>(s: Seq<T>, x: T, leq: spec_fn(T, T) -> bool)
    ensures
        insert_sorted_by(s, x, leq).len() == s.len() + 1,
    decreases s.len(),
{
    if s.len() > 0 && leq(s[0], x) {
        lemma_insert_sorted_len(s.drop_first(), x, leq);
    }
}

/// Insertion into a sorted sequence keeps it sorted, for a transitive
/// and total key order.
pub proof fn lemma_insert_sorted_sorted<T>(s: Seq<T>, x: T, leq: spec_fn(T, T) -> bool)
    requires
        sorted_by(s, leq),
        transitive(leq),
        strongly_connected(leq),
    ensures
        sorted_by(insert_sorted_by(s, x, leq), leq),
    decreases s.len(),
{
    let t = insert_sorted_by(s, x, leq);
    if s.len() == 0 {
    } else if leq(s[0], x) {
        assert(sorted_by(s.drop_first(), leq));
        lemma_insert_sorted_sorted(s.drop_first(), x, leq);
        let rest = insert_sorted_by(s.drop_first(), x, leq);
        lemma_insert_sorted_multiset(s.drop_first(), x, leq);
        assert forall|i: int, j: int| 0 <= i < j < t.len() implies #[trigger] leq(t[i], t[j]) by {
            if i == 0 {
                assert(t[0] == s[0]);
                assert(t[j] == rest[j - 1]);
                assert(rest.to_multiset().contains(rest[j - 1])) by {
                    broadcast use vstd::seq_lib::group_to_multiset_ensures;
                }
                if rest[j - 1] == x {
                    assert(leq(s[0], x));
                } else {
                    broadcast use vstd::seq_lib::group_to_multiset_ensures;
                    broadcast use vstd::multiset::group_multiset_axioms;
                    assert(s.drop_first().to_multiset().contains(rest[j - 1]));
                    assert(s.drop_first().contains(rest[j - 1]));
                    let k = choose|k: int|
                        0 <= k < s.drop_first().len() && s.drop_first()[k] == rest[j - 1];
                    assert(s[k + 1] == rest[j - 1]);
                    if k + 1 == 0 {
                    } else {
                        assert(leq(s[0], s[k + 1]));
                    }
                }
            } else {
                assert(t[i] == rest[i - 1] && t[j] == rest[j - 1]);
            }
        }
    } else {
        assert(leq(x, s[0]));
        assert forall|i: int, j: int| 0 <= i < j < t.len() implies #[trigger] leq(t[i], t[j]) by {
            if i == 0 {
                assert(t[0] == x && t[j] == s[j - 1]);
                if j - 1 == 0 {
                } else {
                    assert(leq(s[0], s[j - 1]));
                }
            } else {
                assert(t[i] == s[i - 1] && t[j] == s[j - 1]);
            }
        }
    }
}

/// When every element of the sequence precedes the new element, the
/// insertion lands at the end.
pub proof fn lemma_insert_sorted_at_end<T>(s: Seq<T>, x: T, leq: spec_fn(T, T) -> bool)
    requires
        forall|k: int| 0 <= k < s.len() ==> leq(#[trigger] s[k], x),
    ensures
        insert_sorted_by(s, x, leq) == s.push(x),
    decreases s.len(),
{
    if s.len() == 0 {
        assert(insert_sorted_by(s, x, leq) =~= s.push(x));
    } else {
        assert(leq(s[0], x));
        lemma_insert_sorted_at_end(s.drop_first(), x, leq);
        assert(seq![s[0]] + s.drop_first().push(x) =~= s.push(x));
    }
}

/// The insertion lands at the first position whose element does not
/// precede the new one.
pub proof fn lemma_insert_sorted_position<T>(s: Seq<T>, x: T, leq: spec_fn(T, T) -> bool, k: int)
    requires
        0 <= k <= s.len(),
        forall|j: int| 0 <= j < k ==> leq(#[trigger] s[j], x),
        k < s.len() ==> !leq(s[k], x),
    ensures
        insert_sorted_by(s, x, leq) == s.insert(k, x),
    decreases k,
{
    if k == s.len() {
        lemma_insert_sorted_at_end(s, x, leq);
        assert(s.push(x) =~= s.insert(k, x));
    } else if k == 0 {
        assert(seq![x] + s =~= s.insert(0, x));
        if s.len() == 0 {
            assert(insert_sorted_by(s, x, leq) =~= s.insert(0, x));
        }
    } else {
        assert(leq(s[0], x));
        lemma_insert_sorted_position(s.drop_first(), x, leq, k - 1);
        assert(seq![s[0]] + s.drop_first().insert(k - 1, x) =~= s.insert(k, x));
    }
}

/// The insertion sort returns a sorted permutation of its input.
pub proof fn lemma_isort_ensures<T>(s: Seq<T>, leq: spec_fn(T, T) -> bool)
    requires
        transitive(leq),
        strongly_connected(leq),
    ensures
        isort_by(s, leq).to_multiset() == s.to_multiset(),
        sorted_by(isort_by(s, leq), leq),
        isort_by(s, leq).len() == s.len(),
    decreases s.len(),
{
    broadcast use vstd::seq_lib::group_to_multiset_ensures;
    broadcast use vstd::multiset::group_multiset_axioms;

    if s.len() == 0 {
    } else {
        lemma_isort_ensures(s.drop_last(), leq);
        lemma_insert_sorted_sorted(isort_by(s.drop_last(), leq), s.last(), leq);
        lemma_insert_sorted_multiset(isort_by(s.drop_last(), leq), s.last(), leq);
        lemma_insert_sorted_len(isort_by(s.drop_last(), leq), s.last(), leq);
        assert(s =~= s.drop_last().push(s.last()));
        assert(s.drop_last().push(s.last()).to_multiset() =~= s.drop_last().to_multiset().insert(
            s.last(),
        ));
    }
}

/// Sorting a sorted sequence is the identity, even when keys repeat.
pub proof fn lemma_isort_of_sorted<T>(s: Seq<T>, leq: spec_fn(T, T) -> bool)
    requires
        sorted_by(s, leq),
    ensures
        isort_by(s, leq) == s,
    decreases s.len(),
{
    if s.len() > 0 {
        assert(sorted_by(s.drop_last(), leq));
        lemma_isort_of_sorted(s.drop_last(), leq);
        lemma_insert_sorted_at_end(s.drop_last(), s.last(), leq);
        assert(s.drop_last().push(s.last()) =~= s);
    }
}

/// Two sequences sorted on the same keys, holding the same records,
/// with no key repeated, are equal.
pub proof fn lemma_sorted_unique_by_key<T>(
    a: Seq<T>,
    b: Seq<T>,
    leq: spec_fn(T, T) -> bool,
    key: spec_fn(T) -> Seq<char>,
)
    requires
        forall|x: T, y: T| #[trigger] leq(x, y) == str_le(key(x), key(y)),
        sorted_by(a, leq),
        sorted_by(b, leq),
        a.to_multiset() == b.to_multiset(),
        a.map_values(key).no_duplicates(),
    ensures
        a == b,
    decreases a.len(),
{
    broadcast use vstd::seq_lib::group_to_multiset_ensures;
    broadcast use vstd::multiset::group_multiset_axioms;

    if a.len() == 0 {
        assert(b.to_multiset().len() == 0);
        assert(a =~= b);
    } else {
        assert(a.to_multiset().contains(a[0]));
        assert(b.to_multiset().contains(a[0]));
        assert(b.contains(a[0]));
        assert(b.len() > 0);
        assert(a.to_multiset().contains(b[0]));
        assert(a.contains(b[0]));
        let i = choose|i: int| 0 <= i < a.len() && a[i] == b[0];
        let j = choose|j: int| 0 <= j < b.len() && b[j] == a[0];
        if i > 0 {
            assert(leq(a[0], a[i]));
        }
        if j > 0 {
            assert(leq(b[0], b[j]));
        }
        assert(str_le(key(a[0]), key(b[0])) || str_le(key(b[0]), key(a[0]))) by {
            lemma_str_le_total(key(a[0]), key(b[0]));
        }
        assert(str_le(key(a[0]), key(b[0])) && str_le(key(b[0]), key(a[0]))) by {
            if i > 0 {
                assert(str_le(key(a[0]), key(b[0])));
            }
            if j > 0 {
                assert(str_le(key(b[0]), key(a[0])));
            }
        }
        lemma_str_le_antisymmetric(key(a[0]), key(b[0]));
        assert(key(a[0]) == key(b[0]));
        if i != 0 {
            assert(a.map_values(key)[0] == key(a[0]));
            assert(a.map_values(key)[i] == key(a[i]));
            assert(key(a[i]) == key(b[0]));
            assert(false);
        }
        assert(a[0] == b[0]);
        assert(a.drop_first().to_multiset() =~= a.to_multiset().remove(a[0])) by {
            assert(a.drop_first() =~= a.remove(0));
        }
        assert(b.drop_first().to_multiset() =~= b.to_multiset().remove(b[0])) by {
            assert(b.drop_first() =~= b.remove(0));
        }
        assert(sorted_by(a.drop_first(), leq));
        assert(sorted_by(b.drop_first(), leq));
        assert(a.drop_first().map_values(key).no_duplicates()) by {
            assert forall|p: int, q: int|
                0 <= p < a.drop_first().len() && 0 <= q < a.drop_first().len() && p != q
                implies a.drop_first().map_values(key)[p] != a.drop_first().map_values(
                key,
            )[q] by {
                assert(a.map_values(key)[p + 1] == key(a[p + 1]));
                assert(a.map_values(key)[q + 1] == key(a[q + 1]));
            }
        }
        lemma_sorted_unique_by_key(a.drop_first(), b.drop_first(), leq, key);
        assert(a =~= seq![a[0]] + a.drop_first());
        assert(b =~= seq![b[0]] + b.drop_first());
    }
}

/// Mapping a function over two sequences holding the same elements
/// yields sequences holding the same images.
pub proof fn lemma_map_values_multiset<A, B>(s1: Seq<A>, s2: Seq<A>, f: spec_fn(A) -> B)
    requires
        s1.to_multiset() == s2.to_multiset(),
    ensures
        s1.map_values(f).to_multiset() == s2.map_values(f).to_multiset(),
    decreases s1.len(),
{
    broadcast use vstd::seq_lib::group_to_multiset_ensures;
    broadcast use vstd::multiset::group_multiset_axioms;

    if s1.len() == 0 {
        assert(s2.to_multiset().len() == 0);
        assert(s2 =~= Seq::<A>::empty());
        assert(s1.map_values(f) =~= s2.map_values(f));
    } else {
        let x = s1[0];
        assert(s1.contains(x));
        assert(s1.to_multiset().contains(x));
        assert(s2.to_multiset().contains(x));
        assert(s2.contains(x));
        let i = choose|i: int| 0 <= i < s2.len() && s2[i] == x;
        assert(s1.drop_first().to_multiset() =~= s1.to_multiset().remove(x)) by {
            assert(s1.drop_first() =~= s1.remove(0));
        }
        assert(s2.remove(i).to_multiset() =~= s2.to_multiset().remove(x));
        lemma_map_values_multiset(s1.drop_first(), s2.remove(i), f);
        assert(s1.map_values(f).drop_first() =~= s1.drop_first().map_values(f));
        assert(s2.remove(i).map_values(f) =~= s2.map_values(f).remove(i));
        assert(s1.map_values(f).drop_first().to_multiset() =~= s1.map_values(
            f,
        ).to_multiset().remove(f(x))) by {
            assert(s1.map_values(f).drop_first() =~= s1.map_values(f).remove(0));
            assert(s1.map_values(f)[0] == f(x));
        }
        assert(s2.map_values(f).remove(i).to_multiset() =~= s2.map_values(
            f,
        ).to_multiset().remove(f(x))) by {
            assert(s2.map_values(f)[i] == f(x));
        }
        assert(s1.map_values(f).to_multiset().contains(f(x))) by {
            assert(s1.map_values(f)[0] == f(x));
            assert(s1.map_values(f).contains(f(x)));
        }
        assert(s2.map_values(f).to_multiset().contains(f(x))) by {
            assert(s2.map_values(f)[i] == f(x));
            assert(s2.map_values(f).contains(f(x)));
        }
        assert(s1.map_values(f).to_multiset() =~= s2.map_values(f).to_multiset()) by {
            let m1 = s1.map_values(f).to_multiset();
            let m2 = s2.map_values(f).to_multiset();
            assert(m1.remove(f(x)) =~= m2.remove(f(x)));
            assert forall|y: B| true implies m1.count(y) == m2.count(y) by {
                if y == f(x) {
                    assert(m1.remove(f(x)).count(y) == m1.count(y) - 1);
                    assert(m2.remove(f(x)).count(y) == m2.count(y) - 1);
                } else {
                    assert(m1.remove(f(x)).count(y) == m1.count(y));
                    assert(m2.remove(f(x)).count(y) == m2.count(y));
                }
            }
        }
    }
}

/// If no key repeats in a sequence, no key repeats in any reordering
/// of it.
pub proof fn lemma_key_nodup_permutation<T>(a: Seq<T>, b: Seq<T>, key: spec_fn(T) -> Seq<char>)
    requires
        a.to_multiset() == b.to_multiset(),
        a.map_values(key).no_duplicates(),
    ensures
        b.map_values(key).no_duplicates(),
{
    broadcast use vstd::seq_lib::group_to_multiset_ensures;
    broadcast use vstd::multiset::group_multiset_axioms;

    assert forall|p: int, q: int|
        0 <= p < b.len() && 0 <= q < b.len() && p != q implies b.map_values(key)[p]
        != b.map_values(key)[q] by {
        assert(b.map_values(key)[p] == key(b[p]));
        assert(b.map_values(key)[q] == key(b[q]));
        if key(b[p]) == key(b[q]) {
            if b[p] == b[q] {
                let x = b[p];
                assert(b.remove(q).to_multiset() =~= b.to_multiset().remove(x));
                let bq = b.remove(q);
                let p2 = if p < q { p } else { p - 1 };
                assert(bq[p2] == x);
                assert(bq.contains(x));
                assert(bq.to_multiset().contains(x));
                assert(b.to_multiset().count(x) >= 2);
                assert(a.to_multiset().count(x) >= 2);
                assert(a.to_multiset().contains(x));
                assert(a.contains(x));
                let i = choose|i: int| 0 <= i < a.len() && a[i] == x;
                assert(a.remove(i).to_multiset() =~= a.to_multiset().remove(x));
                assert(a.remove(i).to_multiset().count(x) >= 1);
                assert(a.remove(i).to_multiset().contains(x));
                assert(a.remove(i).contains(x));
                let j2 = choose|j2: int| 0 <= j2 < a.remove(i).len() && a.remove(i)[j2] == x;
                let j = if j2 < i { j2 } else { j2 + 1 };
                assert(a[j] == x);
                assert(i != j);
                assert(a.map_values(key)[i] == key(x));
                assert(a.map_values(key)[j] == key(x));
                assert(false);
            } else {
                assert(b.contains(b[p]));
                assert(b.contains(b[q]));
                assert(b.to_multiset().contains(b[p]));
                assert(b.to_multiset().contains(b[q]));
                assert(a.to_multiset().contains(b[p]));
                assert(a.to_multiset().contains(b[q]));
                assert(a.contains(b[p]));
                assert(a.contains(b[q]));
                let i = choose|i: int| 0 <= i < a.len() && a[i] == b[p];
                let j = choose|j: int| 0 <= j < a.len() && a[j] == b[q];
                assert(i != j);
                assert(a.map_values(key)[i] == key(b[p]));
                assert(a.map_values(key)[j] == key(b[q]));
                assert(false);
            }
        }
    }
}

/// Cleaning every record and sorting is idempotent, for an elementwise
/// idempotent cleaning function: the second pass cleans already-clean
/// records and sorts an already-sorted list.
pub proof fn lemma_isort_map_idempotent<T>(s: Seq<T>, f: spec_fn(T) -> T, leq: spec_fn(T, T) -> bool)
    requires
        transitive(leq),
        strongly_connected(leq),
        forall|x: T| #[trigger] f(f(x)) == f(x),
    ensures
        isort_by(isort_by(s.map_values(f), leq).map_values(f), leq) == isort_by(
            s.map_values(f),
            leq,
        ),
{
    broadcast use vstd::seq_lib::group_to_multiset_ensures;
    broadcast use vstd::multiset::group_multiset_axioms;

    let m = s.map_values(f);
    let r = isort_by(m, leq);
    lemma_isort_ensures(m, leq);
    assert forall|i: int| 0 <= i < r.len() implies #[trigger] f(r[i]) == r[i] by {
        assert(r.contains(r[i]));
        assert(r.to_multiset().contains(r[i]));
        assert(m.to_multiset().contains(r[i]));
        assert(m.contains(r[i]));
        let j = choose|j: int| 0 <= j < m.len() && m[j] == r[i];
        assert(m[j] == f(s[j]));
    }
    assert(r.map_values(f) =~= r);
    lemma_isort_of_sorted(r, leq);
}

/// Cleaning every record and sorting does not depend on the order the
/// records came in, provided no two share a key after cleaning.
pub proof fn lemma_isort_map_permutation<T>(
    s1: Seq<T>,
    s2: Seq<T>,
    f: spec_fn(T) -> T,
    leq: spec_fn(T, T) -> bool,
    key: spec_fn(T) -> Seq<char>,
)
    requires
        forall|x: T, y: T| #[trigger] leq(x, y) == str_le(key(x), key(y)),
        transitive(leq),
        strongly_connected(leq),
        s1.to_multiset() == s2.to_multiset(),
        s1.map_values(f).map_values(key).no_duplicates(),
    ensures
        isort_by(s1.map_values(f), leq) == isort_by(s2.map_values(f), leq),
{
    let m1 = s1.map_values(f);
    let m2 = s2.map_values(f);
    lemma_map_values_multiset(s1, s2, f);
    let r1 = isort_by(m1, leq);
    let r2 = isort_by(m2, leq);
    lemma_isort_ensures(m1, leq);
    lemma_isort_ensures(m2, leq);
    lemma_key_nodup_permutation(m1, r1, key);
    lemma_sorted_unique_by_key(r1, r2, leq, key);
}

/// How many elements of the sequence equal `x`.
pub open spec fn count_eq<A>(s: Seq<A>, x: A) -> int
    decreases s.len(),
{
    if s.len() == 0 {
        0
    } else {
        count_eq(s.drop_last(), x) + (if s.last() == x {
            1int
        } else {
            0
        })
    }
}

pub proof fn lemma_count_eq_concat<A>(a: Seq<A>, b: Seq<A>, x: A)
    ensures
        count_eq(a + b, x) == count_eq(a, x) + count_eq(b, x),
    decreases b.len(),
{
    if b.len() == 0 {
        assert(a + b =~= a);
    } else {
        assert((a + b).drop_last() =~= a + b.drop_last());
        lemma_count_eq_concat(a, b.drop_last(), x);
    }
}

pub proof fn lemma_count_eq_singleton<A>(e: A, x: A)
    ensures
        count_eq(seq![e], x) == if e == x {
            1int
        } else {
            0
        },
{
    assert(seq![e].len() == 1);
    assert(seq![e].last() == e);
    assert(seq![e].drop_last() =~= Seq::<A>::empty());
    assert(count_eq(Seq::<A>::empty(), x) == 0);
}

/// Returns true only if all the id values are unique in the given items.
pub fn all_ids_unique<T: HasId>(items: &[T]) -> (r: bool)
    ensures
        r == ids_of(items@).no_duplicates(),
{
    let n = items.len();
    let mut i: usize = 0;
    while i < n
        invariant
            i <= n,
            n == items@.len(),
            forall|p: int, q: int|
                0 <= p < q < n && p < i ==> ids_of(items@)[p] != ids_of(items@)[q],
        decreases n - i,
    {
        let id_i = items[i].id();
        let mut j: usize = i + 1;
        while j < n
            invariant
                i < j <= n,
                n == items@.len(),
                id_i@ == items@[i as int].id_spec(),
                forall|q: int| i < q < j ==> ids_of(items@)[i as int] != ids_of(items@)[q],
            decreases n - j,
        {
            let id_j = items[j].id();
            if id_i.eq(&id_j) {
                proof {
                    assert(ids_of(items@)[i as int] == items@[i as int].id_spec());
                    assert(ids_of(items@)[j as int] == items@[j as int].id_spec());
                }
                return false;
            }
            j = j + 1;
        }
        i = i + 1;
    }
    true
}

/// Inserts `x` into a vector sorted by id, after any equal ids.
pub fn insert_by_id<T: HasId>(out: &mut Vec<T>, x: T)
    requires
        sorted_by(old(out)@, id_le::<T>()),
    ensures
        final(out)@ == insert_sorted_by(old(out)@, x, id_le::<T>()),
        sorted_by(final(out)@, id_le::<T>()),
{
    let n = out.len();
    let x_id = x.id();
    let mut pos: usize = 0;
    loop
        invariant
            pos <= n,
            n == out@.len(),
            *out == *old(out),
            x_id@ == x.id_spec(),
            forall|k: int| 0 <= k < pos ==> str_le(out@[k].id_spec(), x.id_spec()),
        ensures
            pos <= n,
            *out == *old(out),
            forall|k: int| 0 <= k < pos ==> str_le(out@[k].id_spec(), x.id_spec()),
            pos < n ==> !str_le(out@[pos as int].id_spec(), x.id_spec()),
        decreases n - pos,
    {
        if pos == n {
            break;
        }
        if !str_le_exec(out[pos].id().as_str(), x_id.as_str()) {
            break;
        }
        pos = pos + 1;
    }
    proof {
        lemma_id_le_key_order::<T>();
        lemma_insert_sorted_position(old(out)@, x, id_le::<T>(), pos as int);
        lemma_insert_sorted_sorted(old(out)@, x, id_le::<T>());
    }
    out.insert(pos, x);
}

/// Sorts the records by id with a stable insertion sort: the result is
/// exactly the specification-level `isort_by` of the input.
pub fn sort_by_id<T: HasId>(items: Vec<T>) -> (r: Vec<T>)
    ensures
        r@ == isort_by(items@, id_le::<T>()),
        sorted_by(r@, id_le::<T>()),
        r@.to_multiset() == items@.to_multiset(),
        sorted_by(items@, id_le::<T>()) ==> r@ == items@,
{
    let ghost orig = items@;
    let mut rest = items;
    let mut out: Vec<T> = Vec::new();
    let ghost mut taken: int = 0;
    proof {
        assert(orig.take(0) =~= Seq::<T>::empty());
    }
    while rest.len() > 0
        invariant
            0 <= taken,
            taken + rest@.len() == orig.len(),
            rest@ =~= orig.skip(taken as int),
            out@ == isort_by(orig.take(taken as int), id_le::<T>()),
            sorted_by(out@, id_le::<T>()),
        decreases rest@.len(),
    {
        let ghost prev_taken = taken;
        let x = rest.remove(0);
        proof {
            assert(orig.skip(prev_taken).len() > 0);
            assert(x == orig[prev_taken]);
        }
        insert_by_id(&mut out, x);
        proof {
            taken = taken + 1;
            let t = orig.take(taken as int);
            assert(t.drop_last() =~= orig.take(prev_taken));
            assert(t.last() == orig[prev_taken]);
            assert(rest@ =~= orig.skip(taken as int));
        }
    }
    proof {
        assert(orig.take(taken as int) =~= orig);
        lemma_id_le_key_order::<T>();
        lemma_isort_ensures(orig, id_le::<T>());
        if sorted_by(orig, id_le::<T>()) {
            lemma_isort_of_sorted(orig, id_le::<T>());
        }
    }
    out
}

/// Taking models commutes with sorted insertion.
pub proof fn lemma_insert_sorted_deep<T: HasId>(s: Seq<T>, x: T)
    ensures
        deep_of(insert_sorted_by(s, x, id_le::<T>())) == insert_sorted_by(
            deep_of(s),
            x.deep_view(),
            id_le_v::<T>(),
        ),
    decreases s.len(),
{
    let sv = deep_of(s);
    if s.len() == 0 {
        assert(deep_of(seq![x]) =~= seq![x.deep_view()]);
    } else {
        proof_id_compat::<T>(s[0]);
        proof_id_compat::<T>(x);
        assert(sv[0] == s[0].deep_view());
        lemma_insert_sorted_deep(s.drop_first(), x);
        assert(deep_of(s.drop_first()) =~= sv.drop_first());
        if id_le::<T>()(s[0], x) {
            assert(id_le_v::<T>()(sv[0], x.deep_view()));
            assert(deep_of(seq![s[0]] + insert_sorted_by(s.drop_first(), x, id_le::<T>()))
                =~= seq![sv[0]] + deep_of(insert_sorted_by(s.drop_first(), x, id_le::<T>())));
        } else {
            assert(!id_le_v::<T>()(sv[0], x.deep_view()));
            assert(deep_of(seq![x] + s) =~= seq![x.deep_view()] + sv);
        }
    }
}

/// Taking models commutes with the insertion sort.
pub proof fn lemma_isort_deep<T: HasId>(s: Seq<T>)
    ensures
        deep_of(isort_by(s, id_le::<T>())) == isort_by(deep_of(s), id_le_v::<T>()),
    decreases s.len(),
{
    if s.len() == 0 {
        assert(deep_of(isort_by(s, id_le::<T>())) =~= isort_by(deep_of(s), id_le_v::<T>()));
    } else {
        lemma_isort_deep(s.drop_last());
        lemma_insert_sorted_deep(isort_by(s.drop_last(), id_le::<T>()), s.last());
        assert(deep_of(s.drop_last()) =~= deep_of(s).drop_last());
        assert(s.last().deep_view() == deep_of(s).last());
    }
}

/// Helper naming `id_view_compat` on a ghost record.
proof fn proof_id_compat<T: HasId>(x: T)
    ensures
        T::view_id(x.deep_view()) == x.id_spec(),
{
    x.id_view_compat();
}

/// A plain string sorts by itself: its id is its own character sequence.
impl HasId for String {
    open spec fn id_spec(&self) -> Seq<char> {
        self@
    }

    open spec fn view_id(v: Seq<char>) -> Seq<char> {
        v
    }

    proof fn id_view_compat(&self) {
    }

    fn id(&self) -> (r: String)
        ensures
            r@ == self.id_spec(),
    {
        self.clone()
    }
}

} // verus!
