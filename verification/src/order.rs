//! The order in which lists of plugins are shown: texts compare as `str`
//! does (character by character, by code point), rows by a primary and a
//! secondary text.
use vstd::prelude::*;
use crate::text::chars_of;
use crate::sidecar::strings_view;

verus! {

broadcast use vstd::seq_lib::group_to_multiset_ensures, vstd::multiset::group_multiset_axioms;

/// `a < b` as `str` orders them.
pub open spec fn str_lt(a: Seq<char>, b: Seq<char>) -> bool
    decreases a.len(),
{
    if a.len() == 0 {
        b.len() > 0
    } else if b.len() == 0 {
        false
    } else if a[0] != b[0] {
        a[0] < b[0]
    } else {
        str_lt(a.drop_first(), b.drop_first())
    }
}

pub proof fn lemma_str_lt_irreflexive(a: Seq<char>)
    ensures
        !str_lt(a, a),
    decreases a.len(),
{
    if a.len() > 0 {
        lemma_str_lt_irreflexive(a.drop_first());
    }
}

pub proof fn lemma_str_lt_transitive(a: Seq<char>, b: Seq<char>, c: Seq<char>)
    requires
        str_lt(a, b),
        str_lt(b, c),
    ensures
        str_lt(a, c),
    decreases a.len(),
{
    if a.len() > 0 && b.len() > 0 && c.len() > 0 {
        if a[0] == b[0] && b[0] == c[0] {
            lemma_str_lt_transitive(a.drop_first(), b.drop_first(), c.drop_first());
        }
    }
}

pub proof fn lemma_str_lt_total(a: Seq<char>, b: Seq<char>)
    ensures
        a == b || str_lt(a, b) || str_lt(b, a),
    decreases a.len(),
{
    if a.len() > 0 && b.len() > 0 {
        if a[0] == b[0] {
            lemma_str_lt_total(a.drop_first(), b.drop_first());
            if a.drop_first() == b.drop_first() {
                assert(a =~= seq![a[0]] + a.drop_first());
                assert(b =~= seq![b[0]] + b.drop_first());
            }
        }
    } else if a.len() == 0 && b.len() == 0 {
        assert(a =~= b);
    }
}

pub proof fn lemma_str_lt_asymmetric(a: Seq<char>, b: Seq<char>)
    requires
        str_lt(a, b),
    ensures
        !str_lt(b, a),
{
    if str_lt(b, a) {
        lemma_str_lt_transitive(a, b, a);
        lemma_str_lt_irreflexive(a);
    }
}

/// Whether `a < b` as `str` orders them.
pub fn str_less(a: &str, b: &str) -> (r: bool)
    ensures
        r == str_lt(a@, b@),
{
    let va = chars_of(a);
    let vb = chars_of(b);
    let mut i: usize = 0;
    assert(a@.skip(0) =~= a@ && b@.skip(0) =~= b@);
    while i < va.len() && i < vb.len()
        invariant
            i <= va@.len(),
            i <= vb@.len(),
            va@ == a@,
            vb@ == b@,
            str_lt(a@, b@) == str_lt(a@.skip(i as int), b@.skip(i as int)),
        decreases va@.len() - i,
    {
        assert(a@.skip(i as int)[0] == va@[i as int]);
        assert(b@.skip(i as int)[0] == vb@[i as int]);
        if va[i] != vb[i] {
            return va[i] < vb[i];
        }
        assert(a@.skip(i as int).drop_first() =~= a@.skip(i + 1));
        assert(b@.skip(i as int).drop_first() =~= b@.skip(i + 1));
        i = i + 1;
    }
    i < vb.len()
}

/// Lists of texts compared element by element, each by `str_lt`; a list
/// that is a prefix of another comes first.
pub open spec fn seqs_lt(a: Seq<Seq<char>>, b: Seq<Seq<char>>) -> bool
    decreases a.len(),
{
    if a.len() == 0 {
        b.len() > 0
    } else if b.len() == 0 {
        false
    } else if a[0] != b[0] {
        str_lt(a[0], b[0])
    } else {
        seqs_lt(a.drop_first(), b.drop_first())
    }
}

pub proof fn lemma_seqs_lt_irreflexive(a: Seq<Seq<char>>)
    ensures
        !seqs_lt(a, a),
    decreases a.len(),
{
    if a.len() > 0 {
        lemma_seqs_lt_irreflexive(a.drop_first());
    }
}

pub proof fn lemma_seqs_lt_transitive(a: Seq<Seq<char>>, b: Seq<Seq<char>>, c: Seq<Seq<char>>)
    requires
        seqs_lt(a, b),
        seqs_lt(b, c),
    ensures
        seqs_lt(a, c),
    decreases a.len(),
{
    if a.len() > 0 && b.len() > 0 && c.len() > 0 {
        if a[0] == b[0] && b[0] == c[0] {
            lemma_seqs_lt_transitive(a.drop_first(), b.drop_first(), c.drop_first());
        } else if a[0] != b[0] && b[0] != c[0] {
            lemma_str_lt_transitive(a[0], b[0], c[0]);
            if a[0] == c[0] {
                lemma_str_lt_asymmetric(a[0], b[0]);
            }
        }
    }
}

pub proof fn lemma_seqs_lt_total(a: Seq<Seq<char>>, b: Seq<Seq<char>>)
    ensures
        a == b || seqs_lt(a, b) || seqs_lt(b, a),
    decreases a.len(),
{
    if a.len() > 0 && b.len() > 0 {
        if a[0] == b[0] {
            lemma_seqs_lt_total(a.drop_first(), b.drop_first());
            if a.drop_first() == b.drop_first() {
                assert(a =~= seq![a[0]] + a.drop_first());
                assert(b =~= seq![b[0]] + b.drop_first());
            }
        } else {
            lemma_str_lt_total(a[0], b[0]);
        }
    } else if a.len() == 0 && b.len() == 0 {
        assert(a =~= b);
    }
}

pub proof fn lemma_seqs_lt_asymmetric(a: Seq<Seq<char>>, b: Seq<Seq<char>>)
    requires
        seqs_lt(a, b),
    ensures
        !seqs_lt(b, a),
{
    if seqs_lt(b, a) {
        lemma_seqs_lt_transitive(a, b, a);
        lemma_seqs_lt_irreflexive(a);
    }
}

/// Whether `a < b` as `seqs_lt` orders them.
pub fn seqs_less(a: &Vec<String>, b: &Vec<String>) -> (r: bool)
    ensures
        r == seqs_lt(strings_view(a@), strings_view(b@)),
{
    let ghost av = strings_view(a@);
    let ghost bv = strings_view(b@);
    let mut i: usize = 0;
    assert(av.skip(0) =~= av && bv.skip(0) =~= bv);
    while i < a.len() && i < b.len()
        invariant
            i <= a@.len(),
            i <= b@.len(),
            av == strings_view(a@),
            bv == strings_view(b@),
            seqs_lt(av, bv) == seqs_lt(av.skip(i as int), bv.skip(i as int)),
        decreases a@.len() - i,
    {
        assert(av.skip(i as int)[0] == a@[i as int]@);
        assert(bv.skip(i as int)[0] == b@[i as int]@);
        if a[i] != b[i] {
            return str_less(a[i].as_str(), b[i].as_str());
        }
        assert(av.skip(i as int).drop_first() =~= av.skip(i + 1));
        assert(bv.skip(i as int).drop_first() =~= bv.skip(i + 1));
        i = i + 1;
    }
    i < b.len()
}

/// Rows ordered by a rank, then a primary text, then a list of texts.
pub open spec fn key_lt(a: (int, Seq<char>, Seq<Seq<char>>), b: (int, Seq<char>, Seq<Seq<char>>)) -> bool {
    a.0 < b.0 || (a.0 == b.0 && (str_lt(a.1, b.1) || (a.1 == b.1 && seqs_lt(a.2, b.2))))
}

pub proof fn lemma_key_lt_facts(a: (int, Seq<char>, Seq<Seq<char>>), b: (int, Seq<char>, Seq<Seq<char>>), c: (int, Seq<char>, Seq<Seq<char>>))
    ensures
        !key_lt(a, a),
        key_lt(a, b) ==> !key_lt(b, a),
        key_lt(a, b) && key_lt(b, c) ==> key_lt(a, c),
        a == b || key_lt(a, b) || key_lt(b, a),
{
    lemma_str_lt_irreflexive(a.1);
    lemma_seqs_lt_irreflexive(a.2);
    lemma_str_lt_total(a.1, b.1);
    lemma_seqs_lt_total(a.2, b.2);
    if str_lt(a.1, b.1) {
        lemma_str_lt_asymmetric(a.1, b.1);
    }
    if seqs_lt(a.2, b.2) {
        lemma_seqs_lt_asymmetric(a.2, b.2);
    }
    if key_lt(a, b) && key_lt(b, c) {
        if a.0 == b.0 && b.0 == c.0 {
            if str_lt(a.1, b.1) && str_lt(b.1, c.1) {
                lemma_str_lt_transitive(a.1, b.1, c.1);
            }
            if a.1 == b.1 && b.1 == c.1 {
                lemma_seqs_lt_transitive(a.2, b.2, c.2);
            }
        }
    }
    if a.0 == b.0 && a.1 == b.1 && a.2 == b.2 {
        assert(a == b);
    }
}

/// A row of a list that is ordered by a rank, a text and a list of texts.
pub trait OrderedRow {
    spec fn row_key(&self) -> (int, Seq<char>, Seq<Seq<char>>);

    fn row_rank(&self) -> (r: i64)
        ensures
            r == self.row_key().0,
    ;

    fn row_primary(&self) -> (s: &str)
        ensures
            s@ == self.row_key().1,
    ;

    fn row_secondary(&self) -> (s: Vec<String>)
        ensures
            strings_view(s@) == self.row_key().2,
    ;
}

/// No row comes after one that it sorts before.
pub open spec fn rows_sorted<T: OrderedRow>(s: Seq<T>) -> bool {
    forall|i: int, j: int| 0 <= i < j < s.len() ==> !key_lt(#[trigger] s[j].row_key(), #[trigger] s[i].row_key())
}

fn row_less<T: OrderedRow>(a: &T, b: &T) -> (r: bool)
    ensures
        r == key_lt(a.row_key(), b.row_key()),
{
    let ra = a.row_rank();
    let rb = b.row_rank();
    if ra != rb {
        return ra < rb;
    }
    if str_less(a.row_primary(), b.row_primary()) {
        return true;
    }
    if str_less(b.row_primary(), a.row_primary()) {
        proof {
            lemma_str_lt_asymmetric(b.row_key().1, a.row_key().1);
        }
        return false;
    }
    proof {
        lemma_str_lt_total(a.row_key().1, b.row_key().1);
    }
    seqs_less(&a.row_secondary(), &b.row_secondary())
}

/// A one-text list sorts before another exactly when its text does.
pub proof fn lemma_seqs_lt_single(a: Seq<char>, b: Seq<char>)
    ensures
        seqs_lt(seq![a], seq![b]) == str_lt(a, b),
{
    lemma_str_lt_irreflexive(a);
    let x = seq![a];
    let y = seq![b];
    assert(x.len() == 1 && y.len() == 1 && x[0] == a && y[0] == b);
    assert(x.drop_first() =~= Seq::<Seq<char>>::empty());
    assert(y.drop_first() =~= Seq::<Seq<char>>::empty());
    assert(!seqs_lt(x.drop_first(), y.drop_first()));
    if a == b {
        assert(seqs_lt(x, y) == seqs_lt(x.drop_first(), y.drop_first()));
    } else {
        assert(seqs_lt(x, y) == str_lt(a, b));
    }
}

/// In a sorted list no row sorts before one ahead of it: ranks do not fall
/// back, rows of one rank keep their primary texts in order, and rows of one
/// rank and primary text keep their lists of texts in order.
pub proof fn lemma_sorted_rows_in_key_order<T: OrderedRow>(r: Seq<T>)
    requires
        rows_sorted(r),
    ensures
        forall|i: int, j: int|
            0 <= i < j < r.len() ==> {
                &&& (#[trigger] r[i]).row_key().0 <= (#[trigger] r[j]).row_key().0
                &&& r[i].row_key().0 == r[j].row_key().0 ==> !str_lt(r[j].row_key().1, r[i].row_key().1)
                &&& r[i].row_key().0 == r[j].row_key().0 && r[i].row_key().1 == r[j].row_key().1
                    ==> !seqs_lt(r[j].row_key().2, r[i].row_key().2)
            },
{
    assert forall|i: int, j: int| 0 <= i < j < r.len() implies {
        &&& (#[trigger] r[i]).row_key().0 <= (#[trigger] r[j]).row_key().0
        &&& r[i].row_key().0 == r[j].row_key().0 ==> !str_lt(r[j].row_key().1, r[i].row_key().1)
        &&& r[i].row_key().0 == r[j].row_key().0 && r[i].row_key().1 == r[j].row_key().1
            ==> !seqs_lt(r[j].row_key().2, r[i].row_key().2)
    } by {
        assert(!key_lt(r[j].row_key(), r[i].row_key()));
    }
}

/// Sorting leaves no choice but among rows with equal keys: two sorted
/// arrangements of the same rows have the same key at every place.
pub proof fn lemma_sorted_keys_unique<T: OrderedRow>(x: Seq<T>, y: Seq<T>)
    requires
        x.to_multiset() == y.to_multiset(),
        rows_sorted(x),
        rows_sorted(y),
    ensures
        x.len() == y.len(),
        forall|k: int| 0 <= k < x.len() ==> (#[trigger] x[k]).row_key() == y[k].row_key(),
    decreases x.len(),
{
    assert(x.len() == x.to_multiset().len());
    assert(y.len() == y.to_multiset().len());
    if x.len() > 0 {
        let a = x[0];
        assert(x.contains(a));
        assert(x.to_multiset().count(a) > 0);
        assert(y.contains(a));
        let j = choose|j: int| 0 <= j < y.len() && y[j] == a;
        let y0 = y[0];
        assert(y.contains(y0));
        assert(y.to_multiset().count(y0) > 0);
        assert(x.contains(y0));
        let i0 = choose|i: int| 0 <= i < x.len() && x[i] == y0;
        if i0 > 0 {
            assert(!key_lt(x[i0].row_key(), x[0].row_key()));
        } else {
            lemma_key_lt_facts(a.row_key(), a.row_key(), a.row_key());
        }
        assert(!key_lt(y0.row_key(), a.row_key()));
        assert forall|k: int| 0 <= k <= j implies (#[trigger] y[k]).row_key() == a.row_key() by {
            lemma_key_lt_facts(y[k].row_key(), a.row_key(), y0.row_key());
            lemma_key_lt_facts(y0.row_key(), y[k].row_key(), a.row_key());
            if k < j {
                assert(!key_lt(y[j].row_key(), y[k].row_key()));
            }
            if k > 0 {
                assert(!key_lt(y[k].row_key(), y[0].row_key()));
            }
        }
        let xs = x.remove(0);
        let ys = y.remove(j);
        assert(xs.to_multiset() == x.to_multiset().remove(x[0]));
        assert(ys.to_multiset() == y.to_multiset().remove(y[j]));
        assert forall|p: int, q: int| 0 <= p < q < xs.len() implies !key_lt(
            #[trigger] xs[q].row_key(),
            #[trigger] xs[p].row_key(),
        ) by {
            assert(xs[p] == x[p + 1] && xs[q] == x[q + 1]);
        }
        assert forall|p: int, q: int| 0 <= p < q < ys.len() implies !key_lt(
            #[trigger] ys[q].row_key(),
            #[trigger] ys[p].row_key(),
        ) by {
            let pp = if p < j { p } else { p + 1 };
            let qq = if q < j { q } else { q + 1 };
            assert(ys[p] == y[pp] && ys[q] == y[qq]);
        }
        lemma_sorted_keys_unique(xs, ys);
        assert forall|k: int| 0 <= k < x.len() implies (#[trigger] x[k]).row_key() == y[k].row_key() by {
            if k > 0 {
                assert(x[k] == xs[k - 1]);
                if k - 1 < j {
                    assert(ys[k - 1] == y[k - 1]);
                    assert(y[k - 1].row_key() == a.row_key());
                    assert(y[k].row_key() == a.row_key());
                } else {
                    assert(ys[k - 1] == y[k]);
                }
            } else {
                assert(y[0].row_key() == a.row_key());
            }
        }
    }
}

/// The rows in order: the same rows, each as often as before, none after a
/// row it sorts before.
pub fn sort_rows<T: OrderedRow>(rows: Vec<T>) -> (r: Vec<T>)
    ensures
        r@.to_multiset() == rows@.to_multiset(),
        rows_sorted(r@),
{
    let mut src = rows;
    let mut out: Vec<T> = Vec::new();
    while src.len() > 0
        invariant
            rows_sorted(out@),
            out@.to_multiset().add(src@.to_multiset()) == rows@.to_multiset(),
        decreases src@.len(),
    {
        let ghost src0 = src@;
        let x = src.pop().unwrap();
        assert(src0 =~= src@.push(x));
        let mut p: usize = 0;
        while p < out.len() && !row_less(&x, &out[p])
            invariant
                p <= out@.len(),
                forall|k: int| 0 <= k < p ==> !key_lt(x.row_key(), #[trigger] out@[k].row_key()),
            decreases out@.len() - p,
        {
            p = p + 1;
        }
        proof {
            // every row from p on sorts after x
            assert forall|k: int| p <= k < out@.len() implies key_lt(x.row_key(), #[trigger] out@[k].row_key()) by {
                lemma_key_lt_facts(x.row_key(), out@[p as int].row_key(), out@[k].row_key());
                lemma_key_lt_facts(out@[p as int].row_key(), out@[k].row_key(), x.row_key());
                if k > p {
                    assert(!key_lt(out@[k].row_key(), out@[p as int].row_key()));
                }
            }
        }
        let ghost out0 = out@;
        out.insert(p, x);
        proof {
            assert(out@ == out0.insert(p as int, x));
            assert forall|i: int, j: int| 0 <= i < j < out@.len() implies !key_lt(
                #[trigger] out@[j].row_key(),
                #[trigger] out@[i].row_key(),
            ) by {
                if i < p && j < p {
                    assert(out@[i] == out0[i] && out@[j] == out0[j]);
                } else if i < p && j == p {
                    assert(out@[i] == out0[i]);
                    lemma_key_lt_facts(x.row_key(), out0[i].row_key(), x.row_key());
                } else if i < p && j > p {
                    assert(out@[i] == out0[i] && out@[j] == out0[j - 1]);
                } else if i == p {
                    assert(out@[j] == out0[j - 1]);
                    lemma_key_lt_facts(x.row_key(), out0[j - 1].row_key(), x.row_key());
                } else {
                    assert(out@[i] == out0[i - 1] && out@[j] == out0[j - 1]);
                }
            }
            assert(out@.to_multiset() == out0.to_multiset().insert(x));
            assert(src0.to_multiset() == src@.to_multiset().insert(x));
            assert(out@.to_multiset().add(src@.to_multiset()) =~= out0.to_multiset().add(
                src0.to_multiset(),
            ));
        }
    }
    assert(src@.to_multiset() =~= vstd::multiset::Multiset::<T>::empty());
    assert(out@.to_multiset().add(src@.to_multiset()) =~= out@.to_multiset());
    out
}

/// Texts in strictly increasing order (so none twice).
pub open spec fn strictly_sorted(s: Seq<Seq<char>>) -> bool {
    forall|i: int, j: int| 0 <= i < j < s.len() ==> str_lt(#[trigger] s[i], #[trigger] s[j])
}

/// Adds `s` to a strictly increasing list of texts where it is not there yet,
/// keeping the order.
pub fn insert_sorted_unique(set: &mut Vec<String>, s: String)
    requires
        strictly_sorted(strings_view(old(set)@)),
    ensures
        strictly_sorted(strings_view(final(set)@)),
        forall|x: Seq<char>| #[trigger] strings_view(final(set)@).contains(x) <==> (strings_view(old(set)@).contains(x) || x == s@),
{
    let ghost old_v = strings_view(set@);
    let mut p: usize = 0;
    while p < set.len() && str_less(set[p].as_str(), s.as_str())
        invariant
            p <= set@.len(),
            strings_view(set@) == old_v,
            strictly_sorted(old_v),
            forall|k: int| 0 <= k < p ==> str_lt(#[trigger] old_v[k], s@),
        decreases set@.len() - p,
    {
        p = p + 1;
    }
    if p < set.len() && set[p] == s {
        assert(old_v[p as int] == s@);
        assert forall|x: Seq<char>| #[trigger] strings_view(set@).contains(x) <==> (old_v.contains(x) || x == s@) by {
            if x == s@ {
                assert(old_v[p as int] == x);
            }
        }
        return;
    }
    proof {
        if p < set@.len() {
            assert(old_v[p as int] == set@[p as int]@);
            lemma_str_lt_total(old_v[p as int], s@);
        }
        assert forall|k: int| p <= k < old_v.len() implies str_lt(s@, #[trigger] old_v[k]) by {
            if k > p {
                lemma_str_lt_transitive(s@, old_v[p as int], old_v[k]);
            }
        }
    }
    let ghost sv = s@;
    set.insert(p, s);
    let ghost new_v = strings_view(set@);
    proof {
        assert(new_v =~= old_v.insert(p as int, sv));
        assert forall|i: int, j: int| 0 <= i < j < new_v.len() implies str_lt(#[trigger] new_v[i], #[trigger] new_v[j]) by {
            if i < p && j < p {
            } else if i < p && j == p {
            } else if i < p && j > p {
                assert(new_v[j] == old_v[j - 1]);
            } else if i == p {
                assert(new_v[j] == old_v[j - 1]);
            } else {
                assert(new_v[i] == old_v[i - 1] && new_v[j] == old_v[j - 1]);
            }
        }
        assert forall|x: Seq<char>| #[trigger] new_v.contains(x) <==> (old_v.contains(x) || x == sv) by {
            if new_v.contains(x) {
                let k = choose|k: int| 0 <= k < new_v.len() && new_v[k] == x;
                if k < p {
                    assert(old_v[k] == x);
                } else if k > p {
                    assert(old_v[k - 1] == x);
                }
            }
            if old_v.contains(x) {
                let k = choose|k: int| 0 <= k < old_v.len() && old_v[k] == x;
                if k < p {
                    assert(new_v[k] == x);
                } else {
                    assert(new_v[k + 1] == x);
                }
            }
            if x == sv {
                assert(new_v[p as int] == x);
            }
        }
    }
}

} // verus!
