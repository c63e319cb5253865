//! Stable insertion, and the order of texts.
use vstd::prelude::*;
use crate::text::chars_of;
use crate::text::texts;

verus! {

/// `s` with `x` put in behind everything that `x` does not have to precede,
/// looking from the end.
pub open spec fn insert_by<A>(s: Seq<A>, x: A, precedes: spec_fn(A, A) -> bool) -> Seq<A>
    decreases s.len(),
{
    if s.len() == 0 {
        seq![x]
    } else if !precedes(x, s.last()) {
        s.push(x)
    } else {
        insert_by(s.drop_last(), x, precedes).push(s.last())
    }
}

/// The elements of `s` put in one after the other: the stable sort of `s`.
pub open spec fn sorted_by<A>(s: Seq<A>, precedes: spec_fn(A, A) -> bool) -> Seq<A>
    decreases s.len(),
{
    if s.len() == 0 {
        Seq::empty()
    } else {
        insert_by(sorted_by(s.drop_last(), precedes), s.last(), precedes)
    }
}

/// No element stands behind one that it has to precede.
pub open spec fn in_order<A>(s: Seq<A>, precedes: spec_fn(A, A) -> bool) -> bool {
    forall|i: int, j: int| 0 <= i < j < s.len() ==> !precedes(#[trigger] s[j], #[trigger] s[i])
}

/// `precedes` is a strict order in which two elements of equal rank are
/// interchangeable.
pub open spec fn ranks<A>(precedes: spec_fn(A, A) -> bool) -> bool {
    &&& forall|a: A, b: A| #[trigger] precedes(a, b) ==> !precedes(b, a)
    &&& forall|a: A, b: A, c: A| #[trigger]
        precedes(a, c) ==> #[trigger] precedes(a, b) || precedes(b, c)
}

/// Neither of the two has to precede the other.
pub open spec fn same_rank<A>(a: A, b: A, precedes: spec_fn(A, A) -> bool) -> bool {
    !precedes(a, b) && !precedes(b, a)
}

/// Being of the rank of `w`.
pub open spec fn of_rank<A>(w: A, precedes: spec_fn(A, A) -> bool) -> spec_fn(A) -> bool {
    |y: A| same_rank(w, y, precedes)
}

pub proof fn lemma_insert_len<A>(s: Seq<A>, x: A, precedes: spec_fn(A, A) -> bool)
    ensures
        insert_by(s, x, precedes).len() == s.len() + 1,
    decreases s.len(),
{
    if s.len() > 0 && precedes(x, s.last()) {
        lemma_insert_len(s.drop_last(), x, precedes);
    }
}

/// Putting `x` in between two halves: the right half holds only what `x` has to
/// precede, and `x` need not precede the end of the left half.
pub proof fn lemma_insert_at<A>(s: Seq<A>, x: A, precedes: spec_fn(A, A) -> bool, i: int)
    requires
        0 <= i <= s.len(),
        i > 0 ==> !precedes(x, s[i - 1]),
        forall|j: int| i <= j < s.len() ==> precedes(x, #[trigger] s[j]),
    ensures
        insert_by(s, x, precedes) == s.insert(i, x),
    decreases s.len(),
{
    if s.len() == 0 {
        assert(s.insert(i, x) =~= seq![x]);
    } else if i == s.len() {
        assert(s.insert(i, x) =~= s.push(x));
    } else {
        assert(precedes(x, s[s.len() - 1]));
        lemma_insert_at(s.drop_last(), x, precedes, i);
        assert(s.insert(i, x) =~= s.drop_last().insert(i, x).push(s.last()));
    }
}

/// Where `insert_by` puts its element.
pub proof fn lemma_insert_place<A>(s: Seq<A>, x: A, precedes: spec_fn(A, A) -> bool) -> (i: int)
    ensures
        0 <= i <= s.len(),
        i > 0 ==> !precedes(x, s[i - 1]),
        forall|j: int| i <= j < s.len() ==> precedes(x, #[trigger] s[j]),
        insert_by(s, x, precedes) == s.insert(i, x),
    decreases s.len(),
{
    if s.len() == 0 {
        lemma_insert_at(s, x, precedes, 0);
        0
    } else if !precedes(x, s.last()) {
        lemma_insert_at(s, x, precedes, s.len() as int);
        s.len() as int
    } else {
        let i = lemma_insert_place(s.drop_last(), x, precedes);
        assert forall|j: int| i <= j < s.len() implies precedes(x, #[trigger] s[j]) by {
            if j < s.len() - 1 {
                assert(s.drop_last()[j] == s[j]);
            }
        }
        if i > 0 {
            assert(s.drop_last()[i - 1] == s[i - 1]);
        }
        lemma_insert_at(s, x, precedes, i);
        i
    }
}

proof fn lemma_insert_in_order<A>(s: Seq<A>, x: A, precedes: spec_fn(A, A) -> bool)
    requires
        ranks(precedes),
        in_order(s, precedes),
    ensures
        in_order(insert_by(s, x, precedes), precedes),
{
    let i = lemma_insert_place(s, x, precedes);
    let r = s.insert(i, x);
    assert forall|a: int, b: int| 0 <= a < b < r.len() implies !precedes(
        #[trigger] r[b],
        #[trigger] r[a],
    ) by {
        let oa = if a < i { a } else { a - 1 };
        let ob = if b < i { b } else { b - 1 };
        if a == i {
            assert(precedes(x, s[ob]));
        } else if b == i {
            // s[a] comes no later than s[i - 1], which need not follow x.
            if oa < i - 1 {
                assert(!precedes(s[i - 1], s[oa]));
            }
            if precedes(x, s[oa]) {
                assert(precedes(x, s[i - 1]) || precedes(s[i - 1], s[oa]));
            }
        } else {
            assert(!precedes(s[ob], s[oa]));
        }
    }
}

proof fn lemma_insert_multiset<A>(s: Seq<A>, x: A, precedes: spec_fn(A, A) -> bool)
    ensures
        insert_by(s, x, precedes).to_multiset() == s.to_multiset().insert(x),
{
    broadcast use vstd::seq_lib::group_to_multiset_ensures;

    let i = lemma_insert_place(s, x, precedes);
    assert(s.insert(i, x).to_multiset() =~= s.to_multiset().insert(x)) by {
        vstd::seq_lib::to_multiset_insert(s, i, x);
    }
}

proof fn lemma_insert_stable<A>(s: Seq<A>, x: A, w: A, precedes: spec_fn(A, A) -> bool)
    requires
        ranks(precedes),
    ensures
        insert_by(s, x, precedes).filter(of_rank(w, precedes)) == s.push(x).filter(
            of_rank(w, precedes),
        ),
    decreases s.len(),
{
    reveal(Seq::filter);
    let p = of_rank(w, precedes);
    let t = insert_by(s, x, precedes);
    assert(s.push(x).drop_last() =~= s);
    if s.len() == 0 {
        assert(t =~= s.push(x));
    } else if precedes(x, s.last()) {
        let z = s.last();
        let inner = insert_by(s.drop_last(), x, precedes);
        lemma_insert_stable(s.drop_last(), x, w, precedes);
        assert(inner.push(z).drop_last() =~= inner);
        assert(s.drop_last().push(x).drop_last() =~= s.drop_last());
        let low = s.drop_last().filter(p);
        assert(t.filter(p) == if p(z) { inner.filter(p).push(z) } else { inner.filter(p) });
        assert(inner.filter(p) == if p(x) { low.push(x) } else { low });
        assert(s.filter(p) == if p(z) { low.push(z) } else { low });
        assert(s.push(x).filter(p) == if p(x) { s.filter(p).push(x) } else { s.filter(p) });
        // x and z differ in rank, so at most one of them has the rank of w.
        if p(z) && p(x) {
            assert(precedes(x, w) || precedes(w, z));
        }
    }
}

/// Sorting leaves no element behind one that it has to precede.
pub proof fn sort_orders<A>(s: Seq<A>, precedes: spec_fn(A, A) -> bool)
    requires
        ranks(precedes),
    ensures
        in_order(sorted_by(s, precedes), precedes),
    decreases s.len(),
{
    if s.len() > 0 {
        sort_orders(s.drop_last(), precedes);
        lemma_insert_in_order(sorted_by(s.drop_last(), precedes), s.last(), precedes);
    }
}

/// Sorting neither drops nor adds an element.
pub proof fn sort_keeps_elements<A>(s: Seq<A>, precedes: spec_fn(A, A) -> bool)
    ensures
        sorted_by(s, precedes).to_multiset() == s.to_multiset(),
        sorted_by(s, precedes).len() == s.len(),
    decreases s.len(),
{
    broadcast use vstd::seq_lib::group_to_multiset_ensures;

    if s.len() > 0 {
        sort_keeps_elements(s.drop_last(), precedes);
        lemma_insert_multiset(sorted_by(s.drop_last(), precedes), s.last(), precedes);
        lemma_insert_len(sorted_by(s.drop_last(), precedes), s.last(), precedes);
        assert(s =~= s.drop_last().push(s.last()));
    } else {
        assert(s =~= Seq::<A>::empty());
    }
}

/// Sorting is stable: elements of one rank stay in the order they had.
pub proof fn sort_is_stable<A>(s: Seq<A>, w: A, precedes: spec_fn(A, A) -> bool)
    requires
        ranks(precedes),
    ensures
        sorted_by(s, precedes).filter(of_rank(w, precedes)) == s.filter(of_rank(w, precedes)),
    decreases s.len(),
{
    reveal(Seq::filter);
    if s.len() > 0 {
        let init = sorted_by(s.drop_last(), precedes);
        sort_is_stable(s.drop_last(), w, precedes);
        lemma_insert_stable(init, s.last(), w, precedes);
        assert(init.push(s.last()).drop_last() =~= init);
    }
}

// ---- texts ---------------------------------------------------------------

/// The order of texts: by the first character in which they differ, a text
/// coming before its continuations.
pub open spec fn text_less(a: Seq<char>, b: Seq<char>) -> bool
    decreases a.len(),
{
    if b.len() == 0 {
        false
    } else if a.len() == 0 {
        true
    } else if a[0] != b[0] {
        a[0] < b[0]
    } else {
        text_less(a.skip(1), b.skip(1))
    }
}

/// `text_less` as a relation to sort by.
pub open spec fn text_order() -> spec_fn(Seq<char>, Seq<char>) -> bool {
    |a: Seq<char>, b: Seq<char>| text_less(a, b)
}

proof fn lemma_text_less_asym(a: Seq<char>, b: Seq<char>)
    requires
        text_less(a, b),
    ensures
        !text_less(b, a),
    decreases a.len(),
{
    if a.len() > 0 && b.len() > 0 && a[0] == b[0] {
        lemma_text_less_asym(a.skip(1), b.skip(1));
    }
}

proof fn lemma_text_less_weak(a: Seq<char>, b: Seq<char>, c: Seq<char>)
    requires
        text_less(a, c),
    ensures
        text_less(a, b) || text_less(b, c),
    decreases a.len(),
{
    if a.len() > 0 && b.len() > 0 && c.len() > 0 && a[0] == c[0] && a[0] == b[0] {
        lemma_text_less_weak(a.skip(1), b.skip(1), c.skip(1));
    }
}

/// Two texts of which neither is less than the other are equal.
pub proof fn lemma_text_less_total(a: Seq<char>, b: Seq<char>)
    requires
        !text_less(a, b),
        !text_less(b, a),
    ensures
        a == b,
    decreases a.len(),
{
    if a.len() > 0 && b.len() > 0 {
        if a[0] == b[0] {
            lemma_text_less_total(a.skip(1), b.skip(1));
            assert(a =~= seq![a[0]] + a.skip(1));
            assert(b =~= seq![b[0]] + b.skip(1));
        }
    } else {
        assert(a =~= b);
    }
}

/// The order of texts is a strict order.
pub proof fn lemma_text_order()
    ensures
        ranks(text_order()),
{
    let p = text_order();
    assert forall|a: Seq<char>, b: Seq<char>| #[trigger] p(a, b) implies !p(b, a) by {
        lemma_text_less_asym(a, b);
    }
    assert forall|a: Seq<char>, b: Seq<char>, c: Seq<char>| #[trigger]
        p(a, c) implies #[trigger] p(a, b) || p(b, c) by {
        lemma_text_less_weak(a, b, c);
    }
}

/// Whether the first text comes before the second.
pub fn text_before(a: &str, b: &str) -> (r: bool)
    ensures
        r == text_less(a@, b@),
{
    let x = chars_of(a);
    let y = chars_of(b);
    let mut i: usize = 0;
    assert(x@.skip(0) =~= a@);
    assert(y@.skip(0) =~= b@);
    while i < x.len() && i < y.len()
        invariant
            i <= x@.len(),
            i <= y@.len(),
            text_less(x@.skip(i as int), y@.skip(i as int)) == text_less(a@, b@),
        decreases x@.len() - i,
    {
        if x[i] != y[i] {
            return x[i] < y[i];
        }
        assert(x@.skip(i as int).skip(1) =~= x@.skip(i + 1));
        assert(y@.skip(i as int).skip(1) =~= y@.skip(i + 1));
        i = i + 1;
    }
    i < y.len()
}

/// Puts a text into an ordered list, behind its equals.
pub fn insert_text(v: &mut Vec<String>, x: String)
    ensures
        texts(final(v)@) == insert_by(texts(old(v)@), x@, text_order()),
{
    let ghost all = texts(v@);
    let mut i: usize = v.len();
    while i > 0 && text_before(x.as_str(), v[i - 1].as_str())
        invariant
            i <= v@.len(),
            all == texts(v@),
            *v == *old(v),
            forall|j: int| i <= j < v@.len() ==> text_less(x@, #[trigger] all[j]),
        decreases i,
    {
        assert(all[i - 1] == v@[i - 1]@);
        i = i - 1;
    }
    proof {
        if i > 0 {
            assert(all[i - 1] == v@[i - 1]@);
        }
        assert forall|j: int| i <= j < all.len() implies text_order()(x@, #[trigger] all[j]) by {}
        lemma_insert_at(all, x@, text_order(), i as int);
        assert(texts(v@.insert(i as int, x)) =~= all.insert(i as int, x@));
    }
    v.insert(i, x);
}

/// The texts in order; equal ones stay.
pub open spec fn sorted_texts(s: Seq<Seq<char>>) -> Seq<Seq<char>> {
    sorted_by(s, text_order())
}

/// Sorts texts.
pub fn sort_texts(v: Vec<String>) -> (out: Vec<String>)
    ensures
        texts(out@) == sorted_texts(texts(v@)),
{
    let mut out: Vec<String> = Vec::new();
    let ghost all = texts(v@);
    assert(all.take(0) =~= Seq::<Seq<char>>::empty());
    assert(texts(out@) =~= Seq::<Seq<char>>::empty());
    for i in 0..v.len()
        invariant
            all == texts(v@),
            texts(out@) == sorted_texts(all.take(i as int)),
    {
        assert(all.take(i + 1).drop_last() =~= all.take(i as int));
        assert(all.take(i + 1).last() == v@[i as int]@);
        insert_text(&mut out, v[i].clone());
    }
    assert(all.take(v@.len() as int) =~= all);
    out
}

/// `s` with `x` put in where it belongs, unless it is there already.
pub open spec fn with_text(s: Seq<Seq<char>>, x: Seq<char>) -> Seq<Seq<char>> {
    if s.contains(x) {
        s
    } else {
        insert_by(s, x, text_order())
    }
}

/// The list is in order and holds no text twice.
pub open spec fn is_text_set(s: Seq<Seq<char>>) -> bool {
    forall|i: int, j: int| 0 <= i < j < s.len() ==> text_less(#[trigger] s[i], #[trigger] s[j])
}

/// Whether a list of strings holds the text.
pub fn holds_text(v: &Vec<String>, x: &str) -> (r: bool)
    ensures
        r == texts(v@).contains(x@),
{
    for i in 0..v.len()
        invariant
            forall|j: int| 0 <= j < i ==> texts(v@)[j] != x@,
    {
        if crate::text::same_text(v[i].as_str(), x) {
            assert(texts(v@)[i as int] == x@);
            return true;
        }
    }
    false
}

/// Puts a text into an ordered list without repetitions.
pub fn add_text(v: &mut Vec<String>, x: String)
    ensures
        texts(final(v)@) == with_text(texts(old(v)@), x@),
{
    if !holds_text(v, x.as_str()) {
        insert_text(v, x);
    }
}

/// Adding a text keeps the list in order and free of repetitions, and adds that
/// text alone.
pub proof fn with_text_keeps_set(s: Seq<Seq<char>>, x: Seq<char>)
    requires
        is_text_set(s),
    ensures
        is_text_set(with_text(s, x)),
        forall|t: Seq<char>| #[trigger]
            with_text(s, x).contains(t) <==> s.contains(t) || t == x,
{
    if !s.contains(x) {
        let p = text_order();
        let i = lemma_insert_place(s, x, p);
        let r = s.insert(i, x);
        assert forall|a: int, b: int| 0 <= a < b < r.len() implies text_less(
            #[trigger] r[a],
            #[trigger] r[b],
        ) by {
            let oa = if a < i { a } else { a - 1 };
            let ob = if b < i { b } else { b - 1 };
            if a == i {
                assert(p(x, s[ob]));
            } else if b == i {
                assert(!p(x, s[i - 1]));
                assert(s[i - 1] != x);
                if !text_less(s[i - 1], x) {
                    lemma_text_less_total(x, s[i - 1]);
                }
                if oa < i - 1 {
                    assert(text_less(s[oa], s[i - 1]));
                    lemma_text_less_weak(s[oa], x, s[i - 1]);
                    lemma_text_less_asym(s[i - 1], x);
                }
            } else {
                assert(text_less(s[oa], s[ob]));
            }
        }
        assert forall|t: Seq<char>| #[trigger] r.contains(t) <==> s.contains(t) || t == x by {
            if s.contains(t) {
                let k = s.index_of(t);
                if k < i {
                    assert(r[k] == t);
                } else {
                    assert(r[k + 1] == t);
                }
            }
            if t == x {
                assert(r[i] == t);
            }
            if r.contains(t) && t != x {
                let k = r.index_of(t);
                if k < i {
                    assert(s[k] == t);
                } else {
                    assert(s[k - 1] == t);
                }
            }
        }
    }
}

} // verus!
