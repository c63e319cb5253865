//! The orders in which groups are listed.
use vstd::prelude::*;
use crate::avc::AggDenial;
use crate::order::text_before;

verus! {

/// What the list is sorted by.
#[derive(Debug, Clone, Copy, PartialEq, Eq, Structural)]
pub enum SortKey {
    Count,
    LastSeen,
    SourceType,
}

impl SortKey {
    pub open spec fn name(self) -> Seq<char> {
        match self {
            SortKey::Count => "count"@,
            SortKey::LastSeen => "recent"@,
            SortKey::SourceType => "src-type"@,
        }
    }

    /// The name of the order in the header.
    pub fn label(&self) -> (s: &'static str)
        ensures
            s@ == self.name(),
    {
        match self {
            SortKey::Count => "count",
            SortKey::LastSeen => "recent",
            SortKey::SourceType => "src-type",
        }
    }

    /// The order after this one: count, recent, source type, and round again.
    pub open spec fn successor(self) -> SortKey {
        match self {
            SortKey::Count => SortKey::LastSeen,
            SortKey::LastSeen => SortKey::SourceType,
            SortKey::SourceType => SortKey::Count,
        }
    }

    /// The order after this one.
    pub fn next(self) -> (k: SortKey)
        ensures
            k == self.successor(),
    {
        match self {
            SortKey::Count => SortKey::LastSeen,
            SortKey::LastSeen => SortKey::SourceType,
            SortKey::SourceType => SortKey::Count,
        }
    }
}

/// One group has to be listed before another: the greater count, then the later
/// last time; the later last time; or the lesser source type, then the greater
/// count.
pub open spec fn listed_before(
    a: crate::avc::GroupView,
    b: crate::avc::GroupView,
    sort: SortKey,
) -> bool {
    match sort {
        SortKey::Count => a.count > b.count || (a.count == b.count && a.last_ts.place()
            > b.last_ts.place()),
        SortKey::LastSeen => a.last_ts.place() > b.last_ts.place(),
        SortKey::SourceType => crate::order::text_less(a.scontext.ty, b.scontext.ty) || (
        a.scontext.ty == b.scontext.ty && a.count > b.count),
    }
}

/// `listed_before` as a relation to sort by.
pub open spec fn list_order(sort: SortKey) -> spec_fn(AggDenial, AggDenial) -> bool {
    |a: AggDenial, b: AggDenial| listed_before(a@, b@, sort)
}

/// Whether one group has to be listed before another.
pub fn goes_before(a: &AggDenial, b: &AggDenial, sort: SortKey) -> (r: bool)
    ensures
        r == listed_before(a@, b@, sort),
{
    match sort {
        SortKey::Count => a.count > b.count || (a.count == b.count && b.last_ts.is_below(
            &a.last_ts,
        )),
        SortKey::LastSeen => b.last_ts.is_below(&a.last_ts),
        SortKey::SourceType => text_before(a.scontext.ty.as_str(), b.scontext.ty.as_str()) || (
        a.scontext.ty == b.scontext.ty && a.count > b.count),
    }
}

/// Each order of the list is a strict order.
pub proof fn lemma_list_order(sort: SortKey)
    ensures
        crate::order::ranks(list_order(sort)),
{
    let p = list_order(sort);
    crate::order::lemma_text_order();
    let q = crate::order::text_order();
    assert forall|a: AggDenial, b: AggDenial| #[trigger] p(a, b) implies !p(b, a) by {
        if q(a@.scontext.ty, b@.scontext.ty) {
            assert(!q(b@.scontext.ty, a@.scontext.ty));
        }
        if q(a@.scontext.ty, a@.scontext.ty) {
            assert(!q(a@.scontext.ty, a@.scontext.ty));
        }
    }
    assert forall|a: AggDenial, b: AggDenial, c: AggDenial| #[trigger]
        p(a, c) implies #[trigger] p(a, b) || p(b, c) by {
        let (x, y, z) = (a@.scontext.ty, b@.scontext.ty, c@.scontext.ty);
        if q(x, z) {
            assert(q(x, y) || q(y, z));
        }
        if x == z {
            if !q(x, y) && !q(y, x) {
                crate::order::lemma_text_less_total(x, y);
            }
        }
    }
}

/// One group may stand before another in the list: by count, its count is greater,
/// or equal and its last time no earlier; by recency, its last time is no earlier; by
/// source type, its type comes first in the order of texts, or is the same and its
/// count no less.
pub open spec fn may_precede(
    a: crate::avc::GroupView,
    b: crate::avc::GroupView,
    sort: SortKey,
) -> bool {
    match sort {
        SortKey::Count => {
            &&& a.count >= b.count
            &&& a.count == b.count ==> a.last_ts.place() >= b.last_ts.place()
        },
        SortKey::LastSeen => a.last_ts.place() >= b.last_ts.place(),
        SortKey::SourceType => {
            &&& !crate::order::text_less(b.scontext.ty, a.scontext.ty)
            &&& a.scontext.ty == b.scontext.ty ==> a.count >= b.count
        },
    }
}

/// Each group of the list may stand before those behind it.
pub open spec fn is_listed_in_order(v: Seq<AggDenial>, sort: SortKey) -> bool {
    forall|i: int, j: int|
        0 <= i < j < v.len() ==> may_precede((#[trigger] v[i])@, (#[trigger] v[j])@, sort)
}

/// A sorted list is in order: by count the greater ones first and the more recent
/// first among equal ones; by recency the more recent first; by source type in the
/// order of texts, and the greater counts first within a type.
pub proof fn sorted_lists_are_in_order(groups: Seq<AggDenial>, sort: SortKey)
    ensures
        is_listed_in_order(crate::order::sorted_by(groups, list_order(sort)), sort),
{
    let p = list_order(sort);
    let s = crate::order::sorted_by(groups, p);
    lemma_list_order(sort);
    crate::order::sort_orders(groups, p);
    assert forall|i: int, j: int| 0 <= i < j < s.len() implies may_precede(
        (#[trigger] s[i])@,
        (#[trigger] s[j])@,
        sort,
    ) by {
        assert(!p(s[j], s[i]));
    }
}

/// Sorts the groups; groups of equal rank keep their order.
pub fn sort_groups(v: &mut Vec<AggDenial>, sort: SortKey)
    ensures
        final(v)@ == crate::order::sorted_by(old(v)@, list_order(sort)),
        is_listed_in_order(final(v)@, sort),
{
    let ghost all = v@;
    let ghost p = list_order(sort);
    let n = v.len();
    assert(all.take(0) =~= Seq::<AggDenial>::empty());
    assert(v@ =~= crate::order::sorted_by(all.take(0), p) + all.skip(0));
    for i in 0..n
        invariant
            n == all.len(),
            v@.len() == n,
            p == list_order(sort),
            crate::order::sorted_by(all.take(i as int), p).len() == i,
            v@ == crate::order::sorted_by(all.take(i as int), p) + all.skip(i as int),
    {
        let ghost front = crate::order::sorted_by(all.take(i as int), p);
        let ghost x = all[i as int];
        let mut j: usize = i;
        while j > 0 && goes_before(&v[i], &v[j - 1], sort)
            invariant
                j <= i < n == v@.len(),
                front.len() == i,
                v@ == front + all.skip(i as int),
                all.len() == n,
                x == all[i as int],
                p == list_order(sort),
                forall|k: int| j <= k < i ==> p(x, #[trigger] front[k]),
            decreases j,
        {
            assert(v@[i as int] == x);
            assert(v@[j - 1] == front[j - 1]);
            j = j - 1;
        }
        proof {
            assert(v@[i as int] == x);
            if j > 0 {
                assert(v@[j - 1] == front[j - 1]);
            }
            crate::order::lemma_insert_at(front, x, p, j as int);
            assert(all.take(i + 1).drop_last() =~= all.take(i as int));
            assert(all.take(i + 1).last() == x);
            assert((front + all.skip(i as int)).remove(i as int).insert(j as int, x)
                =~= front.insert(j as int, x) + all.skip(i + 1));
        }
        let moved = v.remove(i);
        v.insert(j, moved);
    }
    assert(all.take(n as int) =~= all);
    assert(crate::order::sorted_by(all, p) + all.skip(n as int) =~= crate::order::sorted_by(
        all,
        p,
    ));
    proof {
        sorted_lists_are_in_order(all, sort);
    }
}

/// Three steps through the orders lead back to the first.
pub proof fn orders_go_round(k: SortKey)
    ensures
        k.successor().successor().successor() == k,
        k.successor() != k,
        k.successor().successor() != k,
{
}

/// A sorted list holds the same groups, none behind one that it has to precede,
/// and groups of equal rank in the order they had.
pub proof fn sorting_lists_every_group_in_order(groups: Seq<AggDenial>, w: AggDenial, sort: SortKey)
    ensures
        ({
            let p = list_order(sort);
            let s = crate::order::sorted_by(groups, p);
            &&& s.to_multiset() == groups.to_multiset()
            &&& crate::order::in_order(s, p)
            &&& s.filter(crate::order::of_rank(w, p)) == groups.filter(crate::order::of_rank(w, p))
        }),
{
    lemma_list_order(sort);
    crate::order::sort_keeps_elements(groups, list_order(sort));
    crate::order::sort_orders(groups, list_order(sort));
    crate::order::sort_is_stable(groups, w, list_order(sort));
}

} // verus!
