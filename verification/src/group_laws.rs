//! What holds of a group: which records it takes, and what is said of it.
use vstd::prelude::*;
use crate::avc::DenialView;
use crate::avc::GroupView;
use crate::time::Timestamp;

verus! {

// ---- which records are the same ------------------------------------------

/// A record and a group agree in outcome, permissions, contexts, class and
/// executable.
pub open spec fn agree(d: DenialView, g: GroupView) -> bool {
    &&& d.outcome == g.outcome
    &&& d.perms == g.perms
    &&& d.scontext.raw == g.scontext.raw
    &&& d.tcontext.raw == g.tcontext.raw
    &&& d.tclass == g.tclass
    &&& d.comm == g.comm
}

/// How many records agree with a group.
pub open spec fn tally(records: Seq<DenialView>, g: GroupView) -> nat
    decreases records.len(),
{
    if records.len() == 0 {
        0
    } else if agree(records.last(), g) {
        tally(records.drop_last(), g) + 1
    } else {
        tally(records.drop_last(), g)
    }
}

/// A record is of the problem of a group exactly where they agree in the six fields.
pub proof fn lemma_agree(d: DenialView, g: GroupView)
    ensures
        agree(d, g) <==> d.problem() == g.problem(),
{
    if agree(d, g) {
        assert(d.problem() =~= g.problem());
    }
}

proof fn lemma_tally(records: Seq<DenialView>, g: GroupView)
    ensures
        tally(records, g) == crate::laws::occurrences(records, g.problem()),
    decreases records.len(),
{
    if records.len() > 0 {
        lemma_tally(records.drop_last(), g);
        lemma_agree(records.last(), g);
    }
}

/// Records are grouped by outcome, permissions, contexts, class and executable and
/// by nothing else: each record agrees with one group, no two groups agree in all
/// six, and a group counts the records that agree with it.
pub proof fn groups_are_made_by_six_fields(records: Seq<DenialView>, stamps: Seq<Timestamp>)
    ensures
        ({
            let groups = crate::avc::groups_of(records, stamps);
            &&& forall|k: int|
                0 <= k < records.len() ==> exists|i: int|
                    0 <= i < groups.len() && agree(#[trigger] records[k], #[trigger] groups[i])
            &&& forall|k: int, i: int, j: int|
                0 <= k < records.len() && 0 <= i < j < groups.len() && #[trigger] agree(
                    records[k],
                    groups[i],
                ) ==> !#[trigger] agree(records[k], groups[j])
            &&& forall|i: int|
                0 <= i < groups.len() ==> (#[trigger] groups[i]).count == tally(records, groups[i])
                    && groups[i].count > 0
        }),
{
    let groups = crate::avc::groups_of(records, stamps);
    crate::laws::every_record_has_a_group(records, stamps);
    crate::laws::one_group_per_problem(records, stamps);
    crate::laws::count_is_occurrences(records, stamps);
    assert forall|k: int| 0 <= k < records.len() implies exists|i: int|
        0 <= i < groups.len() && agree(#[trigger] records[k], #[trigger] groups[i]) by {
        let p = records[k].problem();
        crate::avc::lemma_group_from(groups, p, 0);
        let i = crate::avc::group_from(groups, p, 0)->0;
        lemma_agree(records[k], groups[i]);
        assert(agree(records[k], groups[i]));
    }
    assert forall|k: int, i: int, j: int|
        0 <= k < records.len() && 0 <= i < j < groups.len() && #[trigger] agree(
            records[k],
            groups[i],
        ) implies !#[trigger] agree(records[k], groups[j]) by {
        lemma_agree(records[k], groups[i]);
        lemma_agree(records[k], groups[j]);
        assert(groups[i].problem() != groups[j].problem());
    }
    assert forall|i: int| 0 <= i < groups.len() implies (#[trigger] groups[i]).count == tally(
        records,
        groups[i],
    ) && groups[i].count > 0 by {
        lemma_tally(records, groups[i]);
    }
}

/// The paths and the process numbers of a group are those of the records that agree
/// with it; the paths come in the order of texts, each once.
pub proof fn groups_gather_from_agreeing_records(records: Seq<DenialView>, stamps: Seq<Timestamp>)
    ensures
        ({
            let groups = crate::avc::groups_of(records, stamps);
            forall|i: int| 0 <= i < groups.len() ==> gathers(records, #[trigger] groups[i])
        }),
{
    let groups = crate::avc::groups_of(records, stamps);
    crate::laws::groups_keep_paths_and_pids(records, stamps);
    assert forall|i: int| 0 <= i < groups.len() implies gathers(records, #[trigger] groups[i]) by {
        let g = groups[i];
        assert(crate::laws::keeps_paths_and_pids(records, g));
        assert forall|k: int| 0 <= k < records.len() implies (agree(#[trigger] records[k], g)
            <==> records[k].problem() == g.problem()) by {
            lemma_agree(records[k], g);
        }
        assert forall|p: Seq<char>| #[trigger] g.paths.contains(p) <==> saw_path(records, g, p) by {
            assert(crate::laws::path_seen(records, g.problem(), p) <==> saw_path(records, g, p));
        }
        assert forall|n: u32| #[trigger] g.pids.contains(n) <==> saw_pid(records, g, n) by {
            assert(crate::laws::pid_seen(records, g.problem(), n) <==> saw_pid(records, g, n));
        }
    }
}

/// A record that agrees with the group has the path.
pub open spec fn saw_path(records: Seq<DenialView>, g: GroupView, p: Seq<char>) -> bool {
    exists|k: int|
        0 <= k < records.len() && agree(#[trigger] records[k], g) && records[k].path == Some(p)
}

/// A record that agrees with the group has the process number.
pub open spec fn saw_pid(records: Seq<DenialView>, g: GroupView, n: u32) -> bool {
    exists|k: int|
        0 <= k < records.len() && agree(#[trigger] records[k], g) && records[k].pid == Some(n)
}

/// The group has exactly the paths and the process numbers of its records.
pub open spec fn gathers(records: Seq<DenialView>, g: GroupView) -> bool {
    &&& forall|p: Seq<char>| #[trigger] g.paths.contains(p) <==> saw_path(records, g, p)
    &&& forall|n: u32| #[trigger] g.pids.contains(n) <==> saw_pid(records, g, n)
    &&& forall|i: int, j: int|
        0 <= i < j < g.paths.len() ==> crate::order::text_less(
            #[trigger] g.paths[i],
            #[trigger] g.paths[j],
        )
}

/// The record at place `k` is the first that agrees with the group.
pub open spec fn comes_first(records: Seq<DenialView>, g: GroupView, k: int) -> bool {
    &&& 0 <= k < records.len()
    &&& agree(records[k], g)
    &&& forall|j: int| 0 <= j < k ==> !agree(#[trigger] records[j], g)
}

/// The groups come in the order in which their first records do.
pub proof fn groups_come_as_their_first_records(
    records: Seq<DenialView>,
    stamps: Seq<Timestamp>,
    i: int,
    j: int,
    k: int,
    l: int,
)
    requires
        ({
            let groups = crate::avc::groups_of(records, stamps);
            &&& 0 <= i < j < groups.len()
            &&& comes_first(records, groups[i], k)
            &&& comes_first(records, groups[j], l)
        }),
    ensures
        k < l,
    decreases records.len(),
{
    let groups = crate::avc::groups_of(records, stamps);
    let before = records.drop_last();
    let init = crate::avc::groups_of(before, stamps);
    let p = records.last().problem();
    crate::avc::lemma_group_from(init, p, 0);
    lemma_first_before(records, stamps, i, k);
    if j < init.len() {
        lemma_first_before(records, stamps, j, l);
        groups_come_as_their_first_records(before, stamps, i, j, k, l);
    } else if l < before.len() {
        let g = groups[j];
        lemma_agree(records[l], g);
        crate::laws::every_record_has_a_group(before, stamps);
        assert(before[l].problem() == p);
        assert(false);
    }
}

proof fn lemma_first_before(records: Seq<DenialView>, stamps: Seq<Timestamp>, i: int, k: int)
    requires
        records.len() > 0,
        0 <= i < crate::avc::groups_of(records.drop_last(), stamps).len(),
        comes_first(records, crate::avc::groups_of(records, stamps)[i], k),
    ensures
        comes_first(records.drop_last(), crate::avc::groups_of(records.drop_last(), stamps)[i], k),
{
    let before = records.drop_last();
    let g = crate::avc::groups_of(records, stamps)[i];
    let h = crate::avc::groups_of(before, stamps)[i];
    crate::avc::lemma_group_from(
        crate::avc::groups_of(before, stamps),
        records.last().problem(),
        0,
    );
    assert(g.problem() == h.problem());
    crate::laws::groups_show_their_first_record(before, stamps);
    let f = choose|f: int| crate::laws::shows_record(before, h, f);
    assert(before[f] == records[f]);
    lemma_agree(records[f], g);
    assert forall|m: int| 0 <= m < before.len() implies (agree(#[trigger] before[m], h) <==> agree(
        records[m],
        g,
    )) by {
        lemma_agree(before[m], h);
        lemma_agree(records[m], g);
    }
    assert(k <= f);
    assert forall|m: int| 0 <= m < k implies !agree(#[trigger] before[m], h) by {
        assert(!agree(records[m], g));
    }
    assert(agree(before[k], h));
}

// ---- times ---------------------------------------------------------------

/// The record at place `k` agrees with the group and has the time.
pub open spec fn has_time(
    records: Seq<DenialView>,
    stamps: Seq<Timestamp>,
    g: GroupView,
    t: Timestamp,
    k: int,
) -> bool {
    0 <= k < records.len() && agree(records[k], g) && stamps[k] == t
}

/// The first time of a group is the least time after the epoch among its records,
/// the last time the greatest; both are times of its records.
pub proof fn first_and_last_are_the_least_and_the_greatest(
    records: Seq<DenialView>,
    stamps: Seq<Timestamp>,
    i: int,
)
    requires
        stamps.len() == records.len(),
        forall|k: int|
            0 <= k < stamps.len() ==> (#[trigger] stamps[k]).bits <= 0x7ff0_0000_0000_0000,
        0 <= i < crate::avc::groups_of(records, stamps).len(),
    ensures
        ({
            let g = crate::avc::groups_of(records, stamps)[i];
            &&& exists|k: int| has_time(records, stamps, g, g.first_ts, k)
            &&& exists|k: int| has_time(records, stamps, g, g.last_ts, k)
            &&& forall|k: int|
                0 <= k < records.len() && agree(#[trigger] records[k], g) && stamps[k].bits > 0
                    ==> 0 < g.first_ts.bits <= stamps[k].bits <= g.last_ts.bits
        }),
{
    let g = crate::avc::groups_of(records, stamps)[i];
    assert forall|k: int| 0 <= k < stamps.len() implies !(#[trigger] stamps[k]).is_nan()
        && stamps[k].rank() >= 0 by {
        crate::text_laws::times_compare_as_their_bits(stamps[k], stamps[k]);
    }
    crate::laws::first_and_last_bound_the_times(records, stamps);
    assert(crate::laws::bounds_times(records, stamps, g));
    let a = choose|k: int|
        0 <= k < records.len() && (#[trigger] records[k]).problem() == g.problem()
            && crate::avc::stamp_at(stamps, k) == g.first_ts;
    let b = choose|k: int|
        0 <= k < records.len() && (#[trigger] records[k]).problem() == g.problem()
            && crate::avc::stamp_at(stamps, k) == g.last_ts;
    lemma_agree(records[a], g);
    lemma_agree(records[b], g);
    assert(stamps[a] == g.first_ts && stamps[b] == g.last_ts);
    assert(has_time(records, stamps, g, g.first_ts, a));
    assert(has_time(records, stamps, g, g.last_ts, b));
    crate::text_laws::times_compare_as_their_bits(g.first_ts, g.last_ts);
    crate::text_laws::times_compare_as_their_bits(g.last_ts, g.first_ts);
    assert forall|k: int| 0 <= k < records.len() && agree(#[trigger] records[k], g)
        && stamps[k].bits > 0 implies 0 < g.first_ts.bits <= stamps[k].bits <= g.last_ts.bits by {
        lemma_agree(records[k], g);
        crate::text_laws::times_compare_as_their_bits(stamps[k], g.first_ts);
        assert(crate::avc::stamp_at(stamps, k).positive());
    }
}

/// One record makes one group, with what the record holds.
pub proof fn one_record_makes_one_group(d: DenialView, t: Timestamp)
    ensures
        ({
            let groups = crate::avc::groups_of(seq![d], seq![t]);
            let g = groups[0];
            &&& groups.len() == 1
            &&& agree(d, g)
            &&& g.scontext == d.scontext
            &&& g.tcontext == d.tcontext
            &&& g.count == 1
            &&& g.first_ts == t
            &&& g.last_ts == t
            &&& g.permissive == d.permissive
            &&& g.sample_raw == d.raw
            &&& g.paths == (match d.path {
                Some(p) => seq![p],
                None => Seq::<Seq<char>>::empty(),
            })
            &&& forall|n: u32| #[trigger] g.pids.contains(n) <==> d.pid == Some(n)
        }),
{
    let one = seq![d];
    assert(one.drop_last() =~= Seq::<DenialView>::empty());
    reveal_with_fuel(crate::avc::groups_of, 2);
    let g = crate::avc::groups_of(one, seq![t])[0];
    match d.path {
        Some(p) => {
            assert(!Seq::<Seq<char>>::empty().contains(p));
            assert(g.paths =~= seq![p]);
        },
        None => {},
    }
}

// ---- texts of a group ----------------------------------------------------

/// The seven texts that a search looks at.
pub open spec fn searched_texts(g: GroupView) -> Seq<Seq<char>> {
    seq![
        g.comm,
        crate::text::joined(g.perms, seq![' ']),
        g.scontext.raw,
        g.tcontext.raw,
        g.tclass,
        g.outcome,
        crate::text::joined(g.paths, seq![' ']),
    ]
}

/// The haystack of a group is the executable, the permissions, the two contexts,
/// the class, the outcome and the paths, with blanks between them.
pub proof fn the_haystack_is_the_searched_texts(g: GroupView)
    ensures
        g.blob() == crate::text::joined(searched_texts(g), seq![' ']),
{
    reveal_strlit(" ");
    assert(" "@ =~= seq![' ']);
    let b = seq![' '];
    let s = searched_texts(g);
    let x = s[0] + b + s[1];
    reveal_with_fuel(crate::text::joined, 8);
    let s6 = s.drop_last();
    let s5 = s6.drop_last();
    let s4 = s5.drop_last();
    let s3 = s4.drop_last();
    let s2 = s3.drop_last();
    let s1 = s2.drop_last();
    assert(s1 =~= seq![s[0]]);
    assert(crate::text::joined(s1, b) == s[0]);
    assert(crate::text::joined(s2, b) == s[0] + b + s[1]);
    assert(crate::text::joined(s3, b) == s[0] + b + s[1] + b + s[2]);
    assert(crate::text::joined(s4, b) == s[0] + b + s[1] + b + s[2] + b + s[3]);
    assert(crate::text::joined(s5, b) == s[0] + b + s[1] + b + s[2] + b + s[3] + b + s[4]);
    assert(crate::text::joined(s6, b) == s[0] + b + s[1] + b + s[2] + b + s[3] + b + s[4] + b
        + s[5]);
    assert(g.blob() =~= crate::text::joined(s, b));
}

/// The haystack of a group holds its executable, each permission, both contexts,
/// the class, the outcome and each path.
pub proof fn the_haystack_holds_every_part(g: GroupView)
    ensures
        crate::text::has(g.blob(), g.comm),
        crate::text::has(g.blob(), g.scontext.raw),
        crate::text::has(g.blob(), g.tcontext.raw),
        crate::text::has(g.blob(), g.tclass),
        crate::text::has(g.blob(), g.outcome),
        forall|i: int| 0 <= i < g.perms.len() ==> crate::text::has(g.blob(), #[trigger] g.perms[i]),
        forall|i: int| 0 <= i < g.paths.len() ==> crate::text::has(g.blob(), #[trigger] g.paths[i]),
{
    let b = seq![' '];
    let s = searched_texts(g);
    the_haystack_is_the_searched_texts(g);
    crate::text_laws::joining_keeps_each_part(s, b, 0);
    crate::text_laws::joining_keeps_each_part(s, b, 1);
    crate::text_laws::joining_keeps_each_part(s, b, 2);
    crate::text_laws::joining_keeps_each_part(s, b, 3);
    crate::text_laws::joining_keeps_each_part(s, b, 4);
    crate::text_laws::joining_keeps_each_part(s, b, 5);
    crate::text_laws::joining_keeps_each_part(s, b, 6);
    assert forall|i: int| 0 <= i < g.perms.len() implies crate::text::has(
        g.blob(),
        #[trigger] g.perms[i],
    ) by {
        crate::text_laws::joining_keeps_each_part(g.perms, b, i);
        lemma_held_through(g.blob(), s[1], g.perms[i]);
    }
    assert forall|i: int| 0 <= i < g.paths.len() implies crate::text::has(
        g.blob(),
        #[trigger] g.paths[i],
    ) by {
        crate::text_laws::joining_keeps_each_part(g.paths, b, i);
        lemma_held_through(g.blob(), s[6], g.paths[i]);
    }
}

/// What a text holds, whatever holds the text holds too.
pub proof fn lemma_held_through(s: Seq<char>, mid: Seq<char>, pat: Seq<char>)
    requires
        crate::text::has(s, mid),
        crate::text::has(mid, pat),
    ensures
        crate::text::has(s, pat),
{
    let i = choose|i: int| crate::text::occurs_at(s, mid, i);
    let (a, b) = (s.take(i), s.skip(i + mid.len()));
    assert(s =~= a + mid + b);
    crate::text_laws::holds_what_its_middle_holds(a, mid, b, pat);
}

/// The summary of a group: the executable, the permissions in braces, the source
/// type, an arrow, the target type, and the class in brackets.
pub proof fn the_summary_names_the_problem(g: GroupView)
    ensures
        g.summary() == g.comm + seq![' ', '{'] + crate::text::joined(g.perms, seq![' ']) + seq![
            '}',
            ' ',
        ] + g.scontext.ty + seq![' ', '-', '>', ' '] + g.tcontext.ty + seq![' ', '['] + g.tclass
            + seq![']'],
{
    reveal_strlit(" {");
    reveal_strlit(" ");
    reveal_strlit("} ");
    reveal_strlit(" -> ");
    reveal_strlit(" [");
    reveal_strlit("]");
    assert(" {"@ =~= seq![' ', '{']);
    assert(" "@ =~= seq![' ']);
    assert("} "@ =~= seq!['}', ' ']);
    assert(" -> "@ =~= seq![' ', '-', '>', ' ']);
    assert(" ["@ =~= seq![' ', '[']);
    assert("]"@ =~= seq![']']);
}

// ---- keys ----------------------------------------------------------------

proof fn lemma_nothing_escaped(s: Seq<char>, listed: bool)
    requires
        !s.contains('|'),
        !s.contains('\\'),
        listed ==> !s.contains(','),
    ensures
        crate::avc::escaped(s, listed) == s,
    decreases s.len(),
{
    if s.len() > 0 {
        assert(s.contains(s[0]));
        let r = s.skip(1);
        assert forall|c: char| #[trigger] r.contains(c) implies s.contains(c) by {
            let k = r.index_of(c);
            assert(s[k + 1] == c);
        }
        lemma_nothing_escaped(r, listed);
        assert(seq![s[0]] + r =~= s);
    } else {
        assert(crate::avc::escaped(s, listed) =~= s);
    }
}

/// A part of a key that needs no escaping.
pub open spec fn is_ordinary(s: Seq<char>) -> bool {
    !s.contains('|') && !s.contains('\\')
}

/// The key of an ordinary group: outcome, permissions with commas between them, the
/// two contexts, class and executable, with bars between them.
pub proof fn ordinary_keys_are_plain(records: Seq<DenialView>, stamps: Seq<Timestamp>, i: int)
    requires
        0 <= i < crate::avc::groups_of(records, stamps).len(),
        ({
            let g = crate::avc::groups_of(records, stamps)[i];
            &&& is_ordinary(g.outcome) && is_ordinary(g.scontext.raw) && is_ordinary(g.tcontext.raw)
            &&& is_ordinary(g.tclass) && is_ordinary(g.comm)
            &&& forall|k: int|
                0 <= k < g.perms.len() ==> is_ordinary(#[trigger] g.perms[k]) && !g.perms[k].contains(
                    ',',
                )
        }),
    ensures
        ({
            let g = crate::avc::groups_of(records, stamps)[i];
            let bar = seq!['|'];
            g.key == g.outcome + bar + crate::text::joined(g.perms, seq![',']) + bar + g.scontext.raw
                + bar + g.tcontext.raw + bar + g.tclass + bar + g.comm
        }),
{
    let g = crate::avc::groups_of(records, stamps)[i];
    crate::laws::groups_are_well_formed(records, stamps);
    reveal_strlit("|");
    reveal_strlit(",");
    assert("|"@ =~= seq!['|']);
    assert(","@ =~= seq![',']);
    lemma_nothing_escaped(g.outcome, false);
    lemma_nothing_escaped(g.scontext.raw, false);
    lemma_nothing_escaped(g.tcontext.raw, false);
    lemma_nothing_escaped(g.tclass, false);
    lemma_nothing_escaped(g.comm, false);
    assert forall|k: int| 0 <= k < g.perms.len() implies crate::avc::escaped(
        #[trigger] g.perms[k],
        true,
    ) == g.perms[k] by {
        lemma_nothing_escaped(g.perms[k], true);
    }
    assert(crate::avc::all_escaped(g.perms) =~= g.perms);
}

} // verus!
