//! What holds of a diagnosis: when each cause is suspected, and what is said of it.
use vstd::prelude::*;
use crate::avc::GroupView;
use crate::hints::diagnosis;
use crate::hints::HintKind;
use crate::hints::HintView;

verus! {

// ---- causes --------------------------------------------------------------

/// The class is one of the seven that live in a file system.
pub open spec fn is_of_file_system(tclass: Seq<char>) -> bool {
    seq![
        "file"@,
        "dir"@,
        "lnk_file"@,
        "chr_file"@,
        "blk_file"@,
        "fifo_file"@,
        "sock_file"@,
    ].contains(tclass)
}

/// The type is one of the nine that an object mostly has by mistake.
pub open spec fn is_stray_type(ty: Seq<char>) -> bool {
    seq![
        "user_home_t"@,
        "user_home_dir_t"@,
        "admin_home_t"@,
        "user_tmp_t"@,
        "default_t"@,
        "unlabeled_t"@,
        "var_t"@,
        "tmp_t"@,
        "etc_runtime_t"@,
    ].contains(ty)
}

/// The denial is one of the network: by its class, or by a permission to connect or
/// to bind.
pub open spec fn is_of_network(tclass: Seq<char>, perms: Seq<Seq<char>>) -> bool {
    ||| seq!["tcp_socket"@, "udp_socket"@, "socket"@, "rawip_socket"@].contains(tclass)
    ||| exists|i: int| 0 <= i < perms.len() && #[trigger] perms[i] == "name_connect"@
    ||| exists|i: int| 0 <= i < perms.len() && #[trigger] perms[i] == "name_bind"@
}

proof fn lemma_file_system(tclass: Seq<char>)
    ensures
        is_of_file_system(tclass) <==> crate::hints::file_class(tclass),
{
    let all = seq![
        "file"@,
        "dir"@,
        "lnk_file"@,
        "chr_file"@,
        "blk_file"@,
        "fifo_file"@,
        "sock_file"@,
    ];
    if crate::hints::file_class(tclass) {
        assert(all[0] == tclass || all[1] == tclass || all[2] == tclass || all[3] == tclass
            || all[4] == tclass || all[5] == tclass || all[6] == tclass);
    }
    if all.contains(tclass) {
        let i = all.index_of(tclass);
        assert(i == 0 || i == 1 || i == 2 || i == 3 || i == 4 || i == 5 || i == 6);
    }
}

proof fn lemma_stray(ty: Seq<char>)
    ensures
        is_stray_type(ty) <==> crate::hints::suspicious_type(ty),
{
    let all = seq![
        "user_home_t"@,
        "user_home_dir_t"@,
        "admin_home_t"@,
        "user_tmp_t"@,
        "default_t"@,
        "unlabeled_t"@,
        "var_t"@,
        "tmp_t"@,
        "etc_runtime_t"@,
    ];
    if crate::hints::suspicious_type(ty) {
        assert(all[0] == ty || all[1] == ty || all[2] == ty || all[3] == ty || all[4] == ty
            || all[5] == ty || all[6] == ty || all[7] == ty || all[8] == ty);
    }
    if all.contains(ty) {
        let i = all.index_of(ty);
        assert(i == 0 || i == 1 || i == 2 || i == 3 || i == 4 || i == 5 || i == 6 || i == 7 || i
            == 8);
    }
}

proof fn lemma_network(d: GroupView)
    ensures
        is_of_network(d.tclass, d.perms) <==> crate::hints::network_denial(d),
{
    let all = seq!["tcp_socket"@, "udp_socket"@, "socket"@, "rawip_socket"@];
    if crate::hints::socket_class(d.tclass) {
        assert(all[0] == d.tclass || all[1] == d.tclass || all[2] == d.tclass || all[3]
            == d.tclass);
    }
    if all.contains(d.tclass) {
        let i = all.index_of(d.tclass);
        assert(i == 0 || i == 1 || i == 2 || i == 3);
    }
}

/// A denial on an object of a file system with a stray type is called a mislabel,
/// whatever else is known of it: a likely cause that names both types.
pub proof fn a_mislabel_is_named(d: GroupView)
    requires
        is_of_file_system(d.tclass),
        is_stray_type(d.tcontext.ty),
    ensures
        exists|i: int|
            0 <= i < diagnosis(d).len() && names_mislabel(
                #[trigger] diagnosis(d)[i],
                d.scontext.ty,
                d.tcontext.ty,
            ),
{
    lemma_file_system(d.tclass);
    lemma_stray(d.tcontext.ty);
    crate::hints::label_comes_first(d);
    let at = crate::hints::granted_hints(d).len() as int;
    let h = diagnosis(d);
    assert(h.subrange(at, at + 2)[0] == h[at]);
    lemma_mislabel_text(d.scontext.ty, d.tcontext.ty);
}

/// A likely cause whose text begins with the word for a mislabel and the source type
/// and holds the target type.
pub open spec fn names_mislabel(h: HintView, source: Seq<char>, target: Seq<char>) -> bool {
    &&& h.kind == HintKind::Likely
    &&& crate::text::occurs_at(h.text, "MISLABEL likely: a '"@ + source, 0)
    &&& crate::text::has(h.text, target)
}

proof fn lemma_mislabel_text(source: Seq<char>, target: Seq<char>)
    ensures
        crate::text::occurs_at(
            crate::hints::mislabel_text(source, target),
            "MISLABEL likely: a '"@ + source,
            0,
        ),
        crate::text::has(crate::hints::mislabel_text(source, target), target),
{
    let t = crate::hints::mislabel_text(source, target);
    let start = "MISLABEL likely: a '"@ + source;
    assert(t.subrange(0, start.len() as int) =~= start);
    let a = start + "' process was denied on an object labeled '"@;
    let b =
        "'. That target type is a generic/home/default label, which usually means the file is in the wrong place or kept an old label after a mv/restore -- not that the service needs this access."@;
    assert(t =~= a + target + b);
    crate::text_laws::holds_its_middle(a, target, b);
}

/// Without a stray type on an object of a file system no mislabel is named.
pub proof fn nothing_else_is_called_a_mislabel(d: GroupView, i: int)
    requires
        !is_of_file_system(d.tclass) || !is_stray_type(d.tcontext.ty),
        0 <= i < diagnosis(d).len(),
    ensures
        !names_mislabel(diagnosis(d)[i], d.scontext.ty, d.tcontext.ty),
{
    lemma_file_system(d.tclass);
    lemma_stray(d.tcontext.ty);
    let h = diagnosis(d)[i];
    if names_mislabel(h, d.scontext.ty, d.tcontext.ty) {
        let start = "MISLABEL likely: a '"@ + d.scontext.ty;
        reveal_strlit("MISLABEL likely: a '");
        reveal_strlit("NETWORK/PORT issue: '");
        assert(h.text.subrange(0, start.len() as int)[0] == 'M');
        let n = crate::hints::network_text(d.scontext.ty, d.perms, d.tcontext.ty);
        assert(n[0] == 'N');
        assert(h.text == n);
    }
}

// ---- the whole diagnosis -------------------------------------------------

/// A diagnosis depends on the outcome, the permissions, the two types, the class and
/// the first path, and on nothing else: not on the permissive mode, the count, the
/// times, the process numbers or the executable.
pub proof fn nothing_else_bears_on_the_diagnosis(d: GroupView, e: GroupView)
    requires
        d.outcome == e.outcome,
        d.perms == e.perms,
        d.scontext.ty == e.scontext.ty,
        d.tcontext.ty == e.tcontext.ty,
        d.tclass == e.tclass,
        d.paths.len() == 0 <==> e.paths.len() == 0,
        d.paths.len() > 0 ==> d.paths[0] == e.paths[0],
    ensures
        diagnosis(d) == diagnosis(e),
{
    assert(crate::hints::label_hints(d) =~= crate::hints::label_hints(e));
    assert(crate::hints::granted_hints(d) =~= crate::hints::granted_hints(e));
    assert(crate::hints::network_hints(d) =~= crate::hints::network_hints(e));
    assert(crate::hints::closing_hints(d) =~= crate::hints::closing_hints(e));
    assert(crate::hints::booleans_of(d) =~= crate::hints::booleans_of(e));
}

/// A suggestion of the kind with the text.
pub open spec fn says(h: HintView, kind: HintKind, text: Seq<char>) -> bool {
    h.kind == kind && h.text == text
}

/// The booleans that may gate a denial: for a web server those of its network access
/// and those of home directories, and for one on the network another.
pub open spec fn gates(d: GroupView) -> Seq<Seq<char>> {
    let web = d.scontext.ty == "httpd_t"@;
    let net = is_of_network(d.tclass, d.perms);
    let home = crate::text::occurs_at(d.tcontext.ty, "user_home"@, 0);
    (if web && net {
        seq!["httpd_can_network_connect"@, "httpd_can_network_connect_db"@]
    } else {
        seq![]
    }) + (if web && home {
        seq!["httpd_enable_homedirs"@, "httpd_read_user_content"@]
    } else {
        seq![]
    }) + (if net && (web || d.scontext.ty == "nginx_t"@) {
        seq!["nis_enabled"@]
    } else {
        seq![]
    })
}

proof fn lemma_gates(d: GroupView)
    ensures
        gates(d) == crate::hints::booleans_of(d),
{
    lemma_network(d);
    assert(gates(d) =~= crate::hints::booleans_of(d));
}

/// How many suggestions come before those of the label, of the network, of the
/// booleans, and before the last three.
pub open spec fn offsets(d: GroupView) -> (int, int, int, int) {
    let a: int = if d.outcome == "granted"@ {
        1
    } else {
        0
    };
    let b: int = if is_of_file_system(d.tclass) && is_stray_type(d.tcontext.ty) {
        a + 2
    } else {
        a
    };
    let c: int = if is_of_network(d.tclass, d.perms) {
        b + 2
    } else {
        b
    };
    let e: int = if gates(d).len() >= 2 {
        c + 2
    } else {
        c + gates(d).len()
    };
    (a, b, c, e)
}

proof fn lemma_offsets(d: GroupView)
    ensures
        ({
            let (a, b, c, e) = offsets(d);
            let h = diagnosis(d);
            &&& h.len() == e + 3
            &&& a == crate::hints::granted_hints(d).len()
            &&& forall|i: int| 0 <= i < a ==> h[i] == #[trigger] crate::hints::granted_hints(d)[i]
            &&& forall|i: int|
                0 <= i < b - a ==> h[a + i] == #[trigger] crate::hints::label_hints(d)[i]
            &&& forall|i: int|
                0 <= i < c - b ==> h[b + i] == #[trigger] crate::hints::network_hints(d)[i]
            &&& forall|i: int|
                0 <= i < e - c ==> h[c + i] == #[trigger] crate::hints::boolean_hints(gates(d))[i]
            &&& forall|i: int|
                0 <= i < 3 ==> h[e + i] == #[trigger] crate::hints::closing_hints(d)[i]
        }),
{
    lemma_file_system(d.tclass);
    lemma_stray(d.tcontext.ty);
    lemma_network(d);
    lemma_gates(d);
}

/// The suggestions come in this order: that the record was granted; the mislabel,
/// with how to compare labels; the network; the booleans; and three at the end. That
/// it was granted is said of granted records alone.
pub proof fn the_diagnosis_begins_with_the_label(d: GroupView)
    ensures
        ({
            let (a, b, c, e) = offsets(d);
            let h = diagnosis(d);
            &&& h.len() == e + 3
            &&& a > 0 ==> says(
                h[0],
                HintKind::Consider,
                "This is a GRANTED record (logged because the access was audited, e.g. in permissive mode). It was not blocked."@,
            )
            &&& b > a ==> names_mislabel(h[a], d.scontext.ty, d.tcontext.ty) && says(
                h[a],
                HintKind::Likely,
                "MISLABEL likely: a '"@ + d.scontext.ty
                    + "' process was denied on an object labeled '"@ + d.tcontext.ty
                    + "'. That target type is a generic/home/default label, which usually means the file is in the wrong place or kept an old label after a mv/restore -- not that the service needs this access."@,
            )
            &&& b > a && d.paths.len() > 0 ==> says(
                h[a + 1],
                HintKind::Inspect,
                "Compare actual vs expected label:  ls -Z "@ + d.paths[0]
                    + "   and   matchpathcon "@ + d.paths[0]
                    + "   (both read-only). If they differ, the fix is to relabel, e.g.  restorecon -Rv "@
                    + d.paths[0] + "  -- run that yourself after confirming."@,
            )
            &&& b > a && d.paths.len() == 0 ==> says(
                h[a + 1],
                HintKind::Inspect,
                "Compare actual vs expected label with  ls -Z <path>  and  matchpathcon <path>  (read-only)."@,
            )
        }),
{
    let (a, b, c, e) = offsets(d);
    let h = diagnosis(d);
    lemma_offsets(d);
    lemma_mislabel_text(d.scontext.ty, d.tcontext.ty);
    lemma_file_system(d.tclass);
    lemma_stray(d.tcontext.ty);
    if a > 0 {
        assert(h[0] == crate::hints::granted_hints(d)[0]);
    }
    if b > a {
        assert(h[a + 0] == crate::hints::label_hints(d)[0]);
        assert(h[a + 1] == crate::hints::label_hints(d)[1]);
    }
}

/// A denial on the network is called one, with the permissions and both types, and
/// followed by how to list ports.
pub proof fn a_network_denial_is_named(d: GroupView)
    requires
        is_of_network(d.tclass, d.perms),
    ensures
        ({
            let at = offsets(d).1;
            let h = diagnosis(d);
            &&& at + 1 < h.len()
            &&& says(
                h[at],
                HintKind::Likely,
                "NETWORK/PORT issue: '"@ + d.scontext.ty + "' was denied '"@ + crate::text::joined(
                    d.perms,
                    seq![' '],
                ) + "' against '"@ + d.tcontext.ty
                    + "'. Either the port needs labeling, or a boolean gates this connectivity."@,
            )
            &&& says(
                h[at + 1],
                HintKind::Inspect,
                "List port labels (read-only):  semanage port -l | grep <type>  -- e.g. to confirm which ports a type owns. A non-standard port is labeled with  semanage port -a -t <port_type> -p tcp <N>  (run yourself)."@,
            )
        }),
{
    let at = offsets(d).1;
    let h = diagnosis(d);
    lemma_offsets(d);
    lemma_network(d);
    reveal_strlit(" ");
    assert(" "@ =~= seq![' ']);
    assert(h[at + 0] == crate::hints::network_hints(d)[0]);
    assert(h[at + 1] == crate::hints::network_hints(d)[1]);
}

/// Where booleans may gate a denial the first one is named, with how to ask for it and
/// how to set it, and then the others.
pub proof fn the_booleans_are_named(d: GroupView)
    requires
        gates(d).len() > 0,
    ensures
        ({
            let at = offsets(d).2;
            let h = diagnosis(d);
            let b = gates(d)[0];
            &&& at < h.len()
            &&& says(
                h[at],
                HintKind::Consider,
                "Possibly gated by a boolean. Check (read-only):  getsebool "@ + b
                    + "  .  If the behavior is intended, enable persistently with  setsebool -P "@
                    + b + " on  (run yourself)."@,
            )
            &&& gates(d).len() > 1 ==> says(
                h[at + 1],
                HintKind::Consider,
                "Other booleans worth reviewing: "@ + crate::text::joined(
                    gates(d).skip(1),
                    seq![',', ' '],
                ),
            )
        }),
{
    let at = offsets(d).2;
    let h = diagnosis(d);
    lemma_offsets(d);
    reveal_strlit(", ");
    assert(", "@ =~= seq![',', ' ']);
    assert(h[at + 0] == crate::hints::boolean_hints(gates(d))[0]);
    if gates(d).len() > 1 {
        assert(h[at + 1] == crate::hints::boolean_hints(gates(d))[1]);
    }
}

/// Every diagnosis ends with how to confirm the cause, how to ask the policy for the
/// two types and the class, and the caution against custom policy.
pub proof fn the_diagnosis_ends_with_policy(d: GroupView)
    ensures
        ({
            let h = diagnosis(d);
            let at = h.len() - 3;
            &&& at >= 0
            &&& says(
                h[at],
                HintKind::Inspect,
                "Confirm the cause category (read-only):  echo '<this denial>' | audit2why   -- it reports whether a boolean, a missing rule, or a constraint is responsible."@,
            )
            &&& says(
                h[at + 1],
                HintKind::Inspect,
                "Ask the loaded policy whether the rule even exists (read-only):  sesearch -A -s "@
                    + d.scontext.ty + " -t "@ + d.tcontext.ty + " -c "@ + d.tclass,
            )
            &&& says(
                h[at + 2],
                HintKind::Caution,
                "Last resort only: audit2allow can generate a module, but it will happily grant access to a MISLABELED file. Rule out labels, ports and booleans first, and always read the .te before installing. This tool will not generate or install policy for you."@,
            )
        }),
{
    let h = diagnosis(d);
    let at = h.len() - 3;
    crate::hints::custom_policy_comes_last(d);
    assert(h.skip(at)[0] == h[at] && h.skip(at)[1] == h[at + 1] && h.skip(at)[2] == h[at + 2]);
}

} // verus!
