//! Read-only diagnosis hints.
//!
//! Given a de-duplicated denial, produce *suggestions* that steer the analyst
//! toward the root cause, in this order: label first, then ports and booleans,
//! custom policy only as a last resort. Every command suggested here is either
//! read-only or is shown as text for the human to review and run deliberately.
use vstd::prelude::*;
use crate::avc::AggDenial;
use crate::order::holds_text;
use crate::text::chars_of;
use crate::text::join;
use crate::text::same_text;

verus! {

/// A category for color and labeling in the interface.
#[derive(Debug, Clone, Copy, PartialEq, Eq, Structural)]
pub enum HintKind {
    /// A strong root-cause hypothesis.
    Likely,
    /// A secondary possibility.
    Consider,
    /// Read-only commands to gather more evidence.
    Inspect,
    /// A safety reminder.
    Caution,
}

/// One suggestion.
pub struct Hint {
    pub kind: HintKind,
    pub text: String,
}

/// The kind and the text of a suggestion.
#[verifier::ext_equal]
pub struct HintView {
    pub kind: HintKind,
    pub text: Seq<char>,
}

impl View for Hint {
    type V = HintView;

    open spec fn view(&self) -> HintView {
        HintView { kind: self.kind, text: self.text@ }
    }
}

/// The views of a list of suggestions.
pub open spec fn hint_views(v: Seq<Hint>) -> Seq<HintView> {
    v.map_values(|h: Hint| h@)
}

// ---- what kind of denial it is -------------------------------------------

/// A target type that, on a confined daemon touching files or directories, very
/// often means that the object is mislabeled.
pub open spec fn suspicious_type(ty: Seq<char>) -> bool {
    ||| ty == "user_home_t"@
    ||| ty == "user_home_dir_t"@
    ||| ty == "admin_home_t"@
    ||| ty == "user_tmp_t"@
    ||| ty == "default_t"@
    ||| ty == "unlabeled_t"@
    ||| ty == "var_t"@
    ||| ty == "tmp_t"@
    ||| ty == "etc_runtime_t"@
}

/// Whether a target type points to a mislabeled object.
pub fn is_suspicious_type(ty: &str) -> (r: bool)
    ensures
        r == suspicious_type(ty@),
{
    same_text(ty, "user_home_t") || same_text(ty, "user_home_dir_t") || same_text(
        ty,
        "admin_home_t",
    ) || same_text(ty, "user_tmp_t") || same_text(ty, "default_t") || same_text(ty, "unlabeled_t")
        || same_text(ty, "var_t") || same_text(ty, "tmp_t") || same_text(ty, "etc_runtime_t")
}

/// A class of objects in a file system.
pub open spec fn file_class(tclass: Seq<char>) -> bool {
    ||| tclass == "file"@
    ||| tclass == "dir"@
    ||| tclass == "lnk_file"@
    ||| tclass == "chr_file"@
    ||| tclass == "blk_file"@
    ||| tclass == "fifo_file"@
    ||| tclass == "sock_file"@
}

/// Whether a class is one of objects in a file system.
pub fn is_file_class(tclass: &str) -> (r: bool)
    ensures
        r == file_class(tclass@),
{
    same_text(tclass, "file") || same_text(tclass, "dir") || same_text(tclass, "lnk_file")
        || same_text(tclass, "chr_file") || same_text(tclass, "blk_file") || same_text(
        tclass,
        "fifo_file",
    ) || same_text(tclass, "sock_file")
}

/// A class of network sockets.
pub open spec fn socket_class(tclass: Seq<char>) -> bool {
    ||| tclass == "tcp_socket"@
    ||| tclass == "udp_socket"@
    ||| tclass == "socket"@
    ||| tclass == "rawip_socket"@
}

/// Whether a class is one of network sockets.
pub fn is_socket_class(tclass: &str) -> (r: bool)
    ensures
        r == socket_class(tclass@),
{
    same_text(tclass, "tcp_socket") || same_text(tclass, "udp_socket") || same_text(
        tclass,
        "socket",
    ) || same_text(tclass, "rawip_socket")
}

/// The denial concerns the network: a socket, or connecting to or binding a port.
pub open spec fn network_denial(d: crate::avc::GroupView) -> bool {
    ||| socket_class(d.tclass)
    ||| d.perms.contains("name_connect"@)
    ||| d.perms.contains("name_bind"@)
}

/// Whether a denial concerns the network.
pub fn is_network_denial(d: &AggDenial) -> (r: bool)
    ensures
        r == network_denial(d@),
{
    is_socket_class(d.tclass.as_str()) || holds_text(&d.perms, "name_connect") || holds_text(
        &d.perms,
        "name_bind",
    )
}

/// The denial looks like that of a mislabeled file.
pub open spec fn mislabel_denial(d: crate::avc::GroupView) -> bool {
    file_class(d.tclass) && suspicious_type(d.tcontext.ty)
}

// ---- booleans ------------------------------------------------------------

/// The booleans most likely to be relevant to a denial, the first one foremost.
pub open spec fn booleans_of(d: crate::avc::GroupView) -> Seq<Seq<char>> {
    let s = d.scontext.ty;
    let connect = if s == "httpd_t"@ && network_denial(d) {
        seq!["httpd_can_network_connect"@, "httpd_can_network_connect_db"@]
    } else {
        Seq::empty()
    };
    let homes = if s == "httpd_t"@ && crate::text::occurs_at(d.tcontext.ty, "user_home"@, 0) {
        seq!["httpd_enable_homedirs"@, "httpd_read_user_content"@]
    } else {
        Seq::empty()
    };
    let nis = if network_denial(d) && (s == "httpd_t"@ || s == "nginx_t"@) {
        seq!["nis_enabled"@]
    } else {
        Seq::empty()
    };
    connect + homes + nis
}

fn push_text(out: &mut Vec<String>, s: &str)
    ensures
        crate::text::texts(final(out)@) == crate::text::texts(old(out)@).push(s@),
{
    let owned = s.to_owned();
    proof {
        crate::text::lemma_texts_push(out@, owned);
    }
    out.push(owned);
}

/// A tiny built-in map from a denial to the booleans most likely to be relevant.
/// Not exhaustive: just the ones people hit constantly.
pub fn relevant_booleans(d: &AggDenial) -> (out: Vec<String>)
    ensures
        crate::text::texts(out@) == booleans_of(d@),
{
    let mut out: Vec<String> = Vec::new();
    let s = d.scontext.ty.as_str();
    let networky = is_network_denial(d);
    assert(crate::text::texts(out@) =~= Seq::<Seq<char>>::empty());
    if same_text(s, "httpd_t") {
        if networky {
            push_text(&mut out, "httpd_can_network_connect");
            push_text(&mut out, "httpd_can_network_connect_db");
        }
        if crate::text::begins_with(chars_of(d.tcontext.ty.as_str()).as_slice(), "user_home") {
            push_text(&mut out, "httpd_enable_homedirs");
            push_text(&mut out, "httpd_read_user_content");
        }
    }
    if networky && (same_text(s, "httpd_t") || same_text(s, "nginx_t")) {
        push_text(&mut out, "nis_enabled");
    }
    assert(crate::text::texts(out@) =~= booleans_of(d@));
    out
}

// ---- texts of the suggestions --------------------------------------------

pub const GRANTED: &'static str = "This is a GRANTED record (logged because the access was audited, e.g. in permissive mode). It was not blocked.";

pub const COMPARE_LABELS: &'static str = "Compare actual vs expected label with  ls -Z <path>  and  matchpathcon <path>  (read-only).";

pub const LIST_PORTS: &'static str = "List port labels (read-only):  semanage port -l | grep <type>  -- e.g. to confirm which ports a type owns. A non-standard port is labeled with  semanage port -a -t <port_type> -p tcp <N>  (run yourself).";

pub const AUDIT2WHY: &'static str = "Confirm the cause category (read-only):  echo '<this denial>' | audit2why   -- it reports whether a boolean, a missing rule, or a constraint is responsible.";

pub const LAST_RESORT: &'static str = "Last resort only: audit2allow can generate a module, but it will happily grant access to a MISLABELED file. Rule out labels, ports and booleans first, and always read the .te before installing. This tool will not generate or install policy for you.";

/// The text that names a likely mislabel.
pub open spec fn mislabel_text(source: Seq<char>, target: Seq<char>) -> Seq<char> {
    "MISLABEL likely: a '"@ + source + "' process was denied on an object labeled '"@ + target
        + "'. That target type is a generic/home/default label, which usually means the file is in the wrong place or kept an old label after a mv/restore -- not that the service needs this access."@
}

/// The text that says how to compare the label of a path.
pub open spec fn compare_path_text(p: Seq<char>) -> Seq<char> {
    "Compare actual vs expected label:  ls -Z "@ + p + "   and   matchpathcon "@ + p
        + "   (both read-only). If they differ, the fix is to relabel, e.g.  restorecon -Rv "@ + p
        + "  -- run that yourself after confirming."@
}

/// The text that names a network problem.
pub open spec fn network_text(source: Seq<char>, perms: Seq<Seq<char>>, target: Seq<char>) -> Seq<
    char,
> {
    "NETWORK/PORT issue: '"@ + source + "' was denied '"@ + crate::text::joined(perms, " "@)
        + "' against '"@ + target
        + "'. Either the port needs labeling, or a boolean gates this connectivity."@
}

/// The text that names a boolean.
pub open spec fn boolean_text(b: Seq<char>) -> Seq<char> {
    "Possibly gated by a boolean. Check (read-only):  getsebool "@ + b
        + "  .  If the behavior is intended, enable persistently with  setsebool -P "@ + b
        + " on  (run yourself)."@
}

/// The text that asks the loaded policy.
pub open spec fn policy_text(source: Seq<char>, target: Seq<char>, tclass: Seq<char>) -> Seq<char> {
    "Ask the loaded policy whether the rule even exists (read-only):  sesearch -A -s "@ + source
        + " -t "@ + target + " -c "@ + tclass
}

// ---- the diagnosis -------------------------------------------------------

pub open spec fn hint(kind: HintKind, text: Seq<char>) -> HintView {
    HintView { kind, text }
}

/// What to say of a record that was granted.
pub open spec fn granted_hints(d: crate::avc::GroupView) -> Seq<HintView> {
    if d.outcome == "granted"@ {
        seq![hint(HintKind::Consider, GRANTED@)]
    } else {
        Seq::empty()
    }
}

/// What to say of a mislabel, the most common cause.
pub open spec fn label_hints(d: crate::avc::GroupView) -> Seq<HintView> {
    if mislabel_denial(d) {
        seq![
            hint(HintKind::Likely, mislabel_text(d.scontext.ty, d.tcontext.ty)),
            hint(
                HintKind::Inspect,
                if d.paths.len() > 0 {
                    compare_path_text(d.paths[0])
                } else {
                    COMPARE_LABELS@
                },
            ),
        ]
    } else {
        Seq::empty()
    }
}

/// What to say of ports and the network.
pub open spec fn network_hints(d: crate::avc::GroupView) -> Seq<HintView> {
    if network_denial(d) {
        seq![
            hint(HintKind::Likely, network_text(d.scontext.ty, d.perms, d.tcontext.ty)),
            hint(HintKind::Inspect, LIST_PORTS@),
        ]
    } else {
        Seq::empty()
    }
}

/// What to say of booleans.
pub open spec fn boolean_hints(bools: Seq<Seq<char>>) -> Seq<HintView> {
    if bools.len() == 0 {
        Seq::empty()
    } else if bools.len() == 1 {
        seq![hint(HintKind::Consider, boolean_text(bools[0]))]
    } else {
        seq![
            hint(HintKind::Consider, boolean_text(bools[0])),
            hint(
                HintKind::Consider,
                "Other booleans worth reviewing: "@ + crate::text::joined(bools.skip(1), ", "@),
            ),
        ]
    }
}

/// What is said of every denial: how to confirm the cause, and the safety net.
pub open spec fn closing_hints(d: crate::avc::GroupView) -> Seq<HintView> {
    seq![
        hint(HintKind::Inspect, AUDIT2WHY@),
        hint(HintKind::Inspect, policy_text(d.scontext.ty, d.tcontext.ty, d.tclass)),
        hint(HintKind::Caution, LAST_RESORT@),
    ]
}

/// The diagnosis of a denial.
pub open spec fn diagnosis(d: crate::avc::GroupView) -> Seq<HintView> {
    granted_hints(d) + label_hints(d) + network_hints(d) + boolean_hints(booleans_of(d))
        + closing_hints(d)
}

fn give(hints: &mut Vec<Hint>, kind: HintKind, text: String)
    ensures
        hint_views(final(hints)@) == hint_views(old(hints)@).push(hint(kind, text@)),
{
    let h = Hint { kind, text };
    assert(hint_views(hints@.push(h)) =~= hint_views(hints@).push(h@));
    hints.push(h);
}

fn give_labels(hints: &mut Vec<Hint>, d: &AggDenial)
    ensures
        hint_views(final(hints)@) == hint_views(old(hints)@) + label_hints(d@),
{
    if is_file_class(d.tclass.as_str()) && is_suspicious_type(d.tcontext.ty.as_str()) {
        let mut t = "MISLABEL likely: a '".to_owned();
        t.append(d.scontext.ty.as_str());
        t.append("' process was denied on an object labeled '");
        t.append(d.tcontext.ty.as_str());
        t.append(
            "'. That target type is a generic/home/default label, which usually means the file is in the wrong place or kept an old label after a mv/restore -- not that the service needs this access.",
        );
        give(hints, HintKind::Likely, t);
        if d.paths.len() > 0 {
            let p = d.paths[0].as_str();
            assert(d@.paths[0] == p@);
            let mut t = "Compare actual vs expected label:  ls -Z ".to_owned();
            t.append(p);
            t.append("   and   matchpathcon ");
            t.append(p);
            t.append(
                "   (both read-only). If they differ, the fix is to relabel, e.g.  restorecon -Rv ",
            );
            t.append(p);
            t.append("  -- run that yourself after confirming.");
            give(hints, HintKind::Inspect, t);
        } else {
            give(hints, HintKind::Inspect, COMPARE_LABELS.to_owned());
        }
    }
    assert(hint_views(hints@) =~= hint_views(old(hints)@) + label_hints(d@));
}

fn give_network(hints: &mut Vec<Hint>, d: &AggDenial)
    ensures
        hint_views(final(hints)@) == hint_views(old(hints)@) + network_hints(d@),
{
    if is_network_denial(d) {
        let mut t = "NETWORK/PORT issue: '".to_owned();
        t.append(d.scontext.ty.as_str());
        t.append("' was denied '");
        t.append(join(d.perms.as_slice(), " ").as_str());
        t.append("' against '");
        t.append(d.tcontext.ty.as_str());
        t.append("'. Either the port needs labeling, or a boolean gates this connectivity.");
        give(hints, HintKind::Likely, t);
        give(hints, HintKind::Inspect, LIST_PORTS.to_owned());
    }
    assert(hint_views(hints@) =~= hint_views(old(hints)@) + network_hints(d@));
}

fn give_booleans(hints: &mut Vec<Hint>, bools: &Vec<String>)
    ensures
        hint_views(final(hints)@) == hint_views(old(hints)@) + boolean_hints(
            crate::text::texts(bools@),
        ),
{
    if bools.len() > 0 {
        let b = bools[0].as_str();
        assert(crate::text::texts(bools@)[0] == b@);
        let mut t = "Possibly gated by a boolean. Check (read-only):  getsebool ".to_owned();
        t.append(b);
        t.append("  .  If the behavior is intended, enable persistently with  setsebool -P ");
        t.append(b);
        t.append(" on  (run yourself).");
        give(hints, HintKind::Consider, t);
        if bools.len() > 1 {
            let rest = vstd::slice::slice_subrange(bools.as_slice(), 1, bools.len());
            assert(crate::text::texts(rest@) =~= crate::text::texts(bools@).skip(1));
            let mut t = "Other booleans worth reviewing: ".to_owned();
            t.append(join(rest, ", ").as_str());
            give(hints, HintKind::Consider, t);
        }
    }
    assert(hint_views(hints@) =~= hint_views(old(hints)@) + boolean_hints(
        crate::text::texts(bools@),
    ));
}

/// Suggests where to look for the cause of a denial.
pub fn diagnose(d: &AggDenial) -> (hints: Vec<Hint>)
    ensures
        hint_views(hints@) == diagnosis(d@),
{
    let mut hints: Vec<Hint> = Vec::new();
    assert(hint_views(hints@) =~= Seq::<HintView>::empty());
    if same_text(d.outcome.as_str(), "granted") {
        give(&mut hints, HintKind::Consider, GRANTED.to_owned());
    }
    assert(hint_views(hints@) =~= granted_hints(d@));
    give_labels(&mut hints, d);
    give_network(&mut hints, d);
    give_booleans(&mut hints, &relevant_booleans(d));
    give(&mut hints, HintKind::Inspect, AUDIT2WHY.to_owned());
    let mut t =
        "Ask the loaded policy whether the rule even exists (read-only):  sesearch -A -s ".to_owned();
    t.append(d.scontext.ty.as_str());
    t.append(" -t ");
    t.append(d.tcontext.ty.as_str());
    t.append(" -c ");
    t.append(d.tclass.as_str());
    give(&mut hints, HintKind::Inspect, t);
    give(&mut hints, HintKind::Caution, LAST_RESORT.to_owned());
    assert(hint_views(hints@) =~= diagnosis(d@));
    hints
}

// ---- laws ----------------------------------------------------------------

/// Custom policy comes last: every diagnosis ends with its only caution, after
/// the two ways to confirm the cause.
pub proof fn custom_policy_comes_last(d: crate::avc::GroupView)
    ensures
        ({
            let h = diagnosis(d);
            let n = h.len() as int;
            &&& n >= 3
            &&& h.skip(n - 3) == closing_hints(d)
            &&& forall|i: int| 0 <= i < n ==> ((#[trigger] h[i]).kind == HintKind::Caution <==> i
                == n - 1)
        }),
{
    let h = diagnosis(d);
    assert(h.skip(h.len() - 3) =~= closing_hints(d));
}

/// A likely mislabel is named before anything else, except that a record was
/// granted.
pub proof fn label_comes_first(d: crate::avc::GroupView)
    requires
        mislabel_denial(d),
    ensures
        ({
            let at = granted_hints(d).len() as int;
            diagnosis(d).subrange(at, at + 2) == label_hints(d)
        }),
{
    let at = granted_hints(d).len() as int;
    assert(diagnosis(d).subrange(at, at + 2) =~= label_hints(d));
}

} // verus!
