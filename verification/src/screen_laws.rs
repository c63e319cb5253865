//! What holds of the screen: which facts of a state and of a group can be read on it,
//! and where its parts stand.
use vstd::prelude::*;
use crate::avc::GroupView;
use crate::hints::HintKind;
use crate::layout::Rect;
use crate::ranking::SortKey;
use crate::screen::Color;
use crate::screen::SpanView;
use crate::selinux::EnforceStatus;
use crate::selinux::Source;
use crate::state::AppView;
use crate::state::Mode;

verus! {

// ---- lines ---------------------------------------------------------------

/// A line is of one piece, with this text.
pub open spec fn is_line(line: Seq<SpanView>, text: Seq<char>) -> bool {
    line.len() == 1 && line[0].text == text
}

/// A line names a thing, in a column of its own, and gives its value.
pub open spec fn is_entry(line: Seq<SpanView>, name: Seq<char>, value: Seq<char>) -> bool {
    &&& line.len() == 2
    &&& name.is_prefix_of(line[0].text)
    &&& crate::laws::is_blank(line[0].text.skip(name.len() as int))
    &&& line[1].text == value
}

proof fn lemma_blanks(n: nat)
    ensures
        crate::text::blanks(n).len() == n,
        crate::laws::is_blank(crate::text::blanks(n)),
{
}

proof fn lemma_entry(
    name: Seq<char>,
    value: Seq<char>,
    color: Color,
)
    ensures
        is_entry(crate::screen::entry(name, value, color), name, value),
{
    let line = crate::screen::entry(name, value, color);
    let text = line[0].text;
    if name.len() >= 12 {
        assert(text.skip(name.len() as int) =~= Seq::<char>::empty());
        assert(name =~= text.take(name.len() as int));
    } else {
        let n = (12 - name.len()) as nat;
        lemma_blanks(n);
        assert(text.skip(name.len() as int) =~= crate::text::blanks(n));
    }
}

// ---- the header ----------------------------------------------------------

/// The name of a mode.
pub open spec fn names_mode(status: EnforceStatus, word: Seq<char>) -> bool {
    &&& status == EnforceStatus::Enforcing ==> word == "ENFORCING"@
    &&& status == EnforceStatus::Permissive ==> word == "PERMISSIVE"@
    &&& status == EnforceStatus::Disabled ==> word == "DISABLED"@
    &&& status == EnforceStatus::Unknown ==> word == "UNKNOWN"@
}

/// The header shows the mode, the number of groups, the number of records, the order
/// and, where there is one, the search. A mode that is made up is marked.
pub proof fn the_header_tells_the_totals(a: AppView)
    ensures
        ({
            let line = crate::screen::header(a);
            let (status, made_up) = crate::state::shown_status(a);
            &&& line.len() == 10
            &&& exists|word: Seq<char>|
                names_mode(status, word) && line[0].text == #[trigger] (" "@ + word) + if made_up {
                    " (demo) "@
                } else {
                    " "@
                }
            &&& line[2].text == "denials: "@
            &&& line[3].text == crate::number::decimal(a.denials.len())
            &&& line[4].text == " unique / "@
            &&& line[5].text == crate::number::decimal(a.total_raw as nat)
            &&& line[6].text == " total"@
            &&& line[7].text == "    sort: "@
            &&& a.sort == SortKey::Count ==> line[8].text == "count"@
            &&& a.sort == SortKey::LastSeen ==> line[8].text == "recent"@
            &&& a.sort == SortKey::SourceType ==> line[8].text == "src-type"@
            &&& a.search.len() == 0 ==> line[9].text.len() == 0
            &&& a.search.len() > 0 ==> line[9].text == "    filter: /"@ + a.search
        }),
{
    reveal_strlit("");
    let line = crate::screen::header(a);
    let (status, made_up) = crate::state::shown_status(a);
    assert(names_mode(status, status.name()));
    assert(line[0].text == (" "@ + status.name()) + if made_up {
        " (demo) "@
    } else {
        " "@
    });
}

/// The badge is bold and tells the modes apart by color: white on red for enforcing,
/// black on amber for permissive, white on grey for disabled, white on purple where the
/// mode is not known.
pub proof fn the_badge_is_colored_by_mode(a: AppView)
    ensures
        ({
            let (status, made_up) = crate::state::shown_status(a);
            let style = crate::screen::header(a)[0].style;
            &&& style.bold
            &&& style.fg is Some && style.bg is Some
            &&& status == EnforceStatus::Permissive ==> style.fg == Some(Color::Black)
            &&& status != EnforceStatus::Permissive ==> style.fg == Some(Color::White)
            &&& status == EnforceStatus::Enforcing ==> style.bg->0.components() == Some(
                (190u8, 40u8, 40u8),
            )
            &&& status == EnforceStatus::Permissive ==> style.bg->0.components() == Some(
                (200u8, 160u8, 30u8),
            )
            &&& status == EnforceStatus::Disabled ==> style.bg->0.components() == Some(
                (80u8, 80u8, 90u8),
            )
            &&& status == EnforceStatus::Unknown ==> style.bg->0.components() == Some(
                (120u8, 60u8, 160u8),
            )
        }),
{
}

// ---- the list ------------------------------------------------------------

/// There is one row for each group that is listed, in the order of the list, and the
/// title counts them.
pub proof fn each_listed_group_has_its_row(a: AppView)
    ensures
        crate::screen::rows(a).len() == a.filtered.len(),
        forall|k: int|
            0 <= k < a.filtered.len() ==> #[trigger] crate::screen::rows(a)[k]
                == crate::screen::row(a.denials[a.filtered[k] as int]@),
        a.filtered.len() == 0 ==> crate::screen::list_heading(a) == " no denials match "@,
        a.filtered.len() > 0 ==> crate::screen::list_heading(a) == " denials ("@
            + crate::number::decimal(a.filtered.len()) + ") "@,
{
}

/// What was granted stands out from what was denied by the color of the action; the two
/// types have colors of their own.
pub proof fn a_grant_has_another_color(d: GroupView)
    ensures
        ({
            let line = crate::screen::row(d);
            &&& d.outcome == "granted"@ ==> line[2].style.fg == Some(Color::Count)
            &&& d.outcome != "granted"@ ==> line[2].style.fg == Some(Color::Perm)
            &&& line[3].style.fg == Some(Color::Source)
            &&& line[5].style.fg == Some(Color::Target)
        }),
{
}

/// A row shows the size of its group, the program, the permissions, the two types and
/// the class. A name of up to ten characters is shown whole.
pub proof fn a_row_shows_its_group(d: GroupView)
    ensures
        ({
            let line = crate::screen::row(d);
            &&& line.len() == 7
            &&& ("×"@ + crate::number::decimal(d.count)).is_prefix_of(line[0].text)
            &&& crate::laws::is_blank(
                line[0].text.skip(("×"@ + crate::number::decimal(d.count)).len() as int),
            )
            &&& d.comm.len() <= 10 ==> d.comm.is_prefix_of(line[1].text) && crate::laws::is_blank(
                line[1].text.skip(d.comm.len() as int),
            )
            &&& d.comm.len() > 10 ==> line[1].text == d.comm.take(9).push('\u{2026}')
            &&& line[2].text == " {"@ + crate::text::joined(d.perms, " "@) + "} "@
            &&& line[3].text == d.scontext.ty
            &&& line[4].text == " → "@
            &&& line[5].text == d.tcontext.ty
            &&& line[6].text == " ["@ + d.tclass + "]"@
        }),
{
    reveal_strlit(" ");
    let line = crate::screen::row(d);
    let n = crate::number::decimal(d.count);
    let head = "×"@ + n;
    let text = line[0].text;
    if n.len() < 4 {
        lemma_blanks((4 - n.len()) as nat);
    }
    assert(text =~= head + text.skip(head.len() as int));
    assert(head =~= text.take(head.len() as int));
    assert forall|i: int| 0 <= i < text.skip(head.len() as int).len() implies crate::text::is_space(
        #[trigger] text.skip(head.len() as int)[i],
    ) by {
        let at = i + head.len();
        if at == text.len() - 1 {
            assert(text[at] == ' ');
        } else {
            assert(text[at] == crate::text::blanks((4 - n.len()) as nat)[i]);
        }
    }
    if d.comm.len() <= 10 {
        let m = (10 - d.comm.len()) as nat;
        lemma_blanks(m);
        assert(line[1].text.take(d.comm.len() as int) =~= d.comm);
        assert(line[1].text.skip(d.comm.len() as int) =~= crate::text::blanks(m));
    } else {
        assert(crate::screen::shortened(d.comm, 10).len() == 10);
    }
}

// ---- the detail ----------------------------------------------------------

/// How many lines the paths of a group take: a heading, up to eight paths, and one for
/// the rest.
pub open spec fn lines_of_paths(n: nat) -> int {
    if n == 0 {
        0
    } else if n <= 8 {
        n as int + 1
    } else {
        10
    }
}

/// The first lines of the detail: the summary, the outcome, the permissions, the class,
/// whether the system was permissive, and the parts of both contexts.
pub proof fn the_detail_tells_what_was_denied(d: GroupView)
    ensures
        ({
            let lines = crate::screen::group_detail(d);
            &&& lines.len() > 17
            &&& is_line(lines[0], d.summary())
            &&& is_entry(lines[2], "outcome"@, d.outcome)
            &&& is_entry(lines[3], "permission"@, crate::text::joined(d.perms, ", "@))
            &&& is_entry(lines[4], "class"@, d.tclass)
            &&& d.permissive == Some(true) ==> is_entry(
                lines[5],
                "permissive"@,
                "yes (was permissive)"@,
            )
            &&& d.permissive == Some(false) ==> is_entry(
                lines[5],
                "permissive"@,
                "no (enforcing)"@,
            )
            &&& d.permissive is None ==> is_entry(lines[5], "permissive"@, "n/a"@)
            &&& is_line(lines[7], "subject (scontext)"@)
            &&& is_entry(lines[8], "  user"@, d.scontext.user)
            &&& is_entry(lines[9], "  role"@, d.scontext.role)
            &&& is_entry(lines[10], "  type"@, d.scontext.ty)
            &&& is_entry(lines[11], "  level"@, d.scontext.level)
            &&& is_line(lines[12], "target (tcontext)"@)
            &&& is_entry(lines[13], "  user"@, d.tcontext.user)
            &&& is_entry(lines[14], "  role"@, d.tcontext.role)
            &&& is_entry(lines[15], "  type"@, d.tcontext.ty)
            &&& is_entry(lines[16], "  level"@, d.tcontext.level)
        }),
{
    let what = crate::screen::detail_what(d);
    let subject = crate::screen::detail_context(
        "subject (scontext)"@,
        d.scontext,
        Color::Source,
    );
    let target = crate::screen::detail_context(
        "target (tcontext)"@,
        d.tcontext,
        Color::Target,
    );
    let lines = crate::screen::group_detail(d);
    assert(lines.take(17) =~= what + subject + target);
    assert forall|i: int| 0 <= i < 17 implies lines[i] == #[trigger] (what + subject + target)[i] by {
        assert(lines[i] == lines.take(17)[i]);
    }
    assert(lines[0] == what[0]);
    assert(lines[2] == what[2] && lines[3] == what[3] && lines[4] == what[4]);
    assert(lines[5] == what[5]);
    assert(lines[7] == subject[0] && lines[8] == subject[1] && lines[9] == subject[2]);
    assert(lines[10] == subject[3] && lines[11] == subject[4]);
    assert(lines[12] == target[0] && lines[13] == target[1] && lines[14] == target[2]);
    assert(lines[15] == target[3] && lines[16] == target[4]);
    let dim = Color::Dim;
    let perm = Color::Perm;
    lemma_entry("outcome"@, d.outcome, perm);
    lemma_entry("permission"@, crate::text::joined(d.perms, ", "@), perm);
    lemma_entry("class"@, d.tclass, Color::White);
    lemma_entry("permissive"@, crate::screen::permissive_words(d.permissive), dim);
    lemma_entry("  user"@, d.scontext.user, dim);
    lemma_entry("  role"@, d.scontext.role, dim);
    lemma_entry("  type"@, d.scontext.ty, Color::Source);
    lemma_entry("  level"@, d.scontext.level, dim);
    lemma_entry("  user"@, d.tcontext.user, dim);
    lemma_entry("  role"@, d.tcontext.role, dim);
    lemma_entry("  type"@, d.tcontext.ty, Color::Target);
    lemma_entry("  level"@, d.tcontext.level, dim);
}

/// The detail then tells how often the denial came, when first and last, from how many
/// processes, and on which paths: the first eight by name, and how many there are beyond.
pub proof fn the_detail_tells_how_often_and_where(d: GroupView)
    ensures
        ({
            let lines = crate::screen::group_detail(d);
            &&& lines.len() > 22 + lines_of_paths(d.paths.len())
            &&& is_entry(
                lines[18],
                "occurrences"@,
                crate::number::decimal(d.count) + " (de-duplicated)"@,
            )
            &&& is_entry(lines[19], "first seen"@, crate::time::time_text(d.first_ts))
            &&& is_entry(lines[20], "last seen"@, crate::time::time_text(d.last_ts))
            &&& is_entry(lines[21], "distinct pids"@, crate::number::decimal(d.pids.len()))
            &&& d.paths.len() > 0 ==> is_line(
                lines[22],
                "paths ("@ + crate::number::decimal(d.paths.len()) + ")"@,
            )
            &&& forall|i: int|
                0 <= i < d.paths.len() && i < 8 ==> is_line(
                    #[trigger] lines[23 + i],
                    "  "@ + d.paths[i],
                )
            &&& d.paths.len() > 8 ==> is_line(
                lines[31],
                "  … and "@ + crate::number::decimal((d.paths.len() - 8) as nat) + " more"@,
            )
        }),
{
    let top = crate::screen::detail_what(d) + crate::screen::detail_context(
        "subject (scontext)"@,
        d.scontext,
        Color::Source,
    ) + crate::screen::detail_context(
        "target (tcontext)"@,
        d.tcontext,
        Color::Target,
    );
    let counts = crate::screen::detail_counts(d);
    let paths = crate::screen::detail_paths(d.paths);
    let lines = crate::screen::group_detail(d);
    assert(top.len() == 17 && counts.len() == 5);
    assert(paths.len() == lines_of_paths(d.paths.len()));
    let n = 22 + paths.len();
    assert(lines.take(n as int) =~= top + counts + paths);
    assert forall|i: int| 0 <= i < 5 implies lines[17 + i] == #[trigger] counts[i] by {
        assert(lines[17 + i] == lines.take(n as int)[17 + i]);
    }
    assert forall|i: int| 0 <= i < paths.len() implies lines[22 + i] == #[trigger] paths[i] by {
        assert(lines[22 + i] == lines.take(n as int)[22 + i]);
    }
    assert(lines[18] == counts[1] && lines[19] == counts[2]);
    assert(lines[20] == counts[3] && lines[21] == counts[4]);
    let dim = Color::Dim;
    lemma_entry(
        "occurrences"@,
        crate::number::decimal(d.count) + " (de-duplicated)"@,
        Color::Count,
    );
    lemma_entry("first seen"@, crate::time::time_text(d.first_ts), dim);
    lemma_entry("last seen"@, crate::time::time_text(d.last_ts), dim);
    lemma_entry("distinct pids"@, crate::number::decimal(d.pids.len()), dim);
    if d.paths.len() > 0 {
        assert(lines[22] == paths[0]);
        crate::screen::detail_accounts_for_every_path(d.paths);
        assert forall|i: int| 0 <= i < d.paths.len() && i < 8 implies is_line(
            #[trigger] lines[23 + i],
            "  "@ + d.paths[i],
        ) by {
            assert(lines[22 + (i + 1)] == paths[i + 1]);
        }
        if d.paths.len() > 8 {
            assert(lines[22int + 9] == paths[9]);
        }
    }
}

proof fn lemma_hint_lines(hints: Seq<crate::hints::HintView>, n: int, k: int)
    requires
        0 <= n <= hints.len(),
    ensures
        crate::screen::hint_lines(hints, n).len() == 2 * n,
        0 <= k < n ==> {
            let lines = crate::screen::hint_lines(hints, n);
            &&& is_line(lines[2 * k], crate::screen::hint_mark(hints[k].kind).0)
            &&& is_line(lines[2 * k + 1], "  "@ + hints[k].text)
        },
    decreases n,
{
    if n > 0 {
        lemma_hint_lines(hints, n - 1, k);
    }
}

/// The mark in front of a suggestion tells its kind.
pub open spec fn marks(kind: HintKind, mark: Seq<char>) -> bool {
    match kind {
        HintKind::Likely => mark == "◆ likely  "@,
        HintKind::Consider => mark == "○ consider"@,
        HintKind::Inspect => mark == "» inspect "@,
        HintKind::Caution => mark == "! caution "@,
    }
}

/// Every suggestion of the diagnosis is shown in the detail, in its place and under the
/// mark of its kind, and the last line is the record that opened the group.
pub proof fn the_detail_shows_the_whole_diagnosis(d: GroupView, k: int)
    requires
        0 <= k < crate::hints::diagnosis(d).len(),
    ensures
        ({
            let lines = crate::screen::group_detail(d);
            let hints = crate::hints::diagnosis(d);
            let at = 24 + lines_of_paths(d.paths.len());
            &&& lines.len() == at + 2 * hints.len() + 3
            &&& is_line(lines[at - 1], "── diagnosis (read-only suggestions) ──"@)
            &&& exists|mark: Seq<char>|
                marks(hints[k].kind, mark) && #[trigger] is_line(lines[at + 2 * k], mark)
            &&& is_line(lines[at + 2 * k + 1], "  "@ + hints[k].text)
            &&& is_line(lines[lines.len() - 2], "raw record"@)
            &&& is_line(lines.last(), d.sample_raw)
        }),
{
    let hints = crate::hints::diagnosis(d);
    let front = crate::screen::detail_what(d) + crate::screen::detail_context(
        "subject (scontext)"@,
        d.scontext,
        Color::Source,
    ) + crate::screen::detail_context(
        "target (tcontext)"@,
        d.tcontext,
        Color::Target,
    ) + crate::screen::detail_counts(d) + crate::screen::detail_paths(d.paths);
    let shown = crate::screen::hint_lines(hints, hints.len() as int);
    let middle = crate::screen::detail_hints(hints);
    let back = crate::screen::detail_raw(d.sample_raw);
    let lines = crate::screen::group_detail(d);
    lemma_hint_lines(hints, hints.len() as int, k);
    assert(crate::screen::detail_paths(d.paths).len() == lines_of_paths(d.paths.len()));
    assert(lines == front + middle + back);
    let at = 24 + lines_of_paths(d.paths.len());
    assert(front.len() == at - 2);
    assert(lines[at - 1] == middle[1]);
    assert(lines[at + 2 * k] == middle[2 + 2 * k]);
    assert(middle[2 + 2 * k] == shown[2 * k]);
    assert(lines[at + 2 * k + 1] == middle[2 + (2 * k + 1)]);
    assert(middle[2 + (2 * k + 1)] == shown[2 * k + 1]);
    assert(lines[lines.len() - 2] == back[1]);
    assert(lines.last() == back[2]);
    let mark = crate::screen::hint_mark(hints[k].kind).0;
    assert(marks(hints[k].kind, mark));
    assert(is_line(lines[at + 2 * k], mark));
}

/// The detail is that of the selected group; without one it says so.
pub proof fn the_detail_is_that_of_the_selection(a: AppView)
    ensures
        a.filtered.len() > 0 ==> crate::screen::detail(a) == crate::screen::group_detail(
            a.denials[a.filtered[a.selected as int] as int]@,
        ),
        a.filtered.len() == 0 ==> crate::screen::detail(a).len() == 1 && is_line(
            crate::screen::detail(a)[0],
            "no denial selected"@,
        ),
{
}

// ---- the footer ----------------------------------------------------------

/// A source in words.
pub open spec fn tells_source(source: Source, words: Seq<char>) -> bool {
    match source {
        Source::Demo => words == "built-in demo data"@,
        Source::File(path) => words == "file: "@ + path@,
        Source::Stdin => words == "stdin"@,
        Source::Ausearch => words == "ausearch -m AVC,USER_AVC,SELINUX_ERR"@,
        Source::AuditLog => words == "/var/log/audit/audit.log"@,
    }
}

/// While a search or a command is typed the footer shows what was typed so far; else it
/// names the source and shows the last message, or the keys where there is none.
pub proof fn the_footer_follows_the_mode(a: AppView)
    ensures
        ({
            let line = crate::screen::footer(a);
            &&& a.mode == Mode::Search ==> line[0].text == "/"@ && line[1].text == a.search
            &&& a.mode == Mode::Command ==> line[0].text == a.command
            &&& a.mode != Mode::Search && a.mode != Mode::Command ==> {
                &&& exists|words: Seq<char>|
                    tells_source(a.source, words) && line[0].text == #[trigger] (words + "  "@)
                &&& a.message.len() > 0 ==> line[2].text == a.message
                &&& a.message.len() == 0 ==> line[2].text == crate::screen::KEYS@
            }
        }),
{
    let line = crate::screen::footer(a);
    let words = a.source.description();
    assert(tells_source(a.source, words));
    if a.mode != Mode::Search && a.mode != Mode::Command {
        assert(line[0].text == words + "  "@);
    }
}

// ---- the help ------------------------------------------------------------

/// A line of the help names a key, in a column of its own, and says what it does.
pub open spec fn explains(line: Seq<SpanView>, key: Seq<char>, what: Seq<char>) -> bool {
    &&& line.len() == 2
    &&& ("  "@ + key).is_prefix_of(line[0].text)
    &&& crate::laws::is_blank(line[0].text.skip(("  "@ + key).len() as int))
    &&& line[1].text == what
}

proof fn lemma_explains(key: Seq<char>, what: Seq<char>)
    ensures
        explains(crate::screen::help_entry(key, what), key, what),
{
    let text = crate::screen::help_entry(key, what)[0].text;
    let head = "  "@ + key;
    if key.len() >= 14 {
        assert(text.skip(head.len() as int) =~= Seq::<char>::empty());
        assert(head =~= text.take(head.len() as int));
    } else {
        let n = (14 - key.len()) as nat;
        lemma_blanks(n);
        assert(text.skip(head.len() as int) =~= crate::text::blanks(n));
        assert(head =~= text.take(head.len() as int));
    }
}

/// The help explains the keys: those to move with, and those that open, search, sort,
/// reload, command and quit.
pub proof fn the_help_explains_the_keys()
    ensures
        ({
            let moves = crate::screen::help_navigation();
            let views = crate::screen::help_views();
            &&& explains(moves[1], "j / k"@, "down / up"@)
            &&& explains(moves[2], "g / G"@, "jump to top / bottom"@)
            &&& explains(moves[3], "Ctrl-d / -u"@, "half page (or scroll detail)"@)
            &&& explains(views[1], "l / Enter"@, "open detail for selected denial"@)
            &&& explains(views[2], "h / Esc"@, "back out of detail / clear filter"@)
            &&& explains(views[3], "/"@, "incremental search (Enter keep, Esc clear)"@)
            &&& explains(views[4], "s"@, "cycle sort: count → recent → src-type"@)
            &&& explains(views[5], "r"@, "reload from source"@)
            &&& explains(views[6], ":"@, "command line — :q :sort :reload :help"@)
            &&& explains(views[7], "?"@, "toggle this help"@)
            &&& explains(views[8], "q"@, "quit (or close detail)"@)
        }),
{
    lemma_explains("j / k"@, "down / up"@);
    lemma_explains("g / G"@, "jump to top / bottom"@);
    lemma_explains("Ctrl-d / -u"@, "half page (or scroll detail)"@);
    lemma_explains("l / Enter"@, "open detail for selected denial"@);
    lemma_explains("h / Esc"@, "back out of detail / clear filter"@);
    lemma_explains("/"@, "incremental search (Enter keep, Esc clear)"@);
    lemma_explains("s"@, "cycle sort: count → recent → src-type"@);
    lemma_explains("r"@, "reload from source"@);
    lemma_explains(":"@, "command line — :q :sort :reload :help"@);
    lemma_explains("?"@, "toggle this help"@);
    lemma_explains("q"@, "quit (or close detail)"@);
}

// ---- the parts of the screen ---------------------------------------------

/// Nothing but the size of the screen and the mode bears on where the parts stand. On a
/// screen of three rows or more the header, the list and the footer follow each other
/// from the first row to the last, as wide as the screen; the footer has one row, the
/// list one at least, and the header three where there are five.
pub proof fn the_parts_fill_the_screen(mode: Mode, screen: Rect, rows: Seq<Rect>)
    requires
        crate::layout::are_screen_rows(screen, rows),
        screen.bottom() - screen.y >= 3,
    ensures
        ({
            let areas = crate::layout::placed(mode, screen, rows);
            let (header, list, footer) = (areas.header, areas.list, areas.footer);
            &&& header.y == screen.y
            &&& header.y + header.height == list.y
            &&& list.y + list.height == footer.y
            &&& footer.y + footer.height == screen.bottom()
            &&& footer.height == 1
            &&& list.height >= 1
            &&& screen.bottom() - screen.y >= 5 ==> header.height == 3
            &&& header.x == screen.x && header.width == screen.width
            &&& footer.x == screen.x && footer.width == screen.width
            &&& list.x == screen.x
            &&& mode != Mode::Detail ==> list.width == screen.width
        }),
{
}

/// The detail stands beside the list in the detail, and only there; the two share the
/// width, the list having 46 hundredths of it but for half a cell.
pub proof fn the_detail_stands_beside_the_list(mode: Mode, screen: Rect, rows: Seq<Rect>)
    ensures
        ({
            let areas = crate::layout::placed(mode, screen, rows);
            let width = rows[1].right() - rows[1].x;
            &&& areas.detail is Some <==> mode == Mode::Detail
            &&& mode == Mode::Detail ==> {
                let (list, detail) = (areas.list, areas.detail->0);
                &&& list.x == rows[1].x
                &&& list.x + list.width == detail.x
                &&& detail.x + detail.width == rows[1].right()
                &&& list.y == detail.y == rows[1].y
                &&& list.height == detail.height == rows[1].height
                &&& -50 <= 100 * list.width - 46 * width <= 50
            }
        }),
{
}

/// The middle of an area begins and ends at its share of the width and of the height,
/// but for half a cell, the margins being the same on both sides.
pub proof fn the_middle_has_equal_margins(pct_x: u16, pct_y: u16, area: Rect)
    requires
        pct_x <= 100,
        pct_y <= 100,
    ensures
        ({
            let r = crate::layout::middle(pct_x, pct_y, area);
            let (width, height) = (area.right() - area.x, area.bottom() - area.y);
            let (mx, my) = ((100 - pct_x) / 2, (100 - pct_y) / 2);
            &&& -50 <= 100 * (r.x - area.x) - width * mx <= 50
            &&& -50 <= 100 * (r.x + r.width - area.x) - width * (mx + pct_x) <= 50
            &&& -50 <= 100 * (r.y - area.y) - height * my <= 50
            &&& -50 <= 100 * (r.y + r.height - area.y) - height * (my + pct_y) <= 50
        }),
{
    let (width, height) = (area.right() - area.x, area.bottom() - area.y);
    let (mx, my) = ((100 - pct_x) / 2, (100 - pct_y) / 2);
    assert(0 <= width * mx <= width * (mx + pct_x) <= width * 100) by (nonlinear_arith)
        requires
            width >= 0,
            0 <= mx,
            mx + pct_x <= 100,
    ;
    assert(0 <= height * my <= height * (my + pct_y) <= height * 100) by (nonlinear_arith)
        requires
            height >= 0,
            0 <= my,
            my + pct_y <= 100,
    ;
}

/// The help stands over the screen while it is open, and only then; it leaves 18
/// hundredths of the width free on each side and ten hundredths of the height above and
/// below, but for half a cell.
pub proof fn the_help_stands_in_the_middle(mode: Mode, screen: Rect, rows: Seq<Rect>)
    ensures
        ({
            let areas = crate::layout::placed(mode, screen, rows);
            let (width, height) = (screen.right() - screen.x, screen.bottom() - screen.y);
            &&& areas.help is Some <==> mode == Mode::Help
            &&& mode == Mode::Help ==> {
                let help = areas.help->0;
                let left = help.x - screen.x;
                let right = screen.right() - (help.x + help.width);
                let above = help.y - screen.y;
                let below = screen.bottom() - (help.y + help.height);
                &&& -50 <= 100 * left - 18 * width <= 50
                &&& -50 <= 100 * right - 18 * width <= 50
                &&& -50 <= 100 * above - 10 * height <= 50
                &&& -50 <= 100 * below - 10 * height <= 50
            }
        }),
{
    let (width, height) = (screen.right() - screen.x, screen.bottom() - screen.y);
    assert((100 - 64u16) / 2 == 18 && (100 - 80u16) / 2 == 10);
    let (left, right) = (
        crate::layout::part_way(screen.x as int, width, 18),
        crate::layout::part_way(screen.x as int, width, 82),
    );
    let (top, bottom) = (
        crate::layout::part_way(screen.y as int, height, 10),
        crate::layout::part_way(screen.y as int, height, 90),
    );
    assert(screen.x <= left <= right <= screen.right());
    assert(screen.y <= top <= bottom <= screen.bottom());
    let help = crate::layout::middle(64, 80, screen);
    assert(help.x == left && help.x + help.width == right);
    assert(help.y == top && help.y + help.height == bottom);
}

} // verus!
