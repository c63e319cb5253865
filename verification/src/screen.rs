//! What is on the screen: the texts and colors of its parts.
use vstd::prelude::*;
use crate::avc::AggDenial;
use crate::hints::diagnose;
use crate::hints::Hint;
use crate::hints::HintKind;
use crate::number::to_decimal;
use crate::selinux::EnforceStatus;
use crate::state::App;
use crate::state::Mode;
use crate::text::chars_of;
use crate::text::join;
use crate::text::pad_right;
use crate::text::same_text;
use crate::text::text_of;
use crate::time::fmt_time;

verus! {

// ---- colors and spans ----------------------------------------------------

/// The colors in use, by what they mark.
#[derive(Debug, Clone, Copy, PartialEq, Eq, Structural)]
pub enum Color {
    Accent,
    /// The type of a subject.
    Source,
    /// The type of a target.
    Target,
    /// The action.
    Perm,
    Dim,
    Count,
    Caution,
    EnforcingBadge,
    PermissiveBadge,
    DisabledBadge,
    UnknownBadge,
    /// The background of the selected row.
    Selection,
    White,
    Black,
}

impl Color {
    /// The red, green and blue of a color; `None` for the white and the black of
    /// the terminal.
    pub open spec fn components(self) -> Option<(u8, u8, u8)> {
        match self {
            Color::Accent => Some((122, 162, 247)),
            Color::Source => Some((125, 207, 255)),
            Color::Target => Some((224, 175, 104)),
            Color::Perm => Some((247, 118, 142)),
            Color::Dim => Some((120, 124, 150)),
            Color::Count => Some((158, 206, 106)),
            Color::Caution => Some((187, 154, 247)),
            Color::EnforcingBadge => Some((190, 40, 40)),
            Color::PermissiveBadge => Some((200, 160, 30)),
            Color::DisabledBadge => Some((80, 80, 90)),
            Color::UnknownBadge => Some((120, 60, 160)),
            Color::Selection => Some((45, 50, 80)),
            Color::White => None,
            Color::Black => None,
        }
    }

    /// The red, green and blue of a color.
    pub fn rgb(&self) -> (r: Option<(u8, u8, u8)>)
        ensures
            r == self.components(),
    {
        match self {
            Color::Accent => Some((122, 162, 247)),
            Color::Source => Some((125, 207, 255)),
            Color::Target => Some((224, 175, 104)),
            Color::Perm => Some((247, 118, 142)),
            Color::Dim => Some((120, 124, 150)),
            Color::Count => Some((158, 206, 106)),
            Color::Caution => Some((187, 154, 247)),
            Color::EnforcingBadge => Some((190, 40, 40)),
            Color::PermissiveBadge => Some((200, 160, 30)),
            Color::DisabledBadge => Some((80, 80, 90)),
            Color::UnknownBadge => Some((120, 60, 160)),
            Color::Selection => Some((45, 50, 80)),
            Color::White => None,
            Color::Black => None,
        }
    }
}

/// How a text is drawn.
#[derive(Debug, Clone, Copy, PartialEq, Eq, Structural)]
pub struct Style {
    pub fg: Option<Color>,
    pub bg: Option<Color>,
    pub bold: bool,
    pub italic: bool,
}

/// As the terminal draws by itself.
#[verifier::allow_in_spec]
pub fn plain() -> Style
    returns
        (Style { fg: None, bg: None, bold: false, italic: false }),
{
    Style { fg: None, bg: None, bold: false, italic: false }
}

/// In a color.
#[verifier::allow_in_spec]
pub fn tinted(c: Color) -> Style
    returns
        (Style { fg: Some(c), bg: None, bold: false, italic: false }),
{
    Style { fg: Some(c), bg: None, bold: false, italic: false }
}

/// In a color, and bold.
#[verifier::allow_in_spec]
pub fn bold(c: Color) -> Style
    returns
        (Style { fg: Some(c), bg: None, bold: true, italic: false }),
{
    Style { fg: Some(c), bg: None, bold: true, italic: false }
}

/// In a color, and italic.
#[verifier::allow_in_spec]
pub fn italic(c: Color) -> Style
    returns
        (Style { fg: Some(c), bg: None, bold: false, italic: true }),
{
    Style { fg: Some(c), bg: None, bold: false, italic: true }
}

/// A piece of a line, drawn in one way.
#[derive(Debug)]
pub struct Span {
    pub text: String,
    pub style: Style,
}

/// The text and the style of a piece.
#[verifier::ext_equal]
pub struct SpanView {
    pub text: Seq<char>,
    pub style: Style,
}

impl View for Span {
    type V = SpanView;

    open spec fn view(&self) -> SpanView {
        SpanView { text: self.text@, style: self.style }
    }
}

/// A piece of a line.
pub open spec fn sp(text: Seq<char>, style: Style) -> SpanView {
    SpanView { text, style }
}

/// The views of the pieces of a line.
pub open spec fn spans(line: Seq<Span>) -> Seq<SpanView> {
    line.map_values(|s: Span| s@)
}

/// The views of lines.
pub open spec fn line_views(lines: Seq<Vec<Span>>) -> Seq<Seq<SpanView>> {
    lines.map_values(|l: Vec<Span>| spans(l@))
}

fn put(line: &mut Vec<Span>, text: &str, style: Style)
    ensures
        spans(final(line)@) == spans(old(line)@).push(sp(text@, style)),
{
    let s = Span { text: text.to_owned(), style };
    assert(spans(line@.push(s)) =~= spans(line@).push(s@));
    line.push(s);
}

fn start() -> (line: Vec<Span>)
    ensures
        spans(line@) == Seq::<SpanView>::empty(),
{
    let line: Vec<Span> = Vec::new();
    assert(spans(line@) =~= Seq::<SpanView>::empty());
    line
}

fn put_line(lines: &mut Vec<Vec<Span>>, line: Vec<Span>)
    ensures
        line_views(final(lines)@) == line_views(old(lines)@).push(spans(line@)),
{
    assert(line_views(lines@.push(line)) =~= line_views(lines@).push(spans(line@)));
    lines.push(line);
}

/// Appends a line of one piece.
fn put_text(lines: &mut Vec<Vec<Span>>, text: &str, style: Style)
    ensures
        line_views(final(lines)@) == line_views(old(lines)@).push(seq![sp(text@, style)]),
{
    let mut line = start();
    put(&mut line, text, style);
    assert(spans(line@) =~= seq![sp(text@, style)]);
    put_line(lines, line);
}

/// Appends an empty line.
fn put_gap(lines: &mut Vec<Vec<Span>>)
    ensures
        line_views(final(lines)@) == line_views(old(lines)@).push(Seq::<SpanView>::empty()),
{
    put_line(lines, start());
}

// ---- helpers -------------------------------------------------------------

/// `s` if it has at most `max` characters; else its first `max - 1` characters
/// and an ellipsis.
pub open spec fn shortened(s: Seq<char>, max: nat) -> Seq<char> {
    if s.len() <= max {
        s
    } else {
        s.take(
            if max == 0 {
                0
            } else {
                max - 1
            },
        ).push('\u{2026}')
    }
}

/// Shortens a string to at most `max` characters, of which the last is then an
/// ellipsis. With no room at all the ellipsis stands alone.
pub fn truncate(s: &str, max: usize) -> (out: String)
    ensures
        out@ == shortened(s@, max as nat),
{
    let chars = chars_of(s);
    if chars.len() <= max {
        return s.to_owned();
    }
    let keep: usize = if max == 0 {
        0
    } else {
        max - 1
    };
    let mut out = text_of(vstd::slice::slice_subrange(chars.as_slice(), 0, keep));
    out.push('\u{2026}');
    assert(out@ =~= shortened(s@, max as nat));
    out
}

// ---- header --------------------------------------------------------------

/// The title of the window.
pub const TITLE: &'static str = " avcscope — SELinux denial analyzer (read-only) ";

/// The background and the foreground of the status badge.
pub open spec fn badge_colors(status: EnforceStatus) -> (Color, Color) {
    match status {
        EnforceStatus::Enforcing => (Color::EnforcingBadge, Color::White),
        EnforceStatus::Permissive => (Color::PermissiveBadge, Color::Black),
        EnforceStatus::Disabled => (Color::DisabledBadge, Color::White),
        EnforceStatus::Unknown => (Color::UnknownBadge, Color::White),
    }
}

/// The status badge: red for enforcing, amber for permissive, grey for disabled.
pub open spec fn badge(status: EnforceStatus, synthetic: bool) -> SpanView {
    let (bg, fg) = badge_colors(status);
    sp(
        " "@ + status.name() + if synthetic {
            " (demo) "@
        } else {
            " "@
        },
        Style { fg: Some(fg), bg: Some(bg), bold: true, italic: false },
    )
}

/// The line of the header: the badge, the running totals, the order and the
/// search.
pub open spec fn header(a: crate::state::AppView) -> Seq<SpanView> {
    let (status, synthetic) = crate::state::shown_status(a);
    seq![
        badge(status, synthetic),
        sp("  "@, plain()),
        sp("denials: "@, tinted(Color::Dim)),
        sp(crate::number::decimal(a.denials.len()), bold(Color::Count)),
        sp(" unique / "@, tinted(Color::Dim)),
        sp(crate::number::decimal(a.total_raw as nat), bold(Color::White)),
        sp(" total"@, tinted(Color::Dim)),
        sp("    sort: "@, tinted(Color::Dim)),
        sp(a.sort.name(), tinted(Color::Accent)),
        if a.search.len() == 0 {
            sp(""@, plain())
        } else {
            sp("    filter: /"@ + a.search, tinted(Color::Target))
        },
    ]
}

/// The line of the header.
pub fn header_line(app: &App) -> (line: Vec<Span>)
    ensures
        spans(line@) == header(app@),
{
    let (status, synthetic) = app.display_status();
    let (bg, fg) = match status {
        EnforceStatus::Enforcing => (Color::EnforcingBadge, Color::White),
        EnforceStatus::Permissive => (Color::PermissiveBadge, Color::Black),
        EnforceStatus::Disabled => (Color::DisabledBadge, Color::White),
        EnforceStatus::Unknown => (Color::UnknownBadge, Color::White),
    };
    let mut text = " ".to_owned();
    text.append(status.label());
    text.append(
        if synthetic {
            " (demo) "
        } else {
            " "
        },
    );
    let mut line = start();
    put(
        &mut line,
        text.as_str(),
        Style { fg: Some(fg), bg: Some(bg), bold: true, italic: false },
    );
    put(&mut line, "  ", plain());
    put(&mut line, "denials: ", tinted(Color::Dim));
    put(&mut line, to_decimal(app.denials.len() as u64).as_str(), bold(Color::Count));
    put(&mut line, " unique / ", tinted(Color::Dim));
    put(&mut line, to_decimal(app.total_raw as u64).as_str(), bold(Color::White));
    put(&mut line, " total", tinted(Color::Dim));
    put(&mut line, "    sort: ", tinted(Color::Dim));
    put(&mut line, app.sort.label(), tinted(Color::Accent));
    if app.search.as_str().is_empty() {
        put(&mut line, "", plain());
    } else {
        let mut filter = "    filter: /".to_owned();
        filter.append(app.search.as_str());
        put(&mut line, filter.as_str(), tinted(Color::Target));
    }
    assert(spans(line@) =~= header(app@));
    line
}

// ---- list ----------------------------------------------------------------

/// The row of a group in the list.
pub open spec fn row(d: crate::avc::GroupView) -> Seq<SpanView> {
    let perm = if d.outcome == "granted"@ {
        Color::Count
    } else {
        Color::Perm
    };
    seq![
        sp("×"@ + crate::text::padded(crate::number::decimal(d.count), 4) + " "@, bold(Color::Count)),
        sp(crate::text::padded(shortened(d.comm, 10), 10), tinted(Color::White)),
        sp(" {"@ + crate::text::joined(d.perms, " "@) + "} "@, tinted(perm)),
        sp(d.scontext.ty, tinted(Color::Source)),
        sp(" → "@, tinted(Color::Dim)),
        sp(d.tcontext.ty, tinted(Color::Target)),
        sp(" ["@ + d.tclass + "]"@, tinted(Color::Dim)),
    ]
}

/// The row of a group in the list.
pub fn row_line(d: &AggDenial) -> (line: Vec<Span>)
    ensures
        spans(line@) == row(d@),
{
    let perm = if same_text(d.outcome.as_str(), "granted") {
        Color::Count
    } else {
        Color::Perm
    };
    let mut line = start();
    let mut count = "×".to_owned();
    count.append(pad_right(to_decimal(d.count as u64).as_str(), 4).as_str());
    count.append(" ");
    put(&mut line, count.as_str(), bold(Color::Count));
    put(
        &mut line,
        pad_right(truncate(d.comm.as_str(), 10).as_str(), 10).as_str(),
        tinted(Color::White),
    );
    let mut perms = " {".to_owned();
    perms.append(join(d.perms.as_slice(), " ").as_str());
    perms.append("} ");
    put(&mut line, perms.as_str(), tinted(perm));
    put(&mut line, d.scontext.ty.as_str(), tinted(Color::Source));
    put(&mut line, " → ", tinted(Color::Dim));
    put(&mut line, d.tcontext.ty.as_str(), tinted(Color::Target));
    let mut tclass = " [".to_owned();
    tclass.append(d.tclass.as_str());
    tclass.append("]");
    put(&mut line, tclass.as_str(), tinted(Color::Dim));
    assert(spans(line@) =~= row(d@));
    line
}

/// The rows of the groups that pass the search.
pub open spec fn rows(a: crate::state::AppView) -> Seq<Seq<SpanView>> {
    a.filtered.map_values(|i: usize| row(a.denials[i as int]@))
}

/// The rows of the list.
pub fn list_rows(app: &App) -> (lines: Vec<Vec<Span>>)
    requires
        app@.wf(),
    ensures
        line_views(lines@) == rows(app@),
{
    let mut lines: Vec<Vec<Span>> = Vec::new();
    let ghost all = rows(app@);
    proof {
        crate::state::list_shows_what_passes(app@);
    }
    assert(line_views(lines@) =~= all.take(0));
    for i in 0..app.filtered.len()
        invariant
            all == rows(app@),
            forall|k: int| 0 <= k < app.filtered@.len() ==> (#[trigger] app.filtered@[k])
                < app.denials@.len(),
            line_views(lines@) == all.take(i as int),
    {
        let line = row_line(&app.denials[app.filtered[i]]);
        assert(all[i as int] == spans(line@));
        assert(all.take(i + 1) =~= all.take(i as int).push(all[i as int]));
        put_line(&mut lines, line);
    }
    assert(all.take(app.filtered@.len() as int) =~= all);
    lines
}

/// The title of the list.
pub open spec fn list_heading(a: crate::state::AppView) -> Seq<char> {
    if a.filtered.len() == 0 {
        " no denials match "@
    } else {
        " denials ("@ + crate::number::decimal(a.filtered.len()) + ") "@
    }
}

/// The title of the list.
pub fn list_title(app: &App) -> (s: String)
    ensures
        s@ == list_heading(app@),
{
    if app.filtered.len() == 0 {
        " no denials match ".to_owned()
    } else {
        let mut s = " denials (".to_owned();
        s.append(to_decimal(app.filtered.len() as u64).as_str());
        s.append(") ");
        s
    }
}

/// The row to mark as selected, if there is any row.
pub fn selected_row(app: &App) -> (r: Option<usize>)
    ensures
        r == (if app.filtered@.len() == 0 {
            None
        } else {
            Some(app.selected)
        }),
{
    if app.filtered.len() == 0 {
        None
    } else {
        Some(app.selected)
    }
}

// ---- detail --------------------------------------------------------------

/// A line with a name and a value.
pub open spec fn entry(name: Seq<char>, value: Seq<char>, color: Color) -> Seq<SpanView> {
    seq![sp(crate::text::padded(name, 12), tinted(Color::Dim)), sp(value, tinted(color))]
}

fn put_entry(lines: &mut Vec<Vec<Span>>, name: &str, value: &str, color: Color)
    ensures
        line_views(final(lines)@) == line_views(old(lines)@).push(entry(name@, value@, color)),
{
    let mut line = start();
    put(&mut line, pad_right(name, 12).as_str(), tinted(Color::Dim));
    put(&mut line, value, tinted(color));
    assert(spans(line@) =~= entry(name@, value@, color));
    put_line(lines, line);
}

/// Whether the system was permissive, in words.
pub open spec fn permissive_words(p: Option<bool>) -> Seq<char> {
    match p {
        Some(true) => "yes (was permissive)"@,
        Some(false) => "no (enforcing)"@,
        None => "n/a"@,
    }
}

/// What was denied.
pub open spec fn detail_what(d: crate::avc::GroupView) -> Seq<Seq<SpanView>> {
    seq![
        seq![sp(d.summary(), bold(Color::Accent))],
        Seq::empty(),
        entry("outcome"@, d.outcome, Color::Perm),
        entry("permission"@, crate::text::joined(d.perms, ", "@), Color::Perm),
        entry("class"@, d.tclass, Color::White),
        entry("permissive"@, permissive_words(d.permissive), Color::Dim),
        Seq::empty(),
    ]
}

fn put_what(lines: &mut Vec<Vec<Span>>, d: &AggDenial)
    ensures
        line_views(final(lines)@) == line_views(old(lines)@) + detail_what(d@),
{
    put_text(lines, d.summary().as_str(), bold(Color::Accent));
    put_gap(lines);
    put_entry(lines, "outcome", d.outcome.as_str(), Color::Perm);
    put_entry(lines, "permission", join(d.perms.as_slice(), ", ").as_str(), Color::Perm);
    put_entry(lines, "class", d.tclass.as_str(), Color::White);
    let words = match d.permissive {
        Some(true) => "yes (was permissive)",
        Some(false) => "no (enforcing)",
        None => "n/a",
    };
    put_entry(lines, "permissive", words, Color::Dim);
    put_gap(lines);
    assert(line_views(lines@) =~= line_views(old(lines)@) + detail_what(d@));
}

/// A context in its parts, under a heading.
pub open spec fn detail_context(
    heading: Seq<char>,
    c: crate::avc::ContextView,
    color: Color,
) -> Seq<Seq<SpanView>> {
    seq![
        seq![sp(heading, bold(color))],
        entry("  user"@, c.user, Color::Dim),
        entry("  role"@, c.role, Color::Dim),
        entry("  type"@, c.ty, color),
        entry("  level"@, c.level, Color::Dim),
    ]
}

fn put_context(lines: &mut Vec<Vec<Span>>, heading: &str, c: &crate::avc::Context, color: Color)
    ensures
        line_views(final(lines)@) == line_views(old(lines)@) + detail_context(heading@, c@, color),
{
    put_text(lines, heading, bold(color));
    put_entry(lines, "  user", c.user.as_str(), Color::Dim);
    put_entry(lines, "  role", c.role.as_str(), Color::Dim);
    put_entry(lines, "  type", c.ty.as_str(), color);
    put_entry(lines, "  level", c.level.as_str(), Color::Dim);
    assert(line_views(lines@) =~= line_views(old(lines)@) + detail_context(heading@, c@, color));
}

/// How often and when.
pub open spec fn detail_counts(d: crate::avc::GroupView) -> Seq<Seq<SpanView>> {
    seq![
        Seq::empty(),
        entry(
            "occurrences"@,
            crate::number::decimal(d.count) + " (de-duplicated)"@,
            Color::Count,
        ),
        entry("first seen"@, crate::time::time_text(d.first_ts), Color::Dim),
        entry("last seen"@, crate::time::time_text(d.last_ts), Color::Dim),
        entry("distinct pids"@, crate::number::decimal(d.pids.len()), Color::Dim),
    ]
}

fn pid_count(d: &AggDenial) -> (n: usize)
    ensures
        n == d@.pids.len(),
{
    broadcast use vstd::laws_cmp::group_laws_cmp;

    d.pids.len()
}

fn put_counts(lines: &mut Vec<Vec<Span>>, d: &AggDenial)
    ensures
        line_views(final(lines)@) == line_views(old(lines)@) + detail_counts(d@),
{
    put_gap(lines);
    let mut count = to_decimal(d.count as u64);
    count.append(" (de-duplicated)");
    put_entry(lines, "occurrences", count.as_str(), Color::Count);
    put_entry(lines, "first seen", fmt_time(d.first_ts).as_str(), Color::Dim);
    put_entry(lines, "last seen", fmt_time(d.last_ts).as_str(), Color::Dim);
    let pids = pid_count(d);
    put_entry(lines, "distinct pids", to_decimal(pids as u64).as_str(), Color::Dim);
    assert(line_views(lines@) =~= line_views(old(lines)@) + detail_counts(d@));
}

/// The lines of the first `n` paths.
pub open spec fn path_lines(paths: Seq<Seq<char>>, n: int) -> Seq<Seq<SpanView>> {
    Seq::new(n as nat, |i: int| seq![sp("  "@ + paths[i], tinted(Color::White))])
}

/// The paths: at most eight of them, and how many more there are.
pub open spec fn detail_paths(paths: Seq<Seq<char>>) -> Seq<Seq<SpanView>> {
    if paths.len() == 0 {
        Seq::empty()
    } else {
        let heading = seq![
            seq![sp("paths ("@ + crate::number::decimal(paths.len()) + ")"@, tinted(Color::Dim))],
        ];
        if paths.len() <= 8 {
            heading + path_lines(paths, paths.len() as int)
        } else {
            (heading + path_lines(paths, 8)).push(
                seq![
                    sp(
                        "  … and "@ + crate::number::decimal((paths.len() - 8) as nat)
                            + " more"@,
                        tinted(Color::Dim),
                    ),
                ],
            )
        }
    }
}

fn put_paths(lines: &mut Vec<Vec<Span>>, paths: &Vec<String>)
    ensures
        line_views(final(lines)@) == line_views(old(lines)@) + detail_paths(
            crate::text::texts(paths@),
        ),
{
    let n = paths.len();
    let ghost all = crate::text::texts(paths@);
    let ghost base = line_views(lines@);
    if n == 0 {
        assert(base + detail_paths(all) =~= base);
        return;
    }
    let mut heading = "paths (".to_owned();
    heading.append(to_decimal(n as u64).as_str());
    heading.append(")");
    put_text(lines, heading.as_str(), tinted(Color::Dim));
    let shown: usize = if n <= 8 {
        n
    } else {
        8
    };
    let ghost top = line_views(lines@);
    assert(top =~= top + path_lines(all, 0));
    for i in 0..shown
        invariant
            shown <= n == paths@.len(),
            all == crate::text::texts(paths@),
            line_views(lines@) == top + path_lines(all, i as int),
    {
        let mut line = "  ".to_owned();
        line.append(paths[i].as_str());
        put_text(lines, line.as_str(), tinted(Color::White));
        assert(all[i as int] == paths@[i as int]@);
        assert(line_views(lines@) =~= top + path_lines(all, i + 1));
    }
    if n > 8 {
        let mut more = "  … and ".to_owned();
        more.append(to_decimal((n - 8) as u64).as_str());
        more.append(" more");
        put_text(lines, more.as_str(), tinted(Color::Dim));
    }
    assert(line_views(lines@) =~= base + detail_paths(all));
}

/// The mark of a suggestion and its color.
pub open spec fn hint_mark(kind: HintKind) -> (Seq<char>, Color) {
    match kind {
        HintKind::Likely => ("◆ likely  "@, Color::Perm),
        HintKind::Consider => ("○ consider"@, Color::Target),
        HintKind::Inspect => ("» inspect "@, Color::Source),
        HintKind::Caution => ("! caution "@, Color::Caution),
    }
}

/// The lines of the first `n` suggestions, two for each.
pub open spec fn hint_lines(hints: Seq<crate::hints::HintView>, n: int) -> Seq<Seq<SpanView>>
    decreases n,
{
    if n <= 0 {
        Seq::empty()
    } else {
        let h = hints[n - 1];
        let (mark, color) = hint_mark(h.kind);
        hint_lines(hints, n - 1).push(seq![sp(mark, bold(color))]).push(
            seq![sp("  "@ + h.text, tinted(Color::White))],
        )
    }
}

/// The suggestions under their heading.
pub open spec fn detail_hints(hints: Seq<crate::hints::HintView>) -> Seq<Seq<SpanView>> {
    seq![
        Seq::empty(),
        seq![sp("── diagnosis (read-only suggestions) ──"@, bold(Color::Accent))],
    ] + hint_lines(hints, hints.len() as int)
}

fn put_hints(lines: &mut Vec<Vec<Span>>, hints: &Vec<Hint>)
    ensures
        line_views(final(lines)@) == line_views(old(lines)@) + detail_hints(
            crate::hints::hint_views(hints@),
        ),
{
    let ghost all = crate::hints::hint_views(hints@);
    let ghost base = line_views(lines@);
    put_gap(lines);
    put_text(lines, "── diagnosis (read-only suggestions) ──", bold(Color::Accent));
    let ghost top = line_views(lines@);
    assert(top =~= top + hint_lines(all, 0));
    for i in 0..hints.len()
        invariant
            all == crate::hints::hint_views(hints@),
            line_views(lines@) == top + hint_lines(all, i as int),
    {
        assert(all[i as int] == hints@[i as int]@);
        let (mark, color) = match hints[i].kind {
            HintKind::Likely => ("◆ likely  ", Color::Perm),
            HintKind::Consider => ("○ consider", Color::Target),
            HintKind::Inspect => ("» inspect ", Color::Source),
            HintKind::Caution => ("! caution ", Color::Caution),
        };
        put_text(lines, mark, bold(color));
        let mut text = "  ".to_owned();
        text.append(hints[i].text.as_str());
        put_text(lines, text.as_str(), tinted(Color::White));
        assert(line_views(lines@) =~= top + hint_lines(all, i + 1));
    }
    assert(line_views(lines@) =~= base + detail_hints(all));
}

/// The record that the group was opened with.
pub open spec fn detail_raw(raw: Seq<char>) -> Seq<Seq<SpanView>> {
    seq![
        Seq::empty(),
        seq![sp("raw record"@, tinted(Color::Dim))],
        seq![sp(raw, italic(Color::Dim))],
    ]
}

/// The lines of the detail pane for a group.
pub open spec fn group_detail(d: crate::avc::GroupView) -> Seq<Seq<SpanView>> {
    detail_what(d) + detail_context("subject (scontext)"@, d.scontext, Color::Source)
        + detail_context("target (tcontext)"@, d.tcontext, Color::Target) + detail_counts(d)
        + detail_paths(d.paths) + detail_hints(crate::hints::diagnosis(d)) + detail_raw(
        d.sample_raw,
    )
}

/// The lines of the detail pane: those of the selected group.
pub open spec fn detail(a: crate::state::AppView) -> Seq<Seq<SpanView>> {
    if a.filtered.len() == 0 {
        seq![seq![sp("no denial selected"@, tinted(Color::Dim))]]
    } else {
        group_detail(a.denials[a.filtered[a.selected as int] as int]@)
    }
}

/// The lines of the detail pane.
pub fn detail_lines(app: &App) -> (lines: Vec<Vec<Span>>)
    requires
        app@.wf(),
    ensures
        line_views(lines@) == detail(app@),
{
    let mut lines: Vec<Vec<Span>> = Vec::new();
    assert(line_views(lines@) =~= Seq::<Seq<SpanView>>::empty());
    match app.current() {
        Some(d) => {
            put_what(&mut lines, d);
            assert(line_views(lines@) =~= detail_what(d@));
            put_context(&mut lines, "subject (scontext)", &d.scontext, Color::Source);
            put_context(&mut lines, "target (tcontext)", &d.tcontext, Color::Target);
            put_counts(&mut lines, d);
            put_paths(&mut lines, &d.paths);
            put_hints(&mut lines, &diagnose(d));
            put_gap(&mut lines);
            put_text(&mut lines, "raw record", tinted(Color::Dim));
            put_text(&mut lines, d.sample_raw.as_str(), italic(Color::Dim));
            assert(line_views(lines@) =~= group_detail(d@));
        },
        None => {
            put_text(&mut lines, "no denial selected", tinted(Color::Dim));
            assert(line_views(lines@) =~= detail(app@));
        },
    }
    lines
}

/// The title of the detail pane.
pub const DETAIL_TITLE: &'static str = " detail  (^d/^u scroll · h/Esc back) ";

// ---- footer --------------------------------------------------------------

/// The keys, shown in the footer while there is nothing to report.
pub const KEYS: &'static str = "j/k move · g/G top/btm · ^d/^u page · l/Enter detail · / search · s sort · r reload · ? help · q quit";

/// The line of the footer: the search or the command being typed, or the source
/// with the last message or the keys.
pub open spec fn footer(a: crate::state::AppView) -> Seq<SpanView> {
    match a.mode {
        Mode::Search => seq![
            sp("/"@, bold(Color::Target)),
            sp(a.search, tinted(Color::White)),
            sp("▏"@, tinted(Color::Accent)),
            sp("   (Enter: keep · Esc: clear)"@, tinted(Color::Dim)),
        ],
        Mode::Command => seq![
            sp(a.command, tinted(Color::White)),
            sp("▏"@, tinted(Color::Accent)),
            sp("   (:q :sort :reload :help)"@, tinted(Color::Dim)),
        ],
        _ => seq![
            sp(a.source.description() + "  "@, tinted(Color::Target)),
            sp("│ "@, tinted(Color::Dim)),
            if a.message.len() == 0 {
                sp(KEYS@, tinted(Color::Dim))
            } else {
                sp(a.message, tinted(Color::Count))
            },
        ],
    }
}

/// The line of the footer.
pub fn footer_line(app: &App) -> (line: Vec<Span>)
    ensures
        spans(line@) == footer(app@),
{
    let mut line = start();
    match app.mode {
        Mode::Search => {
            put(&mut line, "/", bold(Color::Target));
            put(&mut line, app.search.as_str(), tinted(Color::White));
            put(&mut line, "▏", tinted(Color::Accent));
            put(&mut line, "   (Enter: keep · Esc: clear)", tinted(Color::Dim));
        },
        Mode::Command => {
            put(&mut line, app.command.as_str(), tinted(Color::White));
            put(&mut line, "▏", tinted(Color::Accent));
            put(&mut line, "   (:q :sort :reload :help)", tinted(Color::Dim));
        },
        _ => {
            let mut source = app.source.describe();
            source.append("  ");
            put(&mut line, source.as_str(), tinted(Color::Target));
            put(&mut line, "│ ", tinted(Color::Dim));
            if app.message.as_str().is_empty() {
                put(&mut line, KEYS, tinted(Color::Dim));
            } else {
                put(&mut line, app.message.as_str(), tinted(Color::Count));
            }
        },
    }
    assert(spans(line@) =~= footer(app@));
    line
}

// ---- help ----------------------------------------------------------------

/// The title of the help text.
pub const HELP_TITLE: &'static str = " help ";

/// A key and what it does.
pub open spec fn help_entry(key: Seq<char>, what: Seq<char>) -> Seq<SpanView> {
    seq![
        sp("  "@ + crate::text::padded(key, 14), tinted(Color::Accent)),
        sp(what, tinted(Color::White)),
    ]
}

fn put_help_entry(lines: &mut Vec<Vec<Span>>, key: &str, what: &str)
    ensures
        line_views(final(lines)@) == line_views(old(lines)@).push(help_entry(key@, what@)),
{
    let mut line = start();
    let mut k = "  ".to_owned();
    k.append(pad_right(key, 14).as_str());
    put(&mut line, k.as_str(), tinted(Color::Accent));
    put(&mut line, what, tinted(Color::White));
    assert(spans(line@) =~= help_entry(key@, what@));
    put_line(lines, line);
}

/// How to get about.
pub open spec fn help_navigation() -> Seq<Seq<SpanView>> {
    seq![
        seq![sp("Navigation"@, bold(Color::Target))],
        help_entry("j / k"@, "down / up"@),
        help_entry("g / G"@, "jump to top / bottom"@),
        help_entry("Ctrl-d / -u"@, "half page (or scroll detail)"@),
        Seq::empty(),
    ]
}

/// What can be opened and asked for.
pub open spec fn help_views() -> Seq<Seq<SpanView>> {
    seq![
        seq![sp("Views"@, bold(Color::Target))],
        help_entry("l / Enter"@, "open detail for selected denial"@),
        help_entry("h / Esc"@, "back out of detail / clear filter"@),
        help_entry("/"@, "incremental search (Enter keep, Esc clear)"@),
        help_entry("s"@, "cycle sort: count → recent → src-type"@),
        help_entry("r"@, "reload from source"@),
        help_entry(":"@, "command line — :q :sort :reload :help"@),
        help_entry("?"@, "toggle this help"@),
        help_entry("q"@, "quit (or close detail)"@),
        Seq::empty(),
    ]
}

/// What the program does and does not do.
pub open spec fn help_about() -> Seq<Seq<SpanView>> {
    seq![
        seq![sp("About"@, bold(Color::Target))],
        seq![sp("  Repeated denials are collapsed by"@, tinted(Color::Dim))],
        seq![sp("  (outcome, perms, scontext, tcontext, class, comm);"@, tinted(Color::Dim))],
        seq![sp("  ×N is the group size; header shows unique/total."@, tinted(Color::Dim))],
        Seq::empty(),
        seq![sp("  READ-ONLY: never changes policy, labels,"@, tinted(Color::Perm))],
        seq![sp("  booleans, ports, or the enforcing mode."@, tinted(Color::Perm))],
        Seq::empty(),
        seq![sp("  press ? / Esc / q to close"@, tinted(Color::Accent))],
    ]
}

/// The lines of the help text.
pub fn help_lines() -> (lines: Vec<Vec<Span>>)
    ensures
        line_views(lines@) == help_navigation() + help_views() + help_about(),
{
    let mut lines: Vec<Vec<Span>> = Vec::new();
    assert(line_views(lines@) =~= Seq::<Seq<SpanView>>::empty());
    put_text(&mut lines, "Navigation", bold(Color::Target));
    put_help_entry(&mut lines, "j / k", "down / up");
    put_help_entry(&mut lines, "g / G", "jump to top / bottom");
    put_help_entry(&mut lines, "Ctrl-d / -u", "half page (or scroll detail)");
    put_gap(&mut lines);
    assert(line_views(lines@) =~= help_navigation());
    put_text(&mut lines, "Views", bold(Color::Target));
    put_help_entry(&mut lines, "l / Enter", "open detail for selected denial");
    put_help_entry(&mut lines, "h / Esc", "back out of detail / clear filter");
    put_help_entry(&mut lines, "/", "incremental search (Enter keep, Esc clear)");
    put_help_entry(&mut lines, "s", "cycle sort: count → recent → src-type");
    put_help_entry(&mut lines, "r", "reload from source");
    put_help_entry(&mut lines, ":", "command line — :q :sort :reload :help");
    put_help_entry(&mut lines, "?", "toggle this help");
    put_help_entry(&mut lines, "q", "quit (or close detail)");
    put_gap(&mut lines);
    assert(line_views(lines@) =~= help_navigation() + help_views());
    put_text(&mut lines, "About", bold(Color::Target));
    put_text(&mut lines, "  Repeated denials are collapsed by", tinted(Color::Dim));
    put_text(
        &mut lines,
        "  (outcome, perms, scontext, tcontext, class, comm);",
        tinted(Color::Dim),
    );
    put_text(
        &mut lines,
        "  ×N is the group size; header shows unique/total.",
        tinted(Color::Dim),
    );
    put_gap(&mut lines);
    put_text(&mut lines, "  READ-ONLY: never changes policy, labels,", tinted(Color::Perm));
    put_text(&mut lines, "  booleans, ports, or the enforcing mode.", tinted(Color::Perm));
    put_gap(&mut lines);
    put_text(&mut lines, "  press ? / Esc / q to close", tinted(Color::Accent));
    assert(line_views(lines@) =~= help_navigation() + help_views() + help_about());
    lines
}

/// The detail of a group names every path that it saw, up to the eighth, and
/// counts the rest.
pub proof fn detail_accounts_for_every_path(paths: Seq<Seq<char>>)
    requires
        paths.len() > 0,
    ensures
        ({
            let lines = detail_paths(paths);
            let shown = if paths.len() <= 8 {
                paths.len() as int
            } else {
                8
            };
            &&& lines.len() == 1 + shown + if paths.len() > 8 {
                1int
            } else {
                0int
            }
            &&& forall|i: int|
                0 <= i < shown ==> #[trigger] lines[i + 1] == seq![
                    sp("  "@ + paths[i], tinted(Color::White)),
                ]
        }),
{
}

} // verus!
