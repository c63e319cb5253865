use avcscope::avc::aggregate;
use avcscope::avc::timestamp_texts;
use avcscope::screen::bold;
use avcscope::screen::detail_lines;
use avcscope::screen::footer_line;
use avcscope::screen::header_line;
use avcscope::screen::help_lines;
use avcscope::screen::italic;
use avcscope::screen::list_rows;
use avcscope::screen::list_title;
use avcscope::screen::plain;
use avcscope::screen::selected_row;
use avcscope::screen::tinted;
use avcscope::screen::truncate;
use avcscope::screen::Color;
use avcscope::screen::Span;
use avcscope::screen::Style;
use avcscope::selinux::demo_data;
use avcscope::selinux::EnforceStatus;
use avcscope::selinux::Source;
use avcscope::state::App;
use avcscope::state::Key;
use avcscope::time::Timestamp;

fn app_of(text: &str, status: EnforceStatus, demo: bool) -> App {
    let stamps: Vec<Timestamp> = timestamp_texts(text)
        .iter()
        .map(|t| Timestamp { bits: t.parse::<f64>().unwrap_or(0.0).to_bits() })
        .collect();
    let (denials, total) = aggregate(text, &stamps);
    App::new(denials, total, status, Source::Demo, None, demo)
}

fn press(app: &mut App, keys: &str) {
    for c in keys.chars() {
        app.handle_key(if c == '\n' { Key::Enter } else { Key::Char(c) }, false);
    }
}

fn text(line: &Vec<Span>) -> String {
    line.iter().map(|s| s.text.as_str()).collect()
}

fn texts(lines: &Vec<Vec<Span>>) -> Vec<String> {
    lines.iter().map(text).collect()
}

fn badge(status: EnforceStatus, demo: bool) -> (String, Style) {
    let app = app_of("", status, demo);
    let line = header_line(&app);
    (line[0].text.clone(), line[0].style)
}

fn on(fg: Color, bg: Color) -> Style {
    Style { fg: Some(fg), bg: Some(bg), bold: true, italic: false }
}

#[test]
fn texts_are_shortened() {
    assert_eq!(truncate("abc", 3), "abc");
    assert_eq!(truncate("abcd", 3), "ab…");
    assert_eq!(truncate("äöüß", 3), "äö…");
    assert_eq!(truncate("", 0), "");
    assert_eq!(truncate("abc", 0), "…");
    assert_eq!(truncate("abc", 1), "…");
}

#[test]
fn the_badge_shows_the_mode() {
    assert_eq!(badge(EnforceStatus::Enforcing, false), (" ENFORCING ".to_string(), on(Color::White, Color::EnforcingBadge)));
    assert_eq!(badge(EnforceStatus::Permissive, false), (" PERMISSIVE ".to_string(), on(Color::Black, Color::PermissiveBadge)));
    assert_eq!(badge(EnforceStatus::Disabled, false), (" DISABLED ".to_string(), on(Color::White, Color::DisabledBadge)));
    assert_eq!(badge(EnforceStatus::Unknown, false), (" UNKNOWN ".to_string(), on(Color::White, Color::UnknownBadge)));
    assert_eq!(badge(EnforceStatus::Disabled, true), (" ENFORCING (demo) ".to_string(), on(Color::White, Color::EnforcingBadge)));
    assert_eq!(Color::EnforcingBadge.rgb(), Some((190, 40, 40)));
    assert_eq!(Color::Accent.rgb(), Some((122, 162, 247)));
    assert_eq!(Color::White.rgb(), None);
}

#[test]
fn the_header_shows_totals_order_and_search() {
    let mut app = app_of(demo_data(), EnforceStatus::Permissive, false);
    assert_eq!(text(&header_line(&app)), " PERMISSIVE   denials: 7 unique / 12 total    sort: count");
    press(&mut app, "s/sql");
    let line = header_line(&app);
    assert_eq!(text(&line), " PERMISSIVE   denials: 7 unique / 12 total    sort: recent    filter: /sql");
    let styles: Vec<Style> = line.iter().map(|s| s.style).collect();
    assert_eq!(
        styles[1..],
        [
            plain(),
            tinted(Color::Dim),
            bold(Color::Count),
            tinted(Color::Dim),
            bold(Color::White),
            tinted(Color::Dim),
            tinted(Color::Dim),
            tinted(Color::Accent),
            tinted(Color::Target),
        ]
    );
}

#[test]
fn the_rows_of_the_list() {
    let mut app = app_of(demo_data(), EnforceStatus::Permissive, false);
    let rows = list_rows(&app);
    assert_eq!(rows.len(), 7);
    assert_eq!(text(&rows[0]), "×4    httpd      {read} httpd_t → user_home_t [file]");
    assert_eq!(rows[0][2].style, tinted(Color::Perm));
    assert_eq!(list_title(&app), " denials (7) ");
    assert_eq!(selected_row(&app), Some(0));
    press(&mut app, "/mysql\nj");
    assert_eq!(list_title(&app), " denials (2) ");
    assert_eq!(selected_row(&app), Some(1));
    assert_eq!(text(&list_rows(&app)[1]), "×2    httpd      {name_connect} httpd_t → mysqld_port_t [tcp_socket]");
    press(&mut app, "/none");
    assert_eq!((list_title(&app).as_str(), selected_row(&app)), (" no denials match ", None));
    assert!(list_rows(&app).is_empty());
}

#[test]
fn a_granted_row_and_a_long_name() {
    let app = app_of("avc: granted { a b } comm=elevenchars", EnforceStatus::Permissive, false);
    let rows = list_rows(&app);
    assert_eq!(text(&rows[0]), "×1    elevencha… {a b}  →  []");
    assert_eq!(rows[0][2].style, tinted(Color::Count));
}

#[test]
fn the_detail_of_a_group() {
    let app = app_of(demo_data(), EnforceStatus::Permissive, false);
    let lines = detail_lines(&app);
    let t = texts(&lines);
    assert_eq!(
        t[..23],
        [
            "httpd {read} httpd_t -> user_home_t [file]",
            "",
            "outcome     denied",
            "permission  read",
            "class       file",
            "permissive  no (enforcing)",
            "",
            "subject (scontext)",
            "  user      system_u",
            "  role      system_r",
            "  type      httpd_t",
            "  level     s0",
            "target (tcontext)",
            "  user      unconfined_u",
            "  role      object_r",
            "  type      user_home_t",
            "  level     s0",
            "",
            "occurrences 4 (de-duplicated)",
            "first seen  13:53:21 UTC",
            "last seen   13:54:20 UTC",
            "distinct pids4",
            "paths (3)",
        ]
    );
    assert_eq!(t[23..28], ["  about.html", "  contact.html", "  index.html", "", "── diagnosis (read-only suggestions) ──"]);
    assert_eq!(t[28], "◆ likely  ");
    assert!(t[29].starts_with("  MISLABEL likely: a 'httpd_t' process"));
    assert_eq!(t[30], "» inspect ");
    assert_eq!(t[32], "○ consider");
    assert_eq!(t[40], "! caution ");
    assert_eq!(t[42..44], ["", "raw record"]);
    assert_eq!(t[44], demo_data().lines().next().unwrap());
    assert_eq!(t.len(), 45);
    assert_eq!(lines[0][0].style, bold(Color::Accent));
    assert_eq!(lines[44][0].style, italic(Color::Dim));
    assert_eq!(lines[10][1].style, tinted(Color::Source));
    assert_eq!(lines[15][1].style, tinted(Color::Target));
    assert_eq!(lines[40][0].style, bold(Color::Caution));
}

#[test]
fn the_detail_shows_eight_paths() {
    let text_of = |n: usize| (0..n).map(|i| format!("avc: {{ a }} path=/{i}\n")).collect::<String>();
    let t = texts(&detail_lines(&app_of(&text_of(8), EnforceStatus::Permissive, false)));
    assert_eq!(t[22..32], ["paths (8)", "  /0", "  /1", "  /2", "  /3", "  /4", "  /5", "  /6", "  /7", ""]);
    let t = texts(&detail_lines(&app_of(&text_of(10), EnforceStatus::Permissive, false)));
    assert_eq!(t[22], "paths (10)");
    assert_eq!(t[30..33], ["  /7", "  … and 2 more", ""]);
}

#[test]
fn the_detail_without_paths_or_times() {
    let t = texts(&detail_lines(&app_of("avc: { b a } permissive=1", EnforceStatus::Permissive, false)));
    assert_eq!(t[3], "permission  a, b");
    assert_eq!(t[5], "permissive  yes (was permissive)");
    assert_eq!(t[19..23], ["first seen  n/a", "last seen   n/a", "distinct pids0", ""]);
    let t = texts(&detail_lines(&app_of("avc:", EnforceStatus::Permissive, false)));
    assert_eq!(t[5], "permissive  n/a");
    let t = texts(&detail_lines(&app_of("", EnforceStatus::Permissive, false)));
    assert_eq!(t, vec!["no denial selected"]);
}

#[test]
fn the_footer_follows_the_mode() {
    let mut app = app_of(demo_data(), EnforceStatus::Permissive, false);
    assert_eq!(
        text(&footer_line(&app)),
        "built-in demo data  │ j/k move · g/G top/btm · ^d/^u page · l/Enter detail · / search · s sort · r reload · ? help · q quit"
    );
    press(&mut app, ":wat\n");
    let line = footer_line(&app);
    assert_eq!(text(&line), "built-in demo data  │ unknown command: :wat");
    assert_eq!(line[2].style, tinted(Color::Count));
    press(&mut app, "/ab");
    assert_eq!(text(&footer_line(&app)), "/ab▏   (Enter: keep · Esc: clear)");
    press(&mut app, "\n:so");
    assert_eq!(text(&footer_line(&app)), ":so▏   (:q :sort :reload :help)");
}

#[test]
fn the_help_text() {
    let lines = help_lines();
    let t = texts(&lines);
    assert_eq!(t.len(), 24);
    assert_eq!(t[0], "Navigation");
    assert_eq!(t[1], "  j / k         down / up");
    assert_eq!(t[3], "  Ctrl-d / -u   half page (or scroll detail)");
    assert_eq!(t[11], "  :             command line — :q :sort :reload :help");
    assert_eq!(t[15], "About");
    assert_eq!(t[23], "  press ? / Esc / q to close");
    assert_eq!(lines[20][0].style, tinted(Color::Perm));
}
