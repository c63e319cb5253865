use avcscope::avc::aggregate;
use avcscope::avc::timestamp_texts;
use avcscope::avc::AggDenial;
use avcscope::ranking::sort_groups;
use avcscope::ranking::SortKey;
use avcscope::selinux::demo_data;
use avcscope::selinux::EnforceStatus;
use avcscope::selinux::Source;
use avcscope::state::Action;
use avcscope::state::App;
use avcscope::state::Key;
use avcscope::state::Mode;
use avcscope::time::Timestamp;

fn stamps_of(text: &str) -> Vec<Timestamp> {
    timestamp_texts(text)
        .iter()
        .map(|t| Timestamp { bits: t.parse::<f64>().unwrap_or(0.0).to_bits() })
        .collect()
}

fn demo_app() -> App {
    let (denials, total) = aggregate(demo_data(), &stamps_of(demo_data()));
    App::new(denials, total, EnforceStatus::Unknown, Source::Demo, None, true)
}

fn empty_app() -> App {
    App::new(Vec::new(), 0, EnforceStatus::Permissive, Source::Stdin, None, false)
}

fn press(app: &mut App, keys: &str) -> Action {
    let mut action = Action::Stay;
    for c in keys.chars() {
        let key = match c {
            '\n' => Key::Enter,
            '\u{1b}' => Key::Esc,
            '\u{8}' => Key::Backspace,
            c => Key::Char(c),
        };
        action = app.handle_key(key, false);
    }
    action
}

fn listed(app: &App) -> Vec<String> {
    app.filtered.iter().map(|&i| app.denials[i].perms.join(" ")).collect()
}

fn group(source: &str, count: usize, last: f64) -> AggDenial {
    let line = format!("avc: scontext=u:r:{source}:s0");
    let mut g = aggregate(&line, &Vec::new()).0.remove(0);
    g.count = count;
    g.last_ts = Timestamp { bits: last.to_bits() };
    g
}

fn order(groups: &Vec<AggDenial>) -> Vec<(&str, usize, f64)> {
    groups.iter().map(|g| (g.scontext.ty.as_str(), g.count, f64::from_bits(g.last_ts.bits))).collect()
}

#[test]
fn groups_are_sorted_in_three_ways() {
    let mut groups = vec![group("b", 1, 5.0), group("a", 2, 3.0), group("b", 2, 9.0), group("a", 1, 5.0)];
    sort_groups(&mut groups, SortKey::Count);
    assert_eq!(order(&groups), vec![("b", 2, 9.0), ("a", 2, 3.0), ("b", 1, 5.0), ("a", 1, 5.0)]);
    sort_groups(&mut groups, SortKey::LastSeen);
    assert_eq!(order(&groups), vec![("b", 2, 9.0), ("b", 1, 5.0), ("a", 1, 5.0), ("a", 2, 3.0)]);
    sort_groups(&mut groups, SortKey::SourceType);
    assert_eq!(order(&groups), vec![("a", 2, 3.0), ("a", 1, 5.0), ("b", 2, 9.0), ("b", 1, 5.0)]);
}

#[test]
fn times_sort_in_the_total_order() {
    let mut groups = vec![group("a", 1, -0.0), group("b", 1, 0.0), group("c", 1, f64::NAN), group("d", 1, -1.0)];
    sort_groups(&mut groups, SortKey::LastSeen);
    let names: Vec<&str> = groups.iter().map(|g| g.scontext.ty.as_str()).collect();
    assert_eq!(names, vec!["c", "b", "a", "d"]);
}

#[test]
fn orders_have_names_and_go_round() {
    let k = SortKey::Count;
    assert_eq!((k.label(), k.next().label(), k.next().next().label()), ("count", "recent", "src-type"));
    assert_eq!(k.next().next().next(), k);
}

#[test]
fn the_list_at_the_start() {
    let app = demo_app();
    assert_eq!((app.denials.len(), app.total_raw), (7, 12));
    assert_eq!(
        listed(&app),
        vec!["read", "write", "name_connect", "send_msg", "getattr", "name_bind", "open"]
    );
    assert_eq!(app.mode, Mode::Normal);
    assert_eq!(app.current().unwrap().count, 4);
    assert_eq!((app.list_height, app.selected, app.should_quit), (10, 0, false));
}

#[test]
fn the_badge_is_made_up_in_the_demo_alone() {
    let mut app = demo_app();
    assert_eq!(app.display_status(), (EnforceStatus::Enforcing, true));
    app.status = EnforceStatus::Disabled;
    assert_eq!(app.display_status(), (EnforceStatus::Enforcing, true));
    app.status = EnforceStatus::Permissive;
    assert_eq!(app.display_status(), (EnforceStatus::Permissive, false));
    app.demo = false;
    app.status = EnforceStatus::Unknown;
    assert_eq!(app.display_status(), (EnforceStatus::Unknown, false));
}

#[test]
fn the_mode_is_read_again_every_other_second() {
    let mut app = demo_app();
    assert!(!app.status_due(5));
    app.demo = false;
    assert!(!app.status_due(1));
    assert!(app.status_due(2) && app.status_due(u64::MAX));
}

#[test]
fn the_selection_moves_and_stops_at_the_ends() {
    let mut app = demo_app();
    app.detail_scroll = 3;
    press(&mut app, "jj");
    assert_eq!((app.selected, app.detail_scroll), (2, 0));
    press(&mut app, "kkkk");
    assert_eq!(app.selected, 0);
    press(&mut app, "G");
    assert_eq!(app.selected, 6);
    press(&mut app, "j");
    assert_eq!(app.selected, 6);
    press(&mut app, "g");
    assert_eq!(app.selected, 0);
    app.handle_key(Key::Down, false);
    assert_eq!(app.selected, 1);
    app.handle_key(Key::Up, false);
    assert_eq!(app.selected, 0);
    app.move_sel(isize::MAX);
    assert_eq!(app.selected, 6);
    app.move_sel(isize::MIN);
    assert_eq!(app.selected, 0);
}

#[test]
fn half_a_page_or_the_detail_scrolls() {
    let mut app = demo_app();
    app.handle_key(Key::Char('d'), true);
    assert_eq!(app.selected, 5);
    app.handle_key(Key::Char('u'), true);
    assert_eq!(app.selected, 0);
    press(&mut app, "d");
    assert_eq!(app.selected, 0);
    press(&mut app, "\n");
    assert_eq!(app.mode, Mode::Detail);
    app.handle_key(Key::Char('d'), true);
    app.handle_key(Key::Char('d'), true);
    assert_eq!((app.selected, app.detail_scroll), (0, 10));
    app.handle_key(Key::Char('u'), true);
    assert_eq!(app.detail_scroll, 5);
    app.handle_key(Key::Char('u'), true);
    app.handle_key(Key::Char('u'), true);
    assert_eq!(app.detail_scroll, 0);
    app.detail_scroll = u16::MAX - 1;
    app.handle_key(Key::Char('d'), true);
    assert_eq!(app.detail_scroll, u16::MAX);
    app.set_list_height(3);
    assert_eq!(app.list_height, 1);
    app.handle_key(Key::Char('u'), true);
    assert_eq!(app.detail_scroll, u16::MAX - 1);
    app.set_list_height(1);
    assert_eq!(app.list_height, 0);
    app.set_list_height(u16::MAX);
    assert_eq!(app.list_height, 65533);
}

#[test]
fn an_empty_list() {
    let mut app = empty_app();
    assert!(app.current().is_none());
    press(&mut app, "jkgGl\n");
    assert_eq!((app.selected, app.mode), (0, Mode::Normal));
    assert!(app.filtered.is_empty());
}

#[test]
fn a_search_narrows_the_list() {
    let mut app = demo_app();
    press(&mut app, "G/");
    assert_eq!((app.mode, app.selected), (Mode::Search, 6));
    press(&mut app, "MYSQL");
    assert_eq!(app.search, "MYSQL");
    assert_eq!(listed(&app), vec!["write", "name_connect"]);
    assert_eq!(app.selected, 1);
    press(&mut app, "\n");
    assert_eq!((app.mode, app.search.as_str()), (Mode::Normal, "MYSQL"));
    assert_eq!(listed(&app).len(), 2);
    press(&mut app, "\u{1b}");
    assert_eq!(app.search, "");
    assert_eq!(app.filtered, vec![0, 1, 2, 3, 4, 5, 6]);
}

#[test]
fn escape_clears_a_search() {
    let mut app = demo_app();
    press(&mut app, "/nowhere");
    assert!(app.filtered.is_empty() && app.current().is_none());
    press(&mut app, "\u{1b}");
    assert_eq!((app.mode, app.search.as_str(), app.filtered.len()), (Mode::Normal, "", 7));
}

#[test]
fn backspace_takes_typing_back() {
    let mut app = demo_app();
    press(&mut app, "/index");
    let before = app.filtered.clone();
    press(&mut app, "x\u{8}");
    assert_eq!((app.search.as_str(), &app.filtered), ("index", &before));
    press(&mut app, "\u{8}\u{8}\u{8}\u{8}\u{8}\u{8}");
    assert_eq!((app.search.as_str(), app.mode), ("", Mode::Search));
    app.handle_key(Key::Left, false);
    assert_eq!(app.mode, Mode::Search);
}

#[test]
fn the_detail_opens_and_closes() {
    let mut app = demo_app();
    press(&mut app, "l");
    assert_eq!(app.mode, Mode::Detail);
    press(&mut app, "q");
    assert_eq!((app.mode, app.should_quit), (Mode::Normal, false));
    app.handle_key(Key::Right, false);
    assert_eq!(app.mode, Mode::Detail);
    app.handle_key(Key::Left, false);
    assert_eq!(app.mode, Mode::Normal);
    press(&mut app, "\nh");
    assert_eq!(app.mode, Mode::Normal);
    press(&mut app, "q");
    assert!(app.should_quit);
}

#[test]
fn help_opens_over_the_list_and_closes() {
    for close in ["?", "q", "\u{1b}"] {
        let mut app = demo_app();
        press(&mut app, "j?");
        assert_eq!(app.mode, Mode::Help);
        press(&mut app, "jx");
        assert_eq!((app.mode, app.selected), (Mode::Help, 1));
        press(&mut app, close);
        assert_eq!((app.mode, app.selected, app.should_quit), (Mode::Normal, 1, false));
    }
}

#[test]
fn sorting_by_key_and_by_command() {
    let mut app = demo_app();
    press(&mut app, "s");
    assert_eq!(app.sort, SortKey::LastSeen);
    assert_eq!(listed(&app)[..2], ["read", "send_msg"]);
    press(&mut app, ":sort\n");
    assert_eq!((app.sort, app.mode), (SortKey::SourceType, Mode::Normal));
    assert_eq!(app.denials[0].scontext.ty, "httpd_t");
    assert_eq!(app.denials[6].scontext.ty, "sshd_t");
    press(&mut app, "s");
    assert_eq!(app.sort, SortKey::Count);
}

#[test]
fn commands() {
    let mut app = demo_app();
    press(&mut app, ":");
    assert_eq!((app.mode, app.command.as_str()), (Mode::Command, ":"));
    press(&mut app, "x\u{8}\u{8}\u{8}");
    assert_eq!(app.command, "");
    assert_eq!(press(&mut app, "\n"), Action::Stay);
    assert_eq!((app.mode, app.message.as_str()), (Mode::Normal, ""));
    press(&mut app, ":  ::wat \n");
    assert_eq!((app.message.as_str(), app.command.as_str()), ("unknown command: :  ::wat", ""));
    press(&mut app, "j");
    assert_eq!(app.message, "");
    press(&mut app, ":zz\u{1b}");
    assert_eq!((app.mode, app.command.as_str()), (Mode::Normal, ""));
    press(&mut app, ":q\n");
    assert!(app.should_quit);
    let mut app = demo_app();
    press(&mut app, ":::quit \n");
    assert!(app.should_quit);
}

#[test]
fn the_help_command_opens_help() {
    for word in [":help\n", ":h\n"] {
        let mut app = demo_app();
        press(&mut app, word);
        assert_eq!((app.mode, app.command.as_str()), (Mode::Help, ""));
    }
}

#[test]
fn reloading_is_asked_for_and_done() {
    for keys in ["r", ":r\n", ":reload\n"] {
        let mut app = demo_app();
        assert_eq!(press(&mut app, keys), Action::Reload);
        press(&mut app, "G");
        let text = "avc: denied { fly }\navc: denied { fly }\nelse";
        app.reload(EnforceStatus::Enforcing, text, &stamps_of(text), Source::File("f".to_string()));
        assert_eq!(listed(&app), vec!["fly"]);
        assert_eq!((app.total_raw, app.denials[0].count, app.selected), (2, 2, 0));
        assert_eq!(app.status, EnforceStatus::Enforcing);
        assert_eq!(app.source.describe(), "file: f");
        assert_eq!(app.message, "reloaded");
    }
}

#[test]
fn a_letter_typed_into_a_search_is_no_command() {
    let mut app = demo_app();
    assert_eq!(press(&mut app, "/r"), Action::Stay);
    assert_eq!(press(&mut app, "q"), Action::Stay);
    assert_eq!((app.search.as_str(), app.should_quit), ("rq", false));
}

#[test]
fn keys_keep_what_was_read() {
    let mut app = demo_app();
    let mut before: Vec<String> = app.denials.iter().map(|d| d.key.clone()).collect();
    press(&mut app, "sjl?q/x\nsG:sort\n:wat\n");
    let mut after: Vec<String> = app.denials.iter().map(|d| d.key.clone()).collect();
    before.sort();
    after.sort();
    assert_eq!(before, after);
    assert_eq!((app.total_raw, app.status), (12, EnforceStatus::Unknown));
}

#[test]
fn typing_on_narrows_the_list() {
    let mut app = demo_app();
    press(&mut app, "/");
    let mut before = app.filtered.clone();
    for c in "mysqld_port".chars() {
        app.handle_key(Key::Char(c), false);
        assert!(app.filtered.iter().all(|i| before.contains(i)));
        before = app.filtered.clone();
    }
    assert_eq!(listed(&app), vec!["name_connect"]);
}

#[test]
fn the_detail_keeps_its_denial_when_sorted() {
    let mut app = demo_app();
    press(&mut app, "/mysql\nls");
    assert_eq!((app.mode, app.filtered.len()), (Mode::Detail, 2));
    assert!(app.current().is_some());
}

#[test]
fn a_search_that_holds_another_lists_no_more() {
    let mut app = demo_app();
    press(&mut app, "/sql");
    let wide = app.filtered.clone();
    for longer in ["/MySQLd", "/YSQLD_PORT", "/ sql"] {
        press(&mut app, "\u{1b}");
        press(&mut app, longer);
        assert!(app.filtered.iter().all(|i| wide.contains(i)));
    }
    assert_eq!(wide.len(), 2);
}

#[test]
fn a_command_by_itself_leaves_the_mode_alone() {
    for (word, mode) in [(":wat", Mode::Detail), (":", Mode::Detail), (":sort", Mode::Detail), (":h", Mode::Help)] {
        let mut app = demo_app();
        app.mode = Mode::Detail;
        app.command = word.to_string();
        assert_eq!(app.run_command(), Action::Stay);
        assert_eq!((app.mode, app.command.as_str()), (mode, ""));
    }
    let mut app = demo_app();
    app.command = " :reload".to_string();
    assert_eq!(app.run_command(), Action::Reload);
    app.command = ":x".to_string();
    app.run_command();
    assert_eq!((app.message.as_str(), app.should_quit), ("unknown command: :x", false));
}
