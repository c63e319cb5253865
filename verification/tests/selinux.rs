use avcscope::avc::aggregate;
use avcscope::selinux::asks_getenforce;
use avcscope::selinux::demo_data;
use avcscope::selinux::detect_status;
use avcscope::selinux::load;
use avcscope::selinux::EnforceStatus;
use avcscope::selinux::LoadStep;
use avcscope::selinux::Probe;
use avcscope::selinux::Source;

fn text(s: &str) -> Option<String> {
    Some(s.to_string())
}

fn shown(step: LoadStep) -> Option<(String, String)> {
    match step {
        LoadStep::Done(text, source) => Some((text, source.describe())),
        _ => None,
    }
}

fn demo() -> Option<(String, String)> {
    Some((demo_data().to_string(), "built-in demo data".to_string()))
}

#[test]
fn modes_have_labels() {
    assert_eq!(EnforceStatus::Enforcing.label(), "ENFORCING");
    assert_eq!(EnforceStatus::Permissive.label(), "PERMISSIVE");
    assert_eq!(EnforceStatus::Disabled.label(), "DISABLED");
    assert_eq!(EnforceStatus::Unknown.label(), "UNKNOWN");
}

#[test]
fn the_mode_file_counts_first() {
    let file = |s: &str| {
        detect_status(&Probe { enforce_file: text(s), mounted: true, getenforce: text("Disabled") })
    };
    assert_eq!(file("1"), EnforceStatus::Enforcing);
    assert_eq!(file(" 0\n"), EnforceStatus::Permissive);
    assert_eq!(file("2"), EnforceStatus::Unknown);
    assert_eq!(file(""), EnforceStatus::Unknown);
}

#[test]
fn getenforce_is_asked_where_nothing_is_mounted() {
    let asked = |s: Option<String>| {
        detect_status(&Probe { enforce_file: None, mounted: false, getenforce: s })
    };
    assert_eq!(asked(text("Enforcing\n")), EnforceStatus::Enforcing);
    assert_eq!(asked(text("PERMISSIVE")), EnforceStatus::Permissive);
    assert_eq!(asked(text("disabled")), EnforceStatus::Disabled);
    assert_eq!(asked(text("what")), EnforceStatus::Unknown);
    assert_eq!(asked(None), EnforceStatus::Disabled);
    let mounted = Probe { enforce_file: None, mounted: true, getenforce: None };
    assert_eq!(detect_status(&mounted), EnforceStatus::Unknown);
    assert!(asks_getenforce(&None, false));
    assert!(!asks_getenforce(&None, true) && !asks_getenforce(&text("1"), false));
}

#[test]
fn sources_describe_themselves() {
    assert_eq!(Source::Demo.describe(), "built-in demo data");
    assert_eq!(Source::File("/x y".to_string()).describe(), "file: /x y");
    assert_eq!(Source::Stdin.describe(), "stdin");
    assert_eq!(Source::Ausearch.describe(), "ausearch -m AVC,USER_AVC,SELINUX_ERR");
    assert_eq!(Source::AuditLog.describe(), "/var/log/audit/audit.log");
}

#[test]
fn the_demo_counts_before_a_file() {
    assert_eq!(shown(load(true, text("/f"))), demo());
    assert_eq!(shown(load(true, None)), demo());
}

#[test]
fn a_file_is_read_or_gives_way_to_the_demo() {
    assert!(matches!(load(false, text("/f")), LoadStep::ReadFile(p) if p == "/f"));
    assert_eq!(
        shown(load(false, text("/f")).advance(text("no record"))),
        Some(("no record".to_string(), "file: /f".to_string()))
    );
    assert_eq!(shown(load(false, text("/f")).advance(None)), demo());
}

#[test]
fn the_first_source_with_something_to_show_counts() {
    assert!(matches!(load(false, None), LoadStep::ReadStdin));
    let run = |stdin: Option<String>, ausearch: Option<String>, log: Option<String>| {
        shown(load(false, None).advance(stdin).advance(ausearch).advance(log)).map(|r| r.1)
    };
    let name = |s: Source| Some(s.describe());
    assert_eq!(run(text("x"), text("avc:"), text("avc:")), name(Source::Stdin));
    assert_eq!(run(text(" \n"), text("avc:"), text("avc:")), name(Source::Ausearch));
    assert_eq!(run(None, text("avc"), text("avc:")), name(Source::AuditLog));
    assert_eq!(run(None, None, text("none")), name(Source::Demo));
    assert_eq!(run(None, None, None), name(Source::Demo));
}

#[test]
fn the_demo_collapses() {
    let (groups, total) = aggregate(demo_data(), &Vec::new());
    assert_eq!(total, 12);
    assert_eq!(groups.iter().map(|g| g.count).collect::<Vec<_>>(), vec![4, 1, 2, 1, 2, 1, 1]);
    assert_eq!(groups[0].summary(), "httpd {read} httpd_t -> user_home_t [file]");
    assert_eq!(groups[0].paths, vec!["about.html", "contact.html", "index.html"]);
    assert_eq!(groups[6].perms, vec!["send_msg"]);
    assert_eq!(groups[6].permissive, Some(false));
}
