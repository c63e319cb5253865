use avcscope::avc::aggregate;
use avcscope::avc::dedup_key;
use avcscope::avc::field_value;
use avcscope::avc::open_message;
use avcscope::avc::parse_line;
use avcscope::avc::split_fields;
use avcscope::avc::timestamp_texts;
use avcscope::avc::AggDenial;
use avcscope::avc::Context;
use avcscope::time::Timestamp;

const LINE: &str = r#"type=AVC msg=audit(1717250001.111:401): avc:  denied  { read open } for  pid=2041 comm="httpd" name="my file.html" dev="sda1" ino=66001 scontext=system_u:system_r:httpd_t:s0 tcontext=unconfined_u:object_r:user_home_t:s0 tclass=file permissive=0"#;

fn number(text: &str) -> f64 {
    text.parse().unwrap_or(0.0)
}

fn stamps_of(text: &str) -> Vec<Timestamp> {
    timestamp_texts(text).iter().map(|t| Timestamp { bits: number(t).to_bits() }).collect()
}

fn grouped(text: &str) -> (Vec<AggDenial>, usize) {
    aggregate(text, &stamps_of(text))
}

#[test]
fn parses_core_fields() {
    let d = parse_line(LINE).expect("should parse");
    assert_eq!(d.outcome, "denied");
    assert_eq!(d.perms, vec!["open", "read"]); // sorted
    assert_eq!(d.scontext.ty, "httpd_t");
    assert_eq!(d.tcontext.ty, "user_home_t");
    assert_eq!(d.tclass, "file");
    assert_eq!(d.comm, "httpd");
    assert_eq!(d.path.as_deref(), Some("my file.html")); // quoted w/ space
    assert_eq!(d.pid, Some(2041));
    assert_eq!(d.serial, 401);
    assert_eq!(d.permissive, Some(false));
    assert!((number(&d.timestamp) - 1717250001.111).abs() < 0.001);
}

#[test]
fn ignores_non_avc_lines() {
    assert!(parse_line("type=SYSCALL msg=audit(1.2:3): arch=c000 success=yes").is_none());
}

#[test]
fn level_with_colons_is_preserved() {
    let c = Context::parse("system_u:system_r:httpd_t:s0-s0:c0.c1023");
    assert_eq!(c.ty, "httpd_t");
    assert_eq!(c.level, "s0-s0:c0.c1023");
}

#[test]
fn dedup_collapses_repeats_and_counts() {
    let text = format!("{LINE}\n{LINE}\n{LINE}");
    let (groups, total) = grouped(&text);
    assert_eq!(total, 3, "running total counts every line");
    assert_eq!(groups.len(), 1, "identical denials collapse to one group");
    assert_eq!(groups[0].count, 3);
}

#[test]
fn distinct_paths_kept_but_still_one_group() {
    let a = LINE.to_string();
    let b = LINE.replace("my file.html", "other.html");
    let (groups, total) = grouped(&format!("{a}\n{b}"));
    assert_eq!(total, 2);
    assert_eq!(groups.len(), 1, "different file, same denial pattern");
    assert_eq!(groups[0].paths.len(), 2, "both paths preserved in detail");
}

fn record(rest: &str) -> String {
    format!("type=AVC msg=audit(5.5:7): avc:  denied  {{ read }} for {rest}")
}

#[test]
fn context_with_missing_parts() {
    let c = Context::parse("system_u:system_r");
    assert_eq!(c.user, "system_u");
    assert_eq!(c.role, "system_r");
    assert_eq!(c.ty, "");
    assert_eq!(c.level, "");
    assert_eq!(c.raw, "system_u:system_r");
    let c = Context::parse("");
    assert_eq!((c.user.as_str(), c.raw.as_str()), ("", ""));
    let c = Context::parse("a::c:d");
    assert_eq!((c.user.as_str(), c.role.as_str(), c.ty.as_str()), ("a", "", "c"));
}

#[test]
fn context_parts_join_to_the_whole() {
    let c = Context::parse("u:r:t:s0:c0.c5");
    assert_eq!(format!("{}:{}:{}:{}", c.user, c.role, c.ty, c.level), c.raw);
    assert!(!c.user.contains(':') && !c.role.contains(':') && !c.ty.contains(':'));
}

#[test]
fn fields_honor_quotes() {
    assert_eq!(split_fields("a=1  b=\"x y\"\tc"), vec!["a=1", "b=x y", "c"]);
    assert_eq!(split_fields("open \"to the end"), vec!["open", "to the end"]);
    assert_eq!(split_fields("\"\" \u{a0} "), Vec::<String>::new());
    assert_eq!(split_fields("mid\"dle \"quote"), vec!["middle quote"]);
}

#[test]
fn last_field_with_a_key_counts() {
    let fields = split_fields("pid=1 pid=2 nothing path=a=b");
    assert_eq!(field_value(&fields, "pid").as_deref(), Some("2"));
    assert_eq!(field_value(&fields, "path").as_deref(), Some("a=b"));
    assert_eq!(field_value(&fields, "nothing"), None);
    assert_eq!(field_value(&fields, "name"), None);
}

#[test]
fn outcome_is_the_word_after_the_mark() {
    let outcome = |line: &str| parse_line(line).unwrap().outcome;
    assert_eq!(outcome("avc: granted { read }"), "granted");
    assert_eq!(outcome("avc:granted"), "granted");
    assert_eq!(outcome("avc: granted{ read }"), "granted");
    assert_eq!(outcome("avc: denied{ read } for comm=granted"), "denied");
    assert_eq!(outcome("avc: x granted"), "granted");
    assert_eq!(outcome("granted avc: { read }"), "granted");
    assert_eq!(outcome("avc: x granted denied"), "denied");
    assert_eq!(outcome("msg='avc: granted'"), "granted");
    assert_eq!(outcome("avc:  granted  { read } for comm=\"denied\""), "granted");
    assert_eq!(outcome("avc:  denied  { read } for comm=\"granted\""), "denied");
    assert_eq!(outcome("granted avc: denied"), "denied");
    assert_eq!(outcome("avc: neither"), "denied");
    assert_eq!(outcome("avc:"), "denied");
    assert_eq!(outcome("msg='avc:  granted  { x } for tclass=dbus'"), "granted");
}

#[test]
fn a_nested_message_is_read() {
    let d = parse_line("type=USER_AVC msg=audit(5.5:7): pid=900 msg='avc:  denied  { send_msg } for scontext=a:b:c_t:s0 tcontext=a:b:d_t:s0 tclass=dbus permissive=1'").unwrap();
    assert_eq!(d.permissive, Some(true));
    assert_eq!((d.pid, d.tclass.as_str(), d.tcontext.ty.as_str()), (Some(900), "dbus", "d_t"));
    assert_eq!((d.timestamp.as_str(), d.serial), ("5.5", 7));
    assert!(d.raw.ends_with("permissive=1'"));
    let d = parse_line("type=USER_AVC msg='avc: tclass=dbus'").unwrap();
    assert_eq!(d.tclass, "dbus");
    let d = parse_line("msg='pid=3 avc: comm=\"it's\" tclass=dbus' exe=x").unwrap();
    assert_eq!((d.pid, d.comm.as_str(), d.tclass.as_str()), (Some(3), "it's", "dbus"));
}

#[test]
fn messages_are_laid_open() {
    assert_eq!(open_message("a msg='b c=1' d"), "a b c=1 d");
    assert_eq!(open_message("msg='x'"), "x");
    assert_eq!(open_message("msg='it's'"), "it's");
    assert_eq!(open_message("msg='no end"), "msg='no end");
    assert_eq!(open_message("avc: msg='x' comm=o'b"), "avc: x comm=o'b");
    assert_eq!(open_message("msg='x' comm=\"a' b\""), "x comm=\"a' b\"");
    assert_eq!(open_message("msg='x'y=1"), "xy=1");
    assert_eq!(open_message("msg='a=\"b'"), "a=\"b");
    assert_eq!(open_message("xmsg='a'"), "xmsg='a'");
    assert_eq!(open_message("name=\"a msg='b'\" c"), "name=\"a msg='b'\" c");
    assert_eq!(open_message("msg=audit(1:2): avc: x'"), "msg=audit(1:2): avc: x'");
}

#[test]
fn white_space_around_a_line() {
    let line = "type=USER_AVC msg=audit(5.5:7): pid=9 msg='avc: granted { b a } tclass=dbus permissive=1'";
    let (a, b) = (parse_line(line).unwrap(), parse_line(&format!(" \t{line}\u{a0} ")).unwrap());
    assert_eq!(format!("{a:?}"), format!("{b:?}"));
    let open = parse_line("avc: comm=\"x ").unwrap();
    assert_eq!(open.comm, "x ");
}

#[test]
fn the_order_of_the_lines() {
    let lines = [
        record("pid=9 path=/b"),
        LINE.to_string(),
        record("pid=4 path=/a").replace("5.5", "2.5"),
        "no record".to_string(),
        LINE.replace("my file", "other"),
    ];
    let (mut a, total) = grouped(&lines.join("\n"));
    let mut back = lines.to_vec();
    back.reverse();
    let (mut b, again) = grouped(&back.join("\n"));
    assert_eq!((total, a.len()), (again, b.len()));
    a.sort_by_key(|g| g.key.clone());
    b.sort_by_key(|g| g.key.clone());
    for (g, h) in a.iter().zip(&b) {
        assert_eq!((&g.key, g.count, &g.paths, &g.pids), (&h.key, h.count, &h.paths, &h.pids));
        assert_eq!((g.first_ts, g.last_ts), (h.first_ts, h.last_ts));
        assert!(g.paths.len() <= g.count && g.pids.len() <= g.count);
    }
}

#[test]
fn permissions_stand_between_the_first_braces() {
    assert_eq!(parse_line("avc: { write  append\tioctl }").unwrap().perms, vec!["append", "ioctl", "write"]);
    assert!(parse_line("avc: } read {").unwrap().perms.is_empty());
    assert!(parse_line("avc: { read").unwrap().perms.is_empty());
    assert!(parse_line("avc: {}").unwrap().perms.is_empty());
    assert_eq!(parse_line("avc: {a{b}c}").unwrap().perms, vec!["a{b"]);
    assert_eq!(parse_line("{x} avc: denied { read }").unwrap().perms, vec!["read"]);
}

#[test]
fn time_and_serial_are_read_off_the_identification() {
    let d = parse_line("msg=audit(12.5:34:56): avc:").unwrap();
    assert_eq!((d.timestamp.as_str(), d.serial), ("12.5", 34));
    let d = parse_line("msg=audit(12.5): avc:").unwrap();
    assert_eq!((d.timestamp.as_str(), d.serial), ("12.5", 0));
    let d = parse_line("msg=audit(12.5:34 avc:").unwrap();
    assert_eq!((d.timestamp.as_str(), d.serial), ("", 0));
    let d = parse_line(") audit(): avc:").unwrap();
    assert_eq!((d.timestamp.as_str(), d.serial), ("", 0));
    assert_eq!(parse_line("audit(1:18446744073709551615) avc:").unwrap().serial, u64::MAX);
    assert_eq!(parse_line("audit(1:18446744073709551616) avc:").unwrap().serial, 0);
    assert_eq!(parse_line("audit(1:+9) avc:").unwrap().serial, 9);
    assert_eq!(parse_line("audit(1:x) avc:").unwrap().serial, 0);
}

#[test]
fn process_numbers_are_read_or_left_out() {
    assert_eq!(parse_line(&record("pid=+7")).unwrap().pid, Some(7));
    assert_eq!(parse_line(&record("pid=007")).unwrap().pid, Some(7));
    assert_eq!(parse_line(&record("pid=4294967295")).unwrap().pid, Some(u32::MAX));
    assert_eq!(parse_line(&record("pid=4294967296")).unwrap().pid, None);
    assert_eq!(parse_line(&record("pid=-7")).unwrap().pid, None);
    assert_eq!(parse_line(&record("pid=+")).unwrap().pid, None);
    assert_eq!(parse_line(&record("pid=")).unwrap().pid, None);
    assert_eq!(parse_line(&record("pid=3 pid=x")).unwrap().pid, None);
    assert_eq!(parse_line(&record("")).unwrap().pid, None);
}

#[test]
fn a_path_counts_before_a_name() {
    assert_eq!(parse_line(&record("path=/p name=n")).unwrap().path.as_deref(), Some("/p"));
    assert_eq!(parse_line(&record("name=n")).unwrap().path.as_deref(), Some("n"));
    assert_eq!(parse_line(&record("")).unwrap().path, None);
}

#[test]
fn the_other_fields_of_a_record() {
    let d = parse_line(&record("dev=\"sda1\" ino=66 permissive=1")).unwrap();
    assert_eq!(d.dev.as_deref(), Some("sda1"));
    assert_eq!(d.ino.as_deref(), Some("66"));
    assert_eq!(d.permissive, Some(true));
    assert_eq!((d.comm.as_str(), d.tclass.as_str(), d.scontext.raw.as_str()), ("", "", ""));
    assert_eq!(parse_line(&record("")).unwrap().permissive, None);
    assert_eq!(parse_line(&record("permissive=yes")).unwrap().permissive, Some(false));
    assert_eq!(parse_line("  avc: x \t").unwrap().raw, "avc: x");
}

#[test]
fn key_of_a_record() {
    assert_eq!(
        dedup_key(&parse_line(LINE).unwrap()),
        "denied|open,read|system_u:system_r:httpd_t:s0|unconfined_u:object_r:user_home_t:s0|file|httpd"
    );
}

#[test]
fn lines_end_with_or_without_a_carriage_return() {
    let (groups, total) = grouped(&format!("{LINE}\r\n\n{LINE}\r\nno record\n{LINE}"));
    assert_eq!((groups.len(), total), (1, 3));
    assert_eq!(groups[0].sample_raw, LINE);
}

#[test]
fn counts_of_the_groups_add_up() {
    let other = LINE.replace("httpd_t", "nginx_t");
    let (groups, total) = grouped(&format!("{LINE}\n{other}\n{LINE}\n{other}\n{LINE}"));
    assert_eq!(total, 5);
    assert_eq!(groups.iter().map(|g| g.count).collect::<Vec<_>>(), vec![3, 2]);
    assert_eq!(groups[0].scontext.ty, "httpd_t");
    assert_eq!(groups[1].scontext.ty, "nginx_t");
}

#[test]
fn each_part_of_a_problem_opens_a_group() {
    let mut lines = vec![LINE.to_string()];
    lines.push(LINE.replace("denied", "granted"));
    lines.push(LINE.replace("read open", "read"));
    lines.push(LINE.replace("httpd_t:s0", "httpd_t:s1"));
    lines.push(LINE.replace("user_home_t", "var_t"));
    lines.push(LINE.replace("tclass=file", "tclass=dir"));
    lines.push(LINE.replace("\"httpd\"", "\"nginx\""));
    let (groups, total) = grouped(&lines.join("\n"));
    assert_eq!((groups.len(), total), (7, 7));
    let (groups, total) = grouped(&format!(
        "{LINE}\n{}\n{}\n{}",
        LINE.replace("pid=2041", "pid=2042"),
        LINE.replace("1717250001.111:401", "1717250009.5:409"),
        LINE.replace("ino=66001", "ino=1")
    ));
    assert_eq!((groups.len(), total), (1, 4));
}

#[test]
fn permissions_are_told_apart_one_by_one() {
    let (groups, _) = grouped("avc: {a,b}\navc: {a b}");
    assert_eq!(groups.len(), 2);
    assert_eq!(groups[0].key, "denied|a\\,b||||");
    assert_eq!(groups[1].key, "denied|a,b||||");
}

#[test]
fn keys_escape_their_separators() {
    let key = |rest: &str| dedup_key(&parse_line(&format!("avc: {rest}")).unwrap());
    assert_eq!(key("comm=a|b\\c,d tclass=x"), "denied||||x|a\\|b\\\\c,d");
    assert_eq!(key("{b a,c|d} scontext=u:r:t:s0:c1,c2"), "denied|a\\,c\\|d,b|u:r:t:s0:c1,c2|||");
    let same = [
        "tclass=x|y comm=z",
        "tclass=x comm=y|z",
        "tclass=x\\ comm=|y|z",
        "tclass=x\\|y comm=z",
        "tcontext=x tclass=y comm=z",
        "scontext=x|y tclass=z",
        "scontext=x tcontext=y tclass=z",
        "{a|b}",
        "{a} scontext=b",
        "{a,b}",
        "{a b}",
        "{a\\ b}",
        "{a\\,b}",
    ];
    for a in same {
        for b in same {
            assert_eq!(key(a) == key(b), a == b, "{a} {b}");
        }
    }
}

#[test]
fn keys_leave_out_what_is_no_part_of_the_problem() {
    let other = LINE
        .replace("2041", "9")
        .replace("1717250001.111:401", "3:4")
        .replace("66001", "5")
        .replace("sda1", "sdb")
        .replace("my file.html", "x")
        .replace("permissive=0", "permissive=1");
    assert_eq!(dedup_key(&parse_line(LINE).unwrap()), dedup_key(&parse_line(&other).unwrap()));
}

#[test]
fn paths_and_process_numbers_are_gathered() {
    let text = format!(
        "{}\n{}\n{}\n{}",
        record("pid=9 path=/b"),
        record("pid=4 path=/a"),
        record("pid=9 path=/b"),
        record("")
    );
    let (groups, _) = grouped(&text);
    assert_eq!(groups[0].paths, vec!["/a", "/b"]);
    assert_eq!(groups[0].pids.iter().copied().collect::<Vec<u32>>(), vec![4, 9]);
}

#[test]
fn first_and_last_times() {
    let at = |t: &str| record("").replace("5.5", t);
    let times = |g: &AggDenial| (f64::from_bits(g.first_ts.bits), f64::from_bits(g.last_ts.bits));
    let (g, _) = grouped(&format!("{}\n{}\n{}", at("20.5"), at("10.25"), at("30.75")));
    assert_eq!(times(&g[0]), (10.25, 30.75));
    let (g, _) = grouped(&format!("{}\n{}", at("x"), at("30")));
    assert_eq!(times(&g[0]), (30.0, 30.0));
    let (g, _) = grouped(&format!("{}\n{}", at("30"), at("-4")));
    assert_eq!(times(&g[0]), (30.0, 30.0));
    let (g, _) = grouped(&format!("{}\n{}", at("-4"), at("30")));
    assert_eq!(times(&g[0]), (-4.0, 30.0));
    let (g, _) = grouped(&format!("{}\n{}", at("nan"), at("30")));
    assert!(times(&g[0]).0.is_nan() && times(&g[0]).1.is_nan());
    let (g, _) = grouped(&at("inf"));
    assert_eq!(times(&g[0]), (f64::INFINITY, f64::INFINITY));
}

#[test]
fn records_without_a_given_time_count_as_of_time_zero() {
    let (g, _) = aggregate(LINE, &Vec::new());
    assert_eq!((g[0].first_ts.bits, g[0].last_ts.bits), (0, 0));
}

#[test]
fn summary_and_haystack() {
    let (groups, _) = grouped(&LINE.replace("\"httpd\"", "\"HTTPD\""));
    assert_eq!(groups[0].summary(), "HTTPD {open read} httpd_t -> user_home_t [file]");
    assert_eq!(
        groups[0].blob(),
        "HTTPD open read system_u:system_r:httpd_t:s0 unconfined_u:object_r:user_home_t:s0 file denied my file.html"
    );
    assert_eq!(groups[0].search_blob(), groups[0].blob().to_lowercase());
    assert_ne!(groups[0].search_blob(), groups[0].blob());
    let (groups, _) = grouped(&record("comm=ÄÖΣ"));
    assert!(groups[0].search_blob().starts_with("äöς "));
}

#[test]
fn a_quoted_value_is_read_back() {
    let fields = split_fields("pid=1 comm=\"x = y\" ino=2");
    assert_eq!(fields, vec!["pid=1", "comm=x = y", "ino=2"]);
    assert_eq!(field_value(&fields, "comm").as_deref(), Some("x = y"));
}

#[test]
fn a_group_shows_its_first_record() {
    let later = LINE.replace("permissive=0", "permissive=1").replace("pid=2041", "pid=1");
    let (groups, _) = grouped(&format!("{LINE}\n{later}"));
    assert_eq!(groups.len(), 1);
    assert_eq!((groups[0].sample_raw.as_str(), groups[0].permissive), (LINE, Some(false)));
    assert_eq!(groups[0].key, dedup_key(&parse_line(LINE).unwrap()));
}
