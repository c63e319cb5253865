use avcscope::avc::aggregate;
use avcscope::avc::AggDenial;
use avcscope::hints::diagnose;
use avcscope::hints::is_file_class;
use avcscope::hints::is_network_denial;
use avcscope::hints::is_socket_class;
use avcscope::hints::is_suspicious_type;
use avcscope::hints::relevant_booleans;
use avcscope::hints::HintKind;

fn denial(outcome: &str, perms: &str, source: &str, target: &str, tclass: &str, rest: &str) -> AggDenial {
    let line = format!(
        "avc:  {outcome}  {{ {perms} }} for {rest} scontext=u:r:{source}:s0 tcontext=u:r:{target}:s0 tclass={tclass}"
    );
    aggregate(&line, &Vec::new()).0.remove(0)
}

fn kinds(d: &AggDenial) -> Vec<HintKind> {
    diagnose(d).iter().map(|h| h.kind).collect()
}

fn texts(d: &AggDenial) -> Vec<String> {
    diagnose(d).into_iter().map(|h| h.text).collect()
}

const CONFIRM: &str = "Confirm the cause category (read-only):  echo '<this denial>' | audit2why   -- it reports whether a boolean, a missing rule, or a constraint is responsible.";

const LAST: &str = "Last resort only: audit2allow can generate a module, but it will happily grant access to a MISLABELED file. Rule out labels, ports and booleans first, and always read the .te before installing. This tool will not generate or install policy for you.";

#[test]
fn every_denial_ends_with_the_same_advice() {
    let d = denial("denied", "send_msg", "a_t", "b_t", "dbus", "");
    assert_eq!(
        texts(&d),
        vec![
            CONFIRM,
            "Ask the loaded policy whether the rule even exists (read-only):  sesearch -A -s a_t -t b_t -c dbus",
            LAST,
        ]
    );
    assert_eq!(kinds(&d), vec![HintKind::Inspect, HintKind::Inspect, HintKind::Caution]);
}

#[test]
fn a_mislabel_with_a_path() {
    let d = denial("denied", "read", "mysqld_t", "default_t", "file", "path=/srv/x name=y");
    let t = texts(&d);
    assert_eq!(t.len(), 5);
    assert_eq!(
        t[0],
        "MISLABEL likely: a 'mysqld_t' process was denied on an object labeled 'default_t'. That target type is a generic/home/default label, which usually means the file is in the wrong place or kept an old label after a mv/restore -- not that the service needs this access."
    );
    assert_eq!(
        t[1],
        "Compare actual vs expected label:  ls -Z /srv/x   and   matchpathcon /srv/x   (both read-only). If they differ, the fix is to relabel, e.g.  restorecon -Rv /srv/x  -- run that yourself after confirming."
    );
    assert_eq!(kinds(&d)[..2], [HintKind::Likely, HintKind::Inspect]);
}

#[test]
fn a_mislabel_without_a_path() {
    let d = denial("denied", "read", "mysqld_t", "tmp_t", "dir", "");
    assert_eq!(
        texts(&d)[1],
        "Compare actual vs expected label with  ls -Z <path>  and  matchpathcon <path>  (read-only)."
    );
}

#[test]
fn a_granted_record() {
    let d = denial("granted", "read", "mysqld_t", "tmp_t", "dir", "");
    assert_eq!(
        texts(&d)[0],
        "This is a GRANTED record (logged because the access was audited, e.g. in permissive mode). It was not blocked."
    );
    assert_eq!(kinds(&d)[..2], [HintKind::Consider, HintKind::Likely]);
    assert!(texts(&d)[1].starts_with("MISLABEL"));
}

#[test]
fn a_network_denial_with_booleans() {
    let d = denial("denied", "name_connect x", "httpd_t", "mysqld_port_t", "tcp_socket", "");
    assert_eq!(
        texts(&d)[..4],
        [
            "NETWORK/PORT issue: 'httpd_t' was denied 'name_connect x' against 'mysqld_port_t'. Either the port needs labeling, or a boolean gates this connectivity.",
            "List port labels (read-only):  semanage port -l | grep <type>  -- e.g. to confirm which ports a type owns. A non-standard port is labeled with  semanage port -a -t <port_type> -p tcp <N>  (run yourself).",
            "Possibly gated by a boolean. Check (read-only):  getsebool httpd_can_network_connect  .  If the behavior is intended, enable persistently with  setsebool -P httpd_can_network_connect on  (run yourself).",
            "Other booleans worth reviewing: httpd_can_network_connect_db, nis_enabled",
        ]
    );
    assert_eq!(
        kinds(&d),
        vec![
            HintKind::Likely,
            HintKind::Inspect,
            HintKind::Consider,
            HintKind::Consider,
            HintKind::Inspect,
            HintKind::Inspect,
            HintKind::Caution,
        ]
    );
}

#[test]
fn booleans_by_source_and_target() {
    let of = |d: AggDenial| relevant_booleans(&d);
    assert_eq!(
        of(denial("denied", "name_bind", "httpd_t", "user_home_dir_t", "file", "")),
        vec![
            "httpd_can_network_connect",
            "httpd_can_network_connect_db",
            "httpd_enable_homedirs",
            "httpd_read_user_content",
            "nis_enabled",
        ]
    );
    assert_eq!(of(denial("denied", "x", "nginx_t", "p_t", "udp_socket", "")), vec!["nis_enabled"]);
    assert_eq!(
        of(denial("denied", "x", "httpd_t", "user_home_t", "file", "")),
        vec!["httpd_enable_homedirs", "httpd_read_user_content"]
    );
    assert!(of(denial("denied", "x", "nginx_t", "user_home_t", "file", "")).is_empty());
    assert!(of(denial("denied", "x", "sshd_t", "p_t", "socket", "")).is_empty());
}

#[test]
fn one_boolean_has_no_others() {
    let d = denial("denied", "x", "nginx_t", "p_t", "udp_socket", "");
    let t = texts(&d);
    assert!(t[2].contains("getsebool nis_enabled"));
    assert_eq!(t[3], CONFIRM);
}

#[test]
fn classes_and_types() {
    for c in ["file", "dir", "lnk_file", "chr_file", "blk_file", "fifo_file", "sock_file"] {
        assert!(is_file_class(c) && !is_socket_class(c));
    }
    for c in ["tcp_socket", "udp_socket", "socket", "rawip_socket"] {
        assert!(is_socket_class(c) && !is_file_class(c));
    }
    for c in ["", "files", "unix_stream_socket", "process"] {
        assert!(!is_socket_class(c) && !is_file_class(c));
    }
    for t in [
        "user_home_t",
        "user_home_dir_t",
        "admin_home_t",
        "user_tmp_t",
        "default_t",
        "unlabeled_t",
        "var_t",
        "tmp_t",
        "etc_runtime_t",
    ] {
        assert!(is_suspicious_type(t));
    }
    assert!(!is_suspicious_type("httpd_sys_content_t") && !is_suspicious_type(""));
    assert!(is_network_denial(&denial("denied", "name_bind", "a_t", "b_t", "file", "")));
    assert!(!is_network_denial(&denial("denied", "bind", "a_t", "b_t", "file", "")));
}
