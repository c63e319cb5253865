//! SELinux status detection and denial sources.
//!
//! What is read where, and what is made of it. Reading itself is the caller's:
//! the functions here say what to read next and take what was read.
use vstd::prelude::*;
use crate::text::chars_of;
use crate::text::has_text;
use crate::text::same_text;
use crate::text::spells;
use crate::text::text_of;
use crate::text::trim;

verus! {

// ---- the enforcing mode --------------------------------------------------

#[derive(Debug, Clone, Copy, PartialEq, Eq, Structural)]
pub enum EnforceStatus {
    Enforcing,
    Permissive,
    Disabled,
    Unknown,
}

impl EnforceStatus {
    pub open spec fn name(self) -> Seq<char> {
        match self {
            EnforceStatus::Enforcing => "ENFORCING"@,
            EnforceStatus::Permissive => "PERMISSIVE"@,
            EnforceStatus::Disabled => "DISABLED"@,
            EnforceStatus::Unknown => "UNKNOWN"@,
        }
    }

    /// The name of the mode on the status badge.
    pub fn label(&self) -> (s: &'static str)
        ensures
            s@ == self.name(),
    {
        match self {
            EnforceStatus::Enforcing => "ENFORCING",
            EnforceStatus::Permissive => "PERMISSIVE",
            EnforceStatus::Disabled => "DISABLED",
            EnforceStatus::Unknown => "UNKNOWN",
        }
    }
}

/// The mode that the contents of `/sys/fs/selinux/enforce` stand for.
pub open spec fn enforce_file_status(contents: Seq<char>) -> EnforceStatus {
    let s = crate::text::trimmed(contents);
    if s == "1"@ {
        EnforceStatus::Enforcing
    } else if s == "0"@ {
        EnforceStatus::Permissive
    } else {
        EnforceStatus::Unknown
    }
}

/// Reads the contents of `/sys/fs/selinux/enforce`: `1` is enforcing, `0` is
/// permissive.
pub fn status_of_enforce_file(contents: &str) -> (r: EnforceStatus)
    ensures
        r == enforce_file_status(contents@),
{
    let chars = chars_of(contents);
    let s = trim(chars.as_slice());
    if spells(s, "1") {
        EnforceStatus::Enforcing
    } else if spells(s, "0") {
        EnforceStatus::Permissive
    } else {
        EnforceStatus::Unknown
    }
}

/// The mode that a lowercase word stands for.
pub open spec fn word_status(word: Seq<char>) -> EnforceStatus {
    if word == "enforcing"@ {
        EnforceStatus::Enforcing
    } else if word == "permissive"@ {
        EnforceStatus::Permissive
    } else if word == "disabled"@ {
        EnforceStatus::Disabled
    } else {
        EnforceStatus::Unknown
    }
}

/// Reads a lowercase mode word.
pub fn status_of_word(word: &str) -> (r: EnforceStatus)
    ensures
        r == word_status(word@),
{
    if same_text(word, "enforcing") {
        EnforceStatus::Enforcing
    } else if same_text(word, "permissive") {
        EnforceStatus::Permissive
    } else if same_text(word, "disabled") {
        EnforceStatus::Disabled
    } else {
        EnforceStatus::Unknown
    }
}

/// Reads what `getenforce` printed.
pub fn status_of_getenforce(output: &str) -> (r: EnforceStatus)
    ensures
        r == word_status(crate::text::lowercase(crate::text::trimmed(output@))),
{
    let chars = chars_of(output);
    let word = text_of(trim(chars.as_slice()));
    status_of_word(word.as_str().to_lowercase().as_str())
}

/// What was found of the enforcing mode.
pub struct Probe {
    /// The contents of `/sys/fs/selinux/enforce`, if it exists and could be read.
    pub enforce_file: Option<String>,
    /// Whether `/sys/fs/selinux` exists.
    pub mounted: bool,
    /// What `getenforce` printed, if it was asked and could be run.
    pub getenforce: Option<String>,
}

/// Whether `getenforce` is to be asked: only where the mode cannot be read and
/// nothing is mounted.
pub fn asks_getenforce(enforce_file: &Option<String>, mounted: bool) -> (r: bool)
    ensures
        r == (enforce_file is None && !mounted),
{
    enforce_file.is_none() && !mounted
}

/// The mode that a probe shows.
pub open spec fn probed_status(p: Probe) -> EnforceStatus {
    match p.enforce_file {
        Some(contents) => enforce_file_status(contents@),
        None => if p.mounted {
            EnforceStatus::Unknown
        } else {
            match p.getenforce {
                Some(output) => word_status(
                    crate::text::lowercase(crate::text::trimmed(output@)),
                ),
                None => EnforceStatus::Disabled,
            }
        },
    }
}

/// Detects the current mode from what was found. The mode file counts first. With
/// nothing mounted, `getenforce` is believed, and without an answer of its own
/// SELinux is taken to be disabled.
pub fn detect_status(p: &Probe) -> (r: EnforceStatus)
    ensures
        r == probed_status(*p),
{
    match &p.enforce_file {
        Some(contents) => status_of_enforce_file(contents.as_str()),
        None => {
            if p.mounted {
                EnforceStatus::Unknown
            } else {
                match &p.getenforce {
                    Some(output) => status_of_getenforce(output.as_str()),
                    None => EnforceStatus::Disabled,
                }
            }
        },
    }
}

// ---- where denials come from ---------------------------------------------

/// Where the denial text came from, shown in the footer for transparency.
#[derive(Debug, Clone)]
pub enum Source {
    Demo,
    File(String),
    Stdin,
    Ausearch,
    AuditLog,
}

impl Source {
    pub open spec fn description(self) -> Seq<char> {
        match self {
            Source::Demo => "built-in demo data"@,
            Source::File(p) => "file: "@ + p@,
            Source::Stdin => "stdin"@,
            Source::Ausearch => "ausearch -m AVC,USER_AVC,SELINUX_ERR"@,
            Source::AuditLog => "/var/log/audit/audit.log"@,
        }
    }

    /// The source in words.
    pub fn describe(&self) -> (s: String)
        ensures
            s@ == self.description(),
    {
        match self {
            Source::Demo => "built-in demo data".to_owned(),
            Source::File(p) => {
                let mut s = "file: ".to_owned();
                s.append(p.as_str());
                s
            },
            Source::Stdin => "stdin".to_owned(),
            Source::Ausearch => "ausearch -m AVC,USER_AVC,SELINUX_ERR".to_owned(),
            Source::AuditLog => "/var/log/audit/audit.log".to_owned(),
        }
    }
}

/// A step of looking for denials: something to read, or the end of the search.
pub enum LoadStep {
    /// Read the file that was asked for.
    ReadFile(String),
    /// Read the standard input, unless it is a terminal.
    ReadStdin,
    /// Run `ausearch` for the denials of today.
    RunAusearch,
    /// Read `/var/log/audit/audit.log`.
    ReadAuditLog,
    /// Show this text from this source.
    Done(String, Source),
}

/// The end of the search with the demo data.
pub open spec fn shows_demo(step: LoadStep) -> bool {
    step matches LoadStep::Done(text, source) && text@ == DEMO@ && source is Demo
}

/// The end of the search with the text that was read.
pub open spec fn shows(step: LoadStep, text: Seq<char>, from: Source) -> bool {
    step matches LoadStep::Done(t, source) && t@ == text && source == from
}

/// Text that holds a record.
pub open spec fn holds_record(text: Option<String>) -> bool {
    text is Some && crate::text::has(text->0@, "avc:"@)
}

fn demo_step() -> (step: LoadStep)
    ensures
        shows_demo(step),
{
    LoadStep::Done(demo_data().to_owned(), Source::Demo)
}

/// The first step of looking for denials: the demo where it is asked for, else
/// the file that is named, else the standard input.
pub fn load(force_demo: bool, file: Option<String>) -> (step: LoadStep)
    ensures
        force_demo ==> shows_demo(step),
        !force_demo && file is Some ==> step == LoadStep::ReadFile(file->0),
        !force_demo && file is None ==> step is ReadStdin,
{
    if force_demo {
        return demo_step();
    }
    match file {
        Some(p) => LoadStep::ReadFile(p),
        None => LoadStep::ReadStdin,
    }
}

/// What the next step has to be after `step` read `text`, or could read nothing.
pub open spec fn follows(step: LoadStep, text: Option<String>, next: LoadStep) -> bool {
    match step {
        LoadStep::ReadFile(p) => match text {
            Some(t) => shows(next, t@, Source::File(p)),
            None => shows_demo(next),
        },
        LoadStep::ReadStdin => if text is Some && crate::text::trimmed(text->0@).len() > 0 {
            shows(next, text->0@, Source::Stdin)
        } else {
            next is RunAusearch
        },
        LoadStep::RunAusearch => if holds_record(text) {
            shows(next, text->0@, Source::Ausearch)
        } else {
            next is ReadAuditLog
        },
        LoadStep::ReadAuditLog => if holds_record(text) {
            shows(next, text->0@, Source::AuditLog)
        } else {
            shows_demo(next)
        },
        LoadStep::Done(t, source) => next == LoadStep::Done(t, source),
    }
}

impl LoadStep {
    /// The step after this one, `text` being what was read, if anything could be.
    /// A file that cannot be read gives way to the demo data. Of the other places
    /// the first one with something to show is taken, and the demo data after all.
    pub fn advance(self, text: Option<String>) -> (next: LoadStep)
        ensures
            follows(self, text, next),
    {
        match self {
            LoadStep::ReadFile(p) => match text {
                Some(t) => LoadStep::Done(t, Source::File(p)),
                None => demo_step(),
            },
            LoadStep::ReadStdin => {
                if let Some(t) = text {
                    if trim(chars_of(t.as_str()).as_slice()).len() > 0 {
                        return LoadStep::Done(t, Source::Stdin);
                    }
                }
                LoadStep::RunAusearch
            },
            LoadStep::RunAusearch => {
                if let Some(t) = text {
                    if has_text(chars_of(t.as_str()).as_slice(), "avc:") {
                        return LoadStep::Done(t, Source::Ausearch);
                    }
                }
                LoadStep::ReadAuditLog
            },
            LoadStep::ReadAuditLog => {
                if let Some(t) = text {
                    if has_text(chars_of(t.as_str()).as_slice(), "avc:") {
                        return LoadStep::Done(t, Source::AuditLog);
                    }
                }
                demo_step()
            },
            LoadStep::Done(t, source) => LoadStep::Done(t, source),
        }
    }

    /// How many steps may follow.
    pub open spec fn distance(self) -> nat {
        match self {
            LoadStep::ReadFile(_) => 1,
            LoadStep::ReadStdin => 3,
            LoadStep::RunAusearch => 2,
            LoadStep::ReadAuditLog => 1,
            LoadStep::Done(_, _) => 0,
        }
    }
}

/// The search ends: each step that is not the last brings the end nearer.
pub proof fn search_ends(step: LoadStep, text: Option<String>, next: LoadStep)
    requires
        follows(step, text, next),
        !(step is Done),
    ensures
        next.distance() < step.distance(),
{
}

/// The order of the places: with neither the demo nor a file asked for, the
/// standard input counts before `ausearch`, `ausearch` before the audit log, and
/// the demo data is shown only where none of them has anything.
pub proof fn sources_in_order(
    stdin: Option<String>,
    ausearch: Option<String>,
    log: Option<String>,
    second: LoadStep,
    third: LoadStep,
    last: LoadStep,
)
    requires
        follows(LoadStep::ReadStdin, stdin, second),
        follows(second, ausearch, third),
        follows(third, log, last),
    ensures
        ({
            let piped = stdin is Some && crate::text::trimmed(stdin->0@).len() > 0;
            if piped {
                shows(last, stdin->0@, Source::Stdin)
            } else if holds_record(ausearch) {
                shows(last, ausearch->0@, Source::Ausearch)
            } else if holds_record(log) {
                shows(last, log->0@, Source::AuditLog)
            } else {
                shows_demo(last)
            }
        }),
{
}

/// Realistic sample denials. They cover the common root causes (mislabel, network
/// boolean, non-standard port) and hold repeats, so that the de-duplication and
/// the running total are visible.
pub const DEMO: &'static str = r#"type=AVC msg=audit(1717250001.111:401): avc:  denied  { read } for  pid=2041 comm="httpd" name="index.html" dev="sda1" ino=66001 scontext=system_u:system_r:httpd_t:s0 tcontext=unconfined_u:object_r:user_home_t:s0 tclass=file permissive=0
type=AVC msg=audit(1717250002.220:402): avc:  denied  { read } for  pid=2042 comm="httpd" name="about.html" dev="sda1" ino=66002 scontext=system_u:system_r:httpd_t:s0 tcontext=unconfined_u:object_r:user_home_t:s0 tclass=file permissive=0
type=AVC msg=audit(1717250003.330:403): avc:  denied  { read } for  pid=2043 comm="httpd" name="contact.html" dev="sda1" ino=66003 scontext=system_u:system_r:httpd_t:s0 tcontext=unconfined_u:object_r:user_home_t:s0 tclass=file permissive=0
type=AVC msg=audit(1717250004.440:404): avc:  denied  { open } for  pid=2044 comm="httpd" name="index.html" dev="sda1" ino=66001 scontext=system_u:system_r:httpd_t:s0 tcontext=unconfined_u:object_r:user_home_t:s0 tclass=file permissive=0
type=AVC msg=audit(1717250010.500:410): avc:  denied  { name_connect } for  pid=2050 comm="httpd" dest=3306 scontext=system_u:system_r:httpd_t:s0 tcontext=system_u:object_r:mysqld_port_t:s0 tclass=tcp_socket permissive=0
type=AVC msg=audit(1717250011.600:411): avc:  denied  { name_connect } for  pid=2051 comm="httpd" dest=3306 scontext=system_u:system_r:httpd_t:s0 tcontext=system_u:object_r:mysqld_port_t:s0 tclass=tcp_socket permissive=0
type=AVC msg=audit(1717250020.700:420): avc:  denied  { name_bind } for  pid=3120 comm="nginx" src=8090 scontext=system_u:system_r:httpd_t:s0 tcontext=system_u:object_r:unreserved_port_t:s0 tclass=tcp_socket permissive=0
type=AVC msg=audit(1717250030.800:430): avc:  denied  { write } for  pid=4010 comm="mysqld" name="ibdata1" dev="sdb1" ino=70001 scontext=system_u:system_r:mysqld_t:s0 tcontext=unconfined_u:object_r:default_t:s0 tclass=file permissive=0
type=AVC msg=audit(1717250031.900:431): avc:  denied  { write } for  pid=4011 comm="mysqld" name="ib_logfile0" dev="sdb1" ino=70002 scontext=system_u:system_r:mysqld_t:s0 tcontext=unconfined_u:object_r:default_t:s0 tclass=file permissive=0
type=AVC msg=audit(1717250040.010:440): avc:  denied  { getattr } for  pid=5001 comm="sshd" path="/home/deploy/.ssh/authorized_keys" dev="sda1" ino=80001 scontext=system_u:system_r:sshd_t:s0 tcontext=unconfined_u:object_r:default_t:s0 tclass=file permissive=0
type=USER_AVC msg=audit(1717250050.120:450): pid=900 uid=81 auid=4294967295 ses=4294967295 msg='avc:  denied  { send_msg } for msgtype=method_call interface=org.freedesktop.DBus scontext=system_u:system_r:httpd_t:s0 tcontext=system_u:system_r:system_dbusd_t:s0 tclass=dbus permissive=0'
type=AVC msg=audit(1717250060.220:460): avc:  denied  { read } for  pid=2099 comm="httpd" name="index.html" dev="sda1" ino=66001 scontext=system_u:system_r:httpd_t:s0 tcontext=unconfined_u:object_r:user_home_t:s0 tclass=file permissive=0
"#;

/// The sample denials.
pub fn demo_data() -> (s: &'static str)
    ensures
        s@ == DEMO@,
{
    DEMO
}

} // verus!
