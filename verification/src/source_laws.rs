//! What holds of the mode of the system, of the search for denials and of the command
//! line.
use vstd::prelude::*;
use crate::args::RequestView;
use crate::selinux::EnforceStatus;
use crate::selinux::LoadStep;
use crate::selinux::Probe;
use crate::selinux::Source;

verus! {

// ---- the mode ------------------------------------------------------------

/// A text is one character with white space around it.
pub open spec fn is_padded_char(s: Seq<char>, c: char) -> bool {
    exists|a: Seq<char>, b: Seq<char>|
        s == #[trigger] (a + seq![c] + b) && crate::laws::is_blank(a) && crate::laws::is_blank(b)
}

proof fn lemma_padded_char(s: Seq<char>, c: char)
    requires
        !crate::text::is_space(c),
    ensures
        is_padded_char(s, c) <==> crate::text::trimmed(s) == seq![c],
{
    if is_padded_char(s, c) {
        let (a, b) = choose|a: Seq<char>, b: Seq<char>|
            s == #[trigger] (a + seq![c] + b) && crate::laws::is_blank(a) && crate::laws::is_blank(
                b,
            );
        crate::text_laws::trimming_undoes_padding(a, seq![c], b);
    }
    crate::text_laws::trimming_takes_the_white_space_at_the_ends(s);
}

/// A one in the mode file means enforcing, a zero permissive, anything else that the
/// mode is not known. What else was found does not matter then.
pub proof fn the_mode_file_decides(p: Probe)
    requires
        p.enforce_file is Some,
    ensures
        ({
            let contents = p.enforce_file->0@;
            let status = crate::selinux::probed_status(p);
            &&& status == EnforceStatus::Enforcing <==> is_padded_char(contents, '1')
            &&& status == EnforceStatus::Permissive <==> is_padded_char(contents, '0')
            &&& status == EnforceStatus::Unknown <==> !is_padded_char(contents, '1')
                && !is_padded_char(contents, '0')
        }),
{
    reveal_strlit("1");
    reveal_strlit("0");
    assert("1"@ =~= seq!['1']);
    assert("0"@ =~= seq!['0']);
    let contents = p.enforce_file->0@;
    lemma_padded_char(contents, '1');
    lemma_padded_char(contents, '0');
    assert(seq!['1'][0] != seq!['0'][0]);
}

/// Without a mode file, a mounted file system leaves the mode unknown. With nothing
/// mounted `getenforce` is believed, in upper or lower case and with white space
/// around; without an answer SELinux is disabled.
pub proof fn without_a_mode_file(p: Probe)
    requires
        p.enforce_file is None,
    ensures
        ({
            let status = crate::selinux::probed_status(p);
            &&& p.mounted ==> status == EnforceStatus::Unknown
            &&& !p.mounted && p.getenforce is None ==> status == EnforceStatus::Disabled
            &&& !p.mounted && p.getenforce is Some ==> {
                let word = crate::text::lowercase(crate::text::trimmed(p.getenforce->0@));
                &&& status == EnforceStatus::Enforcing <==> word == "enforcing"@
                &&& status == EnforceStatus::Permissive <==> word == "permissive"@
                &&& status == EnforceStatus::Disabled <==> word == "disabled"@
            }
        }),
{
    reveal_strlit("enforcing");
    reveal_strlit("permissive");
    reveal_strlit("disabled");
    assert("enforcing"@[0] == 'e' && "permissive"@[0] == 'p' && "disabled"@[0] == 'd');
}

// ---- the search for denials ----------------------------------------------

/// The search ended with this text from this source.
pub open spec fn ended(step: LoadStep, text: Seq<char>, source: Source) -> bool {
    match step {
        LoadStep::Done(t, s) => t@ == text && s == source,
        _ => false,
    }
}

/// Where something that is no white space was read.
pub open spec fn is_written(text: Option<String>) -> bool {
    text is Some && exists|i: int|
        0 <= i < text->0@.len() && !crate::text::is_space(#[trigger] text->0@[i])
}

proof fn lemma_written(s: Seq<char>)
    ensures
        crate::text::trimmed(s).len() > 0 <==> exists|i: int|
            0 <= i < s.len() && !crate::text::is_space(#[trigger] s[i]),
{
    let t = crate::text::trimmed(s);
    crate::text_laws::trimming_takes_the_white_space_at_the_ends(s);
    let (a, b) = choose|a: Seq<char>, b: Seq<char>|
        s == #[trigger] (a + t + b) && crate::laws::is_blank(a) && crate::laws::is_blank(b);
    if t.len() > 0 {
        assert(s[a.len() as int] == t[0]);
    } else {
        assert forall|i: int| 0 <= i < s.len() implies crate::text::is_space(#[trigger] s[i]) by {
            if i < a.len() {
                assert(crate::text::is_space(a[i]));
            } else {
                assert(crate::text::is_space(b[i - a.len()]));
            }
        }
    }
}

/// A file that was asked for is shown as it is, under its name; where it cannot be read
/// the sample is shown. Nothing else is read then.
pub proof fn a_file_is_shown_or_the_sample(path: String, text: Option<String>, next: LoadStep)
    requires
        crate::selinux::follows(LoadStep::ReadFile(path), text, next),
    ensures
        text is Some ==> ended(next, text->0@, Source::File(path)),
        text is None ==> ended(next, crate::selinux::DEMO@, Source::Demo),
{
}

/// The standard input is shown where something is written in it; else `ausearch` is run.
pub proof fn the_input_is_shown_if_anything_is_in_it(text: Option<String>, next: LoadStep)
    requires
        crate::selinux::follows(LoadStep::ReadStdin, text, next),
    ensures
        is_written(text) ==> ended(next, text->0@, Source::Stdin),
        !is_written(text) ==> next is RunAusearch,
{
    if text is Some {
        lemma_written(text->0@);
    }
}

/// What `ausearch` printed is shown where it holds a record; else the audit log is read,
/// and shown where it holds one; else the sample is shown.
pub proof fn a_source_needs_a_record(text: Option<String>, next: LoadStep)
    ensures
        crate::selinux::follows(LoadStep::RunAusearch, text, next) ==> {
            if text is Some && crate::text::has(text->0@, "avc:"@) {
                ended(next, text->0@, Source::Ausearch)
            } else {
                next is ReadAuditLog
            }
        },
        crate::selinux::follows(LoadStep::ReadAuditLog, text, next) ==> {
            if text is Some && crate::text::has(text->0@, "avc:"@) {
                ended(next, text->0@, Source::AuditLog)
            } else {
                ended(next, crate::selinux::DEMO@, Source::Demo)
            }
        },
{
}

// ---- the command line ----------------------------------------------------

proof fn lemma_options_differ()
    ensures
        "--file"@ != "--demo"@,
        "-h"@ != "--demo"@ && "-h"@ != "--file"@,
        "--help"@ != "--demo"@ && "--help"@ != "--file"@,
        "--version"@ != "--demo"@ && "--version"@ != "--file"@ && "--version"@ != "-h"@
            && "--version"@ != "--help"@,
        "--file="@.len() == 7,
        "--file="@[0] == '-' && "--file="@[6] == '=' && "--file="@[2] == 'f',
        "--file"@.len() == 6 && "--demo"@.len() == 6 && "-h"@.len() == 2 && "--help"@.len() == 6,
        "--version"@.len() == 9 && "--version"@[2] == 'v',
{
    reveal_strlit("--file");
    reveal_strlit("--demo");
    reveal_strlit("-h");
    reveal_strlit("--help");
    reveal_strlit("--version");
    reveal_strlit("--file=");
    assert("-h"@.len() == 2 && "--file"@.len() == 6 && "--version"@.len() == 9);
    assert("--demo"@.len() == 6 && "--help"@.len() == 6);
    assert("--file"@[2] == 'f' && "--demo"@[2] == 'd' && "--help"@[2] == 'h' && "--version"@[2]
        == 'v');
}

/// The arguments are read one after the other. The demo is asked for by its option; a
/// file by its option and the next argument, or by its option with the name behind an
/// equals sign; the option without a name takes the file back. Help and version end the
/// reading. Any other word is passed over.
pub proof fn arguments_ask_for_what_they_say(
    rest: Seq<Seq<char>>,
    name: Seq<char>,
    other: Seq<char>,
    demo: bool,
    file: Option<Seq<char>>,
)
    requires
        !crate::text::occurs_at(name, "--file="@, 0),
        other != "--demo"@ && other != "--file"@ && other != "-h"@ && other != "--help"@ && other
            != "--version"@ && !crate::text::occurs_at(other, "--file="@, 0),
    ensures
        crate::args::requested(Seq::empty(), demo, file) == RequestView::Show(demo, file),
        crate::args::requested(seq!["--demo"@] + rest, demo, file) == crate::args::requested(
            rest,
            true,
            file,
        ),
        crate::args::requested(seq!["--file"@, name] + rest, demo, file) == crate::args::requested(
            rest,
            demo,
            Some(name),
        ),
        crate::args::requested(seq!["--file"@], demo, file) == RequestView::Show(demo, None),
        crate::args::requested(seq!["--file="@ + name] + rest, demo, file)
            == crate::args::requested(rest, demo, Some(name)),
        crate::args::requested(seq!["-h"@] + rest, demo, file) == RequestView::Usage,
        crate::args::requested(seq!["--help"@] + rest, demo, file) == RequestView::Usage,
        crate::args::requested(seq!["--version"@] + rest, demo, file) == RequestView::Version,
        crate::args::requested(seq![other] + rest, demo, file) == crate::args::requested(
            rest,
            demo,
            file,
        ),
{
    lemma_options_differ();
    assert((seq!["--demo"@] + rest).skip(1) =~= rest);
    assert((seq!["--file"@, name] + rest).skip(2) =~= rest);
    assert((seq!["--file"@, name] + rest)[1] == name);
    let long = "--file="@ + name;
    assert((seq![long] + rest).skip(1) =~= rest);
    assert((seq![other] + rest).skip(1) =~= rest);
    assert(long.subrange(0, 7) =~= "--file="@);
    assert(crate::text::occurs_at(long, "--file="@, 0));
    assert(long.skip(7) =~= name);
    assert(crate::args::without_prefixes(name, "--file="@) == name);
    assert(crate::args::without_prefixes(long, "--file="@) == name);
    assert(long[2] == 'f');
    assert(long.len() >= 7);
    assert((seq![long] + rest)[0] == long);
    assert((seq!["-h"@] + rest)[0] == "-h"@);
    assert((seq!["--help"@] + rest)[0] == "--help"@);
    assert((seq!["--version"@] + rest)[0] == "--version"@);
    assert((seq![other] + rest)[0] == other);
}

} // verus!
