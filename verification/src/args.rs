//! The command line.
use vstd::prelude::*;
use vstd::slice::slice_subrange;
use crate::text::begins_with;
use crate::text::chars_of;
use crate::text::same_text;
use crate::text::text_of;

verus! {

/// What the command line asks for.
#[derive(Debug, PartialEq, Eq)]
pub enum Request {
    /// Show denials: those of the demo, those of a file, or those to be found.
    Show(bool, Option<String>),
    /// Print how the program is used.
    Usage,
    /// Print the version.
    Version,
}

/// What the command line asks for, its text taken as a sequence.
#[verifier::ext_equal]
pub enum RequestView {
    Show(bool, Option<Seq<char>>),
    Usage,
    Version,
}

impl View for Request {
    type V = RequestView;

    open spec fn view(&self) -> RequestView {
        match self {
            Request::Show(demo, file) => RequestView::Show(*demo, crate::text::opt_text(*file)),
            Request::Usage => RequestView::Usage,
            Request::Version => RequestView::Version,
        }
    }
}

/// `s` without the copies of `prefix` that it begins with.
pub open spec fn without_prefixes(s: Seq<char>, prefix: Seq<char>) -> Seq<char>
    decreases s.len(),
{
    if prefix.len() > 0 && crate::text::occurs_at(s, prefix, 0) {
        without_prefixes(s.skip(prefix.len() as int), prefix)
    } else {
        s
    }
}

/// The rest of a text after the copies of `prefix` that it begins with.
pub fn strip_prefixes<'a>(s: &'a [char], prefix: &str) -> (r: &'a [char])
    ensures
        r@ == without_prefixes(s@, prefix@),
{
    let n = s.len();
    let step = prefix.unicode_len();
    let mut i: usize = 0;
    assert(s@.subrange(0, n as int) =~= s@);
    while step > 0 && begins_with(slice_subrange(s, i, n), prefix)
        invariant
            i <= n == s@.len(),
            step == prefix@.len(),
            without_prefixes(s@.subrange(i as int, n as int), prefix@) == without_prefixes(
                s@,
                prefix@,
            ),
        decreases n - i,
    {
        assert(s@.subrange(i as int, n as int).skip(step as int) =~= s@.subrange(
            i + step,
            n as int,
        ));
        i = i + step;
    }
    slice_subrange(s, i, n)
}

/// What the arguments `args` ask for after others asked for `demo` and `file`. Of
/// several files the last one counts; a `--file` with nothing after it takes the
/// file back. Other words are passed over.
pub open spec fn requested(
    args: Seq<Seq<char>>,
    demo: bool,
    file: Option<Seq<char>>,
) -> RequestView
    decreases args.len(),
{
    if args.len() == 0 {
        RequestView::Show(demo, file)
    } else if args[0] == "--demo"@ {
        requested(args.skip(1), true, file)
    } else if args[0] == "--file"@ {
        if args.len() == 1 {
            RequestView::Show(demo, None)
        } else {
            requested(args.skip(2), demo, Some(args[1]))
        }
    } else if args[0] == "-h"@ || args[0] == "--help"@ {
        RequestView::Usage
    } else if args[0] == "--version"@ {
        RequestView::Version
    } else if crate::text::occurs_at(args[0], "--file="@, 0) {
        requested(args.skip(1), demo, Some(without_prefixes(args[0], "--file="@)))
    } else {
        requested(args.skip(1), demo, file)
    }
}

/// Reads the arguments, the name of the program not being one of them.
pub fn read_args(args: &Vec<String>) -> (r: Request)
    ensures
        r@ == requested(crate::text::texts(args@), false, None),
{
    let n = args.len();
    let mut demo = false;
    let mut file: Option<String> = None;
    let mut i: usize = 0;
    let ghost all = crate::text::texts(args@);
    assert(all.skip(0) =~= all);
    while i < n
        invariant
            i <= n == args@.len(),
            all == crate::text::texts(args@),
            requested(all.skip(i as int), demo, crate::text::opt_text(file)) == requested(
                all,
                false,
                None,
            ),
        decreases n - i,
    {
        let a = args[i].as_str();
        assert(all.skip(i as int)[0] == a@);
        assert(all.skip(i as int).skip(1) =~= all.skip(i + 1));
        if same_text(a, "--demo") {
            demo = true;
        } else if same_text(a, "--file") {
            if i + 1 == n {
                return Request::Show(demo, None);
            }
            assert(all.skip(i as int)[1] == args@[i + 1]@);
            assert(all.skip(i as int).skip(2) =~= all.skip(i + 2));
            file = Some(args[i + 1].as_str().to_owned());
            i = i + 1;
        } else if same_text(a, "-h") || same_text(a, "--help") {
            return Request::Usage;
        } else if same_text(a, "--version") {
            return Request::Version;
        } else {
            let chars = chars_of(a);
            if begins_with(chars.as_slice(), "--file=") {
                file = Some(text_of(strip_prefixes(chars.as_slice(), "--file=")));
            }
        }
        i = i + 1;
    }
    assert(all.skip(n as int) =~= Seq::<Seq<char>>::empty());
    Request::Show(demo, file)
}

} // verus!
