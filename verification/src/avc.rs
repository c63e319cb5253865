//! Parsing of SELinux AVC audit lines, the data model, and de-duplication.
//!
//! Everything here takes log text in and gives structured, grouped denials out.
use std::collections::BTreeSet;
use vstd::prelude::*;
use vstd::slice::slice_subrange;
use crate::number::parse_at_most;
use crate::order::add_text;
use crate::order::sort_texts;
use crate::text::chars_of;
use crate::text::cut;
use crate::text::has_text;
use crate::text::is_whitespace;
use crate::text::join;
use crate::text::same_text;
use crate::text::spells;
use crate::text::split_lines;
use crate::text::split_whitespace;
use crate::text::stands_at;
use crate::text::text_of;
use crate::text::text_position;
use crate::text::trim;
use crate::text::trim_front;
use crate::time::Timestamp;

verus! {

// ---- security contexts ---------------------------------------------------

/// An SELinux security context, e.g. `system_u:system_r:httpd_t:s0`.
#[derive(Debug, Clone, PartialEq, Eq)]
pub struct Context {
    pub user: String,
    pub role: String,
    /// The type: almost always the field that matters.
    pub ty: String,
    pub level: String,
    pub raw: String,
}

/// The texts of a security context.
#[verifier::ext_equal]
pub struct ContextView {
    pub user: Seq<char>,
    pub role: Seq<char>,
    pub ty: Seq<char>,
    pub level: Seq<char>,
    pub raw: Seq<char>,
}

impl View for Context {
    type V = ContextView;

    open spec fn view(&self) -> ContextView {
        ContextView {
            user: self.user@,
            role: self.role@,
            ty: self.ty@,
            level: self.level@,
            raw: self.raw@,
        }
    }
}

/// The context that `raw` spells: up to three parts, each ended by a colon, and
/// the level, which may hold colons of its own. A part that is missing is empty.
pub open spec fn context_of(raw: Seq<char>) -> ContextView {
    let role_on = crate::text::after(raw, ':');
    let ty_on = crate::text::after(role_on, ':');
    ContextView {
        user: crate::text::before(raw, ':'),
        role: crate::text::before(role_on, ':'),
        ty: crate::text::before(ty_on, ':'),
        level: crate::text::after(ty_on, ':'),
        raw,
    }
}

impl Context {
    /// Reads a context.
    pub fn parse(raw: &str) -> (c: Context)
        ensures
            c@ == context_of(raw@),
    {
        let chars = chars_of(raw);
        let (user, role_on) = cut(chars.as_slice(), ':');
        let (role, ty_on) = cut(role_on, ':');
        let (ty, level) = cut(ty_on, ':');
        Context {
            user: text_of(user),
            role: text_of(role),
            ty: text_of(ty),
            level: text_of(level),
            raw: raw.to_owned(),
        }
    }
}

// ---- fields of a line ----------------------------------------------------

/// The fields of `s`: the runs between white space, with double quotes left out
/// and the white space between two of them kept. `cur` is the beginning of the
/// first field, and `quoted` says that a quote is open.
pub open spec fn fields_from(s: Seq<char>, quoted: bool, cur: Seq<char>) -> Seq<Seq<char>>
    decreases s.len(),
{
    if s.len() == 0 {
        crate::text::unless_empty(cur)
    } else if s[0] == '"' {
        fields_from(s.skip(1), !quoted, cur)
    } else if crate::text::is_space(s[0]) && !quoted {
        crate::text::unless_empty(cur) + fields_from(s.skip(1), quoted, Seq::empty())
    } else {
        fields_from(s.skip(1), quoted, cur.push(s[0]))
    }
}

/// The fields of a line.
pub open spec fn fields_of(s: Seq<char>) -> Seq<Seq<char>> {
    fields_from(s, false, Seq::empty())
}

/// Splits a log line into fields, honoring double-quoted values so that
/// `name="my file"` stays a single token.
pub fn split_fields(s: &str) -> (out: Vec<String>)
    ensures
        crate::text::texts(out@) == fields_of(s@),
{
    let chars = chars_of(s);
    let mut out: Vec<String> = Vec::new();
    let mut cur = String::new();
    let mut in_quotes = false;
    assert(s@.skip(0) =~= s@);
    assert(crate::text::texts(out@) =~= Seq::<Seq<char>>::empty());
    for i in 0..chars.len()
        invariant
            chars@ == s@,
            crate::text::texts(out@) + fields_from(s@.skip(i as int), in_quotes, cur@)
                == fields_of(s@),
    {
        let c = chars[i];
        let ghost rest = s@.skip(i as int);
        assert(rest.skip(1) =~= s@.skip(i + 1));
        assert(rest[0] == c);
        if c == '"' {
            in_quotes = !in_quotes;
        } else if is_whitespace(c) && !in_quotes {
            let ghost done = crate::text::texts(out@);
            let ghost later = fields_from(rest.skip(1), in_quotes, Seq::empty());
            if !cur.as_str().is_empty() {
                proof {
                    crate::text::lemma_texts_push(out@, cur);
                    assert((done + seq![cur@]) + later =~= done + (seq![cur@] + later));
                    assert(done + seq![cur@] =~= done.push(cur@));
                }
                out.push(cur);
                cur = String::new();
            } else {
                assert(done + (Seq::<Seq<char>>::empty() + later) =~= done + later);
                assert(cur@ =~= Seq::<char>::empty());
            }
        } else {
            cur.push(c);
        }
    }
    assert(s@.skip(s@.len() as int) =~= Seq::<char>::empty());
    if !cur.as_str().is_empty() {
        proof {
            crate::text::lemma_texts_push(out@, cur);
            assert(crate::text::texts(out@) + seq![cur@] =~= crate::text::texts(out@).push(cur@));
        }
        out.push(cur);
    } else {
        assert(crate::text::texts(out@) + Seq::<Seq<char>>::empty() =~= crate::text::texts(out@));
    }
    out
}

// ---- nested messages -----------------------------------------------------

/// Whether a double quote is open at the end of `s`, where `quoted` says whether
/// one is open at its beginning.
pub open spec fn ends_quoted(s: Seq<char>, quoted: bool) -> bool
    decreases s.len(),
{
    if s.len() == 0 {
        quoted
    } else {
        ends_quoted(s.skip(1), if s[0] == '"' {
                !quoted
            } else {
                quoted
            })
    }
}

/// The quotes of two texts are counted one after the other.
pub proof fn lemma_ends_quoted(a: Seq<char>, b: Seq<char>, quoted: bool)
    ensures
        ends_quoted(a + b, quoted) == ends_quoted(b, ends_quoted(a, quoted)),
    decreases a.len(),
{
    if a.len() == 0 {
        assert(a + b =~= b);
    } else {
        assert((a + b)[0] == a[0]);
        assert((a + b).skip(1) =~= a.skip(1) + b);
        lemma_ends_quoted(
            a.skip(1),
            b,
            if a[0] == '"' {
                !quoted
            } else {
                quoted
            },
        );
    }
}

/// A message nested in single quotes opens at place `i`: `msg='` begins a field
/// there, outside double quotes.
pub open spec fn opens_at(line: Seq<char>, i: int) -> bool {
    &&& crate::text::occurs_at(line, "msg='"@, i)
    &&& i == 0 || crate::text::is_space(line[i - 1])
    &&& !ends_quoted(line.take(i), false)
}

/// The first place from `from` on at which a nested message opens.
pub open spec fn opening_from(line: Seq<char>, from: int) -> Option<int>
    decreases line.len() - from,
{
    if from < 0 || from >= line.len() {
        None
    } else if opens_at(line, from) {
        Some(from)
    } else {
        opening_from(line, from + 1)
    }
}

/// The last place of a single quote.
pub open spec fn last_quote(s: Seq<char>) -> Option<int>
    decreases s.len(),
{
    if s.len() == 0 {
        None
    } else if s.last() == '\'' {
        Some(s.len() - 1)
    } else {
        last_quote(s.drop_last())
    }
}

/// A single quote at place `j` of a message ends a field, outside double quotes.
pub open spec fn closes_at(s: Seq<char>, j: int) -> bool {
    &&& 0 <= j < s.len()
    &&& s[j] == '\''
    &&& j + 1 == s.len() || crate::text::is_space(s[j + 1])
    &&& !ends_quoted(s.take(j), false)
}

/// The last place before `n` at which a single quote ends a field.
pub open spec fn closing_before(s: Seq<char>, n: int) -> Option<int>
    decreases n,
{
    if n <= 0 {
        None
    } else if closes_at(s, n - 1) {
        Some(n - 1)
    } else {
        closing_before(s, n - 1)
    }
}

/// The place of the quote that closes a message: the last one that ends a field,
/// or the last one at all where none does.
pub open spec fn closing_quote(s: Seq<char>) -> Option<int> {
    match closing_before(s, s.len() as int) {
        Some(j) => Some(j),
        None => last_quote(s),
    }
}

/// A line with its nested message laid open: without `msg='` and without the
/// quote that closes the message. A line without such a message is left as it is.
pub open spec fn message_of(line: Seq<char>) -> Seq<char> {
    match opening_from(line, 0) {
        Some(i) => {
            let inner = line.skip(i + 5);
            match closing_quote(inner) {
                Some(j) => line.take(i) + inner.take(j) + inner.skip(j + 1),
                None => line,
            }
        },
        None => line,
    }
}

fn opening_position(line: &[char]) -> (r: Option<usize>)
    ensures
        match r {
            Some(i) => opening_from(line@, 0) == Some(i as int) && i + 5 <= line@.len(),
            None => opening_from(line@, 0) is None,
        },
{
    let pat = chars_of("msg='");
    proof {
        reveal_strlit("msg='");
        assert(line@.take(0) =~= Seq::<char>::empty());
    }
    let mut quoted = false;
    for i in 0..line.len()
        invariant
            pat@ == "msg='"@,
            pat@.len() == 5,
            quoted == ends_quoted(line@.take(i as int), false),
            opening_from(line@, i as int) == opening_from(line@, 0),
    {
        if !quoted && (i == 0 || is_whitespace(line[i - 1])) && stands_at(line, &pat, i) {
            return Some(i);
        }
        proof {
            let c = line@[i as int];
            assert(line@.take(i + 1) =~= line@.take(i as int) + seq![c]);
            lemma_ends_quoted(line@.take(i as int), seq![c], false);
            reveal_with_fuel(ends_quoted, 2);
        }
        if line[i] == '"' {
            quoted = !quoted;
        }
    }
    None
}

fn last_quote_position(s: &[char]) -> (r: Option<usize>)
    ensures
        match r {
            Some(j) => last_quote(s@) == Some(j as int) && j < s@.len(),
            None => last_quote(s@) is None,
        },
{
    let mut j: usize = s.len();
    assert(s@.take(j as int) =~= s@);
    while j > 0
        invariant
            j <= s@.len(),
            last_quote(s@.take(j as int)) == last_quote(s@),
        decreases j,
    {
        if s[j - 1] == '\'' {
            return Some(j - 1);
        }
        assert(s@.take(j as int).drop_last() =~= s@.take(j - 1));
        j = j - 1;
    }
    None
}

fn closing_position(s: &[char]) -> (r: Option<usize>)
    ensures
        match r {
            Some(j) => closing_quote(s@) == Some(j as int) && j < s@.len(),
            None => closing_quote(s@) is None,
        },
{
    let n = s.len();
    let mut quoted = false;
    let mut found: Option<usize> = None;
    assert(s@.take(0) =~= Seq::<char>::empty());
    for i in 0..n
        invariant
            n == s@.len(),
            quoted == ends_quoted(s@.take(i as int), false),
            match found {
                Some(j) => closing_before(s@, i as int) == Some(j as int) && j < i,
                None => closing_before(s@, i as int) is None,
            },
    {
        if s[i] == '\'' && !quoted && (i + 1 == n || is_whitespace(s[i + 1])) {
            found = Some(i);
        }
        proof {
            let c = s@[i as int];
            assert(s@.take(i + 1) =~= s@.take(i as int) + seq![c]);
            lemma_ends_quoted(s@.take(i as int), seq![c], false);
            reveal_with_fuel(ends_quoted, 2);
        }
        if s[i] == '"' {
            quoted = !quoted;
        }
    }
    match found {
        Some(j) => Some(j),
        None => last_quote_position(s),
    }
}

/// Lays open the message that a line nests in single quotes.
pub fn open_message(line: &str) -> (r: String)
    ensures
        r@ == message_of(line@),
{
    let chars = chars_of(line);
    let l = chars.as_slice();
    let n = l.len();
    if let Some(i) = opening_position(l) {
        let inner = slice_subrange(l, i + 5, n);
        assert(inner@ =~= line@.skip(i + 5));
        if let Some(j) = closing_position(inner) {
            let mut r = text_of(slice_subrange(l, 0, i));
            r.append(text_of(slice_subrange(inner, 0, j)).as_str());
            r.append(text_of(slice_subrange(inner, j + 1, n - i - 5)).as_str());
            assert(r@ =~= message_of(line@));
            return r;
        }
    }
    line.to_owned()
}

// ---- looking up a field --------------------------------------------------

/// The value of the last field that reads `key=value`.
pub open spec fn value_of(fields: Seq<Seq<char>>, key: Seq<char>) -> Option<Seq<char>>
    decreases fields.len(),
{
    if fields.len() == 0 {
        None
    } else {
        let f = fields.last();
        if crate::text::find_char(f, '=') is Some && crate::text::before(f, '=') == key {
            Some(crate::text::after(f, '='))
        } else {
            value_of(fields.drop_last(), key)
        }
    }
}

/// Looks up the value of a key; the last field with that key counts.
pub fn field_value(fields: &Vec<String>, key: &str) -> (r: Option<String>)
    ensures
        crate::text::opt_text(r) == value_of(crate::text::texts(fields@), key@),
{
    let ghost all = crate::text::texts(fields@);
    let mut i: usize = fields.len();
    assert(all.take(i as int) =~= all);
    while i > 0
        invariant
            i <= fields@.len(),
            all == crate::text::texts(fields@),
            value_of(all.take(i as int), key@) == value_of(all, key@),
        decreases i,
    {
        i = i - 1;
        let chars = chars_of(fields[i].as_str());
        assert(all.take(i + 1).last() == chars@);
        assert(all.take(i + 1).drop_last() =~= all.take(i as int));
        if crate::text::char_position(chars.as_slice(), '=').is_some() {
            let (k, v) = cut(chars.as_slice(), '=');
            if spells(k, key) {
                return Some(text_of(v));
            }
        }
    }
    None
}

// ---- one record ----------------------------------------------------------

/// A single parsed AVC occurrence (one log line).
#[derive(Debug, Clone)]
pub struct Denial {
    /// The digits of the timestamp, in seconds; empty where the line has none.
    pub timestamp: String,
    pub serial: u64,
    /// `denied` or `granted`.
    pub outcome: String,
    /// The contents of the `{ ... }` braces, sorted.
    pub perms: Vec<String>,
    /// The subject (the process).
    pub scontext: Context,
    /// The object (the target).
    pub tcontext: Context,
    /// The object class: file, dir, tcp_socket, ...
    pub tclass: String,
    /// The name of the executable.
    pub comm: String,
    /// `path=` or `name=`.
    pub path: Option<String>,
    pub pid: Option<u32>,
    pub dev: Option<String>,
    pub ino: Option<String>,
    /// Whether the system was permissive at the time.
    pub permissive: Option<bool>,
    pub raw: String,
}

/// The texts and numbers of a record.
#[verifier::ext_equal]
pub struct DenialView {
    pub timestamp: Seq<char>,
    pub serial: u64,
    pub outcome: Seq<char>,
    pub perms: Seq<Seq<char>>,
    pub scontext: ContextView,
    pub tcontext: ContextView,
    pub tclass: Seq<char>,
    pub comm: Seq<char>,
    pub path: Option<Seq<char>>,
    pub pid: Option<u32>,
    pub dev: Option<Seq<char>>,
    pub ino: Option<Seq<char>>,
    pub permissive: Option<bool>,
    pub raw: Seq<char>,
}

impl View for Denial {
    type V = DenialView;

    open spec fn view(&self) -> DenialView {
        DenialView {
            timestamp: self.timestamp@,
            serial: self.serial,
            outcome: self.outcome@,
            perms: crate::text::texts(self.perms@),
            scontext: self.scontext@,
            tcontext: self.tcontext@,
            tclass: self.tclass@,
            comm: self.comm@,
            path: crate::text::opt_text(self.path),
            pid: self.pid,
            dev: crate::text::opt_text(self.dev),
            ino: crate::text::opt_text(self.ino),
            permissive: self.permissive,
            raw: self.raw@,
        }
    }
}

/// The view of an optional record.
pub open spec fn opt_denial(d: Option<Denial>) -> Option<DenialView> {
    match d {
        Some(d) => Some(d@),
        None => None,
    }
}

/// Whether a line is an AVC record.
pub open spec fn is_avc(line: Seq<char>) -> bool {
    crate::text::has(line, "avc:"@)
}

/// What stands after the first `avc:` of a line: the outcome, then the permissions
/// in braces.
pub open spec fn verdict_of(line: Seq<char>) -> Seq<char> {
    match crate::text::find(line, "avc:"@) {
        Some(i) => line.skip(i + 4),
        None => Seq::empty(),
    }
}

/// The beginning of `s`, up to white space or an opening brace.
pub open spec fn word_at_start(s: Seq<char>) -> Seq<char>
    decreases s.len(),
{
    if s.len() == 0 || crate::text::is_space(s[0]) || s[0] == '{' {
        Seq::empty()
    } else {
        seq![s[0]] + word_at_start(s.skip(1))
    }
}

/// The word that follows the first `avc:` of a line.
pub open spec fn outcome_word(line: Seq<char>) -> Seq<char> {
    word_at_start(crate::text::trim_start(verdict_of(line)))
}

/// The word after `avc:` where that is `granted` or `denied`. Otherwise `granted`
/// for a line that says so and does not say `denied`; else `denied`.
pub open spec fn outcome_of(line: Seq<char>) -> Seq<char> {
    let word = outcome_word(line);
    if word == "granted"@ || word == "denied"@ {
        word
    } else if crate::text::has(line, "granted"@) && !crate::text::has(line, "denied"@) {
        "granted"@
    } else {
        "denied"@
    }
}

/// What stands between the first opening brace and the first closing one.
pub open spec fn braced(s: Seq<char>) -> Seq<char> {
    match (crate::text::find_char(s, '{'), crate::text::find_char(s, '}')) {
        (Some(open), Some(close)) => if open < close {
            s.subrange(open + 1, close)
        } else {
            Seq::empty()
        },
        _ => Seq::empty(),
    }
}

/// What stands between `audit(` and the next closing parenthesis.
pub open spec fn audit_id(line: Seq<char>) -> Seq<char> {
    match crate::text::find(line, "audit("@) {
        Some(start) => match crate::text::find_char(line.skip(start), ')') {
            Some(end) => line.subrange(start + 6, start + end),
            None => Seq::empty(),
        },
        None => Seq::empty(),
    }
}

/// The serial number of a record: the second part of its identification.
pub open spec fn serial_of(line: Seq<char>) -> u64 {
    let text = crate::text::before(crate::text::after(audit_id(line), ':'), ':');
    match crate::number::parsed(text, u64::MAX as nat) {
        Some(n) => n as u64,
        None => 0,
    }
}

/// The context under a key, empty where the line has none.
pub open spec fn context_under(fields: Seq<Seq<char>>, key: Seq<char>) -> ContextView {
    context_of(or_empty(value_of(fields, key)))
}

pub open spec fn or_empty(o: Option<Seq<char>>) -> Seq<char> {
    match o {
        Some(s) => s,
        None => Seq::empty(),
    }
}

/// The record that a line holds, if it is an AVC record.
pub open spec fn denial_of(line: Seq<char>) -> Option<DenialView> {
    let fields = fields_of(message_of(line));
    if !is_avc(line) {
        None
    } else {
        Some(
            DenialView {
                timestamp: crate::text::before(audit_id(line), ':'),
                serial: serial_of(line),
                outcome: outcome_of(line),
                perms: crate::order::sorted_texts(crate::text::words(braced(verdict_of(line)))),
                scontext: context_under(fields, "scontext"@),
                tcontext: context_under(fields, "tcontext"@),
                tclass: or_empty(value_of(fields, "tclass"@)),
                comm: or_empty(value_of(fields, "comm"@)),
                path: match value_of(fields, "path"@) {
                    Some(p) => Some(p),
                    None => value_of(fields, "name"@),
                },
                pid: match value_of(fields, "pid"@) {
                    Some(v) => match crate::number::parsed(v, u32::MAX as nat) {
                        Some(n) => Some(n as u32),
                        None => None,
                    },
                    None => None,
                },
                dev: value_of(fields, "dev"@),
                ino: value_of(fields, "ino"@),
                permissive: match value_of(fields, "permissive"@) {
                    Some(v) => Some(v == "1"@),
                    None => None,
                },
                raw: crate::text::trimmed(line),
            },
        )
    }
}

fn verdict_text(line: &[char]) -> (r: &[char])
    ensures
        r@ == verdict_of(line@),
{
    proof {
        reveal_strlit("avc:");
    }
    let n = line.len();
    match text_position(line, "avc:") {
        Some(i) => {
            assert(line@.subrange(i + 4, n as int) =~= line@.skip(i + 4));
            slice_subrange(line, i + 4, n)
        },
        None => {
            assert(line@.subrange(0, 0) =~= Seq::<char>::empty());
            slice_subrange(line, 0, 0)
        },
    }
}

fn start_word(s: &[char]) -> (r: &[char])
    ensures
        r@ == word_at_start(s@),
{
    let n = s.len();
    let mut i: usize = 0;
    assert(s@.skip(0) =~= s@);
    assert(s@.take(0) + word_at_start(s@) =~= word_at_start(s@));
    while i < n && !is_whitespace(s[i]) && s[i] != '{'
        invariant
            i <= n == s@.len(),
            s@.take(i as int) + word_at_start(s@.skip(i as int)) == word_at_start(s@),
        decreases n - i,
    {
        let ghost rest = s@.skip(i as int);
        assert(rest.skip(1) =~= s@.skip(i + 1));
        assert(s@.take(i + 1) + word_at_start(rest.skip(1)) =~= s@.take(i as int) + (seq![rest[0]]
            + word_at_start(rest.skip(1))));
        i = i + 1;
    }
    assert(s@.take(i as int) + Seq::<char>::empty() =~= s@.take(i as int));
    assert(s@.subrange(0, i as int) =~= s@.take(i as int));
    slice_subrange(s, 0, i)
}

fn says_granted(line: &[char]) -> (r: bool)
    ensures
        outcome_of(line@) == (if r {
            "granted"@
        } else {
            "denied"@
        }),
{
    let word = start_word(trim_front(verdict_text(line)));
    if spells(word, "granted") {
        true
    } else if spells(word, "denied") {
        false
    } else {
        has_text(line, "granted") && !has_text(line, "denied")
    }
}

fn braced_text(line: &[char]) -> (r: &[char])
    ensures
        r@ == braced(line@),
{
    if let (Some(open), Some(close)) = (
        crate::text::char_position(line, '{'),
        crate::text::char_position(line, '}'),
    ) {
        if close > open {
            return slice_subrange(line, open + 1, close);
        }
    }
    assert(line@.subrange(0, 0) =~= Seq::<char>::empty());
    slice_subrange(line, 0, 0)
}

fn audit_text(line: &[char]) -> (r: &[char])
    ensures
        r@ == audit_id(line@),
{
    let n = line.len();
    if let Some(start) = text_position(line, "audit(") {
        let tail = slice_subrange(line, start, n);
        assert(tail@ =~= line@.skip(start as int));
        if let Some(end) = crate::text::char_position(tail, ')') {
            proof {
                reveal_strlit("audit(");
                crate::text::lemma_find_from(line@, "audit("@, 0);
                crate::text::lemma_find_char(tail@, ')');
                assert(line@.subrange(start as int, start + 6) == "audit("@);
                if end < 6 {
                    assert(line@.subrange(start as int, start + 6)[end as int] == tail@[end as int]);
                }
            }
            return slice_subrange(line, start + 6, start + end);
        }
    }
    assert(line@.subrange(0, 0) =~= Seq::<char>::empty());
    slice_subrange(line, 0, 0)
}

fn text_or_empty(o: Option<String>) -> (s: String)
    ensures
        s@ == or_empty(crate::text::opt_text(o)),
{
    match o {
        Some(s) => s,
        None => String::new(),
    }
}

/// Parses a single audit line, or gives `None` if it isn't an AVC record.
pub fn parse_line(line: &str) -> (r: Option<Denial>)
    ensures
        opt_denial(r) == denial_of(line@),
{
    let chars = chars_of(line);
    let l = chars.as_slice();
    if !has_text(l, "avc:") {
        return None;
    }
    let outcome = if says_granted(l) {
        "granted"
    } else {
        "denied"
    };
    let perms = sort_texts(split_whitespace(braced_text(verdict_text(l))));

    let (stamp, serial_on) = cut(audit_text(l), ':');
    let (serial_text, _) = cut(serial_on, ':');
    let serial = match parse_at_most(serial_text, u64::MAX) {
        Some(n) => n,
        None => 0,
    };

    let fields = split_fields(open_message(line).as_str());
    let scontext = Context::parse(text_or_empty(field_value(&fields, "scontext")).as_str());
    let tcontext = Context::parse(text_or_empty(field_value(&fields, "tcontext")).as_str());
    let path = match field_value(&fields, "path") {
        Some(p) => Some(p),
        None => field_value(&fields, "name"),
    };
    let pid = match field_value(&fields, "pid") {
        Some(v) => match parse_at_most(chars_of(v.as_str()).as_slice(), u32::MAX as u64) {
            Some(n) => Some(n as u32),
            None => None,
        },
        None => None,
    };
    let permissive = match field_value(&fields, "permissive") {
        Some(v) => Some(same_text(v.as_str(), "1")),
        None => None,
    };
    let d = Denial {
        timestamp: text_of(stamp),
        serial,
        outcome: outcome.to_owned(),
        perms,
        scontext,
        tcontext,
        tclass: text_or_empty(field_value(&fields, "tclass")),
        comm: text_or_empty(field_value(&fields, "comm")),
        path,
        pid,
        dev: field_value(&fields, "dev"),
        ino: field_value(&fields, "ino"),
        permissive,
        raw: text_of(trim(l)),
    };
    assert(d@ =~= denial_of(line@)->0);
    Some(d)
}

// ---- groups --------------------------------------------------------------

/// A de-duplicated group of identical denials, with a running count.
#[derive(Debug, Clone)]
pub struct AggDenial {
    pub key: String,
    pub outcome: String,
    pub perms: Vec<String>,
    pub scontext: Context,
    pub tcontext: Context,
    pub tclass: String,
    pub comm: String,
    /// How many records collapsed into this group.
    pub count: usize,
    pub first_ts: Timestamp,
    pub last_ts: Timestamp,
    /// The distinct paths or names observed, in order.
    pub paths: Vec<String>,
    /// The distinct process numbers observed.
    pub pids: BTreeSet<u32>,
    pub permissive: Option<bool>,
    pub sample_raw: String,
}

/// The texts and numbers of a group.
#[verifier::ext_equal]
pub struct GroupView {
    pub key: Seq<char>,
    pub outcome: Seq<char>,
    pub perms: Seq<Seq<char>>,
    pub scontext: ContextView,
    pub tcontext: ContextView,
    pub tclass: Seq<char>,
    pub comm: Seq<char>,
    pub count: nat,
    pub first_ts: Timestamp,
    pub last_ts: Timestamp,
    pub paths: Seq<Seq<char>>,
    pub pids: Set<u32>,
    pub permissive: Option<bool>,
    pub sample_raw: Seq<char>,
}

impl View for AggDenial {
    type V = GroupView;

    open spec fn view(&self) -> GroupView {
        GroupView {
            key: self.key@,
            outcome: self.outcome@,
            perms: crate::text::texts(self.perms@),
            scontext: self.scontext@,
            tcontext: self.tcontext@,
            tclass: self.tclass@,
            comm: self.comm@,
            count: self.count as nat,
            first_ts: self.first_ts,
            last_ts: self.last_ts,
            paths: crate::text::texts(self.paths@),
            pids: self.pids@,
            permissive: self.permissive,
            sample_raw: self.sample_raw@,
        }
    }
}

/// The views of a list of groups.
pub open spec fn group_views(v: Seq<AggDenial>) -> Seq<GroupView> {
    v.map_values(|g: AggDenial| g@)
}

/// What makes two denials the same: outcome, permissions, the two contexts, the
/// class and the executable. Process number, time, inode and path do not count.
#[verifier::ext_equal]
pub struct Problem {
    pub outcome: Seq<char>,
    pub perms: Seq<Seq<char>>,
    pub scontext: Seq<char>,
    pub tcontext: Seq<char>,
    pub tclass: Seq<char>,
    pub comm: Seq<char>,
}

impl DenialView {
    pub open spec fn problem(self) -> Problem {
        Problem {
            outcome: self.outcome,
            perms: self.perms,
            scontext: self.scontext.raw,
            tcontext: self.tcontext.raw,
            tclass: self.tclass,
            comm: self.comm,
        }
    }
}

impl GroupView {
    pub open spec fn problem(self) -> Problem {
        Problem {
            outcome: self.outcome,
            perms: self.perms,
            scontext: self.scontext.raw,
            tcontext: self.tcontext.raw,
            tclass: self.tclass,
            comm: self.comm,
        }
    }
}

/// A character that has a meaning of its own in a key: a bar or a backslash, and
/// inside a list also a comma.
pub open spec fn is_mark(c: char, listed: bool) -> bool {
    c == '|' || c == '\\' || (listed && c == ',')
}

/// `s` with a backslash before each bar and backslash, and inside a list also
/// before each comma.
pub open spec fn escaped(s: Seq<char>, listed: bool) -> Seq<char>
    decreases s.len(),
{
    if s.len() == 0 {
        Seq::empty()
    } else if is_mark(s[0], listed) {
        seq!['\\', s[0]] + escaped(s.skip(1), listed)
    } else {
        seq![s[0]] + escaped(s.skip(1), listed)
    }
}

/// Each text of a list with its bars, commas and backslashes escaped.
pub open spec fn all_escaped(parts: Seq<Seq<char>>) -> Seq<Seq<char>> {
    parts.map_values(|s: Seq<char>| escaped(s, true))
}

impl GroupView {
    /// The group has at least one record and the key of its problem; its paths are
    /// in order and each once; and it has no more paths and process numbers than
    /// records.
    pub open spec fn wf(self) -> bool {
        &&& self.count > 0
        &&& self.key == key_of(self.problem())
        &&& crate::order::is_text_set(self.paths)
        &&& self.paths.len() <= self.count
        &&& self.pids.finite()
        &&& self.pids.len() <= self.count
    }
}

/// The text of a problem: its six parts with bars between them, the permissions
/// separated by commas. Bars and backslashes inside the parts are escaped by a
/// backslash, and so are commas inside the permissions.
pub open spec fn key_of(p: Problem) -> Seq<char> {
    escaped(p.outcome, false) + "|"@ + crate::text::joined(all_escaped(p.perms), ","@) + "|"@
        + escaped(p.scontext, false) + "|"@ + escaped(p.tcontext, false) + "|"@ + escaped(
        p.tclass,
        false,
    ) + "|"@ + escaped(p.comm, false)
}

fn escape(s: &str, listed: bool) -> (out: String)
    ensures
        out@ == escaped(s@, listed),
{
    let chars = chars_of(s);
    let mut out = String::new();
    assert(s@.skip(0) =~= s@);
    for i in 0..chars.len()
        invariant
            chars@ == s@,
            out@ + escaped(s@.skip(i as int), listed) == escaped(s@, listed),
    {
        let c = chars[i];
        let ghost done = out@;
        let ghost rest = s@.skip(i as int);
        assert(rest[0] == c);
        assert(rest.skip(1) =~= s@.skip(i + 1));
        if c == '|' || c == '\\' || (listed && c == ',') {
            out.push('\\');
            out.push(c);
            assert(out@ + escaped(rest.skip(1), listed) =~= done + (seq!['\\', c] + escaped(rest.skip(1), listed)));
        } else {
            out.push(c);
            assert(out@ + escaped(rest.skip(1), listed) =~= done + (seq![c] + escaped(rest.skip(1), listed)));
        }
    }
    assert(s@.skip(s@.len() as int) =~= Seq::<char>::empty());
    assert(out@ + Seq::<char>::empty() =~= out@);
    out
}

fn escape_all(parts: &Vec<String>) -> (out: Vec<String>)
    ensures
        crate::text::texts(out@) == all_escaped(crate::text::texts(parts@)),
{
    let mut out: Vec<String> = Vec::new();
    let ghost all = all_escaped(crate::text::texts(parts@));
    assert(crate::text::texts(out@) =~= all.take(0));
    for i in 0..parts.len()
        invariant
            all == all_escaped(crate::text::texts(parts@)),
            crate::text::texts(out@) == all.take(i as int),
    {
        let e = escape(parts[i].as_str(), true);
        proof {
            crate::text::lemma_texts_push(out@, e);
            assert(all[i as int] == e@);
            assert(all.take(i + 1) =~= all.take(i as int).push(all[i as int]));
        }
        out.push(e);
    }
    assert(all.take(parts@.len() as int) =~= all);
    out
}

/// The key of a record.
pub fn dedup_key(d: &Denial) -> (key: String)
    ensures
        key@ == key_of(d@.problem()),
{
    let mut key = escape(d.outcome.as_str(), false);
    key.append("|");
    key.append(join(escape_all(&d.perms).as_slice(), ",").as_str());
    key.append("|");
    key.append(escape(d.scontext.raw.as_str(), false).as_str());
    key.append("|");
    key.append(escape(d.tcontext.raw.as_str(), false).as_str());
    key.append("|");
    key.append(escape(d.tclass.as_str(), false).as_str());
    key.append("|");
    key.append(escape(d.comm.as_str(), false).as_str());
    key
}

/// A group for a record, before anything is counted.
pub open spec fn fresh_group(d: DenialView, t: Timestamp) -> GroupView {
    GroupView {
        key: key_of(d.problem()),
        outcome: d.outcome,
        perms: d.perms,
        scontext: d.scontext,
        tcontext: d.tcontext,
        tclass: d.tclass,
        comm: d.comm,
        count: 0,
        first_ts: t,
        last_ts: t,
        paths: Seq::empty(),
        pids: Set::empty(),
        permissive: d.permissive,
        sample_raw: d.raw,
    }
}

/// The earlier of a group's first time and the time of a further record. A time
/// that is not after the epoch is no time, and any time takes the place of zero.
pub open spec fn earlier(first: Timestamp, t: Timestamp) -> Timestamp {
    if t.positive() && (first.zero() || t.less(first)) {
        t
    } else {
        first
    }
}

/// The later of a group's last time and the time of a further record.
pub open spec fn later(last: Timestamp, t: Timestamp) -> Timestamp {
    if t.positive() && last.less(t) {
        t
    } else {
        last
    }
}

/// A group with one more record of time `t` in it.
pub open spec fn grown(g: GroupView, d: DenialView, t: Timestamp) -> GroupView {
    GroupView {
        count: g.count + 1,
        first_ts: earlier(g.first_ts, t),
        last_ts: later(g.last_ts, t),
        paths: match d.path {
            Some(p) => crate::order::with_text(g.paths, p),
            None => g.paths,
        },
        pids: match d.pid {
            Some(n) => g.pids.insert(n),
            None => g.pids,
        },
        ..g
    }
}

/// The place of the group of a problem, from `i` on.
pub open spec fn group_from(groups: Seq<GroupView>, p: Problem, i: int) -> Option<int>
    decreases groups.len() - i,
{
    if i < 0 || i >= groups.len() {
        None
    } else if groups[i].problem() == p {
        Some(i)
    } else {
        group_from(groups, p, i + 1)
    }
}

/// The groups after one more record of time `t`: it joins the group of its
/// problem, or opens one at the end.
pub open spec fn absorbed(groups: Seq<GroupView>, d: DenialView, t: Timestamp) -> Seq<GroupView> {
    match group_from(groups, d.problem(), 0) {
        Some(i) => groups.update(i, grown(groups[i], d, t)),
        None => groups.push(grown(fresh_group(d, t), d, t)),
    }
}

/// The time of the record at place `k`; zero where none is given.
pub open spec fn stamp_at(stamps: Seq<Timestamp>, k: int) -> Timestamp {
    if 0 <= k < stamps.len() {
        stamps[k]
    } else {
        Timestamp { bits: 0 }
    }
}

/// The groups of a list of records, `stamps` holding the time of each.
pub open spec fn groups_of(records: Seq<DenialView>, stamps: Seq<Timestamp>) -> Seq<GroupView>
    decreases records.len(),
{
    if records.len() == 0 {
        Seq::empty()
    } else {
        absorbed(
            groups_of(records.drop_last(), stamps),
            records.last(),
            stamp_at(stamps, records.len() - 1),
        )
    }
}

/// The records that a list of lines holds.
pub open spec fn records_in(lines: Seq<Seq<char>>) -> Seq<DenialView>
    decreases lines.len(),
{
    if lines.len() == 0 {
        Seq::empty()
    } else {
        match denial_of(lines.last()) {
            Some(d) => records_in(lines.drop_last()).push(d),
            None => records_in(lines.drop_last()),
        }
    }
}

/// The records of a text, in order.
pub open spec fn records_of(text: Seq<char>) -> Seq<DenialView> {
    records_in(crate::text::lines_of(text))
}

/// The texts of the timestamps of a text's records, in order.
pub open spec fn stamp_texts(text: Seq<char>) -> Seq<Seq<char>> {
    records_of(text).map_values(|d: DenialView| d.timestamp)
}

pub proof fn lemma_group_from(groups: Seq<GroupView>, p: Problem, i: int)
    requires
        0 <= i,
    ensures
        match group_from(groups, p, i) {
            Some(k) => i <= k < groups.len() && groups[k].problem() == p && (forall|j: int|
                i <= j < k ==> (#[trigger] groups[j]).problem() != p),
            None => forall|j: int| i <= j < groups.len() ==> (#[trigger] groups[j]).problem() != p,
        },
    decreases groups.len() - i,
{
    if i < groups.len() && groups[i].problem() != p {
        lemma_group_from(groups, p, i + 1);
    }
}

fn same_texts(a: &Vec<String>, b: &Vec<String>) -> (r: bool)
    ensures
        r == (crate::text::texts(a@) == crate::text::texts(b@)),
{
    let ghost x = crate::text::texts(a@);
    let ghost y = crate::text::texts(b@);
    if a.len() != b.len() {
        assert(x.len() != y.len());
        return false;
    }
    for i in 0..a.len()
        invariant
            a@.len() == b@.len(),
            x == crate::text::texts(a@),
            y == crate::text::texts(b@),
            forall|k: int| 0 <= k < i ==> x[k] == y[k],
    {
        if a[i] != b[i] {
            assert(x[i as int] != y[i as int]);
            return false;
        }
        assert(x[i as int] == y[i as int]);
    }
    assert(x =~= y);
    true
}

fn is_of(g: &AggDenial, d: &Denial) -> (r: bool)
    ensures
        r == (g@.problem() == d@.problem()),
{
    let r = g.outcome == d.outcome && same_texts(&g.perms, &d.perms) && g.scontext.raw
        == d.scontext.raw && g.tcontext.raw == d.tcontext.raw && g.tclass == d.tclass && g.comm
        == d.comm;
    if r {
        assert(g@.problem() =~= d@.problem());
    }
    r
}

fn group_position(groups: &Vec<AggDenial>, d: &Denial) -> (r: Option<usize>)
    ensures
        match r {
            Some(i) => group_from(group_views(groups@), d@.problem(), 0) == Some(i as int) && i
                < groups@.len(),
            None => group_from(group_views(groups@), d@.problem(), 0) is None,
        },
{
    let ghost views = group_views(groups@);
    for i in 0..groups.len()
        invariant
            views == group_views(groups@),
            group_from(views, d@.problem(), i as int) == group_from(views, d@.problem(), 0),
    {
        assert(views[i as int] == groups@[i as int]@);
        if is_of(&groups[i], d) {
            return Some(i);
        }
    }
    None
}

fn grow(g: &mut AggDenial, path: Option<String>, pid: Option<u32>, t: Timestamp, Ghost(d): Ghost<DenialView>)
    requires
        old(g).count < usize::MAX,
        d.path == crate::text::opt_text(path),
        d.pid == pid,
    ensures
        final(g)@ == grown(old(g)@, d, t),
{
    broadcast use vstd::laws_cmp::group_laws_cmp;

    g.count = g.count + 1;
    if t.is_positive() {
        if g.first_ts.is_zero() || t.is_less(&g.first_ts) {
            g.first_ts = t;
        }
        if g.last_ts.is_less(&t) {
            g.last_ts = t;
        }
    }
    if let Some(p) = path {
        add_text(&mut g.paths, p);
    }
    if let Some(n) = pid {
        g.pids.insert(n);
    }
    assert(g@ =~= grown(old(g)@, d, t));
}

/// Takes a record of time `t` into its group, opening one where there is none.
fn absorb(groups: &mut Vec<AggDenial>, d: Denial, t: Timestamp)
    requires
        forall|i: int| 0 <= i < old(groups)@.len() ==> (#[trigger] old(groups)@[i]).count < usize::MAX,
    ensures
        group_views(final(groups)@) == absorbed(group_views(old(groups)@), d@, t),
{
    let ghost views = group_views(groups@);
    let ghost dv = d@;
    match group_position(groups, &d) {
        Some(i) => {
            grow(&mut groups[i], d.path, d.pid, t, Ghost(dv));
            assert(group_views(groups@) =~= views.update(i as int, grown(views[i as int], dv, t)));
        },
        None => {
            let mut g = AggDenial {
                key: dedup_key(&d),
                outcome: d.outcome,
                perms: d.perms,
                scontext: d.scontext,
                tcontext: d.tcontext,
                tclass: d.tclass,
                comm: d.comm,
                count: 0,
                first_ts: t,
                last_ts: t,
                paths: Vec::new(),
                pids: BTreeSet::new(),
                permissive: d.permissive,
                sample_raw: d.raw,
            };
            assert(g@.paths =~= Seq::<Seq<char>>::empty());
            assert(g@ =~= fresh_group(dv, t));
            grow(&mut g, d.path, d.pid, t, Ghost(dv));
            assert(group_views(groups@.push(g)) =~= views.push(grown(fresh_group(dv, t), dv, t)));
            groups.push(g);
        },
    }
}

proof fn lemma_absorbed_counts(groups: Seq<GroupView>, d: DenialView, t: Timestamp, n: nat)
    requires
        forall|i: int| 0 <= i < groups.len() ==> (#[trigger] groups[i]).count <= n,
    ensures
        forall|i: int|
            0 <= i < absorbed(groups, d, t).len() ==> (#[trigger] absorbed(groups, d, t)[i]).count
                <= n + 1,
{
    lemma_group_from(groups, d.problem(), 0);
}

fn stamp_or_zero(stamps: &Vec<Timestamp>, k: usize) -> (t: Timestamp)
    ensures
        t == stamp_at(stamps@, k as int),
{
    if k < stamps.len() {
        stamps[k]
    } else {
        Timestamp::origin()
    }
}

/// Parses a whole blob of log text and de-duplicates its records.
///
/// `stamps` holds the times of the records, one for each text that
/// `timestamp_texts` gives, in the same order; a record without one counts as of
/// time zero. The groups come in the order in which their first records stand in
/// the text, no two with the same key, and with them the number of all records:
/// the running total.
pub fn aggregate(text: &str, stamps: &Vec<Timestamp>) -> (r: (Vec<AggDenial>, usize))
    ensures
        group_views(r.0@) == groups_of(records_of(text@), stamps@),
        r.1 == records_of(text@).len(),
        forall|i: int| 0 <= i < r.0@.len() ==> (#[trigger] r.0@[i])@.wf(),
        forall|i: int, j: int|
            0 <= i < j < r.0@.len() ==> (#[trigger] r.0@[i]).key@ != (#[trigger] r.0@[j]).key@,
{
    let lines = split_lines(chars_of(text).as_slice());
    let mut groups: Vec<AggDenial> = Vec::new();
    let mut total_raw: usize = 0;
    let ghost all = crate::text::lines_of(text@);
    assert(all.take(0) =~= Seq::<Seq<char>>::empty());
    assert(group_views(groups@) =~= Seq::<GroupView>::empty());
    for i in 0..lines.len()
        invariant
            all == crate::text::char_views(lines@),
            total_raw <= i,
            total_raw == records_in(all.take(i as int)).len(),
            group_views(groups@) == groups_of(records_in(all.take(i as int)), stamps@),
            forall|k: int| 0 <= k < groups@.len() ==> (#[trigger] groups@[k]).count <= total_raw,
    {
        assert(all.take(i + 1).drop_last() =~= all.take(i as int));
        assert(all.take(i + 1).last() == lines@[i as int]@);
        if let Some(d) = parse_line(text_of(lines[i].as_slice()).as_str()) {
            let ghost seen = records_in(all.take(i as int));
            assert(records_in(all.take(i + 1)) == seen.push(d@));
            assert(seen.push(d@).drop_last() =~= seen);
            let t = stamp_or_zero(stamps, total_raw);
            let ghost before = group_views(groups@);
            proof {
                assert forall|k: int| 0 <= k < before.len() implies (#[trigger] before[k]).count
                    <= total_raw by {
                    assert(before[k] == groups@[k]@);
                }
                lemma_absorbed_counts(before, d@, t, total_raw as nat);
            }
            absorb(&mut groups, d, t);
            total_raw = total_raw + 1;
            assert forall|k: int| 0 <= k < groups@.len() implies (#[trigger] groups@[k]).count
                <= total_raw by {
                assert(group_views(groups@)[k] == groups@[k]@);
            }
        }
    }
    assert(all.take(lines@.len() as int) =~= all);
    proof {
        let views = group_views(groups@);
        crate::laws::groups_are_well_formed(records_of(text@), stamps@);
        crate::laws::group_keys_differ(text@, stamps@);
        assert forall|i: int| 0 <= i < groups@.len() implies (#[trigger] groups@[i])@.wf() by {
            assert(views[i] == groups@[i]@);
        }
        assert forall|i: int, j: int| 0 <= i < j < groups@.len() implies (
        #[trigger] groups@[i]).key@ != (#[trigger] groups@[j]).key@ by {
            assert(views[i].key != views[j].key);
        }
    }
    (groups, total_raw)
}

/// The texts of the timestamps of the records, for the caller to read as numbers.
pub fn timestamp_texts(text: &str) -> (out: Vec<String>)
    ensures
        crate::text::texts(out@) == stamp_texts(text@),
{
    let lines = split_lines(chars_of(text).as_slice());
    let mut out: Vec<String> = Vec::new();
    let ghost all = crate::text::lines_of(text@);
    let ghost pick = |d: DenialView| d.timestamp;
    assert(all.take(0) =~= Seq::<Seq<char>>::empty());
    assert(crate::text::texts(out@) =~= Seq::<Seq<char>>::empty());
    for i in 0..lines.len()
        invariant
            all == crate::text::char_views(lines@),
            pick == |d: DenialView| d.timestamp,
            crate::text::texts(out@) =~= records_in(all.take(i as int)).map_values(pick),
    {
        assert(all.take(i + 1).drop_last() =~= all.take(i as int));
        assert(all.take(i + 1).last() == lines@[i as int]@);
        if let Some(d) = parse_line(text_of(lines[i].as_slice()).as_str()) {
            let ghost seen = records_in(all.take(i as int));
            proof {
                assert(records_in(all.take(i + 1)) == seen.push(d@));
                crate::text::lemma_texts_push(out@, d.timestamp);
                assert(seen.push(d@).map_values(pick) =~= seen.map_values(pick).push(
                    d@.timestamp,
                ));
            }
            out.push(d.timestamp);
        }
    }
    assert(all.take(lines@.len() as int) =~= all);
    out
}

// ---- texts of a group ----------------------------------------------------

impl GroupView {
    /// The one-line summary of a group.
    pub open spec fn summary(self) -> Seq<char> {
        self.comm + " {"@ + crate::text::joined(self.perms, " "@) + "} "@ + self.scontext.ty
            + " -> "@ + self.tcontext.ty + " ["@ + self.tclass + "]"@
    }

    /// Everything of a group that a search looks at, as it is written.
    pub open spec fn blob(self) -> Seq<char> {
        self.comm + " "@ + crate::text::joined(self.perms, " "@) + " "@ + self.scontext.raw + " "@
            + self.tcontext.raw + " "@ + self.tclass + " "@ + self.outcome + " "@
            + crate::text::joined(self.paths, " "@)
    }
}

impl AggDenial {
    /// One-line summary used in the list view.
    pub fn summary(&self) -> (s: String)
        ensures
            s@ == self@.summary(),
    {
        let mut s = self.comm.clone();
        s.append(" {");
        s.append(join(self.perms.as_slice(), " ").as_str());
        s.append("} ");
        s.append(self.scontext.ty.as_str());
        s.append(" -> ");
        s.append(self.tcontext.ty.as_str());
        s.append(" [");
        s.append(self.tclass.as_str());
        s.append("]");
        s
    }

    /// Everything that a search looks at, as it is written.
    pub fn blob(&self) -> (s: String)
        ensures
            s@ == self@.blob(),
    {
        let mut s = self.comm.clone();
        s.append(" ");
        s.append(join(self.perms.as_slice(), " ").as_str());
        s.append(" ");
        s.append(self.scontext.raw.as_str());
        s.append(" ");
        s.append(self.tcontext.raw.as_str());
        s.append(" ");
        s.append(self.tclass.as_str());
        s.append(" ");
        s.append(self.outcome.as_str());
        s.append(" ");
        s.append(join(self.paths.as_slice(), " ").as_str());
        s
    }

    /// Lowercased haystack for the `/` search.
    pub fn search_blob(&self) -> (s: String)
        ensures
            s@ == crate::text::lowercase(self@.blob()),
            crate::text::is_ascii(self@.blob()) ==> s@ == crate::text::folded(self@.blob()),
    {
        self.blob().as_str().to_lowercase()
    }
}

} // verus!
