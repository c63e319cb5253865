//! What holds of parsing and grouping as a whole.
use vstd::prelude::*;
use crate::avc::DenialView;
use crate::avc::GroupView;
use crate::avc::Problem;
use crate::time::Timestamp;

verus! {

// ---- contexts ------------------------------------------------------------

proof fn lemma_cut(s: Seq<char>, sep: char)
    ensures
        forall|i: int| 0 <= i < crate::text::before(s, sep).len() ==> crate::text::before(s, sep)[i] != sep,
        crate::text::find_char(s, sep) is Some ==> crate::text::before(s, sep) + seq![sep]
            + crate::text::after(s, sep) == s,
{
    crate::text::lemma_find_char(s, sep);
    match crate::text::find_char(s, sep) {
        Some(i) => {
            assert(s.take(i) + seq![sep] + s.skip(i + 1) =~= s);
        },
        None => {},
    }
}

/// A context with three colons or more is its four parts with a colon between
/// each two: nothing is lost, and a level keeps the colons it has.
pub proof fn context_parts_rebuild_raw(raw: Seq<char>)
    requires
        exists|i: int, j: int, k: int|
            0 <= i < j < k < raw.len() && #[trigger] raw[i] == ':' && #[trigger] raw[j] == ':'
                && #[trigger] raw[k] == ':',
    ensures
        ({
            let c = crate::avc::context_of(raw);
            c.user + seq![':'] + c.role + seq![':'] + c.ty + seq![':'] + c.level == raw
        }),
{
    let (i, j, k) = choose|i: int, j: int, k: int|
        0 <= i < j < k < raw.len() && #[trigger] raw[i] == ':' && #[trigger] raw[j] == ':'
            && #[trigger] raw[k] == ':';
    lemma_three_cuts(raw, i, j, k);
}

proof fn lemma_three_cuts(raw: Seq<char>, i: int, j: int, k: int)
    requires
        0 <= i < j < k < raw.len(),
        raw[i] == ':',
        raw[j] == ':',
        raw[k] == ':',
    ensures
        ({
            let c = crate::avc::context_of(raw);
            c.user + seq![':'] + c.role + seq![':'] + c.ty + seq![':'] + c.level == raw
        }),
{
    let c = crate::avc::context_of(raw);
    let a = crate::text::after(raw, ':');
    let b = crate::text::after(a, ':');
    lemma_cut(raw, ':');
    lemma_cut(a, ':');
    lemma_cut(b, ':');
    assert(crate::text::find_char(raw, ':') is Some && crate::text::find_char(a, ':') is Some
        && crate::text::find_char(b, ':') is Some) by {
        crate::text::lemma_find_char(raw, ':');
        crate::text::lemma_find_char(a, ':');
        crate::text::lemma_find_char(b, ':');
        let p = crate::text::find_char(raw, ':')->0;
        assert(a[j - p - 1] == ':');
        let q = crate::text::find_char(a, ':')->0;
        assert(b[k - p - 1 - q - 1] == ':');
    }
    assert(c.user + seq![':'] + c.role + seq![':'] + c.ty + seq![':'] + c.level =~= c.user + seq![
        ':',
    ] + (c.role + seq![':'] + (c.ty + seq![':'] + c.level)));
}

/// The user, the role and the type of a context hold no colon.
pub proof fn context_parts_hold_no_colon(raw: Seq<char>)
    ensures
        ({
            let c = crate::avc::context_of(raw);
            &&& !c.user.contains(':')
            &&& !c.role.contains(':')
            &&& !c.ty.contains(':')
        }),
{
    let a = crate::text::after(raw, ':');
    lemma_cut(raw, ':');
    lemma_cut(a, ':');
    lemma_cut(crate::text::after(a, ':'), ':');
}

// ---- fields --------------------------------------------------------------

/// A text without double quotes and white space.
pub open spec fn is_plain(s: Seq<char>) -> bool {
    forall|i: int| 0 <= i < s.len() ==> #[trigger] s[i] != '"' && !crate::text::is_space(s[i])
}

proof fn lemma_plain_prefix(s: Seq<char>, rest: Seq<char>, quoted: bool, cur: Seq<char>)
    requires
        is_plain(s) || (quoted && !s.contains('"')),
    ensures
        crate::avc::fields_from(s + rest, quoted, cur) == crate::avc::fields_from(
            rest,
            quoted,
            cur + s,
        ),
    decreases s.len(),
{
    if s.len() == 0 {
        assert(s + rest =~= rest);
        assert(cur + s =~= cur);
    } else {
        assert((s + rest)[0] == s[0]);
        assert(s.contains(s[0]));
        assert((s + rest).skip(1) =~= s.skip(1) + rest);
        assert(cur.push(s[0]) + s.skip(1) =~= cur + s);
        assert forall|i: int| 0 <= i < s.skip(1).len() implies #[trigger] s.skip(1)[i] == s[i + 1] by {}
        if !is_plain(s) {
            assert forall|i: int| 0 <= i < s.skip(1).len() implies s.skip(1)[i] != '"' by {
                assert(s.contains(s[i + 1]));
            }
        }
        lemma_plain_prefix(s.skip(1), rest, quoted, cur.push(s[0]));
    }
}

proof fn lemma_fields_split(
    left: Seq<char>,
    quoted: bool,
    cur: Seq<char>,
    space: char,
    right: Seq<char>,
)
    requires
        !crate::avc::ends_quoted(left, quoted),
        crate::text::is_space(space),
    ensures
        crate::avc::fields_from(left + seq![space] + right, quoted, cur)
            == crate::avc::fields_from(left, quoted, cur) + crate::avc::fields_of(right),
    decreases left.len(),
{
    let s = left + seq![space] + right;
    if left.len() == 0 {
        assert(s[0] == space);
        assert(s.skip(1) =~= right);
    } else {
        assert(s[0] == left[0]);
        assert(s.skip(1) =~= left.skip(1) + seq![space] + right);
        if left[0] == '"' {
            lemma_fields_split(left.skip(1), !quoted, cur, space, right);
        } else if crate::text::is_space(left[0]) && !quoted {
            lemma_fields_split(left.skip(1), quoted, Seq::empty(), space, right);
            let head = crate::text::unless_empty(cur);
            let mid = crate::avc::fields_from(left.skip(1), quoted, Seq::empty());
            let tail = crate::avc::fields_of(right);
            assert(head + (mid + tail) =~= (head + mid) + tail);
        } else {
            lemma_fields_split(left.skip(1), quoted, cur.push(left[0]), space, right);
        }
    }
}

proof fn lemma_quote_free(s: Seq<char>, rest: Seq<char>, quoted: bool)
    requires
        !s.contains('"'),
    ensures
        crate::avc::ends_quoted(s + rest, quoted) == crate::avc::ends_quoted(rest, quoted),
    decreases s.len(),
{
    if s.len() == 0 {
        assert(s + rest =~= rest);
    } else {
        assert(s.contains(s[0]));
        assert forall|i: int| 0 <= i < s.skip(1).len() implies s.skip(1)[i] != '"' by {
            assert(s.contains(s[i + 1]));
        }
        assert((s + rest)[0] == s[0]);
        assert((s + rest).skip(1) =~= s.skip(1) + rest);
        lemma_quote_free(s.skip(1), rest, quoted);
    }
}

proof fn lemma_quoted_token(key: Seq<char>, value: Seq<char>)
    requires
        is_plain(key),
        key.len() > 0,
        !value.contains('"'),
    ensures
        crate::avc::fields_of(key + seq!['"'] + value + seq!['"']) == seq![key + value],
        !crate::avc::ends_quoted(key + seq!['"'] + value + seq!['"'], false),
{
    let q = seq!['"'];
    let s = key + q + value + q;
    assert(s =~= key + (q + (value + q)));
    lemma_plain_prefix(key, q + (value + q), false, Seq::empty());
    assert(Seq::<char>::empty() + key =~= key);
    assert((q + (value + q)).skip(1) =~= value + q);
    lemma_plain_prefix(value, q, true, key);
    assert(q.skip(1) =~= Seq::<char>::empty());
    assert(crate::avc::fields_from(Seq::empty(), false, key + value) == seq![key + value]);
    lemma_quote_free(key, q + (value + q), false);
    lemma_quote_free(value, q, true);
    assert(!crate::avc::ends_quoted(q.skip(1), false));
}

/// The fields on the two sides of white space that stands outside double quotes
/// are the fields of the two sides.
pub proof fn fields_fall_apart_at_a_blank(left: Seq<char>, space: char, right: Seq<char>)
    requires
        !crate::avc::ends_quoted(left, false),
        crate::text::is_space(space),
    ensures
        crate::avc::fields_of(left + seq![space] + right) == crate::avc::fields_of(left)
            + crate::avc::fields_of(right),
{
    lemma_fields_split(left, false, Seq::empty(), space, right);
}

/// A double-quoted value stays one token with its key, whatever white space it
/// holds and wherever it stands in a line, and loses its quotes.
pub proof fn quoted_value_is_one_field(
    left: Seq<char>,
    key: Seq<char>,
    value: Seq<char>,
    right: Seq<char>,
)
    requires
        !crate::avc::ends_quoted(left, false),
        is_plain(key),
        key.len() > 0,
        !value.contains('"'),
    ensures
        crate::avc::fields_of(
            left + seq![' '] + (key + seq!['"'] + value + seq!['"'] + seq![' '] + right),
        ) == crate::avc::fields_of(left) + seq![key + value] + crate::avc::fields_of(right),
{
    let token = key + seq!['"'] + value + seq!['"'];
    let rest = token + seq![' '] + right;
    lemma_quoted_token(key, value);
    lemma_fields_split(left, false, Seq::empty(), ' ', rest);
    lemma_fields_split(token, false, Seq::empty(), ' ', right);
    let a = crate::avc::fields_of(left);
    let b = crate::avc::fields_of(right);
    assert(a + (seq![key + value] + b) =~= a + seq![key + value] + b);
}

proof fn lemma_value_later(a: Seq<Seq<char>>, b: Seq<Seq<char>>, key: Seq<char>)
    ensures
        crate::avc::value_of(a + b, key) == (match crate::avc::value_of(b, key) {
            Some(v) => Some(v),
            None => crate::avc::value_of(a, key),
        }),
    decreases b.len(),
{
    if b.len() == 0 {
        assert(a + b =~= a);
    } else {
        assert((a + b).last() == b.last());
        assert((a + b).drop_last() =~= a + b.drop_last());
        lemma_value_later(a, b.drop_last(), key);
    }
}

/// A value that is written under a key in double quotes is read back as it is,
/// unless the key comes again after it.
pub proof fn quoted_value_is_read_back(
    left: Seq<char>,
    key: Seq<char>,
    value: Seq<char>,
    right: Seq<char>,
)
    requires
        !crate::avc::ends_quoted(left, false),
        is_plain(key),
        !key.contains('='),
        !value.contains('"'),
        crate::avc::value_of(crate::avc::fields_of(right), key) is None,
    ensures
        crate::avc::value_of(
            crate::avc::fields_of(
                left + seq![' '] + (key.push('=') + seq!['"'] + value + seq!['"'] + seq![' ']
                    + right),
            ),
            key,
        ) == Some(value),
{
    let a = crate::avc::fields_of(left);
    let field = key.push('=') + value;
    quoted_value_is_one_field(left, key.push('='), value, right);
    lemma_value_later(a + seq![field], crate::avc::fields_of(right), key);
    lemma_cut_at(key, '=', value);
    assert(field =~= key + seq!['='] + value);
    assert((a + seq![field]).last() == field);
    assert(field[key.len() as int] == '=');
    crate::text::lemma_find_char(field, '=');
}

proof fn lemma_unquoted(s: Seq<char>, cur: Seq<char>)
    requires
        !s.contains('"'),
    ensures
        crate::avc::fields_from(s, false, cur) == crate::text::words_from(s, cur),
    decreases s.len(),
{
    if s.len() > 0 {
        assert(s.contains(s[0]));
        assert forall|i: int| 0 <= i < s.skip(1).len() implies s.skip(1)[i] != '"' by {
            assert(s.contains(s[i + 1]));
        }
        lemma_unquoted(s.skip(1), Seq::empty());
        lemma_unquoted(s.skip(1), cur.push(s[0]));
    }
}

/// Without quotes a line falls apart at white space.
pub proof fn unquoted_fields_are_words(s: Seq<char>)
    requires
        !s.contains('"'),
    ensures
        crate::avc::fields_of(s) == crate::text::words(s),
{
    lemma_unquoted(s, Seq::empty());
}

// ---- nested messages -----------------------------------------------------

proof fn lemma_opening(line: Seq<char>, from: int)
    requires
        0 <= from,
    ensures
        match crate::avc::opening_from(line, from) {
            Some(i) => from <= i && crate::avc::opens_at(line, i) && (forall|j: int|
                from <= j < i ==> !crate::avc::opens_at(line, j)),
            None => forall|j: int| from <= j ==> !crate::avc::opens_at(line, j),
        },
    decreases line.len() - from,
{
    if from < line.len() {
        if !crate::avc::opens_at(line, from) {
            lemma_opening(line, from + 1);
        }
    } else {
        reveal_strlit("msg='");
    }
}

proof fn lemma_last_quote(s: Seq<char>)
    ensures
        match crate::avc::last_quote(s) {
            Some(j) => 0 <= j < s.len() && s[j] == '\'' && (forall|k: int|
                j < k < s.len() ==> s[k] != '\''),
            None => !s.contains('\''),
        },
    decreases s.len(),
{
    if s.len() > 0 && s.last() != '\'' {
        lemma_last_quote(s.drop_last());
        match crate::avc::last_quote(s.drop_last()) {
            Some(j) => {
                assert forall|k: int| j < k < s.len() implies s[k] != '\'' by {
                    if k < s.len() - 1 {
                        assert(s.drop_last()[k] == s[k]);
                    }
                }
            },
            None => {
                if s.contains('\'') {
                    let k = s.index_of('\'');
                    assert(s.drop_last()[k] == '\'');
                }
            },
        }
    }
}

proof fn lemma_closing(s: Seq<char>, n: int)
    requires
        n <= s.len(),
    ensures
        match crate::avc::closing_before(s, n) {
            Some(j) => 0 <= j < n && crate::avc::closes_at(s, j) && (forall|k: int|
                j < k < n ==> !crate::avc::closes_at(s, k)),
            None => forall|k: int| 0 <= k < n ==> !crate::avc::closes_at(s, k),
        },
    decreases n,
{
    if n > 0 && !crate::avc::closes_at(s, n - 1) {
        lemma_closing(s, n - 1);
    }
}

proof fn lemma_closing_quote(s: Seq<char>)
    ensures
        match crate::avc::closing_quote(s) {
            Some(j) => 0 <= j < s.len() && s[j] == '\'',
            None => !s.contains('\''),
        },
{
    lemma_closing(s, s.len() as int);
    lemma_last_quote(s);
}

/// `body` is a whole message before a quote and `tail`. Either it closes its double
/// quotes, the quote after it ends a field, and none in `tail` does; or no quote
/// ends a field, and there is none in `tail`.
pub open spec fn is_message(body: Seq<char>, tail: Seq<char>) -> bool {
    ||| {
        &&& !crate::avc::ends_quoted(body, false)
        &&& tail.len() == 0 || crate::text::is_space(tail[0])
        &&& forall|j: int| !crate::avc::closes_at(tail, j)
    }
    ||| {
        &&& forall|j: int| !crate::avc::closes_at(body + seq!['\''] + tail, j)
        &&& !tail.contains('\'')
    }
}

proof fn lemma_message_closes(body: Seq<char>, tail: Seq<char>)
    requires
        is_message(body, tail),
    ensures
        crate::avc::closing_quote(body + seq!['\''] + tail) == Some(body.len() as int),
{
    let q = seq!['\''];
    let inner = body + q + tail;
    let b = body.len() as int;
    lemma_closing(inner, inner.len() as int);
    assert(inner[b] == '\'');
    if forall|j: int| !crate::avc::closes_at(inner, j) {
        assert(!tail.contains('\'') || !crate::avc::closes_at(inner, b));
        if !tail.contains('\'') {
            lemma_last_quote(inner);
            assert(inner.contains('\''));
            let j = crate::avc::last_quote(inner)->0;
            if j > b {
                assert(tail[j - b - 1] == '\'');
            }
        } else {
            assert(inner.take(b) =~= body);
            assert(crate::avc::closes_at(inner, b));
        }
    } else {
        assert(inner.take(b) =~= body);
        assert(crate::avc::closes_at(inner, b));
        assert forall|k: int| b < k < inner.len() implies !crate::avc::closes_at(inner, k) by {
            if crate::avc::closes_at(inner, k) {
                let j = k - b - 1;
                let t = tail.take(j);
                assert(inner.take(k) =~= body + (q + t));
                crate::avc::lemma_ends_quoted(body, q + t, false);
                lemma_quote_free(q, t, false);
                assert(crate::avc::closes_at(tail, j));
            }
        }
    }
}

/// A message nested in single quotes is laid open: the fields of the line are
/// those of the line without `msg='` and without the closing quote, so each pair
/// of the message is read as if it stood in the line itself.
pub proof fn nested_pairs_are_read(
    left: Seq<char>,
    body: Seq<char>,
    tail: Seq<char>,
    key: Seq<char>,
)
    requires
        left.len() == 0 || crate::text::is_space(left.last()),
        !crate::avc::ends_quoted(left, false),
        forall|i: int| !crate::avc::opens_at(left, i),
        is_message(body, tail),
    ensures
        ({
            let line = left + "msg='"@ + body + seq!['\''] + tail;
            &&& crate::avc::message_of(line) == left + body + tail
            &&& crate::avc::value_of(crate::avc::fields_of(crate::avc::message_of(line)), key)
                == crate::avc::value_of(crate::avc::fields_of(left + body + tail), key)
        }),
{
    reveal_strlit("msg='");
    let pat = "msg='"@;
    let line = left + pat + body + seq!['\''] + tail;
    let n = left.len() as int;
    assert(line.subrange(n, n + 5) =~= pat);
    assert(line.take(n) =~= left);
    assert(crate::avc::opens_at(line, n));
    assert forall|i: int| 0 <= i < n implies !crate::avc::opens_at(line, i) by {
        if crate::avc::opens_at(line, i) {
            let k = n - i;
            if k < 5 {
                assert(line.subrange(i, i + 5)[k] == line[n]);
                assert(line[n] == 'm');
            } else {
                assert(left.subrange(i, i + 5) =~= line.subrange(i, i + 5));
                assert(left.take(i) =~= line.take(i));
                assert(crate::avc::opens_at(left, i));
            }
        }
    }
    lemma_opening(line, 0);
    assert(crate::avc::opening_from(line, 0) == Some(n));
    let inner = line.skip(n + 5);
    assert(inner =~= body + seq!['\''] + tail);
    lemma_message_closes(body, tail);
    assert(crate::avc::message_of(line) =~= left + body + tail);
}

/// A line in which no nested message opens is read as it is.
pub proof fn other_lines_are_read_as_they_are(line: Seq<char>)
    requires
        forall|i: int| !crate::avc::opens_at(line, i),
    ensures
        crate::avc::message_of(line) == line,
{
    lemma_opening(line, 0);
}

// ---- white space around a line -------------------------------------------

/// A text of white space alone.
pub open spec fn is_blank(s: Seq<char>) -> bool {
    forall|i: int| 0 <= i < s.len() ==> crate::text::is_space(#[trigger] s[i])
}

proof fn lemma_occurs_padded(
    pre: Seq<char>,
    s: Seq<char>,
    post: Seq<char>,
    pat: Seq<char>,
    i: int,
)
    requires
        is_blank(pre),
        is_blank(post),
        pat.len() > 0,
        !crate::text::is_space(pat[0]),
        !crate::text::is_space(pat.last()),
    ensures
        crate::text::occurs_at(pre + s + post, pat, i) <==> crate::text::occurs_at(
            s,
            pat,
            i - pre.len(),
        ),
{
    let all = pre + s + post;
    let n = pre.len() as int;
    let m = pat.len() as int;
    if crate::text::occurs_at(all, pat, i) {
        assert(all.subrange(i, i + m)[0] == all[i]);
        assert(all.subrange(i, i + m)[m - 1] == all[i + m - 1]);
        if i < n {
            assert(crate::text::is_space(pre[i]));
        }
        if i + m > n + s.len() {
            assert(crate::text::is_space(post[i + m - 1 - n - s.len()]));
        }
        assert(s.subrange(i - n, i - n + m) =~= all.subrange(i, i + m));
    }
    if crate::text::occurs_at(s, pat, i - n) {
        assert(all.subrange(i, i + m) =~= s.subrange(i - n, i - n + m));
    }
}

proof fn lemma_find_padded(pre: Seq<char>, s: Seq<char>, post: Seq<char>, pat: Seq<char>)
    requires
        is_blank(pre),
        is_blank(post),
        pat.len() > 0,
        !crate::text::is_space(pat[0]),
        !crate::text::is_space(pat.last()),
    ensures
        crate::text::find(pre + s + post, pat) == (match crate::text::find(s, pat) {
            Some(i) => Some(i + pre.len()),
            None => None,
        }),
{
    let all = pre + s + post;
    let n = pre.len() as int;
    assert forall|i: int| #[trigger] crate::text::occurs_at(all, pat, i) implies i >= n
        && crate::text::occurs_at(s, pat, i - n) by {
        lemma_occurs_padded(pre, s, post, pat, i);
    }
    crate::text::lemma_find_from(s, pat, 0);
    crate::text::lemma_find_from(all, pat, 0);
    match crate::text::find(s, pat) {
        Some(i) => {
            lemma_occurs_padded(pre, s, post, pat, i + n);
            crate::text::lemma_find_is(all, pat, i + n);
        },
        None => {},
    }
}

proof fn lemma_find_char_padded(s: Seq<char>, post: Seq<char>, c: char)
    requires
        is_blank(post),
        !crate::text::is_space(c),
    ensures
        crate::text::find_char(s + post, c) == crate::text::find_char(s, c),
{
    let none = Seq::<char>::empty();
    lemma_find_padded(none, s, post, seq![c]);
    assert(none + s + post =~= s + post);
}

proof fn lemma_blank_rest(s: Seq<char>)
    requires
        is_blank(s),
        s.len() > 0,
    ensures
        is_blank(s.skip(1)),
        is_blank(s.drop_last()),
        crate::text::is_space(s[0]),
        crate::text::is_space(s.last()),
{
    assert forall|i: int| 0 <= i < s.skip(1).len() implies crate::text::is_space(
        #[trigger] s.skip(1)[i],
    ) by {
        assert(crate::text::is_space(s[i + 1]));
    }
}

proof fn lemma_blank_quotes(s: Seq<char>, quoted: bool)
    requires
        is_blank(s),
    ensures
        crate::avc::ends_quoted(s, quoted) == quoted,
    decreases s.len(),
{
    if s.len() > 0 {
        lemma_blank_rest(s);
        lemma_blank_quotes(s.skip(1), quoted);
    }
}

proof fn lemma_blank_fields(pre: Seq<char>, s: Seq<char>)
    requires
        is_blank(pre),
    ensures
        crate::avc::fields_of(pre + s) == crate::avc::fields_of(s),
    decreases pre.len(),
{
    if pre.len() == 0 {
        assert(pre + s =~= s);
    } else {
        lemma_blank_rest(pre);
        lemma_blank_fields(pre.skip(1), s);
        assert((pre + s)[0] == pre[0]);
        assert((pre + s).skip(1) =~= pre.skip(1) + s);
        assert(Seq::<Seq<char>>::empty() + crate::avc::fields_of(s) =~= crate::avc::fields_of(s));
    }
}

proof fn lemma_fields_padded(pre: Seq<char>, s: Seq<char>, post: Seq<char>)
    requires
        is_blank(pre),
        is_blank(post),
        !crate::avc::ends_quoted(s, false),
    ensures
        crate::avc::fields_of(pre + s + post) == crate::avc::fields_of(s),
{
    let none = Seq::<char>::empty();
    assert(pre + s + post =~= pre + (s + post));
    lemma_blank_fields(pre, s + post);
    if post.len() == 0 {
        assert(s + post =~= s);
    } else {
        lemma_blank_rest(post);
        assert(s + post =~= s + seq![post[0]] + post.skip(1));
        fields_fall_apart_at_a_blank(s, post[0], post.skip(1));
        lemma_blank_fields(post.skip(1), none);
        assert(post.skip(1) + none =~= post.skip(1));
        assert(crate::avc::fields_of(none) =~= Seq::<Seq<char>>::empty());
        assert(crate::avc::fields_of(s) + Seq::<Seq<char>>::empty() =~= crate::avc::fields_of(s));
    }
}

proof fn lemma_opens_padded(pre: Seq<char>, line: Seq<char>, post: Seq<char>, i: int)
    requires
        is_blank(pre),
        is_blank(post),
    ensures
        crate::avc::opens_at(pre + line + post, i) <==> crate::avc::opens_at(line, i - pre.len()),
{
    reveal_strlit("msg='");
    let all = pre + line + post;
    let n = pre.len() as int;
    lemma_occurs_padded(pre, line, post, "msg='"@, i);
    if crate::text::occurs_at(line, "msg='"@, i - n) {
        assert(all.take(i) =~= pre + line.take(i - n));
        crate::avc::lemma_ends_quoted(pre, line.take(i - n), false);
        lemma_blank_quotes(pre, false);
        if i == n && n > 0 {
            assert(crate::text::is_space(pre[n - 1]));
        }
    }
}

proof fn lemma_closing_padded(s: Seq<char>, post: Seq<char>)
    requires
        is_blank(post),
    ensures
        crate::avc::closing_quote(s + post) == crate::avc::closing_quote(s),
{
    let all = s + post;
    assert forall|j: int| #[trigger] crate::avc::closes_at(all, j) <==> crate::avc::closes_at(s, j) by {
        if s.len() <= j < all.len() {
            assert(crate::text::is_space(post[j - s.len()]));
        }
        if 0 <= j < s.len() {
            assert(all.take(j) =~= s.take(j));
            if j + 1 == s.len() && post.len() > 0 {
                assert(crate::text::is_space(post[0]));
                assert(all[j + 1] == post[0]);
            }
        }
    }
    lemma_closing(s, s.len() as int);
    lemma_closing(all, all.len() as int);
    match crate::avc::closing_before(s, s.len() as int) {
        Some(j) => {
            assert(crate::avc::closes_at(all, j));
            let k = crate::avc::closing_before(all, all.len() as int)->0;
            assert(crate::avc::closes_at(s, k));
            assert(k == j);
        },
        None => {
            if crate::avc::closing_before(all, all.len() as int) is Some {
                let k = crate::avc::closing_before(all, all.len() as int)->0;
                assert(crate::avc::closes_at(s, k));
            }
        },
    }
    lemma_last_quote(s);
    lemma_last_quote(all);
    match crate::avc::last_quote(s) {
        Some(j) => {
            assert(all[j] == '\'');
            assert(all.contains('\''));
            let k = crate::avc::last_quote(all)->0;
            if k >= s.len() {
                assert(crate::text::is_space(post[k - s.len()]));
            }
            assert(k == j);
        },
        None => {
            if all.contains('\'') {
                let k = all.index_of('\'');
                if k < s.len() {
                    assert(s[k] == '\'');
                } else {
                    assert(crate::text::is_space(post[k - s.len()]));
                }
            }
        },
    }
}

proof fn lemma_message_padded(pre: Seq<char>, line: Seq<char>, post: Seq<char>)
    requires
        is_blank(pre),
        is_blank(post),
    ensures
        crate::avc::message_of(pre + line + post) == pre + crate::avc::message_of(line) + post,
{
    reveal_strlit("msg='");
    let all = pre + line + post;
    let n = pre.len() as int;
    lemma_opening(line, 0);
    lemma_opening(all, 0);
    assert forall|i: int| #[trigger] crate::avc::opens_at(all, i) implies i >= n
        && crate::avc::opens_at(line, i - n) by {
        lemma_opens_padded(pre, line, post, i);
    }
    match crate::avc::opening_from(line, 0) {
        Some(i) => {
            lemma_opens_padded(pre, line, post, i + n);
            assert(crate::avc::opening_from(all, 0) == Some(i + n));
            let inner = line.skip(i + 5);
            assert(all.skip(i + n + 5) =~= inner + post);
            lemma_closing_padded(inner, post);
            lemma_closing_quote(inner);
            if crate::avc::closing_quote(inner) is Some {
                assert(crate::avc::message_of(all) =~= pre + crate::avc::message_of(line) + post);
            }
        },
        None => {
            if crate::avc::opening_from(all, 0) is Some {
                let i = crate::avc::opening_from(all, 0)->0;
                assert(crate::avc::opens_at(line, i - n));
            }
        },
    }
}

proof fn lemma_message_quotes(line: Seq<char>)
    ensures
        crate::avc::ends_quoted(crate::avc::message_of(line), false) == crate::avc::ends_quoted(
            line,
            false,
        ),
{
    reveal_strlit("msg='");
    lemma_opening(line, 0);
    match crate::avc::opening_from(line, 0) {
        Some(i) => {
            let pat = "msg='"@;
            let inner = line.skip(i + 5);
            lemma_closing_quote(inner);
            match crate::avc::closing_quote(inner) {
                Some(j) => {
                    let (a, b, c) = (line.take(i), inner.take(j), inner.skip(j + 1));
                    let q = seq!['\''];
                    assert(line.subrange(i, i + 5) == pat);
                    assert(line =~= a + (pat + (b + (q + c))));
                    assert(crate::avc::message_of(line) =~= a + (b + c));
                    crate::avc::lemma_ends_quoted(a, pat + (b + (q + c)), false);
                    crate::avc::lemma_ends_quoted(a, b + c, false);
                    let after = crate::avc::ends_quoted(a, false);
                    lemma_quote_free(pat, b + (q + c), after);
                    crate::avc::lemma_ends_quoted(b, q + c, after);
                    crate::avc::lemma_ends_quoted(b, c, after);
                    lemma_quote_free(q, c, crate::avc::ends_quoted(b, after));
                },
                None => {},
            }
        },
        None => {},
    }
}

proof fn lemma_trim_start_padded(s: Seq<char>, post: Seq<char>)
    requires
        !is_blank(s),
    ensures
        crate::text::trim_start(s + post) == crate::text::trim_start(s) + post,
    decreases s.len(),
{
    assert((s + post)[0] == s[0]);
    if crate::text::is_space(s[0]) {
        assert((s + post).skip(1) =~= s.skip(1) + post);
        let i = choose|i: int| 0 <= i < s.len() && !crate::text::is_space(#[trigger] s[i]);
        assert(s.skip(1)[i - 1] == s[i]);
        lemma_trim_start_padded(s.skip(1), post);
    }
}

proof fn lemma_trim_start_blank(pre: Seq<char>, s: Seq<char>)
    requires
        is_blank(pre),
    ensures
        crate::text::trim_start(pre + s) == crate::text::trim_start(s),
    decreases pre.len(),
{
    if pre.len() == 0 {
        assert(pre + s =~= s);
    } else {
        lemma_blank_rest(pre);
        assert((pre + s)[0] == pre[0]);
        assert((pre + s).skip(1) =~= pre.skip(1) + s);
        lemma_trim_start_blank(pre.skip(1), s);
    }
}

proof fn lemma_trim_end_blank(s: Seq<char>, post: Seq<char>)
    requires
        is_blank(post),
    ensures
        crate::text::trim_end(s + post) == crate::text::trim_end(s),
    decreases post.len(),
{
    if post.len() == 0 {
        assert(s + post =~= s);
    } else {
        lemma_blank_rest(post);
        assert((s + post).last() == post.last());
        assert((s + post).drop_last() =~= s + post.drop_last());
        lemma_trim_end_blank(s, post.drop_last());
    }
}

proof fn lemma_audit_padded(pre: Seq<char>, line: Seq<char>, post: Seq<char>)
    requires
        is_blank(pre),
        is_blank(post),
    ensures
        crate::avc::audit_id(pre + line + post) == crate::avc::audit_id(line),
{
    reveal_strlit("audit(");
    let all = pre + line + post;
    let n = pre.len() as int;
    lemma_find_padded(pre, line, post, "audit("@);
    match crate::text::find(line, "audit("@) {
        Some(start) => {
            crate::text::lemma_find_from(line, "audit("@, 0);
            assert(all.skip(start + n) =~= line.skip(start) + post);
            lemma_find_char_padded(line.skip(start), post, ')');
            crate::text::lemma_find_char(line.skip(start), ')');
            match crate::text::find_char(line.skip(start), ')') {
                Some(end) => {
                    let open = line.subrange(start, start + 6);
                    assert(open == "audit("@);
                    if end < 6 {
                        assert(open[end] == line.skip(start)[end]);
                    }
                    assert(all.subrange(start + n + 6, start + n + end) =~= line.subrange(
                        start + 6,
                        start + end,
                    ));
                },
                None => {},
            }
        },
        None => {},
    }
}

proof fn lemma_word_padded(s: Seq<char>, post: Seq<char>)
    requires
        is_blank(post),
    ensures
        crate::avc::word_at_start(s + post) == crate::avc::word_at_start(s),
    decreases s.len(),
{
    if s.len() == 0 {
        assert(s + post =~= post);
        if post.len() > 0 {
            lemma_blank_rest(post);
        }
    } else {
        assert((s + post)[0] == s[0]);
        assert((s + post).skip(1) =~= s.skip(1) + post);
        lemma_word_padded(s.skip(1), post);
    }
}

proof fn lemma_outcome_word_padded(v: Seq<char>, post: Seq<char>)
    requires
        is_blank(post),
    ensures
        crate::avc::word_at_start(crate::text::trim_start(v + post)) == crate::avc::word_at_start(
            crate::text::trim_start(v),
        ),
{
    if is_blank(v) {
        let none = Seq::<char>::empty();
        lemma_trim_start_blank(v, post);
        lemma_trim_start_blank(post, none);
        lemma_trim_start_blank(v, none);
        assert(post + none =~= post);
        assert(v + none =~= v);
    } else {
        lemma_trim_start_padded(v, post);
        lemma_word_padded(crate::text::trim_start(v), post);
    }
}

proof fn lemma_verdict_padded(pre: Seq<char>, line: Seq<char>, post: Seq<char>)
    requires
        is_blank(pre),
        is_blank(post),
        crate::avc::is_avc(line),
    ensures
        crate::avc::outcome_of(pre + line + post) == crate::avc::outcome_of(line),
        crate::avc::braced(crate::avc::verdict_of(pre + line + post)) == crate::avc::braced(
            crate::avc::verdict_of(line),
        ),
{
    reveal_strlit("avc:");
    let all = pre + line + post;
    let n = pre.len() as int;
    let v = crate::avc::verdict_of(line);
    lemma_find_padded(pre, line, post, "avc:"@);
    crate::text::lemma_find_has(line, "avc:"@);
    crate::text::lemma_find_from(line, "avc:"@, 0);
    let i = crate::text::find(line, "avc:"@)->0;
    assert(all.skip(i + n + 4) =~= v + post);
    lemma_outcome_word_padded(v, post);
    reveal_strlit("granted");
    reveal_strlit("denied");
    lemma_find_padded(pre, line, post, "granted"@);
    lemma_find_padded(pre, line, post, "denied"@);
    crate::text::lemma_find_has(line, "granted"@);
    crate::text::lemma_find_has(line, "denied"@);
    crate::text::lemma_find_has(all, "granted"@);
    crate::text::lemma_find_has(all, "denied"@);
    lemma_find_char_padded(v, post, '{');
    lemma_find_char_padded(v, post, '}');
    crate::text::lemma_find_char(v, '{');
    crate::text::lemma_find_char(v, '}');
    match (crate::text::find_char(v, '{'), crate::text::find_char(v, '}')) {
        (Some(open), Some(close)) => {
            if open < close {
                assert((v + post).subrange(open + 1, close) =~= v.subrange(open + 1, close));
            }
        },
        _ => {},
    }
}

/// White space around a line changes nothing of its record. A line that leaves a
/// double quote open is another matter: there the white space after it belongs to
/// its last value.
pub proof fn white_space_around_a_line_is_ignored(
    pre: Seq<char>,
    line: Seq<char>,
    post: Seq<char>,
)
    requires
        is_blank(pre),
        is_blank(post),
        !crate::avc::ends_quoted(line, false),
    ensures
        crate::avc::denial_of(pre + line + post) == crate::avc::denial_of(line),
{
    reveal_strlit("avc:");
    let all = pre + line + post;
    lemma_find_padded(pre, line, post, "avc:"@);
    crate::text::lemma_find_has(line, "avc:"@);
    crate::text::lemma_find_has(all, "avc:"@);
    if crate::avc::is_avc(line) {
        lemma_verdict_padded(pre, line, post);
        lemma_audit_padded(pre, line, post);
        lemma_message_padded(pre, line, post);
        lemma_message_quotes(line);
        lemma_fields_padded(pre, crate::avc::message_of(line), post);
        let i = choose|i: int| crate::text::occurs_at(line, "avc:"@, i);
        assert(line.subrange(i, i + 4)[0] == line[i]);
        assert(!crate::text::is_space(line[i]));
        assert(all =~= pre + (line + post));
        lemma_trim_start_blank(pre, line + post);
        lemma_trim_start_padded(line, post);
        lemma_trim_end_blank(crate::text::trim_start(line), post);
    }
}

// ---- records -------------------------------------------------------------

proof fn lemma_word_occurs(s: Seq<char>)
    ensures
        crate::text::occurs_at(s, crate::avc::word_at_start(s), 0),
    decreases s.len(),
{
    let w = crate::avc::word_at_start(s);
    if w.len() == 0 {
        assert(s.subrange(0, 0) =~= w);
    } else {
        lemma_word_occurs(s.skip(1));
        let v = crate::avc::word_at_start(s.skip(1));
        assert(s.skip(1).subrange(0, v.len() as int) == v);
        assert(s.subrange(0, w.len() as int) =~= seq![s[0]] + s.skip(1).subrange(
            0,
            v.len() as int,
        ));
    }
}

proof fn lemma_trim_start_suffix(s: Seq<char>) -> (k: int)
    ensures
        0 <= k <= s.len(),
        crate::text::trim_start(s) == s.skip(k),
    decreases s.len(),
{
    if s.len() > 0 && crate::text::is_space(s[0]) {
        let k = lemma_trim_start_suffix(s.skip(1));
        assert(s.skip(1).skip(k) =~= s.skip(k + 1));
        k + 1
    } else {
        assert(s.skip(0) =~= s);
        0
    }
}

/// The word after `avc:` stands in the line.
proof fn lemma_outcome_word_in_line(line: Seq<char>)
    requires
        crate::avc::is_avc(line),
    ensures
        crate::text::has(line, crate::avc::outcome_word(line)),
{
    reveal_strlit("avc:");
    crate::text::lemma_find_has(line, "avc:"@);
    crate::text::lemma_find_from(line, "avc:"@, 0);
    let i = crate::text::find(line, "avc:"@)->0 + 4;
    let v = crate::avc::verdict_of(line);
    let k = lemma_trim_start_suffix(v);
    let s = crate::text::trim_start(v);
    let w = crate::avc::outcome_word(line);
    lemma_word_occurs(s);
    assert(s =~= line.skip(i + k));
    assert(line.subrange(i + k, i + k + w.len()) =~= s.subrange(0, w.len() as int));
    assert(crate::text::occurs_at(line, w, i + k));
}

/// The outcome of a record is one of two words: `granted` where the line says so
/// and does not say `denied`, and `denied` where it does not say `granted`. Where
/// it says both, the word after `avc:` counts.
pub proof fn outcome_is_what_the_line_says(line: Seq<char>)
    requires
        crate::avc::is_avc(line),
    ensures
        ({
            let outcome = crate::avc::denial_of(line)->0.outcome;
            let granted = crate::text::has(line, "granted"@);
            let denied = crate::text::has(line, "denied"@);
            &&& outcome == "granted"@ || outcome == "denied"@
            &&& granted && !denied ==> outcome == "granted"@
            &&& !granted ==> outcome == "denied"@
            &&& crate::avc::outcome_word(line) == "granted"@ ==> outcome == "granted"@
            &&& crate::avc::outcome_word(line) == "denied"@ ==> outcome == "denied"@
        }),
{
    lemma_outcome_word_in_line(line);
}

/// The permissions of a record are in order.
pub proof fn perms_are_sorted(line: Seq<char>)
    requires
        crate::avc::is_avc(line),
    ensures
        crate::order::in_order(
            crate::avc::denial_of(line)->0.perms,
            crate::order::text_order(),
        ),
        crate::avc::denial_of(line)->0.perms.to_multiset() == crate::text::words(
            crate::avc::braced(crate::avc::verdict_of(line)),
        ).to_multiset(),
{
    crate::order::lemma_text_order();
    crate::order::sort_orders(
        crate::text::words(crate::avc::braced(crate::avc::verdict_of(line))),
        crate::order::text_order(),
    );
    crate::order::sort_keeps_elements(
        crate::text::words(crate::avc::braced(crate::avc::verdict_of(line))),
        crate::order::text_order(),
    );
}

/// A line that is no AVC record changes nothing, wherever it stands.
pub proof fn other_lines_are_ignored(
    above: Seq<Seq<char>>,
    line: Seq<char>,
    below: Seq<Seq<char>>,
)
    requires
        !crate::avc::is_avc(line),
    ensures
        crate::avc::records_in(above.push(line) + below) == crate::avc::records_in(above + below),
    decreases below.len(),
{
    if below.len() == 0 {
        assert(above.push(line) + below =~= above.push(line));
        assert(above + below =~= above);
        assert(above.push(line).drop_last() =~= above);
    } else {
        other_lines_are_ignored(above, line, below.drop_last());
        assert((above.push(line) + below).drop_last() =~= above.push(line) + below.drop_last());
        assert((above + below).drop_last() =~= above + below.drop_last());
    }
}

// ---- groups --------------------------------------------------------------

/// How many of the records are of a problem.
pub open spec fn occurrences(records: Seq<DenialView>, p: Problem) -> nat
    decreases records.len(),
{
    if records.len() == 0 {
        0
    } else {
        occurrences(records.drop_last(), p) + if records.last().problem() == p {
            1nat
        } else {
            0nat
        }
    }
}

/// The sum of the counts of the groups.
pub open spec fn count_sum(groups: Seq<GroupView>) -> nat
    decreases groups.len(),
{
    if groups.len() == 0 {
        0
    } else {
        count_sum(groups.drop_last()) + groups.last().count
    }
}

proof fn lemma_count_sum_update(groups: Seq<GroupView>, i: int, g: GroupView)
    requires
        0 <= i < groups.len(),
        g.count == groups[i].count + 1,
    ensures
        count_sum(groups.update(i, g)) == count_sum(groups) + 1,
    decreases groups.len(),
{
    let u = groups.update(i, g);
    if i == groups.len() - 1 {
        assert(u.drop_last() =~= groups.drop_last());
    } else {
        lemma_count_sum_update(groups.drop_last(), i, g);
        assert(u.drop_last() =~= groups.drop_last().update(i, g));
    }
}

/// The running total: the counts of the groups add up to the number of records.
pub proof fn counts_add_up_to_total(records: Seq<DenialView>, stamps: Seq<Timestamp>)
    ensures
        count_sum(crate::avc::groups_of(records, stamps)) == records.len(),
    decreases records.len(),
{
    if records.len() > 0 {
        let init = crate::avc::groups_of(records.drop_last(), stamps);
        counts_add_up_to_total(records.drop_last(), stamps);
        let d = records.last();
        let t = crate::avc::stamp_at(stamps, records.len() - 1);
        crate::avc::lemma_group_from(init, d.problem(), 0);
        match crate::avc::group_from(init, d.problem(), 0) {
            Some(i) => lemma_count_sum_update(init, i, crate::avc::grown(init[i], d, t)),
            None => {
                let g = crate::avc::grown(crate::avc::fresh_group(d, t), d, t);
                assert(init.push(g).drop_last() =~= init);
            },
        }
    }
}

/// No two groups are of the same problem.
pub proof fn one_group_per_problem(records: Seq<DenialView>, stamps: Seq<Timestamp>)
    ensures
        ({
            let groups = crate::avc::groups_of(records, stamps);
            forall|i: int, j: int|
                0 <= i < j < groups.len() ==> (#[trigger] groups[i]).problem() != (
                #[trigger] groups[j]).problem()
        }),
    decreases records.len(),
{
    if records.len() > 0 {
        one_group_per_problem(records.drop_last(), stamps);
        crate::avc::lemma_group_from(
            crate::avc::groups_of(records.drop_last(), stamps),
            records.last().problem(),
            0,
        );
    }
}

/// The count of a group is the number of records of its problem, and every group
/// has one at least.
pub proof fn count_is_occurrences(records: Seq<DenialView>, stamps: Seq<Timestamp>)
    ensures
        ({
            let groups = crate::avc::groups_of(records, stamps);
            forall|i: int|
                0 <= i < groups.len() ==> (#[trigger] groups[i]).count == occurrences(
                    records,
                    groups[i].problem(),
                ) && groups[i].count > 0
        }),
    decreases records.len(),
{
    if records.len() > 0 {
        let init = crate::avc::groups_of(records.drop_last(), stamps);
        let groups = crate::avc::groups_of(records, stamps);
        let p = records.last().problem();
        count_is_occurrences(records.drop_last(), stamps);
        one_group_per_problem(records.drop_last(), stamps);
        every_record_has_a_group(records.drop_last(), stamps);
        crate::avc::lemma_group_from(init, p, 0);
        match crate::avc::group_from(init, p, 0) {
            Some(k) => {
                assert forall|i: int| 0 <= i < groups.len() implies (#[trigger] groups[i]).count
                    == occurrences(records, groups[i].problem()) && groups[i].count > 0 by {
                    assert(init[i].count == occurrences(records.drop_last(), init[i].problem()));
                    assert(init[k].problem() == p);
                    assert(i == k || init[i].problem() != p);
                }
            },
            None => {
                assert forall|i: int| 0 <= i < groups.len() implies (#[trigger] groups[i]).count
                    == occurrences(records, groups[i].problem()) && groups[i].count > 0 by {
                    if i < init.len() {
                        assert(init[i].count == occurrences(records.drop_last(), init[i].problem()));
                    } else {
                        lemma_no_occurrence(records.drop_last(), stamps, p);
                    }
                }
            },
        }
    }
}

proof fn lemma_no_occurrence(records: Seq<DenialView>, stamps: Seq<Timestamp>, p: Problem)
    requires
        crate::avc::group_from(crate::avc::groups_of(records, stamps), p, 0) is None,
    ensures
        occurrences(records, p) == 0,
{
    every_record_has_a_group(records, stamps);
    crate::avc::lemma_group_from(crate::avc::groups_of(records, stamps), p, 0);
    if occurrences(records, p) > 0 {
        let k = lemma_occurrence_place(records, p);
        let i = crate::avc::group_from(
            crate::avc::groups_of(records, stamps),
            records[k].problem(),
            0,
        );
        assert(i is Some);
    }
}

proof fn lemma_occurrence_place(records: Seq<DenialView>, p: Problem) -> (k: int)
    requires
        occurrences(records, p) > 0,
    ensures
        0 <= k < records.len(),
        records[k].problem() == p,
    decreases records.len(),
{
    if records.last().problem() == p {
        records.len() - 1
    } else {
        lemma_occurrence_place(records.drop_last(), p)
    }
}

/// Every record is in a group: the one of its problem.
pub proof fn every_record_has_a_group(records: Seq<DenialView>, stamps: Seq<Timestamp>)
    ensures
        forall|k: int|
            0 <= k < records.len() ==> crate::avc::group_from(
                crate::avc::groups_of(records, stamps),
                (#[trigger] records[k]).problem(),
                0,
            ) is Some,
    decreases records.len(),
{
    if records.len() > 0 {
        let init = crate::avc::groups_of(records.drop_last(), stamps);
        let groups = crate::avc::groups_of(records, stamps);
        let d = records.last();
        every_record_has_a_group(records.drop_last(), stamps);
        crate::avc::lemma_group_from(init, d.problem(), 0);
        assert forall|k: int| 0 <= k < records.len() implies crate::avc::group_from(
            groups,
            (#[trigger] records[k]).problem(),
            0,
        ) is Some by {
            let p = records[k].problem();
            crate::avc::lemma_group_from(groups, p, 0);
            if k < records.len() - 1 {
                assert(records.drop_last()[k] == records[k]);
                crate::avc::lemma_group_from(init, p, 0);
                let i = crate::avc::group_from(init, p, 0)->0;
                assert(groups[i].problem() == p);
            } else {
                match crate::avc::group_from(init, p, 0) {
                    Some(i) => assert(groups[i].problem() == p),
                    None => assert(groups[init.len() as int].problem() == p),
                }
            }
        }
    }
}

/// A path occurs in a record of the problem.
pub open spec fn path_seen(records: Seq<DenialView>, p: Problem, path: Seq<char>) -> bool {
    exists|k: int|
        0 <= k < records.len() && (#[trigger] records[k]).problem() == p && records[k].path == Some(
            path,
        )
}

/// A process number occurs in a record of the problem.
pub open spec fn pid_seen(records: Seq<DenialView>, p: Problem, pid: u32) -> bool {
    exists|k: int|
        0 <= k < records.len() && (#[trigger] records[k]).problem() == p && records[k].pid == Some(
            pid,
        )
}

proof fn lemma_path_seen(records: Seq<DenialView>, p: Problem, path: Seq<char>)
    requires
        records.len() > 0,
    ensures
        path_seen(records, p, path) <==> path_seen(records.drop_last(), p, path) || (
        records.last().problem() == p && records.last().path == Some(path)),
{
    let init = records.drop_last();
    if path_seen(init, p, path) {
        let k = choose|k: int|
            0 <= k < init.len() && (#[trigger] init[k]).problem() == p && init[k].path == Some(path);
        assert(records[k] == init[k]);
    }
    if records.last().problem() == p && records.last().path == Some(path) {
        assert(records[records.len() - 1].problem() == p);
    }
    if path_seen(records, p, path) {
        let k = choose|k: int|
            0 <= k < records.len() && (#[trigger] records[k]).problem() == p && records[k].path
                == Some(path);
        if k < records.len() - 1 {
            assert(init[k] == records[k]);
        }
    }
}

proof fn lemma_pid_seen(records: Seq<DenialView>, p: Problem, pid: u32)
    requires
        records.len() > 0,
    ensures
        pid_seen(records, p, pid) <==> pid_seen(records.drop_last(), p, pid) || (
        records.last().problem() == p && records.last().pid == Some(pid)),
{
    let init = records.drop_last();
    if pid_seen(init, p, pid) {
        let k = choose|k: int|
            0 <= k < init.len() && (#[trigger] init[k]).problem() == p && init[k].pid == Some(pid);
        assert(records[k] == init[k]);
    }
    if records.last().problem() == p && records.last().pid == Some(pid) {
        assert(records[records.len() - 1].problem() == p);
    }
    if pid_seen(records, p, pid) {
        let k = choose|k: int|
            0 <= k < records.len() && (#[trigger] records[k]).problem() == p && records[k].pid
                == Some(pid);
        if k < records.len() - 1 {
            assert(init[k] == records[k]);
        }
    }
}

/// The paths of a group are those of its records, in order and each once; its
/// process numbers are those of its records.
pub proof fn groups_keep_paths_and_pids(records: Seq<DenialView>, stamps: Seq<Timestamp>)
    ensures
        ({
            let groups = crate::avc::groups_of(records, stamps);
            forall|i: int|
                0 <= i < groups.len() ==> keeps_paths_and_pids(records, #[trigger] groups[i])
        }),
    decreases records.len(),
{
    if records.len() > 0 {
        let init = crate::avc::groups_of(records.drop_last(), stamps);
        let groups = crate::avc::groups_of(records, stamps);
        let d = records.last();
        let p = d.problem();
        groups_keep_paths_and_pids(records.drop_last(), stamps);
        one_group_per_problem(records.drop_last(), stamps);
        crate::avc::lemma_group_from(init, p, 0);
        assert forall|i: int| 0 <= i < groups.len() implies keeps_paths_and_pids(
            records,
            #[trigger] groups[i],
        ) by {
            let g = groups[i];
            let before = if i < init.len() {
                init[i]
            } else {
                crate::avc::fresh_group(d, crate::avc::stamp_at(stamps, records.len() - 1))
            };
            if i < init.len() {
                assert(keeps_paths_and_pids(records.drop_last(), init[i]));
            } else {
                lemma_no_occurrence(records.drop_last(), stamps, p);
                lemma_unseen(records.drop_last(), p);
                assert(keeps_paths_and_pids(records.drop_last(), before));
            }
            match crate::avc::group_from(init, p, 0) {
                Some(k) => {
                    assert(init[k].problem() == p);
                    assert(i == k || init[i].problem() != p);
                },
                None => {},
            }
            lemma_grown_keeps(records, before, g, crate::avc::stamp_at(stamps, records.len() - 1));
        }
    }
}

/// The paths and process numbers of a group are exactly those that the records
/// of its problem hold.
pub open spec fn keeps_paths_and_pids(records: Seq<DenialView>, g: GroupView) -> bool {
    &&& crate::order::is_text_set(g.paths)
    &&& forall|path: Seq<char>| #[trigger]
        g.paths.contains(path) <==> path_seen(records, g.problem(), path)
    &&& forall|pid: u32| #[trigger] g.pids.contains(pid) <==> pid_seen(records, g.problem(), pid)
}

proof fn lemma_unseen(records: Seq<DenialView>, p: Problem)
    requires
        occurrences(records, p) == 0,
    ensures
        forall|path: Seq<char>| !path_seen(records, p, path),
        forall|pid: u32| !pid_seen(records, p, pid),
    decreases records.len(),
{
    if records.len() > 0 {
        lemma_unseen(records.drop_last(), p);
        assert forall|path: Seq<char>| !path_seen(records, p, path) by {
            lemma_path_seen(records, p, path);
        }
        assert forall|pid: u32| !pid_seen(records, p, pid) by {
            lemma_pid_seen(records, p, pid);
        }
    }
}

proof fn lemma_grown_keeps(records: Seq<DenialView>, b: GroupView, g: GroupView, t: Timestamp)
    requires
        records.len() > 0,
        keeps_paths_and_pids(records.drop_last(), b),
        b.problem() == g.problem(),
        g == if records.last().problem() == b.problem() {
            crate::avc::grown(b, records.last(), t)
        } else {
            b
        },
    ensures
        keeps_paths_and_pids(records, g),
{
    let p = g.problem();
    let d = records.last();
    assert forall|path: Seq<char>| #[trigger]
        g.paths.contains(path) <==> path_seen(records, p, path) by {
        lemma_path_seen(records, p, path);
        if d.problem() == p {
            match d.path {
                Some(x) => {
                    crate::order::with_text_keeps_set(b.paths, x);
                    assert(crate::order::with_text(b.paths, x).contains(path) <==> b.paths.contains(
                        path,
                    ) || path == x);
                },
                None => {},
            }
        }
        assert(b.paths.contains(path) <==> path_seen(records.drop_last(), p, path));
    }
    assert forall|pid: u32| #[trigger] g.pids.contains(pid) <==> pid_seen(records, p, pid) by {
        lemma_pid_seen(records, p, pid);
        assert(b.pids.contains(pid) <==> pid_seen(records.drop_last(), p, pid));
    }
    if d.problem() == p {
        match d.path {
            Some(x) => crate::order::with_text_keeps_set(b.paths, x),
            None => {},
        }
    }
}

/// The times of a group bound those of its records: none that is after the epoch
/// comes before the first or after the last, and both are times of its records.
pub open spec fn bounds_times(
    records: Seq<DenialView>,
    stamps: Seq<Timestamp>,
    g: GroupView,
) -> bool {
    &&& forall|k: int|
        0 <= k < records.len() && (#[trigger] records[k]).problem() == g.problem()
            && crate::avc::stamp_at(stamps, k).positive() ==> {
            &&& g.first_ts.positive()
            &&& g.first_ts.rank() <= crate::avc::stamp_at(stamps, k).rank() <= g.last_ts.rank()
        }
    &&& is_time_of(records, stamps, g.problem(), g.first_ts)
    &&& is_time_of(records, stamps, g.problem(), g.last_ts)
}

/// A record of the problem has the time `t`.
pub open spec fn is_time_of(
    records: Seq<DenialView>,
    stamps: Seq<Timestamp>,
    p: Problem,
    t: Timestamp,
) -> bool {
    exists|k: int|
        0 <= k < records.len() && (#[trigger] records[k]).problem() == p && crate::avc::stamp_at(
            stamps,
            k,
        ) == t
}

proof fn lemma_time_of_more(
    records: Seq<DenialView>,
    stamps: Seq<Timestamp>,
    p: Problem,
    t: Timestamp,
)
    requires
        records.len() > 0,
        is_time_of(records.drop_last(), stamps, p, t) || (records.last().problem() == p
            && crate::avc::stamp_at(stamps, records.len() - 1) == t),
    ensures
        is_time_of(records, stamps, p, t),
{
    let init = records.drop_last();
    if is_time_of(init, stamps, p, t) {
        let k = choose|k: int|
            0 <= k < init.len() && (#[trigger] init[k]).problem() == p && crate::avc::stamp_at(
                stamps,
                k,
            ) == t;
        assert(records[k] == init[k]);
    } else {
        assert(records[records.len() - 1].problem() == p);
    }
}

/// Where every time is a number and none lies before the epoch, the first and the
/// last time of each group bound the times of its records.
pub proof fn first_and_last_bound_the_times(records: Seq<DenialView>, stamps: Seq<Timestamp>)
    requires
        forall|k: int|
            0 <= k < stamps.len() ==> !(#[trigger] stamps[k]).is_nan() && stamps[k].rank() >= 0,
    ensures
        ({
            let groups = crate::avc::groups_of(records, stamps);
            forall|i: int| 0 <= i < groups.len() ==> bounds_times(records, stamps, #[trigger] groups[i])
        }),
    decreases records.len(),
{
    if records.len() > 0 {
        let init = crate::avc::groups_of(records.drop_last(), stamps);
        let groups = crate::avc::groups_of(records, stamps);
        let d = records.last();
        let p = d.problem();
        let t = crate::avc::stamp_at(stamps, records.len() - 1);
        first_and_last_bound_the_times(records.drop_last(), stamps);
        one_group_per_problem(records.drop_last(), stamps);
        crate::avc::lemma_group_from(init, p, 0);
        assert forall|i: int| 0 <= i < groups.len() implies bounds_times(
            records,
            stamps,
            #[trigger] groups[i],
        ) by {
            let g = groups[i];
            if i < init.len() {
                let b = init[i];
                assert(bounds_times(records.drop_last(), stamps, b));
                match crate::avc::group_from(init, p, 0) {
                    Some(k) => {
                        assert(init[k].problem() == p);
                        assert(i == k || init[i].problem() != p);
                    },
                    None => {},
                }
                lemma_time_of_more(records, stamps, g.problem(), g.first_ts);
                lemma_time_of_more(records, stamps, g.problem(), g.last_ts);
                assert forall|k: int|
                    0 <= k < records.len() && (#[trigger] records[k]).problem() == g.problem()
                        && crate::avc::stamp_at(stamps, k).positive() implies {
                    &&& g.first_ts.positive()
                    &&& g.first_ts.rank() <= crate::avc::stamp_at(stamps, k).rank()
                        <= g.last_ts.rank()
                } by {
                    if k < records.len() - 1 {
                        assert(records.drop_last()[k] == records[k]);
                    }
                }
            } else {
                lemma_no_occurrence(records.drop_last(), stamps, p);
                lemma_time_of_more(records, stamps, p, t);
                assert forall|k: int|
                    0 <= k < records.len() && (#[trigger] records[k]).problem() == g.problem()
                        && crate::avc::stamp_at(stamps, k).positive() implies {
                    &&& g.first_ts.positive()
                    &&& g.first_ts.rank() <= crate::avc::stamp_at(stamps, k).rank()
                        <= g.last_ts.rank()
                } by {
                    if k < records.len() - 1 {
                        assert(records.drop_last()[k] == records[k]);
                        lemma_occurs(records.drop_last(), k);
                    }
                }
            }
        }
    }
}

proof fn lemma_occurs(records: Seq<DenialView>, k: int)
    requires
        0 <= k < records.len(),
    ensures
        occurrences(records, records[k].problem()) > 0,
    decreases records.len(),
{
    if k < records.len() - 1 {
        lemma_occurs(records.drop_last(), k);
    }
}

/// A group shows its first record: the record at place `k`, before which there is
/// none of the problem.
pub open spec fn shows_record(records: Seq<DenialView>, g: GroupView, k: int) -> bool {
    &&& 0 <= k < records.len()
    &&& records[k].problem() == g.problem()
    &&& g.scontext == records[k].scontext
    &&& g.tcontext == records[k].tcontext
    &&& g.sample_raw == records[k].raw
    &&& g.permissive == records[k].permissive
    &&& forall|j: int| 0 <= j < k ==> (#[trigger] records[j]).problem() != g.problem()
}

/// Each group shows the record that comes first of its problem, and carries the
/// key of that problem.
pub proof fn groups_show_their_first_record(records: Seq<DenialView>, stamps: Seq<Timestamp>)
    ensures
        ({
            let groups = crate::avc::groups_of(records, stamps);
            forall|i: int|
                0 <= i < groups.len() ==> groups[i].key == crate::avc::key_of(
                    (#[trigger] groups[i]).problem(),
                ) && exists|k: int| shows_record(records, groups[i], k)
        }),
    decreases records.len(),
{
    if records.len() > 0 {
        let init = crate::avc::groups_of(records.drop_last(), stamps);
        let groups = crate::avc::groups_of(records, stamps);
        let p = records.last().problem();
        groups_show_their_first_record(records.drop_last(), stamps);
        crate::avc::lemma_group_from(init, p, 0);
        assert forall|i: int| 0 <= i < groups.len() implies groups[i].key == crate::avc::key_of(
            (#[trigger] groups[i]).problem(),
        ) && exists|k: int| shows_record(records, groups[i], k) by {
            if i < init.len() {
                assert(init[i].problem() == groups[i].problem());
                let k = choose|k: int| shows_record(records.drop_last(), init[i], k);
                assert(records.drop_last()[k] == records[k]);
                assert forall|j: int| 0 <= j < k implies (#[trigger] records[j]).problem()
                    != groups[i].problem() by {
                    assert(records.drop_last()[j] == records[j]);
                }
                assert(shows_record(records, groups[i], k));
            } else {
                lemma_no_occurrence(records.drop_last(), stamps, p);
                assert forall|j: int| 0 <= j < records.len() - 1 implies (
                #[trigger] records[j]).problem() != p by {
                    assert(records.drop_last()[j] == records[j]);
                    lemma_occurs(records.drop_last(), j);
                }
                assert(shows_record(records, groups[i], records.len() - 1));
            }
        }
    }
}

// ---- keys ----------------------------------------------------------------

proof fn lemma_cut_at(a: Seq<char>, sep: char, rest: Seq<char>)
    requires
        !a.contains(sep),
    ensures
        crate::text::before(a + seq![sep] + rest, sep) == a,
        crate::text::after(a + seq![sep] + rest, sep) == rest,
{
    let s = a + seq![sep] + rest;
    assert forall|j: int| 0 <= j < a.len() implies s[j] != sep by {
        assert(a.contains(a[j]));
    }
    crate::text::lemma_find_char_is(s, sep, a.len() as int);
    assert(s.take(a.len() as int) =~= a);
    assert(s.skip(a.len() as int + 1) =~= rest);
}

proof fn lemma_joined_front(parts: Seq<Seq<char>>, sep: Seq<char>)
    requires
        parts.len() >= 2,
    ensures
        crate::text::joined(parts, sep) == parts[0] + sep + crate::text::joined(parts.skip(1), sep),
    decreases parts.len(),
{
    let rest = parts.skip(1);
    if parts.len() == 2 {
        assert(crate::text::joined(parts.drop_last(), sep) == parts[0]);
        assert(crate::text::joined(rest, sep) == parts.last());
    } else {
        lemma_joined_front(parts.drop_last(), sep);
        assert(parts.drop_last().skip(1) =~= rest.drop_last());
        assert(rest.last() == parts.last());
        assert(parts[0] + sep + crate::text::joined(rest.drop_last(), sep) + sep + parts.last()
            =~= parts[0] + sep + (crate::text::joined(rest.drop_last(), sep) + sep + parts.last()));
    }
}

/// A text that goes on with a separator of a key, or not at all: a bar, or inside a
/// list a comma.
spec fn separates(s: Seq<char>, listed: bool) -> bool {
    s.len() == 0 || s[0] == '|' || (listed && s[0] == ',')
}

spec fn escaped_then(s: Seq<char>, listed: bool, rest: Seq<char>) -> Seq<char> {
    crate::avc::escaped(s, listed) + rest
}

proof fn lemma_escaped_head(s: Seq<char>, listed: bool, rest: Seq<char>)
    requires
        s.len() > 0,
    ensures
        ({
            let t = escaped_then(s, listed, rest);
            let more = escaped_then(s.skip(1), listed, rest);
            if crate::avc::is_mark(s[0], listed) {
                t.len() >= 2 && t[0] == '\\' && t[1] == s[0] && t.skip(2) == more
            } else {
                t.len() >= 1 && t[0] == s[0] && t.skip(1) == more
            }
        }),
{
    let t = escaped_then(s, listed, rest);
    let more = escaped_then(s.skip(1), listed, rest);
    if crate::avc::is_mark(s[0], listed) {
        assert(t.skip(2) =~= more);
    } else {
        assert(t.skip(1) =~= more);
    }
}

/// An escaped text can be told from what follows it.
proof fn lemma_escaped_apart(
    a: Seq<char>,
    x: Seq<char>,
    b: Seq<char>,
    y: Seq<char>,
    listed: bool,
)
    requires
        separates(x, listed),
        separates(y, listed),
        escaped_then(a, listed, x) == escaped_then(b, listed, y),
    ensures
        a == b,
        x == y,
    decreases a.len(),
{
    if a.len() > 0 {
        lemma_escaped_head(a, listed, x);
    } else {
        assert(escaped_then(a, listed, x) =~= x);
    }
    if b.len() > 0 {
        lemma_escaped_head(b, listed, y);
    } else {
        assert(escaped_then(b, listed, y) =~= y);
    }
    if a.len() > 0 && b.len() > 0 {
        lemma_escaped_apart(a.skip(1), x, b.skip(1), y, listed);
        assert(a =~= seq![a[0]] + a.skip(1));
        assert(b =~= seq![b[0]] + b.skip(1));
    } else {
        assert(a =~= b);
    }
}

/// The texts are words: none is empty.
pub open spec fn are_words(s: Seq<Seq<char>>) -> bool {
    forall|i: int| 0 <= i < s.len() ==> (#[trigger] s[i]).len() > 0
}

spec fn list_then(s: Seq<Seq<char>>, rest: Seq<char>) -> Seq<char> {
    crate::text::joined(crate::avc::all_escaped(s), seq![',']) + rest
}

/// What follows the first of some escaped texts that are separated by commas.
spec fn list_tail(s: Seq<Seq<char>>, rest: Seq<char>) -> Seq<char> {
    if s.len() == 1 {
        rest
    } else {
        seq![','] + list_then(s.skip(1), rest)
    }
}

proof fn lemma_list_head(s: Seq<Seq<char>>, rest: Seq<char>)
    requires
        s.len() > 0,
    ensures
        list_then(s, rest) == escaped_then(s[0], true, list_tail(s, rest)),
{
    let e = crate::avc::all_escaped(s);
    if s.len() >= 2 {
        lemma_joined_front(e, seq![',']);
        assert(e.skip(1) =~= crate::avc::all_escaped(s.skip(1)));
        assert(list_then(s, rest) =~= escaped_then(s[0], true, list_tail(s, rest)));
    }
}

/// A list of escaped words can be told from what follows it.
proof fn lemma_list_apart(
    a: Seq<Seq<char>>,
    x: Seq<char>,
    b: Seq<Seq<char>>,
    y: Seq<char>,
)
    requires
        are_words(a),
        are_words(b),
        x.len() > 0 && x[0] == '|',
        y.len() > 0 && y[0] == '|',
        list_then(a, x) == list_then(b, y),
    ensures
        a == b,
        x == y,
    decreases a.len(),
{
    if a.len() > 0 {
        lemma_list_head(a, x);
        lemma_escaped_head(a[0], true, list_tail(a, x));
    } else {
        assert(list_then(a, x) =~= x);
    }
    if b.len() > 0 {
        lemma_list_head(b, y);
        lemma_escaped_head(b[0], true, list_tail(b, y));
    } else {
        assert(list_then(b, y) =~= y);
    }
    if a.len() > 0 && b.len() > 0 {
        lemma_escaped_apart(a[0], list_tail(a, x), b[0], list_tail(b, y), true);
        if a.len() > 1 && b.len() > 1 {
            assert(list_tail(a, x).skip(1) =~= list_then(a.skip(1), x));
            assert(list_tail(b, y).skip(1) =~= list_then(b.skip(1), y));
            assert forall|i: int| 0 <= i < a.skip(1).len() implies (#[trigger] a.skip(1)[i]).len()
                > 0 by {
                assert(a[i + 1].len() > 0);
            }
            assert forall|i: int| 0 <= i < b.skip(1).len() implies (#[trigger] b.skip(1)[i]).len()
                > 0 by {
                assert(b[i + 1].len() > 0);
            }
            lemma_list_apart(a.skip(1), x, b.skip(1), y);
            assert(a =~= seq![a[0]] + a.skip(1));
            assert(b =~= seq![b[0]] + b.skip(1));
        } else {
            assert(a =~= b);
        }
    } else {
        assert(a =~= b);
    }
}

/// What stands in a key after its outcome and its permissions.
spec fn key_end(p: Problem) -> Seq<char> {
    let bar = seq!['|'];
    bar + escaped_then(p.scontext, false,
        bar + escaped_then(p.tcontext, false,
            bar + escaped_then(p.tclass, false, bar + crate::avc::escaped(p.comm, false)),
        ),
    )
}

proof fn lemma_key_form(p: Problem)
    ensures
        crate::avc::key_of(p) == escaped_then(p.outcome, false,
            seq!['|'] + list_then(p.perms, key_end(p)),
        ),
{
    reveal_strlit("|");
    reveal_strlit(",");
    assert("|"@ =~= seq!['|']);
    assert(","@ =~= seq![',']);
    assert(crate::avc::key_of(p) =~= escaped_then(p.outcome, false,
        seq!['|'] + list_then(p.perms, key_end(p)),
    ));
}

/// The key of a problem whose permissions are words tells it from any other.
pub proof fn key_tells_problems_apart(p: Problem, q: Problem)
    requires
        are_words(p.perms),
        are_words(q.perms),
    ensures
        crate::avc::key_of(p) == crate::avc::key_of(q) <==> p == q,
{
    if crate::avc::key_of(p) == crate::avc::key_of(q) {
        let bar = seq!['|'];
        lemma_key_form(p);
        lemma_key_form(q);
        let (p1, q1) = (list_then(p.perms, key_end(p)), list_then(q.perms, key_end(q)));
        lemma_escaped_apart(p.outcome, bar + p1, q.outcome, bar + q1, false);
        assert((bar + p1).skip(1) =~= p1 && (bar + q1).skip(1) =~= q1);
        lemma_list_apart(p.perms, key_end(p), q.perms, key_end(q));
        let p4 = bar + crate::avc::escaped(p.comm, false);
        let q4 = bar + crate::avc::escaped(q.comm, false);
        let p3 = bar + escaped_then(p.tclass, false, p4);
        let q3 = bar + escaped_then(q.tclass, false, q4);
        let p2 = bar + escaped_then(p.tcontext, false, p3);
        let q2 = bar + escaped_then(q.tcontext, false, q3);
        assert(key_end(p).skip(1) =~= escaped_then(p.scontext, false, p2));
        assert(key_end(q).skip(1) =~= escaped_then(q.scontext, false, q2));
        lemma_escaped_apart(p.scontext, p2, q.scontext, q2, false);
        assert(p2.skip(1) =~= escaped_then(p.tcontext, false, p3));
        assert(q2.skip(1) =~= escaped_then(q.tcontext, false, q3));
        lemma_escaped_apart(p.tcontext, p3, q.tcontext, q3, false);
        assert(p3.skip(1) =~= escaped_then(p.tclass, false, p4));
        assert(q3.skip(1) =~= escaped_then(q.tclass, false, q4));
        lemma_escaped_apart(p.tclass, p4, q.tclass, q4, false);
        assert(p4.skip(1) =~= escaped_then(p.comm, false, Seq::empty()));
        assert(q4.skip(1) =~= escaped_then(q.comm, false, Seq::empty()));
        lemma_escaped_apart(p.comm, Seq::empty(), q.comm, Seq::empty(), false);
        assert(p =~= q);
    }
}

proof fn lemma_words(s: Seq<char>, cur: Seq<char>)
    ensures
        are_words(crate::text::words_from(s, cur)),
    decreases s.len(),
{
    if s.len() > 0 {
        lemma_words(s.skip(1), Seq::empty());
        lemma_words(s.skip(1), cur.push(s[0]));
    }
}

proof fn lemma_perms_are_words(line: Seq<char>)
    requires
        crate::avc::is_avc(line),
    ensures
        are_words(crate::avc::denial_of(line)->0.perms),
{
    broadcast use vstd::seq_lib::group_to_multiset_ensures;

    let said = crate::text::words(crate::avc::braced(crate::avc::verdict_of(line)));
    let perms = crate::avc::denial_of(line)->0.perms;
    lemma_words(crate::avc::braced(crate::avc::verdict_of(line)), Seq::empty());
    perms_are_sorted(line);
    assert forall|i: int| 0 <= i < perms.len() implies (#[trigger] perms[i]).len() > 0 by {
        assert(perms.contains(perms[i]));
        assert(said.to_multiset().count(perms[i]) > 0);
        assert(said.contains(perms[i]));
        let k = said.index_of(perms[i]);
        assert(said[k].len() > 0);
    }
}

/// Two records have the same key exactly where they are of the same problem:
/// where the outcome, the permissions, the two contexts, the class and the
/// executable agree.
pub proof fn key_is_the_problem(a: Seq<char>, b: Seq<char>)
    requires
        crate::avc::is_avc(a),
        crate::avc::is_avc(b),
    ensures
        ({
            let p = crate::avc::denial_of(a)->0.problem();
            let q = crate::avc::denial_of(b)->0.problem();
            crate::avc::key_of(p) == crate::avc::key_of(q) <==> p == q
        }),
{
    lemma_perms_are_words(a);
    lemma_perms_are_words(b);
    key_tells_problems_apart(
        crate::avc::denial_of(a)->0.problem(),
        crate::avc::denial_of(b)->0.problem(),
    );
}

/// The permissions of every record are words.
pub open spec fn have_words(records: Seq<DenialView>) -> bool {
    forall|k: int| 0 <= k < records.len() ==> are_words((#[trigger] records[k]).perms)
}

proof fn lemma_records_have_words(lines: Seq<Seq<char>>)
    ensures
        have_words(crate::avc::records_in(lines)),
    decreases lines.len(),
{
    if lines.len() > 0 {
        lemma_records_have_words(lines.drop_last());
        if crate::avc::is_avc(lines.last()) {
            lemma_perms_are_words(lines.last());
        }
    }
}

/// The keys of the groups of a text are pairwise distinct.
pub proof fn group_keys_differ(text: Seq<char>, stamps: Seq<Timestamp>)
    ensures
        ({
            let groups = crate::avc::groups_of(crate::avc::records_of(text), stamps);
            forall|i: int, j: int|
                0 <= i < j < groups.len() ==> (#[trigger] groups[i]).key != (
                #[trigger] groups[j]).key
        }),
{
    let records = crate::avc::records_of(text);
    let groups = crate::avc::groups_of(records, stamps);
    lemma_records_have_words(crate::text::lines_of(text));
    one_group_per_problem(records, stamps);
    groups_show_their_first_record(records, stamps);
    assert forall|i: int, j: int| 0 <= i < j < groups.len() implies (#[trigger] groups[i]).key != (
    #[trigger] groups[j]).key by {
        assert(groups[i].problem() != groups[j].problem());
        let k = choose|k: int| shows_record(records, groups[i], k);
        let l = choose|l: int| shows_record(records, groups[j], l);
        assert(are_words(records[k].perms) && are_words(records[l].perms));
        key_tells_problems_apart(groups[i].problem(), groups[j].problem());
    }
}

/// A record at some place has the key and the path.
pub open spec fn key_has_path(records: Seq<DenialView>, key: Seq<char>, path: Seq<char>) -> bool {
    exists|k: int|
        0 <= k < records.len() && crate::avc::key_of((#[trigger] records[k]).problem()) == key
            && records[k].path == Some(path)
}

/// A record at some place has the key and the process number.
pub open spec fn key_has_pid(records: Seq<DenialView>, key: Seq<char>, pid: u32) -> bool {
    exists|k: int|
        0 <= k < records.len() && crate::avc::key_of((#[trigger] records[k]).problem()) == key
            && records[k].pid == Some(pid)
}

/// The paths and the process numbers of a group are those of the records with its
/// key.
pub open spec fn gathers_by_key(records: Seq<DenialView>, g: GroupView) -> bool {
    &&& forall|path: Seq<char>| #[trigger]
        g.paths.contains(path) <==> key_has_path(records, g.key, path)
    &&& forall|pid: u32| #[trigger] g.pids.contains(pid) <==> key_has_pid(records, g.key, pid)
}

/// The paths and the process numbers of a group are exactly those of the records
/// with its key.
pub proof fn keys_gather_paths_and_pids(text: Seq<char>, stamps: Seq<Timestamp>)
    ensures
        ({
            let records = crate::avc::records_of(text);
            let groups = crate::avc::groups_of(records, stamps);
            forall|i: int| 0 <= i < groups.len() ==> gathers_by_key(records, #[trigger] groups[i])
        }),
{
    let records = crate::avc::records_of(text);
    let groups = crate::avc::groups_of(records, stamps);
    lemma_records_have_words(crate::text::lines_of(text));
    groups_keep_paths_and_pids(records, stamps);
    groups_show_their_first_record(records, stamps);
    assert forall|i: int| 0 <= i < groups.len() implies gathers_by_key(
        records,
        #[trigger] groups[i],
    ) by {
        let g = groups[i];
        let f = choose|k: int| shows_record(records, g, k);
        assert(are_words(records[f].perms));
        assert(keeps_paths_and_pids(records, g));
        assert forall|k: int| 0 <= k < records.len() implies (crate::avc::key_of(
            (#[trigger] records[k]).problem(),
        ) == g.key <==> records[k].problem() == g.problem()) by {
            assert(are_words(records[k].perms));
            key_tells_problems_apart(records[k].problem(), g.problem());
        }
        assert forall|path: Seq<char>| #[trigger]
            g.paths.contains(path) <==> key_has_path(records, g.key, path) by {
            assert(path_seen(records, g.problem(), path) <==> key_has_path(records, g.key, path));
        }
        assert forall|pid: u32| #[trigger]
            g.pids.contains(pid) <==> key_has_pid(records, g.key, pid) by {
            assert(pid_seen(records, g.problem(), pid) <==> key_has_pid(records, g.key, pid));
        }
    }
}

// ---- sizes of groups -----------------------------------------------------

proof fn lemma_with_text_len(s: Seq<Seq<char>>, x: Seq<char>)
    ensures
        crate::order::with_text(s, x).len() <= s.len() + 1,
{
    crate::order::lemma_insert_len(s, x, crate::order::text_order());
}

proof fn lemma_grown_wf(g: GroupView, d: DenialView, t: Timestamp)
    requires
        crate::order::is_text_set(g.paths),
        g.paths.len() <= g.count,
        g.pids.finite(),
        g.pids.len() <= g.count,
        g.key == crate::avc::key_of(g.problem()),
    ensures
        crate::avc::grown(g, d, t).wf(),
{
    match d.path {
        Some(p) => {
            lemma_with_text_len(g.paths, p);
            crate::order::with_text_keeps_set(g.paths, p);
        },
        None => {},
    }
}

/// Every group is well formed: it has at least one record, the key of its problem,
/// its paths in order and each once, and no more paths and process numbers than
/// records.
pub proof fn groups_are_well_formed(records: Seq<DenialView>, stamps: Seq<Timestamp>)
    ensures
        ({
            let groups = crate::avc::groups_of(records, stamps);
            forall|i: int| 0 <= i < groups.len() ==> (#[trigger] groups[i]).wf()
        }),
    decreases records.len(),
{
    if records.len() > 0 {
        let init = crate::avc::groups_of(records.drop_last(), stamps);
        let groups = crate::avc::groups_of(records, stamps);
        let d = records.last();
        let t = crate::avc::stamp_at(stamps, records.len() - 1);
        groups_are_well_formed(records.drop_last(), stamps);
        crate::avc::lemma_group_from(init, d.problem(), 0);
        match crate::avc::group_from(init, d.problem(), 0) {
            Some(k) => {
                assert(init[k].wf());
                lemma_grown_wf(init[k], d, t);
            },
            None => lemma_grown_wf(crate::avc::fresh_group(d, t), d, t),
        }
        assert forall|i: int| 0 <= i < groups.len() implies (#[trigger] groups[i]).wf() by {
            if i < init.len() {
                assert(init[i].wf());
            }
        }
    }
}

// ---- the order of the lines ----------------------------------------------

pub proof fn lemma_records_join(a: Seq<Seq<char>>, b: Seq<Seq<char>>)
    ensures
        crate::avc::records_in(a + b) == crate::avc::records_in(a) + crate::avc::records_in(b),
    decreases b.len(),
{
    let ra = crate::avc::records_in(a);
    if b.len() == 0 {
        assert(a + b =~= a);
        assert(ra + crate::avc::records_in(b) =~= ra);
    } else {
        lemma_records_join(a, b.drop_last());
        assert((a + b).drop_last() =~= a + b.drop_last());
        assert((a + b).last() == b.last());
        match crate::avc::denial_of(b.last()) {
            Some(d) => {
                let init = crate::avc::records_in(b.drop_last());
                assert((ra + init).push(d) =~= ra + init.push(d));
            },
            None => {},
        }
    }
}

/// Taking out the element at place `k` and putting it at the end only reorders.
proof fn lemma_remove<A>(s: Seq<A>, k: int)
    requires
        0 <= k < s.len(),
    ensures
        s == s.take(k) + seq![s[k]] + s.skip(k + 1),
        s.remove(k) == s.take(k) + s.skip(k + 1),
        s.to_multiset() == s.remove(k).to_multiset().insert(s[k]),
{
    broadcast use vstd::seq_lib::group_to_multiset_ensures;

    assert(s =~= s.take(k) + seq![s[k]] + s.skip(k + 1));
    assert(s.remove(k) =~= s.take(k) + s.skip(k + 1));
    assert(s.to_multiset().count(s[k]) > 0) by {
        assert(s.contains(s[k]));
    }
    assert(s.to_multiset() =~= s.remove(k).to_multiset().insert(s[k]));
}

proof fn lemma_last_in_multiset<A>(a: Seq<A>, b: Seq<A>) -> (k: int)
    requires
        a.len() > 0,
        a.to_multiset() == b.to_multiset(),
    ensures
        0 <= k < b.len(),
        b[k] == a.last(),
        a.drop_last().to_multiset() == b.remove(k).to_multiset(),
{
    broadcast use vstd::seq_lib::group_to_multiset_ensures;

    assert(a.contains(a.last()));
    assert(b.to_multiset().count(a.last()) > 0);
    assert(b.contains(a.last()));
    let k = b.index_of(a.last());
    lemma_remove(b, k);
    lemma_remove(a, a.len() - 1);
    assert(a.remove(a.len() - 1) =~= a.drop_last());
    assert(a.drop_last().to_multiset() =~= b.remove(k).to_multiset());
    k
}

proof fn lemma_records_reordered(a: Seq<Seq<char>>, b: Seq<Seq<char>>)
    requires
        a.to_multiset() == b.to_multiset(),
    ensures
        crate::avc::records_in(a).to_multiset() == crate::avc::records_in(b).to_multiset(),
    decreases a.len(),
{
    broadcast use vstd::seq_lib::group_to_multiset_ensures;

    assert(a.to_multiset().len() == a.len() && b.to_multiset().len() == b.len());
    if a.len() == 0 {
        assert(a =~= b);
    } else {
        let k = lemma_last_in_multiset(a, b);
        lemma_records_reordered(a.drop_last(), b.remove(k));
        lemma_remove(b, k);
        let (x, y) = (b.take(k), b.skip(k + 1));
        let (rx, ry) = (crate::avc::records_in(x), crate::avc::records_in(y));
        let one = crate::avc::records_in(seq![b[k]]);
        lemma_records_join(x, y);
        lemma_records_join(x, seq![b[k]]);
        lemma_records_join(x + seq![b[k]], y);
        reveal_with_fuel(crate::avc::records_in, 2);
        assert(seq![b[k]].drop_last() =~= Seq::<Seq<char>>::empty());
        match crate::avc::denial_of(b[k]) {
            Some(d) => {
                assert(one =~= seq![d]);
                let all = rx + seq![d] + ry;
                lemma_remove(all, rx.len() as int);
                assert(all.remove(rx.len() as int) =~= rx + ry);
                let init = crate::avc::records_in(a.drop_last());
                assert(init.push(d).to_multiset() =~= init.to_multiset().insert(d));
            },
            None => {
                assert(one =~= Seq::<DenialView>::empty());
                assert(rx + one + ry =~= rx + ry);
            },
        }
    }
}

proof fn lemma_occurrences_join(a: Seq<DenialView>, b: Seq<DenialView>, p: Problem)
    ensures
        occurrences(a + b, p) == occurrences(a, p) + occurrences(b, p),
    decreases b.len(),
{
    if b.len() == 0 {
        assert(a + b =~= a);
    } else {
        assert((a + b).drop_last() =~= a + b.drop_last());
        lemma_occurrences_join(a, b.drop_last(), p);
    }
}

proof fn lemma_occurrences_reordered(a: Seq<DenialView>, b: Seq<DenialView>, p: Problem)
    requires
        a.to_multiset() == b.to_multiset(),
    ensures
        occurrences(a, p) == occurrences(b, p),
    decreases a.len(),
{
    broadcast use vstd::seq_lib::group_to_multiset_ensures;

    assert(a.to_multiset().len() == a.len() && b.to_multiset().len() == b.len());
    if a.len() == 0 {
    } else {
        let k = lemma_last_in_multiset(a, b);
        lemma_occurrences_reordered(a.drop_last(), b.remove(k), p);
        lemma_remove(b, k);
        let (x, y) = (b.take(k), b.skip(k + 1));
        let one = seq![b[k]];
        lemma_occurrences_join(x, y, p);
        lemma_occurrences_join(x, one, p);
        lemma_occurrences_join(x + one, y, p);
        reveal_with_fuel(occurrences, 2);
        assert(one.drop_last() =~= Seq::<DenialView>::empty());
    }
}

proof fn lemma_place_reordered(a: Seq<DenialView>, b: Seq<DenialView>, k: int) -> (l: int)
    requires
        a.to_multiset() == b.to_multiset(),
        0 <= k < a.len(),
    ensures
        0 <= l < b.len(),
        b[l] == a[k],
{
    broadcast use vstd::seq_lib::group_to_multiset_ensures;

    assert(a.contains(a[k]));
    assert(b.to_multiset().count(a[k]) > 0);
    assert(b.contains(a[k]));
    b.index_of(a[k])
}

proof fn lemma_text_sets_equal(a: Seq<Seq<char>>, b: Seq<Seq<char>>)
    requires
        crate::order::is_text_set(a),
        crate::order::is_text_set(b),
        forall|t: Seq<char>| #[trigger] a.contains(t) <==> b.contains(t),
    ensures
        a == b,
    decreases a.len(),
{
    if a.len() == 0 {
        if b.len() > 0 {
            assert(b.contains(b[0]));
            assert(a.contains(b[0]));
        }
        assert(a =~= b);
    } else {
        assert(a.contains(a[0]));
        assert(b.contains(a[0]));
        assert(b.contains(b[0]));
        assert(a.contains(b[0]));
        let i = a.index_of(b[0]);
        let j = b.index_of(a[0]);
        crate::order::lemma_text_order();
        let p = crate::order::text_order();
        if i > 0 && j > 0 {
            assert(crate::order::text_less(a[0], a[i]));
            assert(crate::order::text_less(b[0], b[j]));
            assert(p(a[0], b[0]) && p(b[0], a[0]));
        }
        assert(a[0] == b[0]);
        let (x, y) = (a.skip(1), b.skip(1));
        assert forall|t: Seq<char>| #[trigger] x.contains(t) <==> y.contains(t) by {
            lemma_set_rest(a, t);
            lemma_set_rest(b, t);
            assert(a.contains(t) <==> b.contains(t));
        }
        assert forall|m: int, n: int| 0 <= m < n < x.len() implies crate::order::text_less(
            #[trigger] x[m],
            #[trigger] x[n],
        ) by {
            assert(crate::order::text_less(a[m + 1], a[n + 1]));
        }
        assert forall|m: int, n: int| 0 <= m < n < y.len() implies crate::order::text_less(
            #[trigger] y[m],
            #[trigger] y[n],
        ) by {
            assert(crate::order::text_less(b[m + 1], b[n + 1]));
        }
        lemma_text_sets_equal(x, y);
        assert(a =~= seq![a[0]] + x);
        assert(b =~= seq![b[0]] + y);
    }
}

proof fn lemma_set_rest(a: Seq<Seq<char>>, t: Seq<char>)
    requires
        a.len() > 0,
        crate::order::is_text_set(a),
    ensures
        a.skip(1).contains(t) <==> a.contains(t) && t != a[0],
{
    let x = a.skip(1);
    if x.contains(t) {
        let k = x.index_of(t);
        assert(a[k + 1] == t);
        assert(crate::order::text_less(a[0], a[k + 1]));
        crate::order::lemma_text_order();
        let p = crate::order::text_order();
        if t == a[0] {
            assert(p(t, t));
        }
    }
    if a.contains(t) && t != a[0] {
        let k = a.index_of(t);
        assert(x[k - 1] == t);
    }
}

proof fn lemma_contexts_spelled(lines: Seq<Seq<char>>)
    ensures
        forall|k: int|
            0 <= k < crate::avc::records_in(lines).len() ==> {
                let d = #[trigger] crate::avc::records_in(lines)[k];
                &&& d.scontext == crate::avc::context_of(d.scontext.raw)
                &&& d.tcontext == crate::avc::context_of(d.tcontext.raw)
            },
    decreases lines.len(),
{
    if lines.len() > 0 {
        lemma_contexts_spelled(lines.drop_last());
    }
}

/// Two groups that agree in all but what their records' order decides: the times,
/// and the record that is shown with its permissive mode.
pub open spec fn same_but_for_order(g: GroupView, h: GroupView) -> bool {
    g == GroupView {
        first_ts: g.first_ts,
        last_ts: g.last_ts,
        permissive: g.permissive,
        sample_raw: g.sample_raw,
        ..h
    }
}

/// The group of the same problem in the groups of other records.
pub open spec fn counterpart(groups: Seq<GroupView>, g: GroupView) -> GroupView {
    groups[crate::avc::group_from(groups, g.problem(), 0)->0]
}

/// The order of the lines changes neither the total nor the groups: each group has
/// its counterpart, with the same key, count, paths and process numbers.
pub proof fn order_of_lines_does_not_matter(
    a: Seq<Seq<char>>,
    b: Seq<Seq<char>>,
    at: Seq<Timestamp>,
    bt: Seq<Timestamp>,
)
    requires
        a.to_multiset() == b.to_multiset(),
    ensures
        ({
            let (ra, rb) = (crate::avc::records_in(a), crate::avc::records_in(b));
            let (ga, gb) = (crate::avc::groups_of(ra, at), crate::avc::groups_of(rb, bt));
            &&& ra.len() == rb.len()
            &&& ga.len() == gb.len()
            &&& forall|i: int|
                0 <= i < ga.len() ==> gb.contains(counterpart(gb, #[trigger] ga[i]))
                    && same_but_for_order(ga[i], counterpart(gb, ga[i]))
        }),
{
    broadcast use vstd::seq_lib::group_to_multiset_ensures;

    let (ra, rb) = (crate::avc::records_in(a), crate::avc::records_in(b));
    let (ga, gb) = (crate::avc::groups_of(ra, at), crate::avc::groups_of(rb, bt));
    lemma_records_reordered(a, b);
    assert(ra.to_multiset().len() == ra.len() && rb.to_multiset().len() == rb.len());
    assert forall|i: int| 0 <= i < ga.len() implies gb.contains(counterpart(gb, #[trigger] ga[i]))
        && same_but_for_order(ga[i], counterpart(gb, ga[i])) by {
        lemma_counterpart(a, b, at, bt, i);
    }
    assert forall|i: int| 0 <= i < gb.len() implies ga.contains(counterpart(ga, #[trigger] gb[i]))
        && same_but_for_order(gb[i], counterpart(ga, gb[i])) by {
        lemma_counterpart(b, a, bt, at, i);
    }
    one_group_per_problem(ra, at);
    one_group_per_problem(rb, bt);
    let pa = ga.map_values(|g: GroupView| g.problem());
    let pb = gb.map_values(|g: GroupView| g.problem());
    assert forall|p: Problem| pa.contains(p) implies pb.contains(p) by {
        let i = pa.index_of(p);
        let h = counterpart(gb, ga[i]);
        assert(same_but_for_order(ga[i], h));
        let j = gb.index_of(h);
        assert(pb[j] == p);
    }
    assert forall|p: Problem| pb.contains(p) implies pa.contains(p) by {
        let i = pb.index_of(p);
        let h = counterpart(ga, gb[i]);
        assert(same_but_for_order(gb[i], h));
        let j = ga.index_of(h);
        assert(pa[j] == p);
    }
    assert(pa.to_set() =~= pb.to_set());
    assert(pa.no_duplicates());
    assert(pb.no_duplicates());
    pa.unique_seq_to_set();
    pb.unique_seq_to_set();
}

proof fn lemma_counterpart(
    a: Seq<Seq<char>>,
    b: Seq<Seq<char>>,
    at: Seq<Timestamp>,
    bt: Seq<Timestamp>,
    i: int,
)
    requires
        a.to_multiset() == b.to_multiset(),
        0 <= i < crate::avc::groups_of(crate::avc::records_in(a), at).len(),
    ensures
        ({
            let g = crate::avc::groups_of(crate::avc::records_in(a), at)[i];
            let gb = crate::avc::groups_of(crate::avc::records_in(b), bt);
            let h = counterpart(gb, g);
            &&& gb.contains(h)
            &&& same_but_for_order(g, h)
        }),
{
    let (ra, rb) = (crate::avc::records_in(a), crate::avc::records_in(b));
    let (ga, gb) = (crate::avc::groups_of(ra, at), crate::avc::groups_of(rb, bt));
    let g = ga[i];
    let p = g.problem();
    lemma_records_reordered(a, b);
    groups_show_their_first_record(ra, at);
    groups_show_their_first_record(rb, bt);
    let k = choose|k: int| shows_record(ra, g, k);
    let l = lemma_place_reordered(ra, rb, k);
    every_record_has_a_group(rb, bt);
    assert(rb[l].problem() == p);
    crate::avc::lemma_group_from(gb, p, 0);
    let j = crate::avc::group_from(gb, p, 0)->0;
    let h = gb[j];
    assert(gb.contains(h));
    let m = choose|m: int| shows_record(rb, h, m);
    lemma_contexts_spelled(a);
    lemma_contexts_spelled(b);
    assert(ra[k].scontext == rb[m].scontext && ra[k].tcontext == rb[m].tcontext);
    count_is_occurrences(ra, at);
    count_is_occurrences(rb, bt);
    lemma_occurrences_reordered(ra, rb, p);
    groups_keep_paths_and_pids(ra, at);
    groups_keep_paths_and_pids(rb, bt);
    assert(keeps_paths_and_pids(ra, g) && keeps_paths_and_pids(rb, h));
    assert forall|path: Seq<char>| #[trigger] g.paths.contains(path) <==> h.paths.contains(path) by {
        lemma_path_reordered(ra, rb, p, path);
        lemma_path_reordered(rb, ra, p, path);
    }
    lemma_text_sets_equal(g.paths, h.paths);
    assert forall|pid: u32| #[trigger] g.pids.contains(pid) <==> h.pids.contains(pid) by {
        lemma_pid_reordered(ra, rb, p, pid);
        lemma_pid_reordered(rb, ra, p, pid);
    }
    assert(g.pids =~= h.pids);
}

proof fn lemma_path_reordered(
    a: Seq<DenialView>,
    b: Seq<DenialView>,
    p: Problem,
    path: Seq<char>,
)
    requires
        a.to_multiset() == b.to_multiset(),
    ensures
        path_seen(a, p, path) ==> path_seen(b, p, path),
{
    if path_seen(a, p, path) {
        let k = choose|k: int|
            0 <= k < a.len() && (#[trigger] a[k]).problem() == p && a[k].path == Some(path);
        let l = lemma_place_reordered(a, b, k);
        assert(b[l].problem() == p);
    }
}

proof fn lemma_pid_reordered(a: Seq<DenialView>, b: Seq<DenialView>, p: Problem, pid: u32)
    requires
        a.to_multiset() == b.to_multiset(),
    ensures
        pid_seen(a, p, pid) ==> pid_seen(b, p, pid),
{
    if pid_seen(a, p, pid) {
        let k = choose|k: int|
            0 <= k < a.len() && (#[trigger] a[k]).problem() == p && a[k].pid == Some(pid);
        let l = lemma_place_reordered(a, b, k);
        assert(b[l].problem() == p);
    }
}

/// The stamps are the times that the texts of the records stand for, none of them
/// before the epoch.
pub open spec fn stamps_read(
    records: Seq<DenialView>,
    stamps: Seq<Timestamp>,
    number: spec_fn(Seq<char>) -> Timestamp,
) -> bool {
    &&& stamps.len() == records.len()
    &&& forall|k: int|
        0 <= k < records.len() ==> #[trigger] stamps[k] == number(records[k].timestamp)
            && !stamps[k].is_nan() && stamps[k].rank() >= 0
}

proof fn lemma_times_reordered(
    ra: Seq<DenialView>,
    rb: Seq<DenialView>,
    at: Seq<Timestamp>,
    bt: Seq<Timestamp>,
    number: spec_fn(Seq<char>) -> Timestamp,
    g: GroupView,
    h: GroupView,
)
    requires
        ra.to_multiset() == rb.to_multiset(),
        stamps_read(ra, at, number),
        stamps_read(rb, bt, number),
        g.problem() == h.problem(),
        bounds_times(ra, at, g),
        bounds_times(rb, bt, h),
    ensures
        g.first_ts.positive() ==> h.first_ts.positive() && h.first_ts.rank() <= g.first_ts.rank(),
        g.last_ts.positive() ==> h.last_ts.positive() && g.last_ts.rank() <= h.last_ts.rank(),
        g.first_ts.rank() >= 0,
        g.last_ts.rank() >= 0,
        !g.first_ts.is_nan(),
        !g.last_ts.is_nan(),
{
    let p = g.problem();
    let k = choose|k: int|
        0 <= k < ra.len() && (#[trigger] ra[k]).problem() == p && crate::avc::stamp_at(at, k)
            == g.first_ts;
    let l = lemma_place_reordered(ra, rb, k);
    assert(at[k] == bt[l]);
    assert(rb[l].problem() == p);
    let m = choose|m: int|
        0 <= m < ra.len() && (#[trigger] ra[m]).problem() == p && crate::avc::stamp_at(at, m)
            == g.last_ts;
    let n = lemma_place_reordered(ra, rb, m);
    assert(at[m] == bt[n]);
    assert(rb[n].problem() == p);
    let q = choose|q: int|
        0 <= q < rb.len() && (#[trigger] rb[q]).problem() == p && crate::avc::stamp_at(bt, q)
            == h.last_ts;
    assert(!bt[q].is_nan());
}

/// The order of the lines changes no first and no last time either, where every
/// time is a number and none lies before the epoch.
pub proof fn order_of_lines_leaves_times(
    a: Seq<Seq<char>>,
    b: Seq<Seq<char>>,
    at: Seq<Timestamp>,
    bt: Seq<Timestamp>,
    number: spec_fn(Seq<char>) -> Timestamp,
)
    requires
        a.to_multiset() == b.to_multiset(),
        stamps_read(crate::avc::records_in(a), at, number),
        stamps_read(crate::avc::records_in(b), bt, number),
    ensures
        ({
            let ga = crate::avc::groups_of(crate::avc::records_in(a), at);
            let gb = crate::avc::groups_of(crate::avc::records_in(b), bt);
            forall|i: int|
                0 <= i < ga.len() ==> {
                    let h = counterpart(gb, #[trigger] ga[i]);
                    &&& ga[i].first_ts.rank() == h.first_ts.rank()
                    &&& ga[i].last_ts.rank() == h.last_ts.rank()
                }
        }),
{
    let (ra, rb) = (crate::avc::records_in(a), crate::avc::records_in(b));
    let (ga, gb) = (crate::avc::groups_of(ra, at), crate::avc::groups_of(rb, bt));
    lemma_records_reordered(a, b);
    order_of_lines_does_not_matter(a, b, at, bt);
    first_and_last_bound_the_times(ra, at);
    first_and_last_bound_the_times(rb, bt);
    assert forall|i: int| 0 <= i < ga.len() implies {
        let h = counterpart(gb, #[trigger] ga[i]);
        &&& ga[i].first_ts.rank() == h.first_ts.rank()
        &&& ga[i].last_ts.rank() == h.last_ts.rank()
    } by {
        let g = ga[i];
        let h = counterpart(gb, g);
        assert(gb.contains(h) && same_but_for_order(g, h));
        let j = gb.index_of(h);
        assert(bounds_times(ra, at, g) && bounds_times(rb, bt, gb[j]));
        lemma_times_reordered(ra, rb, at, bt, number, g, h);
        lemma_times_reordered(rb, ra, bt, at, number, h, g);
    }
}

} // verus!
