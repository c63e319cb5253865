//! What holds of the record that a line gives.
use vstd::prelude::*;
use crate::avc::DenialView;

verus! {

// ---- fields --------------------------------------------------------------

/// A field under a key: the key, an equals sign, and anything.
pub open spec fn names(field: Seq<char>, key: Seq<char>) -> bool {
    &&& field.len() > key.len()
    &&& field.take(key.len() as int) == key
    &&& field[key.len() as int] == '='
}

/// No field is under the key.
pub open spec fn lacks(fields: Seq<Seq<char>>, key: Seq<char>) -> bool {
    forall|k: int| 0 <= k < fields.len() ==> !names(#[trigger] fields[k], key)
}

/// The field at place `k` is the last one under the key, and gives the value.
pub open spec fn gives_at(fields: Seq<Seq<char>>, key: Seq<char>, value: Seq<char>, k: int) -> bool {
    &&& 0 <= k < fields.len()
    &&& fields[k] == key + seq!['='] + value
    &&& forall|j: int| k < j < fields.len() ==> !names(#[trigger] fields[j], key)
}

/// The fields give the value under the key.
pub open spec fn gives(fields: Seq<Seq<char>>, key: Seq<char>, value: Seq<char>) -> bool {
    exists|k: int| gives_at(fields, key, value, k)
}

proof fn lemma_names(field: Seq<char>, key: Seq<char>)
    requires
        !key.contains('='),
    ensures
        names(field, key) <==> crate::text::find_char(field, '=') is Some && crate::text::before(
            field,
            '=',
        ) == key,
        names(field, key) ==> field == key + seq!['='] + crate::text::after(field, '='),
{
    crate::text::lemma_find_char(field, '=');
    let n = key.len() as int;
    if names(field, key) {
        let rest = field.skip(n + 1);
        assert(field =~= key + seq!['='] + rest);
        crate::text_laws::cutting_undoes_joining(key, '=', rest);
    }
    if crate::text::find_char(field, '=') is Some && crate::text::before(field, '=') == key {
        let i = crate::text::find_char(field, '=')->0;
        assert(field.take(i).len() == i);
    }
}

/// The value under a key is what the last field of that key gives; there is none
/// exactly where no field has the key.
pub proof fn values_are_those_of_the_last_field(
    fields: Seq<Seq<char>>,
    key: Seq<char>,
    value: Seq<char>,
)
    requires
        !key.contains('='),
    ensures
        crate::avc::value_of(fields, key) == Some(value) <==> gives(fields, key, value),
        crate::avc::value_of(fields, key) is None <==> lacks(fields, key),
    decreases fields.len(),
{
    if fields.len() == 0 {
    } else {
        let f = fields.last();
        let init = fields.drop_last();
        let n = fields.len() - 1;
        lemma_names(f, key);
        values_are_those_of_the_last_field(init, key, value);
        assert forall|k: int| 0 <= k < init.len() implies init[k] == fields[k] by {}
        if names(f, key) {
            let v = crate::text::after(f, '=');
            assert(fields[n] == f);
            if v == value {
                assert(gives_at(fields, key, value, n));
            }
            if gives(fields, key, value) {
                let k = choose|k: int| gives_at(fields, key, value, k);
                assert(k == n);
                crate::text_laws::cutting_undoes_joining(key, '=', value);
            }
        } else {
            if gives(init, key, value) {
                let k = choose|k: int| gives_at(init, key, value, k);
                assert forall|j: int| k < j < fields.len() implies !names(
                    #[trigger] fields[j],
                    key,
                ) by {
                    if j < n {
                        assert(!names(init[j], key));
                    }
                }
                assert(gives_at(fields, key, value, k));
            }
            if gives(fields, key, value) {
                let k = choose|k: int| gives_at(fields, key, value, k);
                if k == n {
                    let g = key + seq!['='] + value;
                    assert(g.take(key.len() as int) =~= key);
                    assert(names(f, key));
                }
                assert forall|j: int| k < j < init.len() implies !names(
                    #[trigger] init[j],
                    key,
                ) by {
                    assert(!names(fields[j], key));
                }
                assert(gives_at(init, key, value, k));
            }
            if lacks(init, key) {
                assert forall|k: int| 0 <= k < fields.len() implies !names(
                    #[trigger] fields[k],
                    key,
                ) by {
                    if k < n {
                        assert(!names(init[k], key));
                    }
                }
            }
            if lacks(fields, key) {
                assert forall|k: int| 0 <= k < init.len() implies !names(
                    #[trigger] init[k],
                    key,
                ) by {
                    assert(!names(fields[k], key));
                }
            }
        }
        if names(f, key) && lacks(fields, key) {
            assert(!names(fields[n], key));
        }
    }
}

/// White space stands in `s` only inside double quotes.
pub open spec fn is_token(s: Seq<char>, quoted: bool) -> bool {
    forall|i: int|
        0 <= i < s.len() && crate::text::is_space(#[trigger] s[i]) ==> crate::avc::ends_quoted(
            s.take(i),
            quoted,
        )
}

/// `s` without its double quotes.
pub open spec fn unquoted(s: Seq<char>) -> Seq<char>
    decreases s.len(),
{
    if s.len() == 0 {
        Seq::empty()
    } else if s.last() == '"' {
        unquoted(s.drop_last())
    } else {
        unquoted(s.drop_last()).push(s.last())
    }
}

proof fn lemma_unquoted_front(s: Seq<char>)
    requires
        s.len() > 0,
    ensures
        unquoted(s) == (if s[0] == '"' {
            Seq::empty()
        } else {
            seq![s[0]]
        }) + unquoted(s.skip(1)),
    decreases s.len(),
{
    reveal_with_fuel(unquoted, 2);
    if s.len() == 1 {
        assert(s.skip(1) =~= Seq::<char>::empty());
        assert(s.drop_last() =~= Seq::<char>::empty());
    } else {
        lemma_unquoted_front(s.drop_last());
        assert(s.drop_last().skip(1) =~= s.skip(1).drop_last());
        let head = if s[0] == '"' {
            Seq::empty()
        } else {
            seq![s[0]]
        };
        let mid = unquoted(s.skip(1).drop_last());
        assert((head + mid).push(s.last()) =~= head + mid.push(s.last()));
    }
}

proof fn lemma_token(s: Seq<char>, quoted: bool, cur: Seq<char>)
    requires
        is_token(s, quoted),
    ensures
        crate::avc::fields_from(s, quoted, cur) == crate::text::unless_empty(cur + unquoted(s)),
    decreases s.len(),
{
    if s.len() == 0 {
        assert(cur + unquoted(s) =~= cur);
    } else {
        let rest = s.skip(1);
        let q = if s[0] == '"' {
            !quoted
        } else {
            quoted
        };
        lemma_unquoted_front(s);
        assert forall|i: int| 0 <= i < rest.len() && crate::text::is_space(
            #[trigger] rest[i],
        ) implies crate::avc::ends_quoted(rest.take(i), q) by {
            assert(crate::text::is_space(s[i + 1]));
            assert(s.take(i + 1)[0] == s[0]);
            assert(s.take(i + 1).skip(1) =~= rest.take(i));
        }
        if s[0] == '"' {
            lemma_token(rest, q, cur);
            assert(cur + unquoted(s) =~= cur + unquoted(rest));
        } else {
            if crate::text::is_space(s[0]) {
                assert(s.take(0) =~= Seq::<char>::empty());
            }
            lemma_token(rest, q, cur.push(s[0]));
            assert(cur.push(s[0]) + unquoted(rest) =~= cur + unquoted(s));
        }
    }
}

/// A text with white space only inside double quotes is one field: the text
/// without its quotes. Nothing at all is no field.
pub proof fn a_token_is_one_field(s: Seq<char>)
    requires
        is_token(s, false),
    ensures
        crate::avc::fields_of(s) == (if unquoted(s).len() == 0 {
            Seq::<Seq<char>>::empty()
        } else {
            seq![unquoted(s)]
        }),
{
    lemma_token(s, false, Seq::empty());
    assert(Seq::<char>::empty() + unquoted(s) =~= unquoted(s));
}

// ---- nested messages -----------------------------------------------------

/// A single quote in `s` stands before a character that is no white space, or inside
/// double quotes: it does not end a field.
pub open spec fn ends_no_field(s: Seq<char>) -> bool {
    forall|j: int|
        0 <= j < s.len() && #[trigger] s[j] == '\'' ==> (j + 1 < s.len() && !crate::text::is_space(
            s[j + 1],
        )) || crate::avc::ends_quoted(s.take(j), false)
}

/// Where `msg='` stands in `s`, it is inside a word or inside double quotes.
pub open spec fn nests_nothing(s: Seq<char>) -> bool {
    forall|i: int| #[trigger]
        crate::text::occurs_at(s, "msg='"@, i) ==> (i > 0 && !crate::text::is_space(s[i - 1]))
            || crate::avc::ends_quoted(s.take(i), false)
}

/// The fields of a line with a message in single quotes are those of the line
/// without `msg='` and without the quote that ends the message. A line without such
/// a message keeps its fields.
pub proof fn a_nested_message_is_part_of_its_line(
    left: Seq<char>,
    body: Seq<char>,
    tail: Seq<char>,
)
    requires
        left.len() == 0 || crate::text::is_space(left.last()),
        !crate::avc::ends_quoted(left, false),
        nests_nothing(left),
        !crate::avc::ends_quoted(body, false),
        tail.len() == 0 || crate::text::is_space(tail[0]),
        ends_no_field(tail),
    ensures
        crate::avc::message_of(left + "msg='"@ + body + seq!['\''] + tail) == left + body + tail,
        crate::avc::message_of(left) == left,
{
    assert forall|i: int| !crate::avc::opens_at(left, i) by {
        if crate::avc::opens_at(left, i) {
            assert(crate::text::occurs_at(left, "msg='"@, i));
        }
    }
    assert forall|j: int| !crate::avc::closes_at(tail, j) by {
        if crate::avc::closes_at(tail, j) {
            assert(tail[j] == '\'');
        }
    }
    crate::laws::nested_pairs_are_read(left, body, tail, Seq::empty());
    crate::laws::other_lines_are_read_as_they_are(left);
}

// ---- the fields of a record ----------------------------------------------

/// `text` is what the fields give under the key, or empty where they give nothing.
pub open spec fn text_under(fields: Seq<Seq<char>>, key: Seq<char>, text: Seq<char>) -> bool {
    gives(fields, key, text) || (lacks(fields, key) && text.len() == 0)
}

/// `o` is what the fields give under the key, if anything.
pub open spec fn option_under(fields: Seq<Seq<char>>, key: Seq<char>, o: Option<Seq<char>>) -> bool {
    match o {
        Some(v) => gives(fields, key, v),
        None => lacks(fields, key),
    }
}

proof fn lemma_text_under(fields: Seq<Seq<char>>, key: Seq<char>)
    requires
        !key.contains('='),
    ensures
        text_under(fields, key, crate::avc::or_empty(crate::avc::value_of(fields, key))),
        option_under(fields, key, crate::avc::value_of(fields, key)),
{
    let v = crate::avc::or_empty(crate::avc::value_of(fields, key));
    values_are_those_of_the_last_field(fields, key, v);
}

proof fn lemma_keys()
    ensures
        !"scontext"@.contains('=') && !"tcontext"@.contains('=') && !"tclass"@.contains('='),
        !"comm"@.contains('=') && !"name"@.contains('=') && !"path"@.contains('='),
        !"pid"@.contains('=') && !"dev"@.contains('=') && !"ino"@.contains('='),
        !"permissive"@.contains('='),
{
    reveal_strlit("scontext");
    reveal_strlit("tcontext");
    reveal_strlit("tclass");
    reveal_strlit("comm");
    reveal_strlit("name");
    reveal_strlit("path");
    reveal_strlit("pid");
    reveal_strlit("dev");
    reveal_strlit("ino");
    reveal_strlit("permissive");
}

/// Exactly the lines that hold `avc:` give a record.
pub proof fn records_are_the_lines_with_the_mark(line: Seq<char>)
    ensures
        crate::avc::denial_of(line) is Some <==> crate::text::has(line, "avc:"@),
{
}

/// The path of a record is the value under `path`, else the one under `name`; it has
/// none exactly where the line has neither, whatever other fields there are.
pub proof fn the_path_is_the_path_or_the_name(line: Seq<char>)
    requires
        crate::text::has(line, "avc:"@),
    ensures
        ({
            let fields = crate::avc::fields_of(crate::avc::message_of(line));
            let path = crate::avc::denial_of(line)->0.path;
            &&& path is None <==> lacks(fields, "path"@) && lacks(fields, "name"@)
            &&& forall|p: Seq<char>| gives(fields, "path"@, p) ==> path == Some(p)
            &&& forall|p: Seq<char>|
                lacks(fields, "path"@) && gives(fields, "name"@, p) ==> path == Some(p)
        }),
{
    let fields = crate::avc::fields_of(crate::avc::message_of(line));
    lemma_keys();
    values_are_those_of_the_last_field(fields, "path"@, Seq::empty());
    values_are_those_of_the_last_field(fields, "name"@, Seq::empty());
    assert forall|p: Seq<char>| gives(fields, "path"@, p) implies crate::avc::denial_of(
        line,
    )->0.path == Some(p) by {
        values_are_those_of_the_last_field(fields, "path"@, p);
    }
    assert forall|p: Seq<char>|
        lacks(fields, "path"@) && gives(fields, "name"@, p) implies crate::avc::denial_of(
        line,
    )->0.path == Some(p) by {
        values_are_those_of_the_last_field(fields, "name"@, p);
    }
}

/// The contexts, the class, the executable, the device and the inode of a record
/// are what its line gives under their keys.
pub proof fn texts_are_read_under_their_keys(line: Seq<char>)
    requires
        crate::text::has(line, "avc:"@),
    ensures
        ({
            let fields = crate::avc::fields_of(crate::avc::message_of(line));
            let d = crate::avc::denial_of(line)->0;
            &&& text_under(fields, "scontext"@, d.scontext.raw)
            &&& text_under(fields, "tcontext"@, d.tcontext.raw)
            &&& text_under(fields, "tclass"@, d.tclass)
            &&& text_under(fields, "comm"@, d.comm)
            &&& option_under(fields, "dev"@, d.dev)
            &&& option_under(fields, "ino"@, d.ino)
            &&& d.scontext == crate::avc::context_of(d.scontext.raw)
            &&& d.tcontext == crate::avc::context_of(d.tcontext.raw)
        }),
{
    let fields = crate::avc::fields_of(crate::avc::message_of(line));
    lemma_keys();
    lemma_text_under(fields, "scontext"@);
    lemma_text_under(fields, "tcontext"@);
    lemma_text_under(fields, "tclass"@);
    lemma_text_under(fields, "comm"@);
    lemma_text_under(fields, "dev"@);
    lemma_text_under(fields, "ino"@);
}

/// A record is permissive where its line gives a one under that key, not permissive
/// where it gives anything else, and neither where it gives nothing. Its process
/// number is the number that the line gives, if that is one of 32 bits.
pub proof fn numbers_are_read_under_their_keys(line: Seq<char>)
    requires
        crate::text::has(line, "avc:"@),
    ensures
        ({
            let fields = crate::avc::fields_of(crate::avc::message_of(line));
            let d = crate::avc::denial_of(line)->0;
            &&& d.permissive is None <==> lacks(fields, "permissive"@)
            &&& d.permissive == Some(true) <==> gives(fields, "permissive"@, seq!['1'])
            &&& lacks(fields, "pid"@) ==> d.pid is None
            &&& forall|v: Seq<char>|
                gives(fields, "pid"@, v) ==> match crate::number::parsed(v, 0xffff_ffff) {
                    Some(n) => d.pid == Some(n as u32),
                    None => d.pid is None,
                }
        }),
{
    let fields = crate::avc::fields_of(crate::avc::message_of(line));
    let d = crate::avc::denial_of(line)->0;
    lemma_keys();
    reveal_strlit("1");
    assert("1"@ =~= seq!['1']);
    values_are_those_of_the_last_field(fields, "permissive"@, seq!['1']);
    values_are_those_of_the_last_field(fields, "pid"@, Seq::empty());
    assert forall|v: Seq<char>| gives(fields, "pid"@, v) implies match crate::number::parsed(
        v,
        0xffff_ffff,
    ) {
        Some(n) => d.pid == Some(n as u32),
        None => d.pid is None,
    } by {
        values_are_those_of_the_last_field(fields, "pid"@, v);
    }
}

/// The raw text of a record is its line without the white space at the ends.
pub proof fn the_raw_text_is_the_line(line: Seq<char>)
    requires
        crate::text::has(line, "avc:"@),
    ensures
        ({
            let raw = crate::avc::denial_of(line)->0.raw;
            &&& raw.len() > 0
            &&& !crate::text::is_space(raw[0])
            &&& !crate::text::is_space(raw.last())
            &&& exists|a: Seq<char>, b: Seq<char>|
                line == #[trigger] (a + raw + b) && crate::laws::is_blank(a)
                    && crate::laws::is_blank(b)
        }),
{
    reveal_strlit("avc:");
    crate::text_laws::trimming_takes_the_white_space_at_the_ends(line);
    let raw = crate::text::trimmed(line);
    let (a, b) = choose|a: Seq<char>, b: Seq<char>|
        line == #[trigger] (a + raw + b) && crate::laws::is_blank(a) && crate::laws::is_blank(b);
    let i = choose|i: int| crate::text::occurs_at(line, "avc:"@, i);
    assert(line.subrange(i, i + 4)[0] == line[i]);
    assert(!crate::text::is_space(line[i]));
    if raw.len() == 0 {
        if i < a.len() {
            assert(crate::text::is_space(a[i]));
        } else {
            assert(crate::text::is_space(b[i - a.len()]));
        }
    }
}

// ---- contexts ------------------------------------------------------------

/// A context that is written from its parts gives them back, and parts that are
/// missing at the end are empty.
pub proof fn contexts_are_read_back(
    user: Seq<char>,
    role: Seq<char>,
    ty: Seq<char>,
    level: Seq<char>,
)
    requires
        !user.contains(':'),
        !role.contains(':'),
        !ty.contains(':'),
    ensures
        ({
            let colon = seq![':'];
            let none = Seq::<char>::empty();
            let whole = user + colon + (role + colon + (ty + colon + level));
            let three = user + colon + (role + colon + ty);
            let two = user + colon + role;
            &&& crate::avc::context_of(whole) == crate::avc::ContextView {
                user,
                role,
                ty,
                level,
                raw: whole,
            }
            &&& crate::avc::context_of(three) == crate::avc::ContextView {
                user,
                role,
                ty,
                level: none,
                raw: three,
            }
            &&& crate::avc::context_of(two) == crate::avc::ContextView {
                user,
                role,
                ty: none,
                level: none,
                raw: two,
            }
            &&& crate::avc::context_of(user) == crate::avc::ContextView {
                user,
                role: none,
                ty: none,
                level: none,
                raw: user,
            }
        }),
{
    let colon = seq![':'];
    let none = Seq::<char>::empty();
    crate::text_laws::cutting_undoes_joining(user, ':', role + colon + (ty + colon + level));
    crate::text_laws::cutting_undoes_joining(role, ':', ty + colon + level);
    crate::text_laws::cutting_undoes_joining(ty, ':', level);
    crate::text_laws::cutting_undoes_joining(user, ':', role + colon + ty);
    crate::text_laws::cutting_undoes_joining(role, ':', ty);
    crate::text_laws::cutting_undoes_joining(user, ':', role);
    crate::text_laws::cutting_undoes_joining(none, ':', none);
}

// ---- time, serial number, permissions ------------------------------------

/// The time and the serial number of a record are what stands in `audit(time:serial)`.
pub proof fn the_identification_is_read_back(
    left: Seq<char>,
    time: Seq<char>,
    serial: nat,
    right: Seq<char>,
)
    requires
        !crate::text::has(left, "audit("@),
        !time.contains(':'),
        !time.contains(')'),
        serial <= u64::MAX,
    ensures
        ({
            let line = left + "audit("@ + (time + seq![':'] + crate::number::decimal(serial) + seq![
                ')',
            ] + right);
            crate::text::has(line, "avc:"@) ==> {
                &&& crate::avc::denial_of(line)->0.timestamp == time
                &&& crate::avc::denial_of(line)->0.serial == serial
            }
        }),
{
    reveal_strlit("audit(");
    let n = crate::number::decimal(serial);
    let id = time + seq![':'] + n;
    let rest = id + seq![')'] + right;
    let line = left + "audit("@ + rest;
    assert(time + seq![':'] + n + seq![')'] + right =~= rest);
    crate::text_laws::numerals_stand_for_their_numbers(serial);
    crate::text_laws::lemma_find_behind(left, "audit("@, rest);
    let l = left.len() as int;
    let tail = line.skip(l);
    assert(tail =~= ("audit("@ + id) + seq![')'] + right);
    assert(!("audit("@ + id).contains(')')) by {
        let s = "audit("@ + id;
        if s.contains(')') {
            let k = s.index_of(')');
            if k >= 6 && k - 6 < time.len() {
                assert(time[k - 6] == ')');
            } else if k >= 6 && k - 6 > time.len() {
                assert(n[k - 7 - time.len()] == ')');
            }
        }
    }
    let s = "audit("@ + id;
    assert forall|j: int| 0 <= j < s.len() implies tail[j] != ')' by {
        assert(s.contains(s[j]));
    }
    crate::text::lemma_find_char_is(tail, ')', s.len() as int);
    assert(line.subrange(l + 6, l + s.len()) =~= id);
    assert(crate::avc::audit_id(line) == id);
    crate::text_laws::cutting_undoes_joining(time, ':', n);
    assert(!n.contains(':')) by {
        if n.contains(':') {
            let k = n.index_of(':');
            assert('0' <= n[k] <= '9');
        }
    }
    crate::text_laws::cutting_undoes_joining(n, ':', Seq::empty());
    crate::text_laws::numbers_are_read_off_numerals(n, serial, u64::MAX as nat);
}

/// A line without `audit(` gives no time and the serial number zero.
pub proof fn without_identification_there_is_no_time(line: Seq<char>)
    requires
        crate::text::has(line, "avc:"@),
        !crate::text::has(line, "audit("@),
    ensures
        crate::avc::denial_of(line)->0.timestamp.len() == 0,
        crate::avc::denial_of(line)->0.serial == 0,
{
    let none = Seq::<char>::empty();
    crate::text::lemma_find_has(line, "audit("@);
    crate::text_laws::cutting_undoes_joining(none, ':', none);
}

/// The permissions of a record are the words in the first braces after `avc:`, each
/// as often as it stands there, in the order of texts.
pub proof fn permissions_are_the_words_in_braces(
    left: Seq<char>,
    mid: Seq<char>,
    body: Seq<char>,
    right: Seq<char>,
)
    requires
        !crate::text::has(left, "avc:"@),
        !mid.contains('{'),
        !mid.contains('}'),
        !body.contains('}'),
    ensures
        ({
            let line = left + "avc:"@ + (mid + seq!['{'] + body + seq!['}'] + right);
            let perms = crate::avc::denial_of(line)->0.perms;
            &&& crate::avc::denial_of(line) is Some
            &&& perms.to_multiset() == crate::text::words(body).to_multiset()
            &&& forall|i: int, j: int|
                0 <= i < j < perms.len() ==> !crate::order::text_less(
                    #[trigger] perms[j],
                    #[trigger] perms[i],
                )
        }),
{
    reveal_strlit("avc:");
    let rest = mid + seq!['{'] + body + seq!['}'] + right;
    let line = left + "avc:"@ + rest;
    crate::text_laws::lemma_find_behind(left, "avc:"@, rest);
    crate::text::lemma_find_has(line, "avc:"@);
    assert(line.skip(left.len() as int + 4) =~= rest);
    assert forall|j: int| 0 <= j < mid.len() implies rest[j] != '{' && rest[j] != '}' by {
        assert(mid.contains(mid[j]));
    }
    let m = mid.len() as int;
    crate::text::lemma_find_char_is(rest, '{', m);
    let close = m + 1 + body.len();
    assert forall|j: int| 0 <= j < close implies rest[j] != '}' by {
        if j > m {
            assert(body.contains(body[j - m - 1]));
        }
    }
    crate::text::lemma_find_char_is(rest, '}', close);
    assert(rest.subrange(m + 1, close) =~= body);
    let words = crate::text::words(body);
    let p = crate::order::text_order();
    crate::order::lemma_text_order();
    crate::order::sort_orders(words, p);
    crate::order::sort_keeps_elements(words, p);
    let perms = crate::avc::denial_of(line)->0.perms;
    assert forall|i: int, j: int| 0 <= i < j < perms.len() implies !crate::order::text_less(
        #[trigger] perms[j],
        #[trigger] perms[i],
    ) by {
        assert(!p(perms[j], perms[i]));
    }
}

/// A line without an opening brace after `avc:`, or without a closing one, gives no
/// permissions.
pub proof fn without_braces_there_are_no_permissions(left: Seq<char>, rest: Seq<char>)
    requires
        !crate::text::has(left, "avc:"@),
        !rest.contains('{') || !rest.contains('}'),
    ensures
        crate::avc::denial_of(left + "avc:"@ + rest) is Some,
        crate::avc::denial_of(left + "avc:"@ + rest)->0.perms.len() == 0,
{
    reveal_strlit("avc:");
    let line = left + "avc:"@ + rest;
    crate::text_laws::lemma_find_behind(left, "avc:"@, rest);
    crate::text::lemma_find_has(line, "avc:"@);
    assert(line.skip(left.len() as int + 4) =~= rest);
    crate::text::lemma_find_char(rest, '{');
    crate::text::lemma_find_char(rest, '}');
    assert(crate::text::words(Seq::empty()) =~= Seq::<Seq<char>>::empty());
}

/// The outcome that follows `avc:` counts, whatever else the line says.
pub proof fn the_outcome_follows_the_mark(
    left: Seq<char>,
    blank: Seq<char>,
    granted: bool,
    end: char,
    right: Seq<char>,
)
    requires
        !crate::text::has(left, "avc:"@),
        crate::laws::is_blank(blank),
        crate::text::is_space(end) || end == '{',
    ensures
        ({
            let word = if granted {
                "granted"@
            } else {
                "denied"@
            };
            let line = left + "avc:"@ + (blank + (word + seq![end] + right));
            &&& crate::avc::denial_of(line) is Some
            &&& crate::avc::denial_of(line)->0.outcome == word
        }),
{
    reveal_strlit("avc:");
    reveal_strlit("granted");
    reveal_strlit("denied");
    let word = if granted {
        "granted"@
    } else {
        "denied"@
    };
    let said = word + seq![end] + right;
    let rest = blank + said;
    let line = left + "avc:"@ + rest;
    crate::text_laws::lemma_find_behind(left, "avc:"@, rest);
    crate::text::lemma_find_has(line, "avc:"@);
    assert(line.skip(left.len() as int + 4) =~= rest);
    crate::text_laws::lemma_blank_front(blank, said);
    assert(!crate::text::is_space(said[0]));
    assert(crate::text::trim_start(said) == said);
    lemma_word_ends(word, end, right);
    crate::laws::outcome_is_what_the_line_says(line);
}

proof fn lemma_word_ends(word: Seq<char>, end: char, right: Seq<char>)
    requires
        forall|i: int|
            0 <= i < word.len() ==> !crate::text::is_space(#[trigger] word[i]) && word[i] != '{',
        crate::text::is_space(end) || end == '{',
    ensures
        crate::avc::word_at_start(word + seq![end] + right) == word,
    decreases word.len(),
{
    let s = word + seq![end] + right;
    if word.len() == 0 {
        assert(s[0] == end);
        assert(crate::avc::word_at_start(s) =~= word);
    } else {
        assert(s[0] == word[0]);
        assert(!crate::text::is_space(word[0]));
        assert(s.skip(1) =~= word.skip(1) + seq![end] + right);
        assert forall|i: int| 0 <= i < word.skip(1).len() implies !crate::text::is_space(
            #[trigger] word.skip(1)[i],
        ) && word.skip(1)[i] != '{' by {
            assert(!crate::text::is_space(word[i + 1]));
        }
        lemma_word_ends(word.skip(1), end, right);
        assert(seq![word[0]] + word.skip(1) =~= word);
    }
}

// ---- the records of a text -----------------------------------------------

/// The records of a text are those of its lines, one after the other.
pub proof fn a_text_gives_the_records_of_its_lines(line: Seq<char>, rest: Seq<char>)
    requires
        !line.contains('\n'),
        line.len() == 0 || line.last() != '\r',
    ensures
        crate::avc::records_of(line + seq!['\n'] + rest) == (if crate::text::has(line, "avc:"@) {
            seq![crate::avc::denial_of(line)->0]
        } else {
            Seq::<DenialView>::empty()
        }) + crate::avc::records_of(rest),
        crate::avc::records_of(line) == (if crate::text::has(line, "avc:"@) {
            seq![crate::avc::denial_of(line)->0]
        } else {
            Seq::<DenialView>::empty()
        }),
        crate::avc::records_of(line + seq!['\r', '\n'] + rest) == crate::avc::records_of(
            line + seq!['\n'] + rest,
        ),
{
    reveal_strlit("avc:");
    crate::text_laws::lines_end_at_line_feeds(line, rest);
    let one = seq![line];
    assert(one.drop_last() =~= Seq::<Seq<char>>::empty());
    reveal_with_fuel(crate::avc::records_in, 2);
    crate::laws::lemma_records_join(one, crate::text::lines_of(rest));
    let r = if crate::text::has(line, "avc:"@) {
        seq![crate::avc::denial_of(line)->0]
    } else {
        Seq::<DenialView>::empty()
    };
    assert(crate::avc::records_in(one) =~= r);
    if line.len() == 0 {
        crate::text::lemma_find_has(line, "avc:"@);
        assert(line =~= Seq::<char>::empty());
    }
    let cr = line.push('\r');
    assert(line + seq!['\r', '\n'] + rest =~= cr + seq!['\n'] + rest);
    assert(!cr.contains('\n')) by {
        if cr.contains('\n') {
            let k = cr.index_of('\n');
            assert(line[k] == '\n');
        }
    }
    crate::text_laws::lines_end_at_line_feeds(cr, rest);
    assert(cr.drop_last() =~= line);
}

/// The texts of the times come one for each record, in order.
pub proof fn each_record_has_the_text_of_its_time(text: Seq<char>)
    ensures
        ({
            let records = crate::avc::records_of(text);
            let times = crate::avc::stamp_texts(text);
            &&& times.len() == records.len()
            &&& forall|k: int|
                0 <= k < records.len() ==> #[trigger] times[k] == records[k].timestamp
        }),
{
}

} // verus!
