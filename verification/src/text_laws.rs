//! What holds of texts, numerals and times.
use vstd::prelude::*;
use crate::time::Timestamp;

verus! {

// ---- searching -----------------------------------------------------------

/// A text holds another one exactly where it is that one with something before and
/// after it.
pub proof fn holding_is_standing_between(s: Seq<char>, pat: Seq<char>)
    ensures
        crate::text::has(s, pat) <==> exists|a: Seq<char>, b: Seq<char>| s == #[trigger] (a + pat + b),
{
    if crate::text::has(s, pat) {
        let i = choose|i: int| crate::text::occurs_at(s, pat, i);
        let (a, b) = (s.take(i), s.skip(i + pat.len()));
        assert(s =~= a + pat + b);
    }
    if exists|a: Seq<char>, b: Seq<char>| s == #[trigger] (a + pat + b) {
        let (a, b) = choose|a: Seq<char>, b: Seq<char>| s == #[trigger] (a + pat + b);
        holds_its_middle(a, pat, b);
    }
}

/// A text holds each of its parts.
pub proof fn holds_its_middle(a: Seq<char>, pat: Seq<char>, b: Seq<char>)
    ensures
        crate::text::has(a + pat + b, pat),
{
    let s = a + pat + b;
    assert(s.subrange(a.len() as int, (a.len() + pat.len()) as int) =~= pat);
    assert(crate::text::occurs_at(s, pat, a.len() as int));
}

/// What a part of a text holds, the text holds.
pub proof fn holds_what_its_middle_holds(
    a: Seq<char>,
    mid: Seq<char>,
    b: Seq<char>,
    pat: Seq<char>,
)
    requires
        crate::text::has(mid, pat),
    ensures
        crate::text::has(a + mid + b, pat),
{
    let i = choose|i: int| crate::text::occurs_at(mid, pat, i);
    let (x, y) = (mid.take(i), mid.skip(i + pat.len()));
    assert(mid =~= x + pat + y);
    assert(a + mid + b =~= (a + x) + pat + (y + b));
    holds_its_middle(a + x, pat, y + b);
}

/// White space is the tab, the four that follow it, the blank, the next line, the blank
/// that does not break, and the wider blanks and separators.
pub proof fn white_space_is_listed(c: char)
    ensures
        crate::text::is_space(c) <==> {
            let n = c as u32;
            ||| 9 <= n <= 13
            ||| 0x2000 <= n <= 0x200a
            ||| n == 32 || n == 0x85 || n == 0xa0 || n == 0x1680
            ||| n == 0x2028 || n == 0x2029 || n == 0x202f || n == 0x205f || n == 0x3000
        },
{
}

/// What a text holds is still held after each character of both was changed in the same
/// way.
pub proof fn holding_outlasts_a_change_of_letters(
    s: Seq<char>,
    pat: Seq<char>,
    change: spec_fn(char) -> char,
)
    requires
        crate::text::has(s, pat),
    ensures
        crate::text::has(s.map_values(change), pat.map_values(change)),
{
    let i = choose|i: int| crate::text::occurs_at(s, pat, i);
    let (t, p) = (s.map_values(change), pat.map_values(change));
    assert forall|k: int| 0 <= k < pat.len() implies t.subrange(i, i + p.len())[k] == p[k] by {
        assert(s.subrange(i, i + pat.len())[k] == pat[k]);
    }
    assert(t.subrange(i, i + p.len()) =~= p);
    assert(crate::text::occurs_at(t, p, i));
}

/// A pattern whose first character does not come again in it stands first where it
/// was put behind a text that does not hold it.
pub proof fn lemma_find_behind(left: Seq<char>, pat: Seq<char>, right: Seq<char>)
    requires
        !crate::text::has(left, pat),
        pat.len() > 0,
        forall|k: int| 0 < k < pat.len() ==> #[trigger] pat[k] != pat[0],
    ensures
        crate::text::find(left + pat + right, pat) == Some(left.len() as int),
{
    let s = left + pat + right;
    let n = left.len() as int;
    let m = pat.len() as int;
    assert(s.subrange(n, n + m) =~= pat);
    assert forall|i: int| 0 <= i < n implies !crate::text::occurs_at(s, pat, i) by {
        if crate::text::occurs_at(s, pat, i) {
            if i + m <= n {
                assert(left.subrange(i, i + m) =~= s.subrange(i, i + m));
                assert(crate::text::occurs_at(left, pat, i));
            } else {
                assert(s.subrange(i, i + m)[n - i] == s[n]);
                assert(pat[n - i] == pat[0]);
            }
        }
    }
    crate::text::lemma_find_is(s, pat, n);
}

/// What stands before and after the first of a separator is read back.
pub proof fn cutting_undoes_joining(a: Seq<char>, sep: char, rest: Seq<char>)
    requires
        !a.contains(sep),
    ensures
        crate::text::before(a + seq![sep] + rest, sep) == a,
        crate::text::after(a + seq![sep] + rest, sep) == rest,
        crate::text::before(a, sep) == a,
        crate::text::after(a, sep) == Seq::<char>::empty(),
{
    let s = a + seq![sep] + rest;
    assert forall|j: int| 0 <= j < a.len() implies a[j] != sep && s[j] != sep by {
        assert(a.contains(a[j]));
    }
    crate::text::lemma_find_char_is(s, sep, a.len() as int);
    assert(s.take(a.len() as int) =~= a);
    assert(s.skip(a.len() as int + 1) =~= rest);
    crate::text::lemma_find_char(a, sep);
}

// ---- words and lines -----------------------------------------------------

proof fn lemma_words_run(w: Seq<char>, cur: Seq<char>)
    requires
        forall|i: int| 0 <= i < w.len() ==> !crate::text::is_space(#[trigger] w[i]),
    ensures
        crate::text::words_from(w, cur) == crate::text::unless_empty(cur + w),
    decreases w.len(),
{
    if w.len() == 0 {
        assert(cur + w =~= cur);
    } else {
        assert forall|i: int| 0 <= i < w.skip(1).len() implies !crate::text::is_space(
            #[trigger] w.skip(1)[i],
        ) by {
            assert(!crate::text::is_space(w[i + 1]));
        }
        lemma_words_run(w.skip(1), cur.push(w[0]));
        assert(cur.push(w[0]) + w.skip(1) =~= cur + w);
    }
}

proof fn lemma_words_apart(a: Seq<char>, space: char, b: Seq<char>, cur: Seq<char>)
    requires
        crate::text::is_space(space),
    ensures
        crate::text::words_from(a + seq![space] + b, cur) == crate::text::words_from(a, cur)
            + crate::text::words(b),
    decreases a.len(),
{
    let s = a + seq![space] + b;
    if a.len() == 0 {
        assert(s[0] == space);
        assert(s.skip(1) =~= b);
    } else {
        assert(s[0] == a[0]);
        assert(s.skip(1) =~= a.skip(1) + seq![space] + b);
        if crate::text::is_space(a[0]) {
            lemma_words_apart(a.skip(1), space, b, Seq::empty());
            let head = crate::text::unless_empty(cur);
            let mid = crate::text::words_from(a.skip(1), Seq::empty());
            assert(head + (mid + crate::text::words(b)) =~= (head + mid) + crate::text::words(b));
        } else {
            lemma_words_apart(a.skip(1), space, b, cur.push(a[0]));
        }
    }
}

/// A text without white space is its own only word; white space parts the words on
/// its two sides.
pub proof fn words_are_parted_by_white_space(w: Seq<char>, a: Seq<char>, space: char, b: Seq<char>)
    requires
        forall|i: int| 0 <= i < w.len() ==> !crate::text::is_space(#[trigger] w[i]),
        crate::text::is_space(space),
    ensures
        crate::text::words(w) == (if w.len() == 0 {
            Seq::<Seq<char>>::empty()
        } else {
            seq![w]
        }),
        crate::text::words(a + seq![space] + b) == crate::text::words(a) + crate::text::words(b),
{
    lemma_words_run(w, Seq::empty());
    assert(Seq::<char>::empty() + w =~= w);
    lemma_words_apart(a, space, b, Seq::empty());
}

/// A line ends at the first line feed, with the carriage return before it if there
/// is one; what follows the last line feed is a line unless it is empty.
pub proof fn lines_end_at_line_feeds(line: Seq<char>, rest: Seq<char>)
    requires
        !line.contains('\n'),
    ensures
        crate::text::lines_of(line + seq!['\n'] + rest) == seq![
            if line.len() > 0 && line.last() == '\r' {
                line.drop_last()
            } else {
                line
            },
        ] + crate::text::lines_of(rest),
        line.len() > 0 ==> crate::text::lines_of(line) == seq![line],
        crate::text::lines_of(Seq::empty()) == Seq::<Seq<char>>::empty(),
{
    let s = line + seq!['\n'] + rest;
    assert forall|j: int| 0 <= j < line.len() implies line[j] != '\n' && s[j] != '\n' by {
        assert(line.contains(line[j]));
    }
    crate::text::lemma_find_char_is(s, '\n', line.len() as int);
    assert(s.take(line.len() as int) =~= line);
    assert(s.skip(line.len() as int + 1) =~= rest);
    crate::text::lemma_find_char(line, '\n');
    crate::text::lemma_find_char(Seq::empty(), '\n');
}

// ---- trimming, joining, padding ------------------------------------------

proof fn lemma_front_trimmed(s: Seq<char>) -> (k: int)
    ensures
        0 <= k <= s.len(),
        crate::text::trim_start(s) == s.skip(k),
        crate::laws::is_blank(s.take(k)),
        k < s.len() ==> !crate::text::is_space(s[k]),
    decreases s.len(),
{
    if s.len() > 0 && crate::text::is_space(s[0]) {
        let k = lemma_front_trimmed(s.skip(1));
        assert(s.skip(1).skip(k) =~= s.skip(k + 1));
        assert forall|i: int| 0 <= i < k + 1 implies crate::text::is_space(
            #[trigger] s.take(k + 1)[i],
        ) by {
            if i > 0 {
                assert(crate::text::is_space(s.skip(1).take(k)[i - 1]));
            }
        }
        k + 1
    } else {
        assert(s.skip(0) =~= s);
        0
    }
}

proof fn lemma_back_trimmed(s: Seq<char>) -> (k: int)
    ensures
        0 <= k <= s.len(),
        crate::text::trim_end(s) == s.take(k),
        crate::laws::is_blank(s.skip(k)),
        k > 0 ==> !crate::text::is_space(s[k - 1]),
    decreases s.len(),
{
    if s.len() > 0 && crate::text::is_space(s.last()) {
        let k = lemma_back_trimmed(s.drop_last());
        assert(s.drop_last().take(k) =~= s.take(k));
        assert forall|i: int| 0 <= i < s.len() - k implies crate::text::is_space(
            #[trigger] s.skip(k)[i],
        ) by {
            if i < s.len() - 1 - k {
                assert(crate::text::is_space(s.drop_last().skip(k)[i]));
            }
        }
        k
    } else {
        assert(s.take(s.len() as int) =~= s);
        s.len() as int
    }
}

/// Trimming takes white space off both ends, all of it and nothing else.
pub proof fn trimming_takes_the_white_space_at_the_ends(s: Seq<char>)
    ensures
        ({
            let t = crate::text::trimmed(s);
            &&& t.len() > 0 ==> !crate::text::is_space(t[0]) && !crate::text::is_space(t.last())
            &&& exists|a: Seq<char>, b: Seq<char>|
                s == #[trigger] (a + t + b) && crate::laws::is_blank(a) && crate::laws::is_blank(b)
        }),
{
    let k = lemma_front_trimmed(s);
    let u = s.skip(k);
    let n = lemma_back_trimmed(u);
    let t = u.take(n);
    let (a, b) = (s.take(k), u.skip(n));
    assert(s =~= a + t + b);
    assert(crate::text::trimmed(s) == t);
    if t.len() > 0 {
        assert(t[0] == s[k]);
        assert(t.last() == u[n - 1]);
    }
}

/// White space in front is passed over.
pub proof fn lemma_blank_front(blank: Seq<char>, s: Seq<char>)
    requires
        crate::laws::is_blank(blank),
    ensures
        crate::text::trim_start(blank + s) == crate::text::trim_start(s),
    decreases blank.len(),
{
    if blank.len() == 0 {
        assert(blank + s =~= s);
    } else {
        assert(crate::text::is_space(blank[0]));
        assert((blank + s)[0] == blank[0]);
        assert((blank + s).skip(1) =~= blank.skip(1) + s);
        assert forall|i: int| 0 <= i < blank.skip(1).len() implies crate::text::is_space(
            #[trigger] blank.skip(1)[i],
        ) by {
            assert(crate::text::is_space(blank[i + 1]));
        }
        lemma_blank_front(blank.skip(1), s);
    }
}

proof fn lemma_blank_back(s: Seq<char>, blank: Seq<char>)
    requires
        crate::laws::is_blank(blank),
    ensures
        crate::text::trim_end(s + blank) == crate::text::trim_end(s),
    decreases blank.len(),
{
    if blank.len() == 0 {
        assert(s + blank =~= s);
    } else {
        let n = blank.len() - 1;
        assert(crate::text::is_space(blank[n]));
        assert((s + blank).last() == blank[n]);
        assert((s + blank).drop_last() =~= s + blank.drop_last());
        assert forall|i: int| 0 <= i < n implies crate::text::is_space(
            #[trigger] blank.drop_last()[i],
        ) by {
            assert(crate::text::is_space(blank[i]));
        }
        lemma_blank_back(s, blank.drop_last());
    }
}

/// White space around a text without any at its ends is trimmed, and white space alone
/// is trimmed to nothing.
pub proof fn trimming_undoes_padding(a: Seq<char>, s: Seq<char>, b: Seq<char>)
    requires
        crate::laws::is_blank(a),
        crate::laws::is_blank(b),
        s.len() > 0 ==> !crate::text::is_space(s[0]) && !crate::text::is_space(s.last()),
    ensures
        crate::text::trimmed(a + s + b) == s,
{
    let none = Seq::<char>::empty();
    assert(a + s + b =~= a + (s + b));
    lemma_blank_front(a, s + b);
    if s.len() == 0 {
        assert(s + b =~= b + none);
        lemma_blank_front(b, none);
        assert(s =~= none);
    } else {
        assert((s + b)[0] == s[0]);
        lemma_blank_back(s, b);
    }
}

/// Colons in front of a text that does not begin with one are taken off, all of them.
pub proof fn colons_in_front_are_taken_off(colons: Seq<char>, s: Seq<char>)
    requires
        forall|i: int| 0 <= i < colons.len() ==> (#[trigger] colons[i]) == ':',
        s.len() > 0 ==> s[0] != ':',
    ensures
        crate::text::trim_colons(colons + s) == s,
    decreases colons.len(),
{
    if colons.len() == 0 {
        assert(colons + s =~= s);
    } else {
        assert((colons + s)[0] == colons[0]);
        assert((colons + s).skip(1) =~= colons.skip(1) + s);
        colons_in_front_are_taken_off(colons.skip(1), s);
    }
}

proof fn lemma_joined_more(a: Seq<Seq<char>>, b: Seq<Seq<char>>, sep: Seq<char>)
    requires
        a.len() > 0,
        b.len() > 0,
    ensures
        crate::text::joined(a + b, sep) == crate::text::joined(a, sep) + sep + crate::text::joined(
            b,
            sep,
        ),
    decreases b.len(),
{
    let s = a + b;
    assert(s.last() == b.last());
    assert(s.drop_last() =~= a + b.drop_last());
    if b.len() == 1 {
        assert(a + b.drop_last() =~= a);
        if s.len() >= 2 {
            assert(crate::text::joined(s, sep) == crate::text::joined(s.drop_last(), sep) + sep
                + s.last());
        }
    } else {
        lemma_joined_more(a, b.drop_last(), sep);
        let x = crate::text::joined(a, sep);
        let y = crate::text::joined(b.drop_last(), sep);
        assert(x + sep + y + sep + b.last() =~= x + sep + (y + sep + b.last()));
    }
}

/// Joining puts the separator between each two texts and nowhere else.
pub proof fn joining_separates(x: Seq<char>, a: Seq<Seq<char>>, b: Seq<Seq<char>>, sep: Seq<char>)
    ensures
        crate::text::joined(Seq::empty(), sep) == Seq::<char>::empty(),
        crate::text::joined(seq![x], sep) == x,
        a.len() > 0 && b.len() > 0 ==> crate::text::joined(a + b, sep) == crate::text::joined(
            a,
            sep,
        ) + sep + crate::text::joined(b, sep),
{
    if a.len() > 0 && b.len() > 0 {
        lemma_joined_more(a, b, sep);
    }
}

/// What is joined holds each of its parts.
pub proof fn joining_keeps_each_part(parts: Seq<Seq<char>>, sep: Seq<char>, i: int)
    requires
        0 <= i < parts.len(),
    ensures
        crate::text::has(crate::text::joined(parts, sep), parts[i]),
{
    let x = parts[i];
    let (a, b) = (parts.take(i), parts.skip(i + 1));
    let none = Seq::<char>::empty();
    joining_separates(x, a, seq![x] + b, sep);
    joining_separates(x, seq![x], b, sep);
    assert(parts =~= a + (seq![x] + b));
    let rest = crate::text::joined(seq![x] + b, sep);
    if b.len() > 0 {
        let tail = sep + crate::text::joined(b, sep);
        assert(rest =~= none + x + tail);
        holds_its_middle(none, x, tail);
    } else {
        assert(seq![x] + b =~= seq![x]);
        assert(rest =~= none + x + none);
        holds_its_middle(none, x, none);
    }
    if a.len() > 0 {
        let head = crate::text::joined(a, sep) + sep;
        assert(crate::text::joined(parts, sep) =~= head + rest + none);
        holds_what_its_middle_holds(head, rest, none, x);
    } else {
        assert(parts =~= seq![x] + b);
    }
}

/// Padding keeps the text and adds blanks up to the width.
pub proof fn padding_adds_blanks(s: Seq<char>, width: nat)
    ensures
        ({
            let p = crate::text::padded(s, width);
            &&& p.len() == if s.len() < width {
                width
            } else {
                s.len()
            }
            &&& p.take(s.len() as int) == s
            &&& forall|i: int| s.len() <= i < p.len() ==> #[trigger] p[i] == ' '
        }),
{
    assert(crate::text::padded(s, width).take(s.len() as int) =~= s);
}

/// A text that fits is not shortened; one that does not is cut to the width, its
/// last character giving way to an ellipsis.
pub proof fn shortening_cuts_to_the_width(s: Seq<char>, max: nat)
    requires
        max > 0,
    ensures
        ({
            let t = crate::screen::shortened(s, max);
            &&& t.len() <= max
            &&& s.len() <= max ==> t == s
            &&& s.len() > max ==> t.len() == max && t.last() == '\u{2026}' && t.drop_last()
                == s.take(max - 1)
        }),
{
    if s.len() > max {
        assert(crate::screen::shortened(s, max).drop_last() =~= s.take(max - 1));
    }
}

// ---- numerals ------------------------------------------------------------

/// The numeral of a number has digits alone, its value is the number, and it does
/// not begin with a zero unless it is one digit long.
pub proof fn numerals_stand_for_their_numbers(n: nat)
    ensures
        ({
            let s = crate::number::decimal(n);
            &&& s.len() > 0
            &&& forall|i: int| 0 <= i < s.len() ==> '0' <= #[trigger] s[i] <= '9'
            &&& s.len() > 1 ==> s[0] != '0'
            &&& crate::number::numeral_value(s) == n
        }),
    decreases n,
{
    let s = crate::number::decimal(n);
    reveal_with_fuel(crate::number::numeral_value, 2);
    if n < 10 {
        assert(s.drop_last() =~= Seq::<char>::empty());
    } else {
        numerals_stand_for_their_numbers(n / 10);
        assert(s.drop_last() =~= crate::number::decimal(n / 10));
        if n / 10 < 10 {
            assert(crate::number::decimal(n / 10)[0] == crate::number::digit_char(n / 10));
        }
    }
}

/// The value of a numeral: a digit behind it counts one, what it had counts ten
/// times.
pub proof fn numerals_count_by_tens(s: Seq<char>, c: char)
    requires
        '0' <= c <= '9',
    ensures
        crate::number::numeral_value(s.push(c)) == 10 * crate::number::numeral_value(s) + (c as nat
            - '0' as nat),
        crate::number::numeral_value(Seq::empty()) == 0,
{
    assert(s.push(c).drop_last() =~= s);
}

/// Digits alone.
pub open spec fn are_digits(s: Seq<char>) -> bool {
    forall|i: int| 0 <= i < s.len() ==> '0' <= #[trigger] s[i] <= '9'
}

/// A number is read exactly where the text is a numeral, with or without a plus
/// sign, of a value that is not too great; and then it is that value.
pub proof fn numbers_are_read_off_numerals(s: Seq<char>, n: nat, max: nat)
    ensures
        crate::number::parsed(crate::number::decimal(n), max) == (if n <= max {
            Some(n)
        } else {
            None
        }),
        crate::number::parsed(seq!['+'] + crate::number::decimal(n), max) == (if n <= max {
            Some(n)
        } else {
            None
        }),
        match crate::number::parsed(s, max) {
            Some(v) => exists|d: Seq<char>|
                (s == d || s == seq!['+'] + d) && d.len() > 0 && are_digits(d) && #[trigger] crate::number::numeral_value(
                    d,
                ) == v && v <= max,
            None => forall|d: Seq<char>|
                (s == d || s == seq!['+'] + d) && d.len() > 0 && are_digits(d)
                    ==> #[trigger] crate::number::numeral_value(d) > max,
        },
{
    let t = crate::number::decimal(n);
    numerals_stand_for_their_numbers(n);
    assert forall|i: int| 0 <= i < t.len() implies crate::number::is_digit(#[trigger] t[i]) by {}
    assert(t[0] != '+');
    assert((seq!['+'] + t).skip(1) =~= t);
    let d = crate::number::unsigned_part(s);
    match crate::number::parsed(s, max) {
        Some(v) => {
            assert forall|i: int| 0 <= i < d.len() implies '0' <= #[trigger] d[i] <= '9' by {
                assert(crate::number::is_digit(d[i]));
            }
            if s.len() > 0 && s[0] == '+' {
                assert(s =~= seq!['+'] + d);
            }
        },
        None => {
            assert forall|e: Seq<char>|
                (s == e || s == seq!['+'] + e) && e.len() > 0 && are_digits(e) implies
                #[trigger] crate::number::numeral_value(e) > max by {
                assert('0' <= e[0] <= '9');
                if s == seq!['+'] + e {
                    assert(s.skip(1) =~= e);
                }
                assert(d == e);
                assert forall|i: int| 0 <= i < d.len() implies crate::number::is_digit(
                    #[trigger] d[i],
                ) by {
                    assert('0' <= e[i] <= '9');
                }
            }
        },
    }
}

// ---- the order of texts --------------------------------------------------

/// The texts agree up to place `k`, where the first one ends or has the lesser
/// character.
pub open spec fn falls_behind_at(a: Seq<char>, b: Seq<char>, k: int) -> bool {
    &&& 0 <= k <= a.len()
    &&& k < b.len()
    &&& a.take(k) == b.take(k)
    &&& k < a.len() ==> a[k] < b[k]
}

/// One text comes before another exactly where they agree up to some place and
/// there the first one ends or has the lesser character.
pub proof fn texts_are_ordered_by_their_first_difference(a: Seq<char>, b: Seq<char>)
    ensures
        crate::order::text_less(a, b) <==> exists|k: int| falls_behind_at(a, b, k),
    decreases a.len(),
{
    if a.len() > 0 && b.len() > 0 && a[0] == b[0] {
        let (x, y) = (a.skip(1), b.skip(1));
        texts_are_ordered_by_their_first_difference(x, y);
        if exists|k: int| falls_behind_at(x, y, k) {
            let k = choose|k: int| falls_behind_at(x, y, k);
            assert(a.take(k + 1) =~= seq![a[0]] + x.take(k));
            assert(b.take(k + 1) =~= seq![b[0]] + y.take(k));
            assert(falls_behind_at(a, b, k + 1));
        }
        if exists|k: int| falls_behind_at(a, b, k) {
            let k = choose|k: int| falls_behind_at(a, b, k);
            assert(k > 0);
            assert(x.take(k - 1) =~= a.take(k).skip(1));
            assert(y.take(k - 1) =~= b.take(k).skip(1));
            assert(falls_behind_at(x, y, k - 1));
        }
    } else {
        if crate::order::text_less(a, b) {
            assert(a.take(0) =~= b.take(0));
            assert(falls_behind_at(a, b, 0));
        }
        if exists|k: int| falls_behind_at(a, b, k) {
            let k = choose|k: int| falls_behind_at(a, b, k);
            if k > 0 {
                assert(a.take(k)[0] == a[0] && b.take(k)[0] == b[0]);
            }
        }
    }
}

// ---- times ---------------------------------------------------------------

/// Numbers that are not negative compare as their bits do, in both orders, and only
/// the pattern of all zeros stands for a time that is not after the epoch.
pub proof fn times_compare_as_their_bits(a: Timestamp, b: Timestamp)
    requires
        a.bits <= 0x7ff0_0000_0000_0000,
        b.bits <= 0x7ff0_0000_0000_0000,
    ensures
        a.less(b) <==> a.bits < b.bits,
        a.place() < b.place() <==> a.bits < b.bits,
        a.positive() <==> a.bits > 0,
        a.zero() <==> a.bits == 0,
        a.rank() == a.bits,
        !a.is_nan(),
{
}

/// Numbers that are negative compare the other way round, and less than any that
/// is not; what is not a number is neither less nor greater.
pub proof fn negative_times_come_first(a: Timestamp, b: Timestamp)
    requires
        0x8000_0000_0000_0000 < a.bits <= 0xfff0_0000_0000_0000,
    ensures
        b.bits <= 0x7ff0_0000_0000_0000 ==> a.less(b) && !b.less(a) && a.place() < b.place(),
        0x8000_0000_0000_0000 < b.bits <= 0xfff0_0000_0000_0000 ==> (a.less(b) <==> a.bits > b.bits),
        0x8000_0000_0000_0000 < b.bits ==> (a.place() < b.place() <==> a.bits > b.bits),
        0x7ff0_0000_0000_0000 < b.bits < 0x8000_0000_0000_0000 ==> !a.less(b) && !b.less(a)
            && a.place() < b.place(),
        !a.positive(),
        !a.zero(),
{
}

/// A time that is the whole number `n`, with `k + 1` binary digits, counts `n`
/// seconds, and so does a time with any fraction that is less than one second.
pub proof fn whole_numbers_are_their_own_seconds(n: nat, k: nat, part: nat, t: Timestamp)
    requires
        k <= 52,
        vstd::arithmetic::power2::pow2(k) <= n < vstd::arithmetic::power2::pow2(k + 1),
        part < vstd::arithmetic::power2::pow2((52 - k) as nat),
        t.bits == (1023 + k) * 0x0010_0000_0000_0000 + (n - vstd::arithmetic::power2::pow2(k))
            * vstd::arithmetic::power2::pow2((52 - k) as nat) + part,
    ensures
        t.whole_seconds() == n,
{
    let lead: nat = 0x0010_0000_0000_0000;
    let p = vstd::arithmetic::power2::pow2((52 - k) as nat);
    let q = vstd::arithmetic::power2::pow2(k);
    vstd::arithmetic::power2::lemma2_to64();
    vstd::arithmetic::power2::lemma2_to64_rest();
    vstd::arithmetic::power2::lemma_pow2_adds(k, (52 - k) as nat);
    vstd::arithmetic::power2::lemma_pow2_pos((52 - k) as nat);
    vstd::arithmetic::power2::lemma_pow2_unfold(k + 1);
    assert(q * p == lead);
    let f = ((n - q) * p + part) as nat;
    assert(0 <= (n - q) * p + part < q * p) by (nonlinear_arith)
        requires
            q <= n < 2 * q,
            0 <= part < p,
    ;
    assert(t.bits == (1023 + k) * lead + f);
    assert(t.bits < 0x7ff0_0000_0000_0000) by (nonlinear_arith)
        requires
            t.bits == (1023 + k) * lead + f,
            k <= 52,
            lead == 0x0010_0000_0000_0000,
            0 <= f < lead,
    ;
    vstd::arithmetic::div_mod::lemma_fundamental_div_mod_converse(
        t.bits as int,
        lead as int,
        (1023 + k) as int,
        f as int,
    );
    assert(lead + f == n * p + part) by (nonlinear_arith)
        requires
            q * p == lead,
            f == (n - q) * p + part,
    ;
    vstd::arithmetic::div_mod::lemma_fundamental_div_mod_converse(
        (lead + f) as int,
        p as int,
        n as int,
        part as int,
    );
    if k == 52 {
        assert(p == 1);
        assert(vstd::arithmetic::power2::pow2(0) == 1);
        assert(part == 0);
    }
    assert(t.magnitude() == t.bits);
    assert(t.magnitude() / lead == 1023 + k);
    assert(t.magnitude() % lead == f);
    if k < 52 {
        assert((1075 - (1023 + k)) as nat == (52 - k) as nat);
        assert((lead + f) / p == n);
    } else {
        assert(vstd::arithmetic::power2::pow2((1023 + k - 1075) as nat) == 1);
        assert(n * 1 == n && n * p == n);
    }
    assert(t.whole() == n);
    if k + 1 < 63 {
        vstd::arithmetic::power2::lemma_pow2_strictly_increases(k + 1, 63);
    }
}

/// A time after the epoch is shown as its hour, minute and second of the day, two
/// digits each; any other as not available.
pub proof fn times_are_shown_by_the_clock(t: Timestamp)
    requires
        !t.is_nan(),
    ensures
        t.rank() <= 0 ==> crate::time::time_text(t) == "n/a"@,
        t.rank() > 0 ==> exists|h: nat, m: nat, s: nat|
            {
                &&& h < 24 && m < 60 && s < 60
                &&& (t.whole_seconds() - (3600 * h + 60 * m + s)) % 86_400 == 0
                &&& crate::time::time_text(t) == #[trigger] shown_clock(h, m, s)
            },
{
    if t.rank() > 0 {
        let w = t.whole_seconds();
        let d = w % 86_400;
        let (h, m, s) = ((d / 3600) as nat, (d % 3600 / 60) as nat, (d % 60) as nat);
        assert(d == 3600 * h + 60 * m + s);
        assert(crate::time::time_text(t) =~= shown_clock(h, m, s));
        assert((w - d) % 86_400 == 0);
    }
}

/// The digits of a number below a hundred.
pub open spec fn pair_of_digits(n: nat) -> Seq<char> {
    seq![('0' as nat + n / 10) as char, ('0' as nat + n % 10) as char]
}

/// An hour, a minute and a second as they are shown.
pub open spec fn shown_clock(h: nat, m: nat, s: nat) -> Seq<char> {
    pair_of_digits(h) + seq![':'] + pair_of_digits(m) + seq![':'] + pair_of_digits(s) + " UTC"@
}

} // verus!
