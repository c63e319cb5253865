//! Text as sequences of characters.
//!
//! A log line is taken apart as a vector of characters and put together again
//! as a `String`. Every function here states its result over `Seq<char>`.
use vstd::prelude::*;
use vstd::slice::slice_subrange;

verus! {

/// `String::push`: appends one character to the end of the string.
pub assume_specification[ String::push ](s: &mut String, c: char)
    ensures
        final(s)@ == old(s)@.push(c),
;

/// `String::pop`: removes the last character and returns it, or returns `None`
/// and leaves the string alone where it is empty.
pub assume_specification[ String::pop ](s: &mut String) -> (r: Option<char>)
    ensures
        old(s)@.len() == 0 ==> r is None && final(s)@ == old(s)@,
        old(s)@.len() > 0 ==> r == Some(old(s)@.last()) && final(s)@ == old(s)@.drop_last(),
;

/// The lowercase form of a text, as the Unicode case mappings give it.
pub uninterp spec fn lowercase(s: Seq<char>) -> Seq<char>;

/// The lowercase form of an ASCII character; any other character is its own.
pub open spec fn ascii_lower(c: char) -> char {
    if 'A' <= c <= 'Z' {
        (c as u32 + 32) as char
    } else {
        c
    }
}

/// A text of ASCII characters alone.
pub open spec fn is_ascii(s: Seq<char>) -> bool {
    forall|i: int| 0 <= i < s.len() ==> (#[trigger] s[i]) < '\u{80}'
}

/// A text with `A` to `Z` replaced by `a` to `z`.
pub open spec fn folded(s: Seq<char>) -> Seq<char> {
    s.map_values(|c: char| ascii_lower(c))
}

/// `str::to_lowercase`: the lowercase form of the text, which is named and not
/// spelled out here. On text of ASCII characters alone it replaces `A` to `Z` by
/// `a` to `z` and nothing else.
pub assume_specification[ str::to_lowercase ](s: &str) -> (out: String)
    ensures
        out@ == lowercase(s@),
        (forall|i: int| 0 <= i < s@.len() ==> (#[trigger] s@[i]) < '\u{80}') ==> out@
            == s@.map_values(|c: char| ascii_lower(c)),
;

/// The views of a sequence of strings.
pub open spec fn texts(v: Seq<String>) -> Seq<Seq<char>> {
    v.map_values(|s: String| s@)
}

/// The view of an optional string.
pub open spec fn opt_text(o: Option<String>) -> Option<Seq<char>> {
    match o {
        Some(s) => Some(s@),
        None => None,
    }
}

/// The characters of a string, one per element.
pub fn chars_of(s: &str) -> (out: Vec<char>)
    ensures
        out@ == s@,
{
    let mut out: Vec<char> = Vec::new();
    for c in it: s.chars()
        invariant
            out@ == s@.take(it.index()),
            it.seq() == s@,
    {
        out.push(c);
    }
    assert(s@.take(s@.len() as int) == s@);
    out
}

/// The string made of the given characters.
pub fn text_of(chars: &[char]) -> (out: String)
    ensures
        out@ == chars@,
{
    let mut out = String::new();
    for i in 0..chars.len()
        invariant
            out@ == chars@.take(i as int),
    {
        out.push(chars[i]);
    }
    assert(chars@.take(chars@.len() as int) == chars@);
    out
}

/// Whether the characters spell the string.
pub fn spells(chars: &[char], s: &str) -> (r: bool)
    ensures
        r == (chars@ == s@),
{
    let other = chars_of(s);
    if chars.len() != other.len() {
        return false;
    }
    for i in 0..chars.len()
        invariant
            chars@.len() == other@.len(),
            other@ == s@,
            forall|k: int| 0 <= k < i ==> chars@[k] == other@[k],
    {
        if chars[i] != other[i] {
            return false;
        }
    }
    assert(chars@ =~= s@);
    true
}

/// Whether two strings hold the same characters.
pub fn same_text(a: &str, b: &str) -> (r: bool)
    ensures
        r == (a@ == b@),
{
    spells(chars_of(a).as_slice(), b)
}

/// The characters with the Unicode property `White_Space`.
pub open spec fn is_space(c: char) -> bool {
    ||| '\u{9}' <= c <= '\u{d}'
    ||| c == ' '
    ||| c == '\u{85}'
    ||| c == '\u{a0}'
    ||| c == '\u{1680}'
    ||| '\u{2000}' <= c <= '\u{200a}'
    ||| c == '\u{2028}'
    ||| c == '\u{2029}'
    ||| c == '\u{202f}'
    ||| c == '\u{205f}'
    ||| c == '\u{3000}'
}

/// Whether a character is white space.
pub fn is_whitespace(c: char) -> (r: bool)
    ensures
        r == is_space(c),
{
    ('\u{9}' <= c && c <= '\u{d}') || c == ' ' || c == '\u{85}' || c == '\u{a0}' || c == '\u{1680}'
        || ('\u{2000}' <= c && c <= '\u{200a}') || c == '\u{2028}' || c == '\u{2029}' || c
        == '\u{202f}' || c == '\u{205f}' || c == '\u{3000}'
}

// ---- searching -----------------------------------------------------------

/// `pat` stands in `s` from position `i` on.
pub open spec fn occurs_at(s: Seq<char>, pat: Seq<char>, i: int) -> bool {
    &&& 0 <= i
    &&& i + pat.len() <= s.len()
    &&& s.subrange(i, i + pat.len()) == pat
}

/// `pat` stands somewhere in `s`.
pub open spec fn has(s: Seq<char>, pat: Seq<char>) -> bool {
    exists|i: int| occurs_at(s, pat, i)
}

/// The first position at or after `from` where `pat` stands in `s`.
pub open spec fn find_from(s: Seq<char>, pat: Seq<char>, from: int) -> Option<int>
    decreases s.len() + 1 - from,
{
    if from < 0 || from + pat.len() > s.len() {
        None
    } else if occurs_at(s, pat, from) {
        Some(from)
    } else {
        find_from(s, pat, from + 1)
    }
}

/// The first position where `pat` stands in `s`.
pub open spec fn find(s: Seq<char>, pat: Seq<char>) -> Option<int> {
    find_from(s, pat, 0)
}

/// The first position of a character.
pub open spec fn find_char(s: Seq<char>, c: char) -> Option<int> {
    find(s, seq![c])
}

pub proof fn lemma_find_from(s: Seq<char>, pat: Seq<char>, from: int)
    requires
        0 <= from,
    ensures
        match find_from(s, pat, from) {
            Some(i) => from <= i && occurs_at(s, pat, i) && (forall|j: int|
                from <= j < i ==> !occurs_at(s, pat, j)),
            None => forall|j: int| from <= j ==> !occurs_at(s, pat, j),
        },
    decreases s.len() + 1 - from,
{
    if from + pat.len() <= s.len() && !occurs_at(s, pat, from) {
        lemma_find_from(s, pat, from + 1);
    }
}

/// A position where the pattern stands, with no earlier one, is what `find` gives.
pub proof fn lemma_find_is(s: Seq<char>, pat: Seq<char>, i: int)
    requires
        occurs_at(s, pat, i),
        forall|j: int| 0 <= j < i ==> !occurs_at(s, pat, j),
    ensures
        find(s, pat) == Some(i),
{
    lemma_find_from(s, pat, 0);
}

/// `find` gives a position exactly where the pattern occurs at all.
pub proof fn lemma_find_has(s: Seq<char>, pat: Seq<char>)
    ensures
        find(s, pat) is Some <==> has(s, pat),
{
    lemma_find_from(s, pat, 0);
}

/// A single character stands exactly where the sequence holds it.
pub proof fn lemma_char_occurs(s: Seq<char>, c: char)
    ensures
        forall|i: int| #[trigger] occurs_at(s, seq![c], i) <==> (0 <= i < s.len() && s[i] == c),
{
    assert forall|i: int| #[trigger] occurs_at(s, seq![c], i) <==> (0 <= i < s.len() && s[i] == c) by {
        if 0 <= i < s.len() {
            if s[i] == c {
                assert(s.subrange(i, i + 1) =~= seq![c]);
            } else {
                assert(s.subrange(i, i + 1)[0] == s[i]);
            }
        }
    }
}

pub proof fn lemma_find_char(s: Seq<char>, c: char)
    ensures
        match find_char(s, c) {
            Some(i) => 0 <= i < s.len() && s[i] == c && (forall|j: int| 0 <= j < i ==> s[j] != c),
            None => forall|j: int| 0 <= j < s.len() ==> s[j] != c,
        },
{
    lemma_find_from(s, seq![c], 0);
    lemma_char_occurs(s, c);
    match find_char(s, c) {
        Some(i) => {
            assert forall|j: int| 0 <= j < i implies s[j] != c by {
                assert(!occurs_at(s, seq![c], j));
            }
        },
        None => {
            assert forall|j: int| 0 <= j < s.len() implies s[j] != c by {
                assert(!occurs_at(s, seq![c], j));
            }
        },
    }
}

pub proof fn lemma_find_char_is(s: Seq<char>, c: char, i: int)
    requires
        0 <= i < s.len(),
        s[i] == c,
        forall|j: int| 0 <= j < i ==> s[j] != c,
    ensures
        find_char(s, c) == Some(i),
{
    lemma_find_char(s, c);
}

/// The first position of a character, if it occurs.
pub fn char_position(s: &[char], c: char) -> (r: Option<usize>)
    ensures
        match r {
            Some(i) => find_char(s@, c) == Some(i as int) && i < s@.len(),
            None => find_char(s@, c) is None,
        },
{
    for i in 0..s.len()
        invariant
            forall|j: int| 0 <= j < i ==> s@[j] != c,
    {
        if s[i] == c {
            proof {
                lemma_find_char_is(s@, c, i as int);
            }
            return Some(i);
        }
    }
    proof {
        lemma_find_char(s@, c);
    }
    None
}

/// Whether `pat` stands from position `i` on.
pub fn stands_at(s: &[char], pat: &Vec<char>, i: usize) -> (r: bool)
    requires
        i <= s@.len(),
    ensures
        r == occurs_at(s@, pat@, i as int),
{
    let n = s.len();
    if n - i < pat.len() {
        return false;
    }
    for k in 0..pat.len()
        invariant
            i + pat@.len() <= n,
            n == s@.len(),
            forall|j: int| 0 <= j < k ==> s@[i + j] == pat@[j],
    {
        if s[i + k] != pat[k] {
            proof {
                assert(s@.subrange(i as int, i + pat@.len())[k as int] == s@[i + k]);
            }
            return false;
        }
    }
    assert(s@.subrange(i as int, i + pat@.len()) =~= pat@);
    true
}

/// The first position where a string occurs.
pub fn text_position(s: &[char], pat: &str) -> (r: Option<usize>)
    ensures
        match r {
            Some(i) => find(s@, pat@) == Some(i as int) && i + pat@.len() <= s@.len(),
            None => find(s@, pat@) is None,
        },
{
    let p = chars_of(pat);
    let mut i: usize = 0;
    while i < s.len()
        invariant
            i <= s@.len(),
            p@ == pat@,
            forall|j: int| 0 <= j < i ==> !occurs_at(s@, p@, j),
        decreases s@.len() - i,
    {
        if stands_at(s, &p, i) {
            proof {
                lemma_find_is(s@, p@, i as int);
            }
            return Some(i);
        }
        i = i + 1;
    }
    if stands_at(s, &p, i) {
        proof {
            lemma_find_is(s@, p@, i as int);
        }
        return Some(i);
    }
    proof {
        lemma_find_from(s@, p@, 0);
    }
    None
}

/// Whether a string occurs among the characters.
pub fn has_text(s: &[char], pat: &str) -> (r: bool)
    ensures
        r == has(s@, pat@),
{
    proof {
        lemma_find_has(s@, pat@);
    }
    text_position(s, pat).is_some()
}

/// Whether the characters begin with a string.
pub fn begins_with(s: &[char], pat: &str) -> (r: bool)
    ensures
        r == occurs_at(s@, pat@, 0),
{
    stands_at(s, &chars_of(pat), 0)
}

// ---- splitting -----------------------------------------------------------

/// What stands before the first `sep`, or everything where there is none.
pub open spec fn before(s: Seq<char>, sep: char) -> Seq<char> {
    match find_char(s, sep) {
        Some(i) => s.take(i),
        None => s,
    }
}

/// What stands after the first `sep`, or nothing where there is none.
pub open spec fn after(s: Seq<char>, sep: char) -> Seq<char> {
    match find_char(s, sep) {
        Some(i) => s.skip(i + 1),
        None => Seq::empty(),
    }
}

/// The two sides of the first `sep`; everything and nothing where there is none.
pub fn cut<'a>(s: &'a [char], sep: char) -> (r: (&'a [char], &'a [char]))
    ensures
        r.0@ == before(s@, sep),
        r.1@ == after(s@, sep),
{
    let n = s.len();
    match char_position(s, sep) {
        Some(i) => {
            assert(s@.subrange(0, i as int) =~= s@.take(i as int));
            assert(s@.subrange(i + 1, s@.len() as int) =~= s@.skip(i + 1));
            (slice_subrange(s, 0, i), slice_subrange(s, i + 1, n))
        },
        None => {
            assert(s@.subrange(s@.len() as int, s@.len() as int) =~= Seq::<char>::empty());
            (s, slice_subrange(s, n, n))
        },
    }
}

/// The list of one text, or no text at all where it is empty.
pub open spec fn unless_empty(cur: Seq<char>) -> Seq<Seq<char>> {
    if cur.len() == 0 {
        Seq::empty()
    } else {
        seq![cur]
    }
}

/// The words of `s`: the longest runs without white space, `cur` being the
/// beginning of the first one.
pub open spec fn words_from(s: Seq<char>, cur: Seq<char>) -> Seq<Seq<char>>
    decreases s.len(),
{
    if s.len() == 0 {
        unless_empty(cur)
    } else if is_space(s[0]) {
        unless_empty(cur) + words_from(s.skip(1), Seq::empty())
    } else {
        words_from(s.skip(1), cur.push(s[0]))
    }
}

/// The words of `s`: the longest runs without white space.
pub open spec fn words(s: Seq<char>) -> Seq<Seq<char>> {
    words_from(s, Seq::empty())
}

pub proof fn lemma_texts_push(v: Seq<String>, s: String)
    ensures
        texts(v.push(s)) == texts(v).push(s@),
{
    assert(texts(v.push(s)) =~= texts(v).push(s@));
}

/// Splits at white space.
pub fn split_whitespace(s: &[char]) -> (out: Vec<String>)
    ensures
        texts(out@) == words(s@),
{
    let mut out: Vec<String> = Vec::new();
    let mut cur = String::new();
    assert(s@.skip(0) =~= s@);
    assert(texts(out@) =~= Seq::<Seq<char>>::empty());
    for i in 0..s.len()
        invariant
            texts(out@) + words_from(s@.skip(i as int), cur@) == words(s@),
    {
        let c = s[i];
        let ghost rest = s@.skip(i as int);
        assert(rest.skip(1) =~= s@.skip(i + 1));
        assert(rest[0] == c);
        if is_whitespace(c) {
            let ghost done = texts(out@);
            let ghost later = words_from(rest.skip(1), Seq::empty());
            if !cur.as_str().is_empty() {
                proof {
                    lemma_texts_push(out@, cur);
                    assert((done + seq![cur@]) + later =~= done + (seq![cur@] + later));
                    assert(done + seq![cur@] =~= done.push(cur@));
                }
                out.push(cur);
                cur = String::new();
            } else {
                assert(done + (Seq::<Seq<char>>::empty() + later) =~= done + later);
                assert(cur@ =~= Seq::<char>::empty());
            }
        } else {
            cur.push(c);
        }
    }
    assert(s@.skip(s@.len() as int) =~= Seq::<char>::empty());
    if !cur.as_str().is_empty() {
        proof {
            lemma_texts_push(out@, cur);
            assert(texts(out@) + seq![cur@] =~= texts(out@).push(cur@));
        }
        out.push(cur);
    } else {
        assert(texts(out@) + Seq::<Seq<char>>::empty() =~= texts(out@));
    }
    out
}

/// `s` without the carriage return at its end, if one stands there.
pub open spec fn strip_cr(s: Seq<char>) -> Seq<char> {
    if s.len() > 0 && s.last() == '\r' {
        s.drop_last()
    } else {
        s
    }
}

/// The lines of `s`. A line ends with a line feed, or with a carriage return and
/// a line feed; neither belongs to the line. What follows the last line feed is
/// a line only if it is not empty.
pub open spec fn lines_of(s: Seq<char>) -> Seq<Seq<char>>
    decreases s.len(),
{
    match find_char(s, '\n') {
        Some(i) => if 0 <= i < s.len() {
            seq![strip_cr(s.take(i))] + lines_of(s.skip(i + 1))
        } else {
            Seq::empty()
        },
        None => unless_empty(s),
    }
}

/// The views of a sequence of character vectors.
pub open spec fn char_views(v: Seq<Vec<char>>) -> Seq<Seq<char>> {
    v.map_values(|c: Vec<char>| c@)
}

fn without_cr(s: &[char]) -> (r: &[char])
    ensures
        r@ == strip_cr(s@),
{
    let n = s.len();
    if n > 0 && s[n - 1] == '\r' {
        assert(s@.subrange(0, n - 1) =~= s@.drop_last());
        slice_subrange(s, 0, n - 1)
    } else {
        s
    }
}

/// Splits text into lines.
pub fn split_lines(s: &[char]) -> (out: Vec<Vec<char>>)
    ensures
        char_views(out@) == lines_of(s@),
{
    let mut out: Vec<Vec<char>> = Vec::new();
    let mut rest: &[char] = s;
    assert(char_views(out@) =~= Seq::<Seq<char>>::empty());
    loop
        invariant
            char_views(out@) + lines_of(rest@) == lines_of(s@),
        decreases rest@.len(),
    {
        let n = rest.len();
        match char_position(rest, '\n') {
            Some(i) => {
                let line = slice_subrange(rest, 0, i);
                let next = slice_subrange(rest, i + 1, n);
                assert(line@ =~= rest@.take(i as int));
                assert(next@ =~= rest@.skip(i + 1));
                let kept = vstd::slice::slice_to_vec(without_cr(line));
                proof {
                    let done = char_views(out@);
                    let head = strip_cr(rest@.take(i as int));
                    let later = lines_of(rest@.skip(i + 1));
                    assert(char_views(out@.push(kept)) =~= done.push(head));
                    assert(done.push(head) + later =~= done + (seq![head] + later));
                }
                out.push(kept);
                rest = next;
            },
            None => {
                if n > 0 {
                    let kept = vstd::slice::slice_to_vec(rest);
                    proof {
                        let done = char_views(out@);
                        assert(char_views(out@.push(kept)) =~= done + seq![rest@]);
                    }
                    out.push(kept);
                } else {
                    assert(char_views(out@) + Seq::<Seq<char>>::empty() =~= char_views(out@));
                }
                return out;
            },
        }
    }
}

/// `s` without the white space at its beginning.
pub open spec fn trim_start(s: Seq<char>) -> Seq<char>
    decreases s.len(),
{
    if s.len() > 0 && is_space(s[0]) {
        trim_start(s.skip(1))
    } else {
        s
    }
}

/// `s` without the white space at its end.
pub open spec fn trim_end(s: Seq<char>) -> Seq<char>
    decreases s.len(),
{
    if s.len() > 0 && is_space(s.last()) {
        trim_end(s.drop_last())
    } else {
        s
    }
}

/// `s` without the white space at both ends.
pub open spec fn trimmed(s: Seq<char>) -> Seq<char> {
    trim_end(trim_start(s))
}

/// Removes the white space at the beginning.
pub fn trim_front<'a>(s: &'a [char]) -> (r: &'a [char])
    ensures
        r@ == trim_start(s@),
{
    let n = s.len();
    let mut i: usize = 0;
    assert(s@.skip(0) =~= s@);
    while i < n && is_whitespace(s[i])
        invariant
            i <= n == s@.len(),
            trim_start(s@.skip(i as int)) == trim_start(s@),
        decreases n - i,
    {
        assert(s@.skip(i as int).skip(1) =~= s@.skip(i + 1));
        i = i + 1;
    }
    assert(s@.subrange(i as int, n as int) =~= s@.skip(i as int));
    slice_subrange(s, i, n)
}

/// Removes the white space at both ends.
pub fn trim<'a>(s: &'a [char]) -> (r: &'a [char])
    ensures
        r@ == trimmed(s@),
{
    let kept = trim_front(s);
    let mut j: usize = kept.len();
    assert(kept@.subrange(0, j as int) =~= kept@);
    while j > 0 && is_whitespace(kept[j - 1])
        invariant
            j <= kept@.len(),
            trim_end(kept@.subrange(0, j as int)) == trim_end(kept@),
        decreases j,
    {
        assert(kept@.subrange(0, j as int).drop_last() =~= kept@.subrange(0, j - 1));
        j = j - 1;
    }
    slice_subrange(kept, 0, j)
}

/// `s` without the colons at its beginning.
pub open spec fn trim_colons(s: Seq<char>) -> Seq<char>
    decreases s.len(),
{
    if s.len() > 0 && s[0] == ':' {
        trim_colons(s.skip(1))
    } else {
        s
    }
}

/// Removes the colons at the beginning.
pub fn strip_colons<'a>(s: &'a [char]) -> (r: &'a [char])
    ensures
        r@ == trim_colons(s@),
{
    let n = s.len();
    let mut i: usize = 0;
    assert(s@.skip(0) =~= s@);
    while i < n && s[i] == ':'
        invariant
            i <= n == s@.len(),
            trim_colons(s@.skip(i as int)) == trim_colons(s@),
        decreases n - i,
    {
        assert(s@.skip(i as int).skip(1) =~= s@.skip(i + 1));
        i = i + 1;
    }
    assert(s@.subrange(i as int, n as int) =~= s@.skip(i as int));
    slice_subrange(s, i, n)
}

// ---- putting together ----------------------------------------------------

/// The parts in order, with `sep` between each two of them.
pub open spec fn joined(parts: Seq<Seq<char>>, sep: Seq<char>) -> Seq<char>
    decreases parts.len(),
{
    if parts.len() == 0 {
        Seq::empty()
    } else if parts.len() == 1 {
        parts[0]
    } else {
        joined(parts.drop_last(), sep) + sep + parts.last()
    }
}

/// Joins strings with a separator between each two of them.
pub fn join(parts: &[String], sep: &str) -> (out: String)
    ensures
        out@ == joined(texts(parts@), sep@),
{
    let mut out = String::new();
    let ghost all = texts(parts@);
    assert(all.take(0) =~= Seq::<Seq<char>>::empty());
    for i in 0..parts.len()
        invariant
            all == texts(parts@),
            out@ == joined(all.take(i as int), sep@),
    {
        assert(all.take(i + 1).drop_last() =~= all.take(i as int));
        assert(all.take(i + 1).last() == parts@[i as int]@);
        if i > 0 {
            out.append(sep);
        } else {
            assert(out@ + parts@[i as int]@ =~= parts@[i as int]@);
        }
        out.append(parts[i].as_str());
    }
    assert(all.take(parts@.len() as int) =~= all);
    out
}

/// `n` blanks.
pub open spec fn blanks(n: nat) -> Seq<char> {
    Seq::new(n, |i: int| ' ')
}

/// `s` followed by as many blanks as bring it to `width` characters.
pub open spec fn padded(s: Seq<char>, width: nat) -> Seq<char> {
    if s.len() >= width {
        s
    } else {
        s + blanks((width - s.len()) as nat)
    }
}

/// Fills a string with blanks on the right, up to a width in characters.
pub fn pad_right(s: &str, width: usize) -> (out: String)
    ensures
        out@ == padded(s@, width as nat),
{
    let mut n: usize = s.unicode_len();
    let mut out = s.to_owned();
    if n >= width {
        return out;
    }
    assert(out@ =~= s@ + blanks(0));
    while n < width
        invariant
            s@.len() <= n <= width,
            out@ == s@ + blanks((n - s@.len()) as nat),
        decreases width - n,
    {
        out.push(' ');
        n = n + 1;
        assert(out@ =~= s@ + blanks((n - s@.len()) as nat));
    }
    out
}

} // verus!
