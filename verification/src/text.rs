//! Text as sequences of characters: searching, trimming, splitting and joining.
//!
//! A `String` or `&str` is modelled by its view, the sequence of its characters.
//! Positions and lengths count characters.

use vstd::prelude::*;

verus! {

/// The model of a piece of text.
pub type Text = Seq<char>;

/// `String::push`: appends one character.
pub assume_specification[ String::push ](s: &mut String, c: char)
    ensures
        final(s)@ == old(s)@.push(c),
;

/// What `str::to_lowercase` makes of a text.
pub uninterp spec fn lowercase_of(s: Seq<char>) -> Seq<char>;

/// `str::to_lowercase`: the lowercase equivalent of the text in Unicode's terms. Its result is a
/// function of the text alone; in a text of ASCII characters just the letters A to Z change.
pub assume_specification[ str::to_lowercase ](s: &str) -> (r: String)
    ensures
        r@ == lowercase_of(s@),
        (forall|i: int| 0 <= i < s@.len() ==> (#[trigger] s@[i]) as u32 <= 127) ==> r@
            == s@.map_values(|c: char| ascii_lower(c)),
;

/// Whether `char::is_alphanumeric` holds of a character.
pub uninterp spec fn alphanumeric_char(c: char) -> bool;

/// `char::is_alphanumeric`: whether Unicode counts the character as alphabetic or numeric. Among
/// the ASCII characters these are the letters and the digits.
pub assume_specification[ char::is_alphanumeric ](c: char) -> (r: bool)
    ensures
        r == alphanumeric_char(c),
        c as u32 <= 127 ==> r == ('a' <= c <= 'z' || 'A' <= c <= 'Z' || '0' <= c <= '9'),
;

/// Whether `char::is_uppercase` holds of a character.
pub uninterp spec fn uppercase_char(c: char) -> bool;

/// `char::is_uppercase`: whether the character has Unicode's `Uppercase` property. Among the
/// ASCII characters these are the letters A to Z.
pub assume_specification[ char::is_uppercase ](c: char) -> (r: bool)
    ensures
        r == uppercase_char(c),
        c as u32 <= 127 ==> r == ('A' <= c <= 'Z'),
;

/// The model of an optional text.
pub open spec fn opt_text(s: Option<String>) -> Option<Text> {
    match s {
        Some(s) => Some(s@),
        None => None,
    }
}

/// The Unicode characters with the `White_Space` property.
pub open spec fn is_space(c: char) -> bool {
    ||| 0x09 <= c as int <= 0x0d
    ||| c as int == 0x20
    ||| c as int == 0x85
    ||| c as int == 0xa0
    ||| c as int == 0x1680
    ||| 0x2000 <= c as int <= 0x200a
    ||| c as int == 0x2028
    ||| c as int == 0x2029
    ||| c as int == 0x202f
    ||| c as int == 0x205f
    ||| c as int == 0x3000
}

/// `s` without its leading white space.
pub open spec fn trim_start_of(s: Text) -> Text
    decreases s.len(),
{
    if s.len() > 0 && is_space(s.first()) {
        trim_start_of(s.drop_first())
    } else {
        s
    }
}

/// `s` without its trailing white space.
pub open spec fn trim_end_of(s: Text) -> Text
    decreases s.len(),
{
    if s.len() > 0 && is_space(s.last()) {
        trim_end_of(s.drop_last())
    } else {
        s
    }
}

/// `s` without the white space at either end.
pub open spec fn trim_of(s: Text) -> Text {
    trim_end_of(trim_start_of(s))
}

/// Every character of `s` is white space.
pub open spec fn is_blank(s: Text) -> bool {
    forall|i: int| 0 <= i < s.len() ==> is_space(#[trigger] s[i])
}

/// `part` stands in `s` at position `at`.
pub open spec fn occurs_at(s: Text, part: Text, at: int) -> bool {
    0 <= at && at + part.len() <= s.len() && s.subrange(at, at + part.len()) == part
}

/// `part` stands somewhere in `s`.
pub open spec fn contains_text(s: Text, part: Text) -> bool {
    exists|at: int| occurs_at(s, part, at)
}

/// The first position at or after `from` at which `part` stands in `s`.
pub open spec fn find_from(s: Text, part: Text, from: int) -> Option<int>
    decreases s.len() + 1 - from,
{
    if from < 0 || from + part.len() > s.len() {
        None
    } else if occurs_at(s, part, from) {
        Some(from)
    } else {
        find_from(s, part, from + 1)
    }
}

/// `s` with each occurrence of `from`, taken from the left without overlap, replaced by `to`.
pub open spec fn replace_of(s: Text, from: Text, to: Text) -> Text
    recommends
        from.len() > 0,
    decreases s.len(),
{
    match find_from(s, from, 0) {
        Some(at) => if from.len() > 0 && 0 <= at && at + from.len() <= s.len() {
            s.take(at) + to + replace_of(s.skip(at + from.len()), from, to)
        } else {
            s
        },
        None => s,
    }
}

/// The first position at or after `from` that holds `c`, or the end of `s`.
pub open spec fn index_of_char(s: Text, c: char, from: int) -> int
    decreases s.len() - from,
{
    if 0 <= from < s.len() && s[from] != c {
        index_of_char(s, c, from + 1)
    } else {
        from
    }
}

/// `line` without one carriage return at its end.
pub open spec fn strip_return(line: Text) -> Text {
    if line.len() > 0 && line.last() == '\r' {
        line.drop_last()
    } else {
        line
    }
}

/// The lines of `s`: each ends at a line feed, with a carriage return before it or not, and the
/// last one may lack that ending.
pub open spec fn lines_of(s: Text) -> Seq<Text>
    decreases s.len(),
{
    if s.len() == 0 {
        Seq::empty()
    } else {
        let end = index_of_char(s, '\n', 0);
        if 0 <= end < s.len() {
            seq![strip_return(s.take(end))] + lines_of(s.skip(end + 1))
        } else {
            seq![s]
        }
    }
}

/// The pieces of `s` between occurrences of the character `sep`; at least one.
pub open spec fn split_char_of(s: Text, sep: char) -> Seq<Text>
    decreases s.len(),
{
    let end = index_of_char(s, sep, 0);
    if 0 <= end < s.len() {
        seq![s.take(end)] + split_char_of(s.skip(end + 1), sep)
    } else {
        seq![s]
    }
}

/// The longest start of `s` that holds no white space.
pub open spec fn leading_word(s: Text) -> Text
    decreases s.len(),
{
    if s.len() > 0 && !is_space(s.first()) {
        seq![s.first()] + leading_word(s.drop_first())
    } else {
        Seq::empty()
    }
}

/// The first run of characters in `s` that are not white space; empty where there is none.
pub open spec fn first_word_of(s: Text) -> Text {
    leading_word(trim_start_of(s))
}

/// `parts` one after another, with `sep` between neighbours.
pub open spec fn join_of(parts: Seq<Text>, sep: Text) -> Text
    decreases parts.len(),
{
    if parts.len() == 0 {
        Seq::empty()
    } else if parts.len() == 1 {
        parts[0]
    } else {
        join_of(parts.drop_last(), sep) + sep + parts.last()
    }
}

/// `parts` one after another.
pub open spec fn concat_of(parts: Seq<Text>) -> Text
    decreases parts.len(),
{
    if parts.len() == 0 {
        Seq::empty()
    } else {
        concat_of(parts.drop_last()) + parts.last()
    }
}

/// The views of a list of strings.
pub open spec fn views(list: Seq<String>) -> Seq<Text> {
    list.map_values(|s: String| s@)
}

/// The first `n` characters of `s`, or all of it where it is shorter.
pub open spec fn clip(s: Text, n: int) -> Text {
    if n <= 0 {
        Seq::empty()
    } else if n < s.len() {
        s.take(n)
    } else {
        s
    }
}

/// `c` with the letters A to Z made small.
pub open spec fn ascii_lower(c: char) -> char {
    if 'A' <= c <= 'Z' {
        (c as u32 + 32) as char
    } else {
        c
    }
}

/// `a` and `b` are equal up to the case of the letters A to Z.
pub open spec fn same_ignoring_ascii_case(a: Text, b: Text) -> bool {
    a.len() == b.len() && forall|i: int|
        0 <= i < a.len() ==> ascii_lower(#[trigger] a[i]) == ascii_lower(b[i])
}

/// `s` followed by as many spaces as bring it to `width` characters.
pub open spec fn pad_right_of(s: Text, width: int) -> Text
    decreases width - s.len(),
{
    if s.len() < width {
        pad_right_of(s.push(' '), width)
    } else {
        s
    }
}

/// The characters of `s`.
pub fn chars_of(s: &str) -> (v: Vec<char>)
    ensures
        v@ == s@,
{
    let mut v: Vec<char> = Vec::new();
    for c in it: s.chars()
        invariant
            v@ == s@.take(it.index()),
            it.seq() == s@,
    {
        v.push(c);
        assert(s@.take(it.index() + 1) == s@.take(it.index()).push(c));
    }
    assert(s@.take(s@.len() as int) == s@);
    v
}

/// The characters of `v` from `from` up to `to`, as a string.
pub fn slice_text(v: &Vec<char>, from: usize, to: usize) -> (s: String)
    requires
        from <= to <= v@.len(),
    ensures
        s@ == v@.subrange(from as int, to as int),
{
    let mut s = String::new();
    let mut i = from;
    while i < to
        invariant
            from <= i <= to <= v@.len(),
            s@ == v@.subrange(from as int, i as int),
        decreases to - i,
    {
        s.push(v[i]);
        i = i + 1;
        assert(v@.subrange(from as int, i as int) == v@.subrange(from as int, i - 1).push(
            v@[i - 1],
        ));
    }
    s
}

/// Whether `a` and `b` hold the same characters.
pub fn same(a: &str, b: &str) -> (r: bool)
    ensures
        r == (a@ == b@),
{
    a.to_owned() == b.to_owned()
}

/// Whether `c` is white space.
pub fn space(c: char) -> (r: bool)
    ensures
        r == is_space(c),
{
    let n = c as u32;
    (0x09 <= n && n <= 0x0d) || n == 0x20 || n == 0x85 || n == 0xa0 || n == 0x1680 || (0x2000 <= n
        && n <= 0x200a) || n == 0x2028 || n == 0x2029 || n == 0x202f || n == 0x205f || n == 0x3000
}

/// Where the white space at the start of `v` from `from` on ends, before `to`.
fn space_end(v: &Vec<char>, from: usize, to: usize) -> (i: usize)
    requires
        from <= to <= v@.len(),
    ensures
        from <= i <= to,
        trim_start_of(v@.subrange(from as int, to as int)) == v@.subrange(i as int, to as int),
{
    let mut i = from;
    while i < to && space(v[i])
        invariant
            from <= i <= to <= v@.len(),
            trim_start_of(v@.subrange(from as int, to as int)) == trim_start_of(
                v@.subrange(i as int, to as int),
            ),
        decreases to - i,
    {
        assert(v@.subrange(i as int, to as int).drop_first() == v@.subrange(i + 1, to as int));
        i = i + 1;
    }
    i
}

/// Where the white space at the end of `v` between `from` and `to` begins.
fn space_start(v: &Vec<char>, from: usize, to: usize) -> (j: usize)
    requires
        from <= to <= v@.len(),
    ensures
        from <= j <= to,
        trim_end_of(v@.subrange(from as int, to as int)) == v@.subrange(from as int, j as int),
{
    let mut j = to;
    while j > from && space(v[j - 1])
        invariant
            from <= j <= to <= v@.len(),
            trim_end_of(v@.subrange(from as int, to as int)) == trim_end_of(
                v@.subrange(from as int, j as int),
            ),
        decreases j,
    {
        assert(v@.subrange(from as int, j as int).drop_last() == v@.subrange(from as int, j - 1));
        j = j - 1;
    }
    j
}

/// `s` without its leading white space.
pub fn trim_start(s: &str) -> (r: String)
    ensures
        r@ == trim_start_of(s@),
{
    let v = chars_of(s);
    assert(v@.subrange(0, v@.len() as int) == s@);
    let i = space_end(&v, 0, v.len());
    slice_text(&v, i, v.len())
}

/// `s` without the white space at either end.
pub fn trim(s: &str) -> (r: String)
    ensures
        r@ == trim_of(s@),
{
    let v = chars_of(s);
    assert(v@.subrange(0, v@.len() as int) == s@);
    let i = space_end(&v, 0, v.len());
    let j = space_start(&v, i, v.len());
    slice_text(&v, i, j)
}

/// Trimming at the start leaves nothing exactly where there is only white space.
proof fn lemma_trim_start_blank(s: Text)
    ensures
        (trim_start_of(s).len() == 0) == is_blank(s),
        trim_start_of(s).len() > 0 ==> !is_space(trim_start_of(s).first()),
    decreases s.len(),
{
    if s.len() > 0 {
        if is_space(s.first()) {
            lemma_trim_start_blank(s.drop_first());
            if is_blank(s.drop_first()) {
                assert forall|i: int| 0 <= i < s.len() implies is_space(#[trigger] s[i]) by {
                    if i > 0 {
                        assert(s[i] == s.drop_first()[i - 1]);
                    }
                }
            } else {
                let i = choose|i: int| 0 <= i < s.len() - 1 && !is_space(s.drop_first()[i]);
                assert(!is_space(s[i + 1]));
            }
        } else {
            assert(!is_space(s[0]));
        }
    }
}

/// A text that does not start with white space is not trimmed away at its end.
proof fn lemma_trim_end_keeps(s: Text)
    requires
        s.len() > 0,
        !is_space(s.first()),
    ensures
        trim_end_of(s).len() > 0,
    decreases s.len(),
{
    if is_space(s.last()) {
        assert(s.len() > 1);
        lemma_trim_end_keeps(s.drop_last());
    }
}

/// Trimming leaves nothing exactly where there is only white space.
pub proof fn law_blank_is_trimmed_away(s: Text)
    ensures
        (trim_of(s).len() == 0) == is_blank(s),
{
    lemma_trim_start_blank(s);
    if trim_start_of(s).len() > 0 {
        lemma_trim_end_keeps(trim_start_of(s));
    }
}

/// Whether `s` holds nothing but white space.
pub fn blank(s: &str) -> (r: bool)
    ensures
        r == is_blank(s@),
{
    let v = chars_of(s);
    let mut i: usize = 0;
    while i < v.len()
        invariant
            i <= v@.len(),
            v@ == s@,
            forall|k: int| 0 <= k < i ==> is_space(#[trigger] s@[k]),
        decreases v@.len() - i,
    {
        if !space(v[i]) {
            assert(!is_space(s@[i as int]));
            return false;
        }
        i = i + 1;
    }
    true
}

/// Whether `part` stands in `v` at position `at`.
fn part_at(v: &Vec<char>, part: &Vec<char>, at: usize) -> (r: bool)
    requires
        at + part@.len() <= v@.len(),
    ensures
        r == occurs_at(v@, part@, at as int),
{
    let n = v.len();
    let mut k: usize = 0;
    while k < part.len()
        invariant
            k <= part@.len(),
            at + part@.len() <= v@.len() == n,
            forall|j: int| 0 <= j < k ==> v@[at + j] == #[trigger] part@[j],
        decreases part@.len() - k,
    {
        if v[at + k] != part[k] {
            assert(v@.subrange(at as int, at + part@.len())[k as int] != part@[k as int]);
            return false;
        }
        k = k + 1;
    }
    assert(v@.subrange(at as int, at + part@.len()) == part@);
    true
}

/// The first position at or after `from` at which `part` stands in `v`.
pub fn find_part(v: &Vec<char>, part: &Vec<char>, from: usize) -> (r: Option<usize>)
    requires
        from <= v@.len(),
    ensures
        match r {
            Some(at) => find_from(v@, part@, from as int) == Some(at as int),
            None => find_from(v@, part@, from as int) is None,
        },
{
    if part.len() > v.len() {
        return None;
    }
    let last = v.len() - part.len();
    let mut i = from;
    while i <= last
        invariant
            last + part@.len() == v@.len(),
            from <= i <= v@.len(),
            find_from(v@, part@, from as int) == find_from(v@, part@, i as int),
        decreases v@.len() + 1 - i,
    {
        if part_at(v, part, i) {
            return Some(i);
        }
        if i == last {
            assert(find_from(v@, part@, i + 1) is None);
            return None;
        }
        i = i + 1;
    }
    None
}

/// What `find_from` finds is the first occurrence, and it finds one where there is one.
pub proof fn lemma_find_from(s: Text, part: Text, from: int)
    requires
        0 <= from,
    ensures
        match find_from(s, part, from) {
            Some(at) => from <= at && occurs_at(s, part, at) && forall|k: int|
                from <= k < at ==> !occurs_at(s, part, k),
            None => forall|k: int| from <= k ==> !occurs_at(s, part, k),
        },
    decreases s.len() + 1 - from,
{
    if from + part.len() <= s.len() && !occurs_at(s, part, from) {
        lemma_find_from(s, part, from + 1);
    }
}

/// Whether `part` stands somewhere in `s`.
pub fn contains(s: &str, part: &str) -> (r: bool)
    ensures
        r == contains_text(s@, part@),
{
    let v = chars_of(s);
    let p = chars_of(part);
    proof {
        lemma_find_from(s@, part@, 0);
    }
    find_part(&v, &p, 0).is_some()
}

/// Whether `s` begins with `part`.
pub fn starts_with(s: &str, part: &str) -> (r: bool)
    ensures
        r == part@.is_prefix_of(s@),
{
    let v = chars_of(s);
    let p = chars_of(part);
    if p.len() > v.len() {
        return false;
    }
    part_at(&v, &p, 0)
}

/// Whether `s` ends with `part`.
pub fn ends_with(s: &str, part: &str) -> (r: bool)
    ensures
        r == part@.is_suffix_of(s@),
{
    let v = chars_of(s);
    let p = chars_of(part);
    if p.len() > v.len() {
        return false;
    }
    part_at(&v, &p, v.len() - p.len())
}

/// The part of `s` behind its first `n` characters.
pub fn skip_chars(s: &str, n: usize) -> (r: String)
    requires
        n <= s@.len(),
    ensures
        r@ == s@.skip(n as int),
{
    let v = chars_of(s);
    slice_text(&v, n, v.len())
}

/// The first `n` characters of `s`, or all of it where it is shorter.
pub fn clipped(s: &str, n: usize) -> (r: String)
    ensures
        r@ == clip(s@, n as int),
{
    let v = chars_of(s);
    if n < v.len() {
        slice_text(&v, 0, n)
    } else {
        s.to_owned()
    }
}

/// `s` with each occurrence of `from`, taken from the left, replaced by `to`.
pub fn replace(s: &str, from: &str, to: &str) -> (r: String)
    requires
        from@.len() > 0,
    ensures
        r@ == replace_of(s@, from@, to@),
{
    let v = chars_of(s);
    let p = chars_of(from);
    let mut out = String::new();
    let mut i: usize = 0;
    assert(v@.skip(0) == s@);
    while i < v.len()
        invariant
            i <= v@.len(),
            v@ == s@,
            p@ == from@,
            p@.len() > 0,
            replace_of(s@, from@, to@) == out@ + replace_of(v@.skip(i as int), from@, to@),
        decreases v@.len() - i,
    {
        let ghost rest = v@.skip(i as int);
        proof {
            lemma_find_shift(v@, from@, i as int, 0);
            lemma_find_from(v@, from@, i as int);
        }
        match find_part(&v, &p, i) {
            Some(at) => {
                let piece = slice_text(&v, i, at);
                out.append(piece.as_str());
                out.append(to);
                assert(rest.take(at - i) == v@.subrange(i as int, at as int));
                assert(rest.skip(at - i + p@.len()) == v@.skip(at + p@.len()));
                i = at + p.len();
            },
            None => {
                let piece = slice_text(&v, i, v.len());
                out.append(piece.as_str());
                assert(piece@ == rest);
                i = v.len();
                assert(v@.skip(i as int) == Seq::<char>::empty());
                assert(replace_of(Seq::<char>::empty(), from@, to@) == Seq::<char>::empty());
                assert(out@ + Seq::<char>::empty() == out@);
            },
        }
    }
    assert(v@.skip(i as int) == Seq::<char>::empty());
    assert(out@ + Seq::<char>::empty() == out@);
    out
}

/// Searching in the rest of a text is searching in the text from there on.
pub proof fn lemma_find_shift(s: Text, part: Text, start: int, from: int)
    requires
        0 <= start <= s.len(),
        0 <= from,
    ensures
        find_from(s, part, start + from) == match find_from(s.skip(start), part, from) {
            Some(at) => Some(start + at),
            None => None::<int>,
        },
    decreases s.len() + 1 - from,
{
    if start + from + part.len() <= s.len() {
        assert(s.skip(start).subrange(from, from + part.len()) == s.subrange(
            start + from,
            start + from + part.len(),
        ));
        if !occurs_at(s, part, start + from) {
            lemma_find_shift(s, part, start, from + 1);
        }
    }
}

/// The first position at or after `from` that holds `c`, or the end of `v`.
fn char_index(v: &Vec<char>, c: char, from: usize) -> (i: usize)
    requires
        from <= v@.len(),
    ensures
        from <= i <= v@.len(),
        i as int == index_of_char(v@, c, from as int),
        i < v@.len() ==> v@[i as int] == c,
{
    let mut i = from;
    while i < v.len() && v[i] != c
        invariant
            from <= i <= v@.len(),
            index_of_char(v@, c, from as int) == index_of_char(v@, c, i as int),
        decreases v@.len() - i,
    {
        i = i + 1;
    }
    i
}

/// Looking for a character in the rest of a text is looking for it in the text from there on.
pub proof fn lemma_index_shift(s: Text, c: char, start: int, from: int)
    requires
        0 <= start <= s.len(),
        0 <= from <= s.len() - start,
    ensures
        index_of_char(s, c, start + from) == start + index_of_char(s.skip(start), c, from),
        start + from <= index_of_char(s, c, start + from) <= s.len(),
    decreases s.len() - from,
{
    if start + from < s.len() {
        assert(s.skip(start)[from] == s[start + from]);
        if s[start + from] != c {
            lemma_index_shift(s, c, start, from + 1);
        }
    }
}

/// The lines of `s`.
pub fn lines(s: &str) -> (r: Vec<String>)
    ensures
        views(r@) == lines_of(s@),
{
    let v = chars_of(s);
    let mut out: Vec<String> = Vec::new();
    let mut i: usize = 0;
    assert(v@.skip(0) == s@);
    assert(views(out@) + lines_of(s@) == lines_of(s@));
    while i < v.len()
        invariant
            i <= v@.len(),
            v@ == s@,
            lines_of(s@) == views(out@) + lines_of(v@.skip(i as int)),
        decreases v@.len() - i,
    {
        let ghost rest = v@.skip(i as int);
        let ghost before = out@;
        proof {
            lemma_index_shift(v@, '\n', i as int, 0);
        }
        let end = char_index(&v, '\n', i);
        if end < v.len() {
            let mut stop = end;
            assert(rest.take(end - i) == v@.subrange(i as int, end as int));
            if end > i && v[end - 1] == '\r' {
                stop = end - 1;
                assert(rest.take(end - i).drop_last() == v@.subrange(i as int, stop as int));
            }
            let line = slice_text(&v, i, stop);
            assert(line@ == strip_return(rest.take(end - i)));
            out.push(line);
            assert(views(out@) == views(before).push(line@));
            assert(rest.skip(end - i + 1) == v@.skip(end + 1));
            i = end + 1;
            assert(views(before) + (seq![line@] + lines_of(v@.skip(i as int))) == views(out@)
                + lines_of(v@.skip(i as int)));
        } else {
            let line = slice_text(&v, i, v.len());
            assert(line@ == rest);
            out.push(line);
            assert(views(out@) == views(before).push(line@));
            i = v.len();
            assert(v@.skip(i as int).len() == 0);
            assert(views(before) + seq![line@] == views(out@) + lines_of(v@.skip(i as int)));
        }
    }
    assert(v@.skip(i as int).len() == 0);
    assert(views(out@) + Seq::<Text>::empty() == views(out@));
    out
}

/// The pieces of `s` between occurrences of `sep`.
pub fn split_char(s: &str, sep: char) -> (r: Vec<String>)
    ensures
        views(r@) == split_char_of(s@, sep),
{
    let v = chars_of(s);
    let mut out: Vec<String> = Vec::new();
    let mut i: usize = 0;
    assert(v@.skip(0) == s@);
    assert(views(out@) + split_char_of(s@, sep) == split_char_of(s@, sep));
    loop
        invariant
            i <= v@.len(),
            v@ == s@,
            split_char_of(s@, sep) == views(out@) + split_char_of(v@.skip(i as int), sep),
        decreases v@.len() - i,
    {
        let ghost rest = v@.skip(i as int);
        let ghost before = out@;
        proof {
            lemma_index_shift(v@, sep, i as int, 0);
        }
        let end = char_index(&v, sep, i);
        let piece = slice_text(&v, i, end);
        assert(rest.take(end - i) == v@.subrange(i as int, end as int));
        out.push(piece);
        assert(views(out@) == views(before).push(piece@));
        if end < v.len() {
            assert(rest.skip(end - i + 1) == v@.skip(end + 1));
            i = end + 1;
            assert(views(before) + (seq![piece@] + split_char_of(v@.skip(i as int), sep)) == views(
                out@,
            ) + split_char_of(v@.skip(i as int), sep));
        } else {
            assert(rest.take(end - i) == rest);
            assert(views(before) + seq![piece@] == views(out@));
            return out;
        }
    }
}

/// The first run of characters in `s` that are not white space.
pub fn first_word(s: &str) -> (r: String)
    ensures
        r@ == first_word_of(s@),
{
    let v = chars_of(s);
    assert(v@.subrange(0, v@.len() as int) == s@);
    let start = space_end(&v, 0, v.len());
    let mut i = start;
    let mut out = String::new();
    let ghost trimmed = trim_start_of(s@);
    assert(trimmed == v@.skip(start as int));
    assert(out@ + leading_word(trimmed) == leading_word(trimmed));
    while i < v.len() && !space(v[i])
        invariant
            start <= i <= v@.len(),
            leading_word(trimmed) == out@ + leading_word(v@.skip(i as int)),
        decreases v@.len() - i,
    {
        let ghost before = out@;
        out.push(v[i]);
        assert(v@.skip(i as int).drop_first() == v@.skip(i + 1));
        i = i + 1;
        assert(before + (seq![v@[i - 1]] + leading_word(v@.skip(i as int))) == out@ + leading_word(
            v@.skip(i as int),
        ));
    }
    assert(out@ + Seq::<char>::empty() == out@);
    out
}

/// `parts` one after another, with `sep` between neighbours.
pub fn join(parts: &Vec<String>, sep: &str) -> (r: String)
    ensures
        r@ == join_of(views(parts@), sep@),
{
    let mut out = String::new();
    let mut i: usize = 0;
    let ghost all = views(parts@);
    while i < parts.len()
        invariant
            i <= parts@.len(),
            all == views(parts@),
            out@ == join_of(all.take(i as int), sep@),
        decreases parts@.len() - i,
    {
        if i > 0 {
            out.append(sep);
        }
        out.append(parts[i].as_str());
        i = i + 1;
        assert(all.take(i as int).drop_last() == all.take(i - 1));
        assert(all.take(i as int).last() == parts@[i - 1]@);
        if i == 1 {
            assert(Seq::<char>::empty() + parts@[0]@ == parts@[0]@);
        }
    }
    assert(all.take(i as int) == all);
    out
}

/// Whether `a` and `b` are equal up to the case of the letters A to Z.
pub fn eq_ignore_ascii_case(a: &str, b: &str) -> (r: bool)
    ensures
        r == same_ignoring_ascii_case(a@, b@),
{
    let v = chars_of(a);
    let w = chars_of(b);
    if v.len() != w.len() {
        return false;
    }
    let mut i: usize = 0;
    while i < v.len()
        invariant
            i <= v@.len() == w@.len(),
            v@ == a@,
            w@ == b@,
            forall|k: int| 0 <= k < i ==> ascii_lower(#[trigger] v@[k]) == ascii_lower(w@[k]),
        decreases v@.len() - i,
    {
        if small_letter(v[i]) != small_letter(w[i]) {
            assert(ascii_lower(v@[i as int]) != ascii_lower(w@[i as int]));
            return false;
        }
        i = i + 1;
    }
    true
}

/// `c` with the letters A to Z made small.
fn small_letter(c: char) -> (r: char)
    ensures
        r == ascii_lower(c),
{
    if 'A' <= c && c <= 'Z' {
        let b = c as u8;
        (b + 32u8) as char
    } else {
        c
    }
}

/// `s` followed by as many spaces as bring it to `width` characters.
pub fn pad_right(s: &str, width: usize) -> (r: String)
    ensures
        r@ == pad_right_of(s@, width as int),
{
    let mut out = s.to_owned();
    let mut n = chars_of(s).len();
    while n < width
        invariant
            n == out@.len(),
            pad_right_of(s@, width as int) == pad_right_of(out@, width as int),
        decreases width - n,
    {
        out.push(' ');
        n = n + 1;
    }
    out
}

/// The characters of which words are made: letters and digits of any script, and the underscore.
pub open spec fn is_word_char(c: char) -> bool {
    alphanumeric_char(c) || c == '_'
}

/// Where the word at the position `from` ends.
pub open spec fn word_end(s: Text, from: int) -> int
    decreases s.len() - from,
{
    if 0 <= from < s.len() && is_word_char(s[from]) {
        word_end(s, from + 1)
    } else {
        from
    }
}

/// The pieces of `s` between characters of which no word is made; at least one, some perhaps empty.
pub open spec fn words_of(s: Text) -> Seq<Text>
    decreases s.len(),
{
    let end = word_end(s, 0);
    if 0 <= end < s.len() {
        seq![s.take(end)] + words_of(s.skip(end + 1))
    } else {
        seq![s]
    }
}

/// Looking for the end of a word in the rest of a text is looking for it in the text from there on.
pub proof fn lemma_word_shift(s: Text, start: int, from: int)
    requires
        0 <= start <= s.len(),
        0 <= from <= s.len() - start,
    ensures
        word_end(s, start + from) == start + word_end(s.skip(start), from),
        start + from <= word_end(s, start + from) <= s.len(),
    decreases s.len() - from,
{
    if start + from < s.len() {
        assert(s.skip(start)[from] == s[start + from]);
        if is_word_char(s[start + from]) {
            lemma_word_shift(s, start, from + 1);
        }
    }
}

/// The pieces of `s` between characters of which no word is made.
pub fn words(s: &str) -> (r: Vec<String>)
    ensures
        views(r@) == words_of(s@),
{
    let v = chars_of(s);
    let mut out: Vec<String> = Vec::new();
    let mut i: usize = 0;
    assert(v@.skip(0) == s@);
    assert(views(out@) + words_of(s@) == words_of(s@));
    loop
        invariant
            i <= v@.len(),
            v@ == s@,
            words_of(s@) == views(out@) + words_of(v@.skip(i as int)),
        decreases v@.len() - i,
    {
        let ghost rest = v@.skip(i as int);
        let ghost before = out@;
        proof {
            lemma_word_shift(v@, i as int, 0);
        }
        let mut end = i;
        while end < v.len() && (v[end].is_alphanumeric() || v[end] == '_')
            invariant
                i <= end <= v@.len(),
                word_end(v@, i as int) == word_end(v@, end as int),
            decreases v@.len() - end,
        {
            end = end + 1;
        }
        let piece = slice_text(&v, i, end);
        assert(rest.take(end - i) == v@.subrange(i as int, end as int));
        out.push(piece);
        assert(views(out@) == views(before).push(piece@));
        if end < v.len() {
            assert(rest.skip(end - i + 1) == v@.skip(end + 1));
            i = end + 1;
            assert(views(before) + (seq![piece@] + words_of(v@.skip(i as int))) == views(out@)
                + words_of(v@.skip(i as int)));
        } else {
            assert(rest.take(end - i) == rest);
            assert(views(before) + seq![piece@] == views(out@));
            return out;
        }
    }
}

/// How many bytes `s` takes in UTF-8.
pub open spec fn byte_len(s: Text) -> nat {
    vstd::utf8::encode_utf8(s).len()
}

/// How many bytes `s` takes in UTF-8.
pub fn bytes_in(s: &str) -> (r: usize)
    ensures
        r == byte_len(s@),
{
    s.as_bytes().len()
}

/// The pieces between commas, trimmed, without the empty ones.
pub open spec fn tags_in(pieces: Seq<Text>) -> Seq<Text>
    decreases pieces.len(),
{
    if pieces.len() == 0 {
        Seq::empty()
    } else if trim_of(pieces.last()).len() > 0 {
        tags_in(pieces.drop_last()).push(trim_of(pieces.last()))
    } else {
        tags_in(pieces.drop_last())
    }
}

/// The tags that a text names, set apart by commas.
pub open spec fn tags_of_text(s: Text) -> Seq<Text> {
    tags_in(split_char_of(s, ','))
}

/// The tags that a text names, set apart by commas.
pub fn split_tags(s: &str) -> (r: Vec<String>)
    ensures
        views(r@) == tags_of_text(s@),
{
    let pieces = split_char(s, ',');
    let ghost all = views(pieces@);
    let mut out: Vec<String> = Vec::new();
    let mut i: usize = 0;
    assert(views(out@) == tags_in(all.take(0)));
    while i < pieces.len()
        invariant
            i <= pieces@.len() == all.len(),
            all == views(pieces@),
            views(out@) == tags_in(all.take(i as int)),
        decreases pieces@.len() - i,
    {
        let ghost before = out@;
        assert(all.take(i + 1).drop_last() == all.take(i as int));
        assert(all.take(i + 1).last() == pieces@[i as int]@);
        let t = trim(pieces[i].as_str());
        if chars_of(t.as_str()).len() > 0 {
            out.push(t);
            assert(views(out@) == views(before).push(t@));
        }
        i = i + 1;
    }
    assert(all.take(i as int) == all);
    out
}

/// A text holds what stands between its start and its end.
pub proof fn lemma_contains_middle(a: Text, b: Text, c: Text)
    ensures
        contains_text(a + b + c, b),
{
    assert((a + b + c).subrange(a.len() as int, (a.len() + b.len()) as int) == b);
    assert(occurs_at(a + b + c, b, a.len() as int));
}

/// A longer text holds what either of its halves holds.
pub proof fn lemma_contains_half(a: Text, b: Text, part: Text)
    ensures
        contains_text(a, part) || contains_text(b, part) ==> contains_text(a + b, part),
{
    if contains_text(a, part) {
        let at = choose|at: int| occurs_at(a, part, at);
        assert((a + b).subrange(at, at + part.len()) == a.subrange(at, at + part.len()));
        assert(occurs_at(a + b, part, at));
    } else if contains_text(b, part) {
        let at = choose|at: int| occurs_at(b, part, at);
        assert((a + b).subrange(a.len() + at, a.len() + at + part.len()) == b.subrange(
            at,
            at + part.len(),
        ));
        assert(occurs_at(a + b, part, a.len() + at));
    }
}

/// A text holds itself.
pub proof fn lemma_contains_itself(s: Text)
    ensures
        contains_text(s, s),
{
    assert(s.subrange(0, s.len() as int) == s);
    assert(occurs_at(s, s, 0));
}

/// What a part of a text holds, the text holds.
pub proof fn lemma_contains_through(s: Text, part: Text, inner: Text)
    requires
        contains_text(s, part),
        contains_text(part, inner),
    ensures
        contains_text(s, inner),
{
    let at = choose|at: int| occurs_at(s, part, at);
    let k = choose|k: int| occurs_at(part, inner, k);
    assert(s.subrange(at + k, at + k + inner.len()) == s.subrange(at, at + part.len()).subrange(
        k,
        k + inner.len(),
    ));
    assert(occurs_at(s, inner, at + k));
}

/// A text holds a part exactly where it can be written as something, the part, and something more.
pub proof fn law_part_stands_between(s: Text, part: Text)
    ensures
        contains_text(s, part) <==> exists|a: Text, c: Text| s == #[trigger] (a + part + c),
{
    if contains_text(s, part) {
        let at = choose|at: int| occurs_at(s, part, at);
        let a = s.take(at);
        let c = s.skip(at + part.len());
        assert(s == a + part + c) by {
            assert(s.subrange(at, at + part.len()) == part);
            assert forall|i: int| 0 <= i < s.len() implies s[i] == (a + part + c)[i] by {
                if at <= i < at + part.len() {
                    assert(s.subrange(at, at + part.len())[i - at] == s[i]);
                }
            }
        }
    }
    if exists|a: Text, c: Text| s == #[trigger] (a + part + c) {
        let (a, c) = choose|a: Text, c: Text| s == #[trigger] (a + part + c);
        lemma_contains_middle(a, part, c);
    }
}

/// A joined text holds each of its parts.
pub proof fn lemma_join_holds(parts: Seq<Text>, sep: Text, i: int)
    requires
        0 <= i < parts.len(),
    ensures
        contains_text(join_of(parts, sep), parts[i]),
    decreases parts.len(),
{
    let whole = join_of(parts, sep);
    if parts.len() == 1 {
        lemma_contains_itself(whole);
    } else {
        let start = join_of(parts.drop_last(), sep);
        if i < parts.len() - 1 {
            lemma_join_holds(parts.drop_last(), sep, i);
            lemma_contains_half(start, sep, parts[i]);
            lemma_contains_half(start + sep, parts.last(), parts[i]);
        } else {
            lemma_contains_itself(parts.last());
            lemma_contains_half(start + sep, parts.last(), parts[i]);
        }
    }
}

/// Joining goes part by part: one more part comes behind one more separator, and a single part is
/// joined to itself.
pub proof fn law_join_goes_part_by_part(parts: Seq<Text>, sep: Text, part: Text)
    ensures
        join_of(seq![part], sep) == part,
        parts.len() > 0 ==> join_of(parts.push(part), sep) == join_of(parts, sep) + sep + part,
{
    assert(parts.push(part).drop_last() == parts);
}

/// White space in front of a text, and nothing else, is trimmed off.
pub proof fn law_indent_is_trimmed(indent: Text, t: Text)
    requires
        is_blank(indent),
        t.len() > 0 ==> !is_space(t[0]),
    ensures
        trim_start_of(indent + t) == t,
    decreases indent.len(),
{
    let s = indent + t;
    if indent.len() > 0 {
        assert(is_space(indent[0]));
        assert(s.drop_first() == indent.drop_first() + t);
        assert forall|i: int| 0 <= i < indent.drop_first().len() implies is_space(
            #[trigger] indent.drop_first()[i],
        ) by {
            assert(is_space(indent[i + 1]));
        }
        law_indent_is_trimmed(indent.drop_first(), t);
    } else {
        assert(s == t);
    }
}

/// White space behind a text that does not end in any is trimmed off.
proof fn lemma_tail_is_trimmed(t: Text, tail: Text)
    requires
        is_blank(tail),
        t.len() > 0 ==> !is_space(t.last()),
    ensures
        trim_end_of(t + tail) == t,
    decreases tail.len(),
{
    let s = t + tail;
    if tail.len() > 0 {
        assert(is_space(tail[tail.len() - 1]));
        assert(s.drop_last() == t + tail.drop_last());
        assert forall|i: int| 0 <= i < tail.drop_last().len() implies is_space(
            #[trigger] tail.drop_last()[i],
        ) by {
            assert(is_space(tail[i]));
        }
        lemma_tail_is_trimmed(t, tail.drop_last());
    } else {
        assert(s == t);
    }
}

/// A text between white space is what trimming leaves.
pub proof fn law_trimming_leaves_the_middle(indent: Text, t: Text, tail: Text)
    requires
        is_blank(indent),
        is_blank(tail),
        t.len() > 0,
        !is_space(t[0]),
        !is_space(t.last()),
    ensures
        trim_of(indent + t + tail) == t,
{
    assert(indent + t + tail == indent + (t + tail));
    assert((t + tail)[0] == t[0]);
    law_indent_is_trimmed(indent, t + tail);
    lemma_tail_is_trimmed(t, tail);
}

/// The first word of a line is the run of characters behind its indentation, up to the next white
/// space.
pub proof fn law_first_word_is_found(indent: Text, word: Text, rest: Text)
    requires
        is_blank(indent),
        word.len() > 0,
        forall|i: int| 0 <= i < word.len() ==> !is_space(#[trigger] word[i]),
        rest.len() > 0 ==> is_space(rest[0]),
    ensures
        first_word_of(indent + word + rest) == word,
{
    assert(indent + word + rest == indent + (word + rest));
    assert((word + rest)[0] == word[0]);
    law_indent_is_trimmed(indent, word + rest);
    lemma_leading_word(word, rest);
}

/// A run of characters before white space is the leading word.
proof fn lemma_leading_word(word: Text, rest: Text)
    requires
        forall|i: int| 0 <= i < word.len() ==> !is_space(#[trigger] word[i]),
        rest.len() > 0 ==> is_space(rest[0]),
    ensures
        leading_word(word + rest) == word,
    decreases word.len(),
{
    let s = word + rest;
    if word.len() > 0 {
        assert(!is_space(word[0]));
        assert(s.drop_first() == word.drop_first() + rest);
        assert forall|i: int| 0 <= i < word.drop_first().len() implies !is_space(
            #[trigger] word.drop_first()[i],
        ) by {
            assert(!is_space(word[i + 1]));
        }
        lemma_leading_word(word.drop_first(), rest);
        assert(seq![s.first()] + word.drop_first() == word);
    } else {
        assert(s == rest);
    }
}

/// A character is looked for up to its first place.
proof fn lemma_index_is(s: Text, c: char, from: int, at: int)
    requires
        0 <= from <= at <= s.len(),
        forall|i: int| from <= i < at ==> #[trigger] s[i] != c,
        at < s.len() ==> s[at] == c,
    ensures
        index_of_char(s, c, from) == at,
    decreases at - from,
{
    if from < at {
        assert(s[from] != c);
        lemma_index_is(s, c, from + 1, at);
    }
}

/// A text is read line by line: what stands before its first line feed is its first line, and the
/// lines of what stands behind it follow.
pub proof fn law_lines_are_read_one_by_one(line: Text, rest: Text)
    requires
        forall|i: int| 0 <= i < line.len() ==> #[trigger] line[i] != '\n',
    ensures
        line.len() > 0 ==> lines_of(line) == seq![line],
        !(line.len() > 0 && line.last() == '\r') ==> lines_of(line.push('\n') + rest) == seq![line]
            + lines_of(rest),
        lines_of((line.push('\r')).push('\n') + rest) == seq![line] + lines_of(rest),
{
    lemma_index_is(line, '\n', 0, line.len() as int);
    let s = line.push('\n') + rest;
    assert(forall|i: int| 0 <= i < line.len() ==> s[i] == line[i]);
    lemma_index_is(s, '\n', 0, line.len() as int);
    assert(s.take(line.len() as int) == line);
    assert(s.skip((line.len() + 1) as int) == rest);
    let r = line.push('\r');
    let s = r.push('\n') + rest;
    assert(forall|i: int| 0 <= i < r.len() ==> s[i] == r[i]);
    assert(forall|i: int| 0 <= i < r.len() ==> #[trigger] s[i] != '\n');
    lemma_index_is(s, '\n', 0, r.len() as int);
    assert(s.take(r.len() as int) == r);
    assert(r.drop_last() == line);
    assert(s.skip((r.len() + 1) as int) == rest);
}

/// Replacing goes from the left: what stands before the first occurrence stays, and the rest behind
/// it is gone through in turn. A text without an occurrence stays as it is.
pub proof fn law_replacing_goes_from_the_left(s: Text, from: Text, to: Text, at: int)
    requires
        from.len() > 0,
    ensures
        !contains_text(s, from) ==> replace_of(s, from, to) == s,
        occurs_at(s, from, at) && (forall|k: int| 0 <= k < at ==> !occurs_at(s, from, k))
            ==> replace_of(s, from, to) == s.take(at) + to + replace_of(
            s.skip(at + from.len()),
            from,
            to,
        ),
{
    lemma_find_from(s, from, 0);
}

/// Pieces are split off one by one: what stands before a separator is a piece, and what stands
/// behind it is split on; a text without a separator is one piece.
pub proof fn law_pieces_are_split_one_by_one(piece: Text, sep: char, rest: Text)
    requires
        forall|i: int| 0 <= i < piece.len() ==> #[trigger] piece[i] != sep,
    ensures
        split_char_of(piece, sep) == seq![piece],
        split_char_of(piece.push(sep) + rest, sep) == seq![piece] + split_char_of(rest, sep),
{
    lemma_index_is(piece, sep, 0, piece.len() as int);
    let s = piece.push(sep) + rest;
    assert forall|i: int| 0 <= i < piece.len() implies #[trigger] s[i] != sep by {
        assert(s[i] == piece[i]);
    }
    lemma_index_is(s, sep, 0, piece.len() as int);
    assert(s.take(piece.len() as int) == piece);
    assert(s.skip(piece.len() as int + 1) == rest);
}

/// A text is clipped only where it is too long, and then to just its first characters.
pub proof fn law_clipping_cuts_the_end(s: Text, n: int)
    requires
        n >= 0,
    ensures
        s.len() <= n ==> clip(s, n) == s,
        clip(s, n).is_prefix_of(s),
        s.len() >= n ==> clip(s, n).len() == n,
{
}

/// Tags are taken from the pieces one by one: each is trimmed, and a blank one is none.
pub proof fn law_blank_pieces_are_no_tags(pieces: Seq<Text>, piece: Text)
    ensures
        tags_in(Seq::empty()).len() == 0,
        is_blank(piece) ==> tags_in(pieces.push(piece)) == tags_in(pieces),
        !is_blank(piece) ==> tags_in(pieces.push(piece)) == tags_in(pieces).push(trim_of(piece)),
{
    assert(pieces.push(piece).drop_last() == pieces);
    law_blank_is_trimmed_away(piece);
}

/// Words are cut off one by one: what stands before a character of which no word is made is one, and
/// what stands behind it is cut on.
pub proof fn law_words_are_cut_one_by_one(word: Text, c: char, rest: Text)
    requires
        forall|i: int| 0 <= i < word.len() ==> alphanumeric_char(#[trigger] word[i]) || word[i] == '_',
        !alphanumeric_char(c) && c != '_',
    ensures
        words_of(word) == seq![word],
        words_of(word.push(c) + rest) == seq![word] + words_of(rest),
{
    lemma_word_end_is(word, 0, word.len() as int);
    let s = word.push(c) + rest;
    assert forall|i: int| 0 <= i < word.len() implies is_word_char(#[trigger] s[i]) by {
        assert(s[i] == word[i]);
    }
    lemma_word_end_is(s, 0, word.len() as int);
    assert(s.take(word.len() as int) =~= word);
    assert(s.skip(word.len() as int + 1) =~= rest);
}

/// A word ends at the first character of which no word is made.
proof fn lemma_word_end_is(s: Text, from: int, at: int)
    requires
        0 <= from <= at <= s.len(),
        forall|i: int| from <= i < at ==> is_word_char(#[trigger] s[i]),
        at < s.len() ==> !is_word_char(s[at]),
    ensures
        word_end(s, from) == at,
    decreases at - from,
{
    if from < at {
        lemma_word_end_is(s, from + 1, at);
    }
}

/// Padding puts spaces behind a text, as many as are missing, and changes nothing else.
pub proof fn law_padding_puts_spaces_behind(s: Text, width: int)
    ensures
        s.is_prefix_of(pad_right_of(s, width)),
        pad_right_of(s, width).len() == if s.len() < width {
            width
        } else {
            s.len() as int
        },
        forall|i: int|
            s.len() <= i < pad_right_of(s, width).len() ==> #[trigger] pad_right_of(s, width)[i]
                == ' ',
    decreases width - s.len(),
{
    let r = pad_right_of(s, width);
    if s.len() < width {
        let more = s.push(' ');
        law_padding_puts_spaces_behind(more, width);
        assert(r.subrange(0, more.len() as int) == more);
        assert(r.subrange(0, s.len() as int) =~= more.take(s.len() as int));
        assert(more.take(s.len() as int) =~= s);
        assert(r.subrange(0, more.len() as int)[s.len() as int] == r[s.len() as int]);
    } else {
        assert(s.subrange(0, s.len() as int) =~= s);
    }
}

/// Texts are the same whatever the case of the letters A to Z: each differs from its small form in
/// nothing else, and no other character is taken for another.
pub proof fn law_only_the_case_of_plain_letters_is_ignored(a: char, b: char)
    ensures
        same_ignoring_ascii_case(seq![a], seq![b]) <==> a == b || 'A' <= a <= 'Z' && b as int == a as int
            + 32 || 'A' <= b <= 'Z' && a as int == b as int + 32,
{
    assert(seq![a][0] == a);
    assert(seq![b][0] == b);
    assert('A' <= a <= 'Z' ==> ascii_lower(a) as int == a as int + 32);
    assert('A' <= b <= 'Z' ==> ascii_lower(b) as int == b as int + 32);
    if same_ignoring_ascii_case(seq![a], seq![b]) {
        assert(ascii_lower(seq![a][0]) == ascii_lower(seq![b][0]));
    } else {
        let x = seq![a];
        let y = seq![b];
        assert forall|i: int| 0 <= i < x.len() implies ascii_lower(#[trigger] x[i]) == ascii_lower(
            y[i],
        ) || ascii_lower(a) != ascii_lower(b) by {}
    }
}

} // verus!
