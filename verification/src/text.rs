//! Text as sequences of characters.
//!
//! A `String` or `&str` stands for the sequence of its characters, its view.
//! This file states what the text operations of the helper mean on such
//! sequences, and gives each its executable form.

use vstd::prelude::*;

verus! {

/// The texts that a list of strings stands for.
pub open spec fn texts(list: Seq<String>) -> Seq<Seq<char>> {
    Seq::new(list.len(), |i: int| list[i]@)
}

/// The characters of `text`.
pub fn chars_of(text: &str) -> (chars: Vec<char>)
    ensures
        chars@ == text@,
{
    let mut chars: Vec<char> = Vec::new();
    for c in iter: text.chars()
        invariant
            chars@ == iter.seq().take(iter.index() as int),
            iter.seq() == text@,
    {
        chars.push(c);
        assert(iter.seq().take(iter.index() as int).push(c) =~= iter.seq().take(iter.index() + 1));
    }
    assert(text@.take(text@.len() as int) =~= text@);
    chars
}

/// The characters of `text` from `from` up to `to`.
pub fn part(text: &str, from: usize, to: usize) -> (piece: String)
    requires
        from <= to <= text@.len(),
    ensures
        piece@ == text@.subrange(from as int, to as int),
{
    text.substring_char(from, to).to_owned()
}

/// Whether two texts are the same.
pub fn same_text(a: &str, b: &str) -> (same: bool)
    ensures
        same == (a@ == b@),
{
    a.to_owned() == b.to_owned()
}

/// Two texts in a row.
pub fn join2(a: &str, b: &str) -> (joined: String)
    ensures
        joined@ == a@ + b@,
{
    let mut joined = a.to_owned();
    joined.append(b);
    joined
}

/// Three texts in a row.
pub fn join3(a: &str, b: &str, c: &str) -> (joined: String)
    ensures
        joined@ == a@ + b@ + c@,
{
    let mut joined = a.to_owned();
    joined.append(b);
    joined.append(c);
    joined
}

/// Whether `pattern` stands in `text` at `at`.
pub open spec fn stands_at(text: Seq<char>, pattern: Seq<char>, at: int) -> bool {
    &&& 0 <= at <= text.len() - pattern.len()
    &&& text.subrange(at, at + pattern.len()) == pattern
}

/// Whether `pattern` stands somewhere in `text`.
pub open spec fn holds(text: Seq<char>, pattern: Seq<char>) -> bool {
    exists|at: int| stands_at(text, pattern, at)
}

/// Whether `pattern` stands in `text` at `at`.
fn found_at(text: &Vec<char>, pattern: &Vec<char>, at: usize) -> (found: bool)
    ensures
        found == stands_at(text@, pattern@, at as int),
{
    if pattern.len() > text.len() || at > text.len() - pattern.len() {
        return false;
    }
    let length: usize = text.len();
    let mut i: usize = 0;
    while i < pattern.len()
        invariant
            i <= pattern@.len(),
            length == text@.len(),
            at + pattern@.len() <= text@.len(),
            forall|j: int| 0 <= j < i ==> text@[at + j] == pattern@[j],
        decreases pattern@.len() - i,
    {
        if text[at + i] != pattern[i] {
            assert(text@.subrange(at as int, at + pattern@.len())[i as int] != pattern@[i as int]);
            return false;
        }
        i = i + 1;
    }
    assert(text@.subrange(at as int, at + pattern@.len()) =~= pattern@);
    true
}

/// Whether `text` begins with `prefix`.
pub fn starts_with(text: &str, prefix: &str) -> (yes: bool)
    ensures
        yes == prefix@.is_prefix_of(text@),
{
    let whole = chars_of(text);
    let front = chars_of(prefix);
    found_at(&whole, &front, 0)
}

/// Whether `text` ends with `suffix`.
pub fn ends_with(text: &str, suffix: &str) -> (yes: bool)
    ensures
        yes == suffix@.is_suffix_of(text@),
{
    let whole = chars_of(text);
    let back = chars_of(suffix);
    if back.len() > whole.len() {
        return false;
    }
    found_at(&whole, &back, whole.len() - back.len())
}

/// What follows `prefix` in `text`, where `text` begins with it.
pub fn strip_prefix(text: &str, prefix: &str) -> (rest: Option<String>)
    ensures
        rest is Some <==> prefix@.is_prefix_of(text@),
        rest matches Some(r) ==> r@ == text@.skip(prefix@.len() as int),
{
    if starts_with(text, prefix) {
        let from: usize = prefix.unicode_len();
        Some(part(text, from, text.unicode_len()))
    } else {
        None
    }
}

/// Whether `pattern` stands somewhere in `text`.
fn occurs(text: &Vec<char>, pattern: &Vec<char>) -> (found: bool)
    ensures
        found == holds(text@, pattern@),
{
    if pattern.len() > text.len() {
        return false;
    }
    let last: usize = text.len() - pattern.len();
    let mut at: usize = 0;
    while at <= last
        invariant
            at <= last + 1,
            last == text@.len() - pattern@.len(),
            forall|j: int| 0 <= j < at ==> !stands_at(text@, pattern@, j),
        decreases last + 1 - at,
    {
        if found_at(text, pattern, at) {
            return true;
        }
        if at == last {
            return false;
        }
        at = at + 1;
    }
    false
}

/// Whether `pattern` stands somewhere in `text`.
pub fn contains(text: &str, pattern: &str) -> (found: bool)
    ensures
        found == holds(text@, pattern@),
{
    occurs(&chars_of(text), &chars_of(pattern))
}

/// The lower-case form of an ASCII letter; any other character is kept.
pub open spec fn lower(c: char) -> char {
    if 'A' <= c <= 'Z' {
        ((c as u8) + 32) as u8 as char
    } else {
        c
    }
}

/// `text` with its ASCII letters in lower case.
pub open spec fn lowered(text: Seq<char>) -> Seq<char> {
    Seq::new(text.len(), |i: int| lower(text[i]))
}

/// The characters of `text`, ASCII letters in lower case.
pub fn lower_chars(text: &str) -> (chars: Vec<char>)
    ensures
        chars@ == lowered(text@),
{
    let whole = chars_of(text);
    let mut chars: Vec<char> = Vec::new();
    let mut i: usize = 0;
    while i < whole.len()
        invariant
            whole@ == text@,
            i <= whole@.len(),
            chars@.len() == i,
            forall|j: int| 0 <= j < i ==> chars@[j] == lower(text@[j]),
        decreases whole@.len() - i,
    {
        let c = whole[i];
        if 'A' <= c && c <= 'Z' {
            chars.push(((c as u8) + 32) as char);
        } else {
            chars.push(c);
        }
        i = i + 1;
    }
    assert(chars@ =~= lowered(text@));
    chars
}

/// Whether `pattern` stands somewhere in `text`, whatever the case of the
/// ASCII letters of `text`.
pub fn contains_lowered(text: &str, pattern: &str) -> (found: bool)
    ensures
        found == holds(lowered(text@), pattern@),
{
    occurs(&lower_chars(text), &chars_of(pattern))
}

/// Whether `text` is `word`, whatever the case of the ASCII letters of `text`.
pub fn same_lowered(text: &str, word: &str) -> (same: bool)
    ensures
        same == (lowered(text@) == word@),
{
    let chars = lower_chars(text);
    let other = chars_of(word);
    if chars.len() != other.len() {
        return false;
    }
    let same = found_at(&chars, &other, 0);
    assert(chars@.subrange(0, chars@.len() as int) =~= chars@);
    same
}

/// Where `c` first stands in `text`, or the length of `text`.
pub open spec fn first_of(text: Seq<char>, c: char) -> nat
    decreases text.len(),
{
    if text.len() == 0 || text[0] == c {
        0
    } else {
        1 + first_of(text.drop_first(), c)
    }
}

/// `first_of` is the one place with no `c` before it and either `c` or the end
/// of the text in it.
pub proof fn lemma_first_of(text: Seq<char>, c: char, at: int)
    ensures
        first_of(text, c) <= text.len(),
        first_of(text, c) < text.len() ==> text[first_of(text, c) as int] == c,
        forall|j: int| 0 <= j < first_of(text, c) ==> text[j] != c,
        (0 <= at <= text.len() && (forall|j: int| 0 <= j < at ==> text[j] != c) && (at < text.len()
            ==> text[at] == c)) ==> first_of(text, c) == at,
    decreases text.len(),
{
    if text.len() > 0 && text[0] != c {
        let later = text.drop_first();
        lemma_first_of(later, c, at - 1);
        assert forall|j: int| 0 <= j < first_of(text, c) implies text[j] != c by {
            if j > 0 {
                assert(later[j - 1] == text[j]);
            }
        }
        if 0 <= at <= text.len() && (forall|j: int| 0 <= j < at ==> text[j] != c) && (at
            < text.len() ==> text[at] == c) {
            assert(at > 0);
            assert forall|j: int| 0 <= j < at - 1 implies later[j] != c by {
                assert(text[j + 1] != c);
            }
        }
    } else if text.len() > 0 {
        if 0 <= at <= text.len() && (forall|j: int| 0 <= j < at ==> text[j] != c) {
            if at > 0 {
                assert(text[0] != c);
            }
        }
    }
}

/// Where `c` first stands in `text` from `from` on, or the length of `text`.
fn find_from(text: &Vec<char>, c: char, from: usize) -> (at: usize)
    requires
        from <= text@.len(),
    ensures
        from <= at <= text@.len(),
        at == from + first_of(text@.skip(from as int), c),
{
    let length: usize = text.len();
    let mut at: usize = from;
    while at < length && text[at] != c
        invariant
            from <= at <= length,
            length == text@.len(),
            forall|j: int| from <= j < at ==> text@[j] != c,
        decreases length - at,
    {
        at = at + 1;
    }
    proof {
        lemma_first_of(text@.skip(from as int), c, at - from);
    }
    at
}

/// The pieces of `text` between the occurrences of `c`.
pub open spec fn split_on(text: Seq<char>, c: char) -> Seq<Seq<char>>
    decreases text.len(),
{
    let at = first_of(text, c) as int;
    if at >= text.len() {
        seq![text]
    } else {
        seq![text.take(at)] + split_on(text.skip(at + 1), c)
    }
}

/// The pieces of `text` between the occurrences of `c`.
pub fn split(text: &str, c: char) -> (pieces: Vec<String>)
    ensures
        texts(pieces@) == split_on(text@, c),
{
    let chars = chars_of(text);
    let length: usize = chars.len();
    let mut pieces: Vec<String> = Vec::new();
    let mut start: usize = 0;
    let ghost whole = split_on(text@, c);
    assert(text@.skip(0) =~= text@);
    assert(texts(pieces@) + split_on(text@, c) =~= whole);
    loop
        invariant
            chars@ == text@,
            length == chars@.len(),
            start <= length,
            whole == split_on(text@, c),
            texts(pieces@) + split_on(text@.skip(start as int), c) == whole,
        decreases length - start,
    {
        let at: usize = find_from(&chars, c, start);
        let ghost left = text@.skip(start as int);
        let ghost before = texts(pieces@);
        pieces.push(part(text, start, at));
        assert(texts(pieces@) =~= before.push(text@.subrange(start as int, at as int)));
        if at >= length {
            assert(text@.subrange(start as int, at as int) =~= left);
            assert(texts(pieces@) =~= before + seq![left]);
            return pieces;
        }
        assert(text@.subrange(start as int, at as int) =~= left.take(at - start));
        assert(left.skip(at - start + 1) =~= text@.skip(at + 1));
        assert(texts(pieces@) + split_on(text@.skip(at + 1), c) =~= before + split_on(left, c));
        start = at + 1;
    }
}

/// There is at least one piece.
pub proof fn lemma_split_is_not_empty(text: Seq<char>, c: char)
    ensures
        split_on(text, c).len() > 0,
{
}

/// Pieces set in a row again, with `c` between them.
pub open spec fn rejoined(pieces: Seq<Seq<char>>, c: char) -> Seq<char>
    decreases pieces.len(),
{
    if pieces.len() == 0 {
        Seq::empty()
    } else if pieces.len() == 1 {
        pieces[0]
    } else {
        rejoined(pieces.drop_last(), c).push(c) + pieces.last()
    }
}

/// A piece more at the front is a piece more in the text.
proof fn lemma_rejoined_front(first: Seq<char>, pieces: Seq<Seq<char>>, c: char)
    requires
        pieces.len() > 0,
    ensures
        rejoined(seq![first] + pieces, c) == first.push(c) + rejoined(pieces, c),
    decreases pieces.len(),
{
    let longer = seq![first] + pieces;
    if pieces.len() == 1 {
        assert(longer.drop_last() =~= seq![first]);
        assert(rejoined(seq![first], c) == first);
    } else {
        let shorter = pieces.drop_last();
        lemma_rejoined_front(first, shorter, c);
        assert(longer.drop_last() =~= seq![first] + shorter);
        assert(rejoined(longer, c) =~= first.push(c) + rejoined(pieces, c));
    }
}

/// The pieces of a text make the text again, and none of them holds `c`.
pub proof fn lemma_split(text: Seq<char>, c: char)
    ensures
        rejoined(split_on(text, c), c) == text,
        forall|i: int, j: int|
            0 <= i < split_on(text, c).len() && 0 <= j < split_on(text, c)[i].len() ==> (
            #[trigger] split_on(text, c)[i][j]) != c,
    decreases text.len(),
{
    let at = first_of(text, c) as int;
    lemma_first_of(text, c, 0);
    let pieces = split_on(text, c);
    if at < text.len() {
        let later = split_on(text.skip(at + 1), c);
        lemma_split(text.skip(at + 1), c);
        lemma_rejoined_front(text.take(at), later, c);
        assert(text.take(at).push(c) + text.skip(at + 1) =~= text);
        assert forall|i: int, j: int| 0 <= i < pieces.len() && 0 <= j < pieces[i].len() implies (
        #[trigger] pieces[i][j]) != c by {
            if i > 0 {
                assert(pieces[i] == later[i - 1]);
                assert(later[i - 1][j] != c);
            }
        }
    }
}

/// A line without the carriage return at its end.
pub open spec fn without_return(line: Seq<char>) -> Seq<char> {
    if line.len() > 0 && line.last() == '\r' {
        line.drop_last()
    } else {
        line
    }
}

/// The lines of `text`: each ends with a line feed, which a carriage return
/// may precede; the last may lack it.
pub open spec fn lines_of(text: Seq<char>) -> Seq<Seq<char>>
    decreases text.len(),
{
    let at = first_of(text, '\n') as int;
    if text.len() == 0 {
        Seq::empty()
    } else if at >= text.len() {
        seq![text]
    } else {
        seq![without_return(text.take(at))] + lines_of(text.skip(at + 1))
    }
}

/// The lines of `text`.
pub fn lines(text: &str) -> (list: Vec<String>)
    ensures
        texts(list@) == lines_of(text@),
{
    let chars = chars_of(text);
    let length: usize = chars.len();
    let mut list: Vec<String> = Vec::new();
    let mut start: usize = 0;
    assert(text@.skip(0) =~= text@);
    assert(texts(list@) + lines_of(text@) =~= lines_of(text@));
    while start < length
        invariant
            chars@ == text@,
            length == chars@.len(),
            start <= length,
            texts(list@) + lines_of(text@.skip(start as int)) == lines_of(text@),
        decreases length - start,
    {
        let at: usize = find_from(&chars, '\n', start);
        let ghost left = text@.skip(start as int);
        let ghost before = texts(list@);
        if at >= length {
            list.push(part(text, start, at));
            assert(text@.subrange(start as int, at as int) =~= left);
            assert(texts(list@) =~= before + seq![left]);
            return list;
        }
        let ghost line = left.take(at - start);
        assert(text@.subrange(start as int, at as int) =~= line);
        let end: usize = if at > start && chars[at - 1] == '\r' {
            at - 1
        } else {
            at
        };
        list.push(part(text, start, end));
        proof {
            assert(text@.subrange(start as int, end as int) =~= without_return(line));
            assert(texts(list@) =~= before.push(without_return(line)));
            assert(left.skip(at - start + 1) =~= text@.skip(at + 1));
            assert(texts(list@) + lines_of(text@.skip(at + 1)) =~= before + lines_of(left));
        }
        start = at + 1;
    }
    assert(text@.skip(start as int) =~= Seq::<char>::empty());
    assert(texts(list@) + lines_of(Seq::<char>::empty()) =~= texts(list@));
    list
}

/// Whether `c` is white space, as Unicode has it.
pub open spec fn is_space(c: char) -> bool {
    let code = c as u32;
    ||| 0x09 <= code <= 0x0d
    ||| code == 0x20
    ||| code == 0x85
    ||| code == 0xa0
    ||| code == 0x1680
    ||| 0x2000 <= code <= 0x200a
    ||| code == 0x2028
    ||| code == 0x2029
    ||| code == 0x202f
    ||| code == 0x205f
    ||| code == 0x3000
}

/// Whether `c` is white space, as Unicode has it.
pub fn space(c: char) -> (yes: bool)
    ensures
        yes == is_space(c),
{
    let code: u32 = c as u32;
    (0x09 <= code && code <= 0x0d) || code == 0x20 || code == 0x85 || code == 0xa0 || code == 0x1680
        || (0x2000 <= code && code <= 0x200a) || code == 0x2028 || code == 0x2029 || code == 0x202f
        || code == 0x205f || code == 0x3000
}

/// Whether some character of `text` is white space.
pub open spec fn spaced(text: Seq<char>) -> bool {
    exists|i: int| 0 <= i < text.len() && is_space(#[trigger] text[i])
}

/// How many characters of `text` stand before its first white space.
pub open spec fn word_length(text: Seq<char>) -> nat
    decreases text.len(),
{
    if text.len() == 0 || is_space(text[0]) {
        0
    } else {
        1 + word_length(text.drop_first())
    }
}

/// How many white spaces stand at the beginning of `text`.
pub open spec fn indent(text: Seq<char>) -> nat
    decreases text.len(),
{
    if text.len() == 0 || !is_space(text[0]) {
        0
    } else {
        1 + indent(text.drop_first())
    }
}

/// How many characters of `text` stand before the white space at its end.
pub open spec fn kept_length(text: Seq<char>) -> nat
    decreases text.len(),
{
    if text.len() == 0 {
        0
    } else if is_space(text.last()) {
        kept_length(text.drop_last())
    } else {
        text.len()
    }
}

/// `word_length` is the one place with no white space before it and either
/// white space or the end of the text in it.
pub proof fn lemma_word_length(text: Seq<char>, at: int)
    ensures
        word_length(text) <= text.len(),
        word_length(text) < text.len() ==> is_space(text[word_length(text) as int]),
        forall|j: int| 0 <= j < word_length(text) ==> !is_space(text[j]),
        (0 <= at <= text.len() && (forall|j: int| 0 <= j < at ==> !is_space(text[j])) && (at
            < text.len() ==> is_space(text[at]))) ==> word_length(text) == at,
    decreases text.len(),
{
    if text.len() > 0 && !is_space(text[0]) {
        let later = text.drop_first();
        lemma_word_length(later, at - 1);
        assert forall|j: int| 0 <= j < word_length(text) implies !is_space(text[j]) by {
            if j > 0 {
                assert(later[j - 1] == text[j]);
            }
        }
        if 0 <= at <= text.len() && (forall|j: int| 0 <= j < at ==> !is_space(text[j])) && (at
            < text.len() ==> is_space(text[at])) {
            assert(at > 0);
            assert forall|j: int| 0 <= j < at - 1 implies !is_space(later[j]) by {
                assert(!is_space(text[j + 1]));
            }
        }
    } else if text.len() > 0 {
        if 0 <= at <= text.len() && (forall|j: int| 0 <= j < at ==> !is_space(text[j])) {
            if at > 0 {
                assert(!is_space(text[0]));
            }
        }
    }
}

/// `indent` is the one place with nothing but white space before it and either
/// another character or the end of the text in it.
pub proof fn lemma_indent(text: Seq<char>, at: int)
    ensures
        indent(text) <= text.len(),
        indent(text) < text.len() ==> !is_space(text[indent(text) as int]),
        forall|j: int| 0 <= j < indent(text) ==> is_space(text[j]),
        (0 <= at <= text.len() && (forall|j: int| 0 <= j < at ==> is_space(text[j])) && (at
            < text.len() ==> !is_space(text[at]))) ==> indent(text) == at,
    decreases text.len(),
{
    if text.len() > 0 && is_space(text[0]) {
        let later = text.drop_first();
        lemma_indent(later, at - 1);
        assert forall|j: int| 0 <= j < indent(text) implies is_space(text[j]) by {
            if j > 0 {
                assert(later[j - 1] == text[j]);
            }
        }
        if 0 <= at <= text.len() && (forall|j: int| 0 <= j < at ==> is_space(text[j])) && (at
            < text.len() ==> !is_space(text[at])) {
            assert(at > 0);
            assert forall|j: int| 0 <= j < at - 1 implies is_space(later[j]) by {
                assert(is_space(text[j + 1]));
            }
        }
    } else if text.len() > 0 {
        if 0 <= at <= text.len() && (forall|j: int| 0 <= j < at ==> is_space(text[j])) {
            if at > 0 {
                assert(is_space(text[0]));
            }
        }
    }
}

/// `kept_length` is the one place with nothing but white space from it on and
/// another character, or the beginning of the text, before it.
pub proof fn lemma_kept_length(text: Seq<char>, at: int)
    ensures
        kept_length(text) <= text.len(),
        kept_length(text) > 0 ==> !is_space(text[kept_length(text) - 1]),
        forall|j: int| kept_length(text) <= j < text.len() ==> is_space(text[j]),
        (0 <= at <= text.len() && (forall|j: int| at <= j < text.len() ==> is_space(text[j])) && (at
            > 0 ==> !is_space(text[at - 1]))) ==> kept_length(text) == at,
    decreases text.len(),
{
    if text.len() > 0 && is_space(text.last()) {
        let earlier = text.drop_last();
        lemma_kept_length(earlier, at);
        assert forall|j: int| kept_length(text) <= j < text.len() implies is_space(text[j]) by {
            if j < text.len() - 1 {
                assert(earlier[j] == text[j]);
            }
        }
        if 0 <= at <= text.len() && (forall|j: int| at <= j < text.len() ==> is_space(text[j])) && (
        at > 0 ==> !is_space(text[at - 1])) {
            assert(at < text.len());
            assert forall|j: int| at <= j < earlier.len() implies is_space(earlier[j]) by {
                assert(is_space(text[j]));
            }
        }
    }
}

/// `text` without the white space at its two ends.
pub open spec fn trimmed(text: Seq<char>) -> Seq<char> {
    let inner = text.skip(indent(text) as int);
    inner.take(kept_length(inner) as int)
}

/// A text without white space is kept whole.
pub proof fn lemma_trimmed_unspaced(text: Seq<char>)
    requires
        !spaced(text),
    ensures
        trimmed(text) == text,
{
    assert forall|i: int| 0 <= i < text.len() implies !is_space(text[i]) by {}
    lemma_indent(text, 0);
    assert(text.skip(0) =~= text);
    lemma_kept_length(text, text.len() as int);
    assert(text.take(text.len() as int) =~= text);
}

/// Whether `text` holds white space.
pub fn has_space(text: &str) -> (yes: bool)
    ensures
        yes == spaced(text@),
{
    let chars = chars_of(text);
    let mut i: usize = 0;
    while i < chars.len()
        invariant
            chars@ == text@,
            i <= chars@.len(),
            forall|j: int| 0 <= j < i ==> !is_space(text@[j]),
        decreases chars@.len() - i,
    {
        if space(chars[i]) {
            assert(is_space(text@[i as int]));
            return true;
        }
        i = i + 1;
    }
    false
}

/// The place of the first character from `from` on that is not white space.
fn skip_space(text: &Vec<char>, from: usize) -> (at: usize)
    requires
        from <= text@.len(),
    ensures
        from <= at <= text@.len(),
        at == from + indent(text@.skip(from as int)),
{
    let length: usize = text.len();
    let mut at: usize = from;
    while at < length && space(text[at])
        invariant
            from <= at <= length,
            length == text@.len(),
            forall|j: int| from <= j < at ==> is_space(text@[j]),
        decreases length - at,
    {
        at = at + 1;
    }
    proof {
        lemma_indent(text@.skip(from as int), at - from);
    }
    at
}

/// The place of the first white space from `from` on.
fn skip_word(text: &Vec<char>, from: usize) -> (at: usize)
    requires
        from <= text@.len(),
    ensures
        from <= at <= text@.len(),
        at == from + word_length(text@.skip(from as int)),
{
    let length: usize = text.len();
    let mut at: usize = from;
    while at < length && !space(text[at])
        invariant
            from <= at <= length,
            length == text@.len(),
            forall|j: int| from <= j < at ==> !is_space(text@[j]),
        decreases length - at,
    {
        at = at + 1;
    }
    proof {
        lemma_word_length(text@.skip(from as int), at - from);
    }
    at
}

/// `text` without the white space at its two ends.
pub fn trim(text: &str) -> (inner: String)
    ensures
        inner@ == trimmed(text@),
{
    let chars = chars_of(text);
    let from: usize = skip_space(&chars, 0);
    let mut to: usize = chars.len();
    let ghost inner = text@.skip(from as int);
    assert(text@.skip(0) =~= text@);
    while to > from && space(chars[to - 1])
        invariant
            chars@ == text@,
            from <= to <= chars@.len(),
            forall|j: int| to <= j < chars@.len() ==> is_space(text@[j]),
        decreases to,
    {
        to = to - 1;
    }
    proof {
        assert forall|j: int| to - from <= j < inner.len() implies is_space(inner[j]) by {
            assert(is_space(text@[j + from]));
        }
        lemma_kept_length(inner, to - from);
        assert(inner.take(to - from) =~= text@.subrange(from as int, to as int));
    }
    part(text, from, to)
}

/// The words of `text`: its pieces between white space.
pub open spec fn words_of(text: Seq<char>) -> Seq<Seq<char>>
    decreases text.len(),
{
    let inner = text.skip(indent(text) as int);
    let length = word_length(inner) as int;
    if inner.len() == 0 {
        Seq::empty()
    } else {
        proof {
            lemma_indent(text, 0);
            lemma_word_length(inner, 0);
        }
        seq![inner.take(length)] + words_of(inner.skip(length))
    }
}

/// The words of `text`.
pub fn words(text: &str) -> (list: Vec<String>)
    ensures
        texts(list@) == words_of(text@),
{
    let chars = chars_of(text);
    let length: usize = chars.len();
    let mut list: Vec<String> = Vec::new();
    let mut start: usize = 0;
    assert(text@.skip(0) =~= text@);
    assert(texts(list@) + words_of(text@) =~= words_of(text@));
    loop
        invariant
            chars@ == text@,
            length == chars@.len(),
            start <= length,
            texts(list@) + words_of(text@.skip(start as int)) == words_of(text@),
        decreases length - start,
    {
        let ghost left = text@.skip(start as int);
        let ghost before = texts(list@);
        let from: usize = skip_space(&chars, start);
        proof {
            lemma_indent(left, 0);
            assert(left.skip(from - start) =~= text@.skip(from as int));
        }
        if from >= length {
            assert(text@.skip(from as int) =~= Seq::<char>::empty());
            assert(before + words_of(left) =~= before);
            return list;
        }
        let to: usize = skip_word(&chars, from);
        let ghost inner = text@.skip(from as int);
        proof {
            lemma_word_length(inner, 0);
            assert(!is_space(inner[0]));
        }
        list.push(part(text, from, to));
        proof {
            assert(text@.subrange(from as int, to as int) =~= inner.take(to - from));
            assert(texts(list@) =~= before.push(inner.take(to - from)));
            assert(inner.skip(to - from) =~= text@.skip(to as int));
            assert(texts(list@) + words_of(text@.skip(to as int)) =~= before + words_of(left));
        }
        start = to;
    }
}

/// `text` without the leading occurrences of `c`.
pub open spec fn after_leading(text: Seq<char>, c: char) -> Seq<char>
    decreases text.len(),
{
    if text.len() > 0 && text[0] == c {
        after_leading(text.drop_first(), c)
    } else {
        text
    }
}

/// `text` without the leading occurrences of `c`.
pub fn trim_leading(text: &str, c: char) -> (rest: String)
    ensures
        rest@ == after_leading(text@, c),
{
    let chars = chars_of(text);
    let mut from: usize = 0;
    assert(text@.skip(0) =~= text@);
    while from < chars.len() && chars[from] == c
        invariant
            chars@ == text@,
            from <= chars@.len(),
            after_leading(text@.skip(from as int), c) == after_leading(text@, c),
        decreases chars@.len() - from,
    {
        assert(text@.skip(from as int).drop_first() =~= text@.skip(from + 1));
        from = from + 1;
    }
    part(text, from, chars.len())
}

/// `text` without the trailing occurrences of `c`.
pub open spec fn before_trailing(text: Seq<char>, c: char) -> Seq<char>
    decreases text.len(),
{
    if text.len() > 0 && text.last() == c {
        before_trailing(text.drop_last(), c)
    } else {
        text
    }
}

/// `text` without the trailing occurrences of `c`.
pub fn trim_trailing(text: &str, c: char) -> (rest: String)
    ensures
        rest@ == before_trailing(text@, c),
{
    let chars = chars_of(text);
    let mut to: usize = chars.len();
    assert(text@.take(to as int) =~= text@);
    while to > 0 && chars[to - 1] == c
        invariant
            chars@ == text@,
            to <= chars@.len(),
            before_trailing(text@.take(to as int), c) == before_trailing(text@, c),
        decreases to,
    {
        assert(text@.take(to as int).drop_last() =~= text@.take(to - 1));
        to = to - 1;
    }
    assert(text@.take(to as int) =~= text@.subrange(0, to as int));
    part(text, 0, to)
}

/// Whether `c` is a decimal digit.
pub open spec fn is_digit(c: char) -> bool {
    '0' <= c <= '9'
}

/// The decimal digit of a number below ten.
pub open spec fn digit(value: nat) -> char {
    (48 + value) as char
}

/// The number that a row of decimal digits stands for.
pub open spec fn number_of(digits: Seq<char>) -> nat
    decreases digits.len(),
{
    if digits.len() == 0 {
        0
    } else {
        (number_of(digits.drop_last()) * 10 + (digits.last() as u32 - 48)) as nat
    }
}

/// A number in decimal.
pub open spec fn decimal(n: nat) -> Seq<char>
    decreases n,
{
    if n < 10 {
        seq![digit(n)]
    } else {
        decimal(n / 10).push(digit(n % 10))
    }
}

/// `text` without one leading plus sign.
pub open spec fn unsigned_part(text: Seq<char>) -> Seq<char> {
    if text.len() > 0 && text[0] == '+' {
        text.skip(1)
    } else {
        text
    }
}

/// The number that `text` stands for: decimal digits, at least one, after at
/// most one plus sign.  `None` for any other text, and for a number beyond 64
/// bits.
pub open spec fn parsed(text: Seq<char>) -> Option<u64> {
    let digits = unsigned_part(text);
    if digits.len() > 0 && (forall|i: int| 0 <= i < digits.len() ==> is_digit(digits[i]))
        && number_of(digits) <= u64::MAX {
        Some(number_of(digits) as u64)
    } else {
        None
    }
}

/// A row of digits stands for no less than its beginning.
proof fn lemma_number_grows(digits: Seq<char>, length: int)
    requires
        0 <= length <= digits.len(),
        forall|i: int| 0 <= i < digits.len() ==> is_digit(digits[i]),
    ensures
        number_of(digits.take(length)) <= number_of(digits),
    decreases digits.len(),
{
    if length == digits.len() {
        assert(digits.take(length) =~= digits);
    } else {
        let shorter = digits.drop_last();
        assert forall|i: int| 0 <= i < shorter.len() implies is_digit(shorter[i]) by {
            assert(is_digit(digits[i]));
        }
        lemma_number_grows(shorter, length);
        assert(shorter.take(length) =~= digits.take(length));
        assert(is_digit(digits[digits.len() - 1]));
    }
}

/// Reads a number from `text`.
pub fn parse_u64(text: &str) -> (number: Option<u64>)
    ensures
        number == parsed(text@),
{
    let chars = chars_of(text);
    let length: usize = chars.len();
    let start: usize = if length > 0 && chars[0] == '+' {
        1
    } else {
        0
    };
    let ghost digits = unsigned_part(text@);
    assert(digits =~= text@.skip(start as int));
    if start == length {
        return None;
    }
    let mut number: u64 = 0;
    let mut i: usize = start;
    assert(digits.take(0) =~= Seq::<char>::empty());
    while i < length
        invariant
            chars@ == text@,
            length == chars@.len(),
            start <= i <= length,
            start < length,
            digits == unsigned_part(text@),
            digits == text@.skip(start as int),
            forall|j: int| 0 <= j < i - start ==> is_digit(digits[j]),
            number == number_of(digits.take(i - start)),
        decreases length - i,
    {
        let c = chars[i];
        assert(c == digits[i - start]);
        if c < '0' || c > '9' {
            return None;
        }
        let value: u64 = c as u64 - 48;
        let ghost longer = digits.take(i - start + 1);
        proof {
            assert(longer.drop_last() =~= digits.take(i - start));
            assert(longer.last() == c);
            if forall|j: int| 0 <= j < digits.len() ==> is_digit(digits[j]) {
                lemma_number_grows(digits, i - start + 1);
            }
        }
        if number > u64::MAX / 10 {
            return None;
        }
        let tens: u64 = number * 10;
        if tens > u64::MAX - value {
            return None;
        }
        number = tens + value;
        i = i + 1;
    }
    assert(digits.take(length - start) =~= digits);
    Some(number)
}

/// The digit of a number below ten, as a text.
fn digit_text(value: u64) -> (text: &'static str)
    requires
        value < 10,
    ensures
        text@ == seq![digit(value as nat)],
{
    match value {
        0 => {
            proof {
                reveal_strlit("0");
            }
            "0"
        },
        1 => {
            proof {
                reveal_strlit("1");
            }
            "1"
        },
        2 => {
            proof {
                reveal_strlit("2");
            }
            "2"
        },
        3 => {
            proof {
                reveal_strlit("3");
            }
            "3"
        },
        4 => {
            proof {
                reveal_strlit("4");
            }
            "4"
        },
        5 => {
            proof {
                reveal_strlit("5");
            }
            "5"
        },
        6 => {
            proof {
                reveal_strlit("6");
            }
            "6"
        },
        7 => {
            proof {
                reveal_strlit("7");
            }
            "7"
        },
        8 => {
            proof {
                reveal_strlit("8");
            }
            "8"
        },
        _ => {
            proof {
                reveal_strlit("9");
            }
            "9"
        },
    }
}

/// A number in decimal.
pub fn decimal_text(n: u64) -> (text: String)
    ensures
        text@ == decimal(n as nat),
    decreases n,
{
    if n < 10 {
        digit_text(n).to_owned()
    } else {
        let mut text = decimal_text(n / 10);
        text.append(digit_text(n % 10));
        assert(text@ =~= decimal(n as nat));
        text
    }
}

/// A number written in decimal is read back as that number.
pub proof fn law_decimal_is_read_back(n: u64)
    ensures
        parsed(decimal(n as nat)) == Some(n),
{
    lemma_decimal(n as nat);
    assert(unsigned_part(decimal(n as nat)) == decimal(n as nat));
}

/// The decimal of a number is a row of digits that stands for it.
proof fn lemma_decimal(n: nat)
    ensures
        decimal(n).len() > 0,
        forall|i: int| 0 <= i < decimal(n).len() ==> is_digit(decimal(n)[i]),
        number_of(decimal(n)) == n,
    decreases n,
{
    let text = decimal(n);
    if n < 10 {
        assert(text.drop_last() =~= Seq::<char>::empty());
        assert(number_of(text.drop_last()) == 0);
    } else {
        lemma_decimal(n / 10);
        assert(text.drop_last() =~= decimal(n / 10));
        assert forall|i: int| 0 <= i < text.len() implies is_digit(text[i]) by {
            if i < text.len() - 1 {
                assert(text[i] == decimal(n / 10)[i]);
            }
        }
    }
}

/// The decimal of a number is one line.
pub proof fn lemma_decimal_is_one_line(n: nat)
    ensures
        lines_of(decimal(n)) == seq![decimal(n)],
{
    let text = decimal(n);
    lemma_decimal(n);
    assert forall|j: int| 0 <= j < text.len() implies text[j] != '\n' by {
        assert(is_digit(text[j]));
    }
    lemma_first_of(text, '\n', text.len() as int);
}

/// A list of one text.
pub fn list1(a: &str) -> (list: Vec<String>)
    ensures
        texts(list@) == seq![a@],
{
    let mut list: Vec<String> = Vec::new();
    list.push(a.to_owned());
    assert(texts(list@) =~= seq![a@]);
    list
}

/// A list of two texts.
pub fn list2(a: &str, b: &str) -> (list: Vec<String>)
    ensures
        texts(list@) == seq![a@, b@],
{
    let mut list: Vec<String> = Vec::new();
    list.push(a.to_owned());
    list.push(b.to_owned());
    assert(texts(list@) =~= seq![a@, b@]);
    list
}

/// A list of three texts.
pub fn list3(a: &str, b: &str, c: &str) -> (list: Vec<String>)
    ensures
        texts(list@) == seq![a@, b@, c@],
{
    let mut list: Vec<String> = Vec::new();
    list.push(a.to_owned());
    list.push(b.to_owned());
    list.push(c.to_owned());
    assert(texts(list@) =~= seq![a@, b@, c@]);
    list
}

/// A list of four texts.
pub fn list4(a: &str, b: &str, c: &str, d: &str) -> (list: Vec<String>)
    ensures
        texts(list@) == seq![a@, b@, c@, d@],
{
    let mut list: Vec<String> = Vec::new();
    list.push(a.to_owned());
    list.push(b.to_owned());
    list.push(c.to_owned());
    list.push(d.to_owned());
    assert(texts(list@) =~= seq![a@, b@, c@, d@]);
    list
}

/// A list of five texts.
pub fn list5(a: &str, b: &str, c: &str, d: &str, e: &str) -> (list: Vec<String>)
    ensures
        texts(list@) == seq![a@, b@, c@, d@, e@],
{
    let mut list: Vec<String> = Vec::new();
    list.push(a.to_owned());
    list.push(b.to_owned());
    list.push(c.to_owned());
    list.push(d.to_owned());
    list.push(e.to_owned());
    assert(texts(list@) =~= seq![a@, b@, c@, d@, e@]);
    list
}

/// A text is cut at each occurrence of `c` and nowhere else: what stands before
/// an occurrence and what stands behind it are cut each for itself, and a text
/// without `c` is one piece.
pub proof fn law_split_is_cut_at_each_occurrence(front: Seq<char>, back: Seq<char>, c: char)
    ensures
        split_on(front + seq![c] + back, c) == split_on(front, c) + split_on(back, c),
        (forall|i: int| 0 <= i < front.len() ==> front[i] != c) ==> split_on(front, c) == seq![
            front,
        ],
    decreases front.len(),
{
    let text = front + seq![c] + back;
    let at = first_of(front, c) as int;
    lemma_first_of(front, c, front.len() as int);
    lemma_first_of(text, c, at);
    if at >= front.len() {
        assert(text.take(at) =~= front);
        assert(text.skip(at + 1) =~= back);
    } else {
        law_split_is_cut_at_each_occurrence(front.skip(at + 1), back, c);
        assert(text.take(at) =~= front.take(at));
        assert(text.skip(at + 1) =~= front.skip(at + 1) + seq![c] + back);
        assert(split_on(text, c) =~= split_on(front, c) + split_on(back, c));
    }
}

/// Lines end with line feeds: what stands before a line feed and what stands
/// behind it are lines each for itself.
pub proof fn law_lines_end_with_line_feeds(front: Seq<char>, back: Seq<char>)
    ensures
        lines_of(front.push('\n') + back) == lines_of(front.push('\n')) + lines_of(back),
    decreases front.len(),
{
    let text = front.push('\n') + back;
    let ended = front.push('\n');
    let at = first_of(front, '\n') as int;
    lemma_first_of(front, '\n', front.len() as int);
    lemma_first_of(text, '\n', at);
    lemma_first_of(ended, '\n', at);
    assert(text.take(at) =~= ended.take(at));
    if at >= front.len() {
        assert(text.skip(at + 1) =~= back);
        assert(ended.skip(at + 1) =~= Seq::<char>::empty());
        assert(lines_of(Seq::<char>::empty()) =~= Seq::empty());
        assert(lines_of(text) =~= lines_of(ended) + lines_of(back));
    } else {
        let later = front.skip(at + 1);
        law_lines_end_with_line_feeds(later, back);
        assert(text.skip(at + 1) =~= later.push('\n') + back);
        assert(ended.skip(at + 1) =~= later.push('\n'));
        assert(lines_of(text) =~= lines_of(ended) + lines_of(back));
    }
}

/// A line is what stands before its end: a line feed, a carriage return and a
/// line feed, or the end of the text.
pub proof fn law_line_is_what_stands_before_its_end(line: Seq<char>)
    requires
        forall|i: int| 0 <= i < line.len() ==> line[i] != '\n',
    ensures
        lines_of(Seq::empty()) == Seq::<Seq<char>>::empty(),
        line.len() > 0 ==> lines_of(line) == seq![line],
        line.len() == 0 || line.last() != '\r' ==> lines_of(line.push('\n')) == seq![line],
        lines_of(line.push('\r').push('\n')) == seq![line],
{
    assert(lines_of(Seq::<char>::empty()) =~= Seq::empty());
    lemma_first_of(line, '\n', line.len() as int);
    let ended = line.push('\n');
    lemma_first_of(ended, '\n', line.len() as int);
    assert(ended.take(line.len() as int) =~= line);
    assert(ended.skip(line.len() as int + 1) =~= Seq::<char>::empty());
    let returned = line.push('\r').push('\n');
    lemma_first_of(returned, '\n', line.len() as int + 1);
    assert(returned.take(line.len() as int + 1) =~= line.push('\r'));
    assert(line.push('\r').drop_last() =~= line);
    assert(returned.skip(line.len() as int + 2) =~= Seq::<char>::empty());
    assert(lines_of(returned) =~= seq![line]);
    if line.len() == 0 || line.last() != '\r' {
        assert(lines_of(ended) =~= seq![line]);
    }
}

/// White space at the beginning says nothing.
proof fn lemma_words_after_space(text: Seq<char>, space: char)
    requires
        is_space(space),
    ensures
        words_of(seq![space] + text) == words_of(text),
{
    let longer = seq![space] + text;
    assert(longer.drop_first() =~= text);
    assert(longer.skip(indent(longer) as int) =~= text.skip(indent(text) as int)) by {
        lemma_indent(text, 0);
    }
}

/// Words are what stands between white space: what stands before a white space
/// and what stands behind it are words each for itself, and a text without white
/// space is one word, if there is anything to it.
pub proof fn law_words_stand_between_white_space(front: Seq<char>, space: char, back: Seq<char>)
    requires
        is_space(space),
    ensures
        words_of(front + seq![space] + back) == words_of(front) + words_of(back),
        words_of(Seq::empty()) == Seq::<Seq<char>>::empty(),
        front.len() > 0 && !spaced(front) ==> words_of(front) == seq![front],
    decreases front.len(),
{
    let text = front + seq![space] + back;
    lemma_indent(front, 0);
    lemma_indent(Seq::empty(), 0);
    assert(words_of(Seq::<char>::empty()) =~= Seq::empty());
    if front.len() > 0 && !spaced(front) {
        assert forall|i: int| 0 <= i < front.len() implies !is_space(front[i]) by {}
        assert(front.skip(0) =~= front);
        lemma_word_length(front, front.len() as int);
        assert(front.take(front.len() as int) =~= front);
        assert(front.skip(front.len() as int) =~= Seq::<char>::empty());
        assert(words_of(front) =~= seq![front]);
    }
    if front.len() == 0 {
        lemma_words_after_space(back, space);
        assert(text =~= seq![space] + back);
        assert(words_of(text) =~= words_of(front) + words_of(back));
    } else if is_space(front[0]) {
        let later = front.drop_first();
        law_words_stand_between_white_space(later, space, back);
        lemma_words_after_space(later, front[0]);
        lemma_words_after_space(later + seq![space] + back, front[0]);
        assert(front =~= seq![front[0]] + later);
        assert(text =~= seq![front[0]] + (later + seq![space] + back));
    } else {
        lemma_indent(text, 0);
        assert(front.skip(0) =~= front);
        assert(text.skip(0) =~= text);
        let length = word_length(front) as int;
        lemma_word_length(front, length);
        assert(text[length] == if length < front.len() { front[length] } else { space });
        assert forall|j: int| 0 <= j < length implies !is_space(text[j]) by {
            assert(text[j] == front[j]);
        }
        lemma_word_length(text, length);
        assert(length > 0);
        let later = front.skip(length);
        law_words_stand_between_white_space(later, space, back);
        assert(text.take(length) =~= front.take(length));
        assert(text.skip(length) =~= later + seq![space] + back);
        assert(words_of(text) =~= words_of(front) + words_of(back));
    }
}

/// Trimming takes the white space at both ends and nothing else.
pub proof fn law_trimming_takes_the_white_space_at_both_ends(
    front: Seq<char>,
    inner: Seq<char>,
    back: Seq<char>,
)
    requires
        forall|i: int| 0 <= i < front.len() ==> is_space(front[i]),
        forall|i: int| 0 <= i < back.len() ==> is_space(back[i]),
        inner.len() > 0 ==> !is_space(inner[0]) && !is_space(inner.last()),
    ensures
        trimmed(front + inner + back) == inner,
{
    let text = front + inner + back;
    if inner.len() == 0 {
        assert forall|j: int| 0 <= j < text.len() implies is_space(text[j]) by {
            if j < front.len() {
                assert(text[j] == front[j]);
            } else {
                assert(text[j] == back[j - front.len()]);
            }
        }
        lemma_indent(text, text.len() as int);
        assert(text.skip(text.len() as int) =~= inner);
        assert(trimmed(text) =~= inner);
    } else {
        assert forall|j: int| 0 <= j < front.len() implies is_space(text[j]) by {
            assert(text[j] == front[j]);
        }
        assert(text[front.len() as int] == inner[0]);
        lemma_indent(text, front.len() as int);
        let rest = text.skip(front.len() as int);
        assert(rest =~= inner + back);
        assert forall|j: int| inner.len() <= j < rest.len() implies is_space(rest[j]) by {
            assert(rest[j] == back[j - inner.len()]);
        }
        assert(rest[inner.len() - 1] == inner.last());
        lemma_kept_length(rest, inner.len() as int);
        assert(rest.take(inner.len() as int) =~= inner);
    }
}

/// White space is what Unicode calls so: these characters and no others.
pub proof fn law_white_space_is_that_of_unicode(c: char)
    ensures
        is_space(c) <==> seq![
            0x09u32, 0x0au32, 0x0bu32, 0x0cu32, 0x0du32, 0x20u32, 0x85u32, 0xa0u32, 0x1680u32,
            0x2000u32, 0x2001u32, 0x2002u32, 0x2003u32, 0x2004u32, 0x2005u32, 0x2006u32,
            0x2007u32, 0x2008u32, 0x2009u32, 0x200au32, 0x2028u32, 0x2029u32, 0x202fu32,
            0x205fu32, 0x3000u32
        ].contains(c as u32),
{
    let codes = seq![
        0x09u32, 0x0au32, 0x0bu32, 0x0cu32, 0x0du32, 0x20u32, 0x85u32, 0xa0u32, 0x1680u32,
        0x2000u32, 0x2001u32, 0x2002u32, 0x2003u32, 0x2004u32, 0x2005u32, 0x2006u32,
        0x2007u32, 0x2008u32, 0x2009u32, 0x200au32, 0x2028u32, 0x2029u32, 0x202fu32,
        0x205fu32, 0x3000u32
    ];
    let code = c as u32;
    if is_space(c) {
        let place: int = if code <= 0x0d {
            code - 0x09
        } else if code == 0x20 {
            5
        } else if code == 0x85 {
            6
        } else if code == 0xa0 {
            7
        } else if code == 0x1680 {
            8
        } else if code <= 0x200a {
            9 + (code - 0x2000)
        } else if code == 0x2028 {
            20
        } else if code == 0x2029 {
            21
        } else if code == 0x202f {
            22
        } else if code == 0x205f {
            23
        } else {
            24
        };
        assert(codes[place] == code);
    }
}

/// A text holds what stands between its beginning and its end, and nothing that
/// does not.
pub proof fn law_text_holds_what_stands_in_it(
    front: Seq<char>,
    pattern: Seq<char>,
    back: Seq<char>,
    text: Seq<char>,
)
    ensures
        holds(front + pattern + back, pattern),
        holds(text, pattern) ==> exists|at: int|
            0 <= at <= text.len() - pattern.len() && #[trigger] text.skip(at).take(
                pattern.len() as int,
            ) == pattern,
{
    let whole = front + pattern + back;
    let at = front.len() as int;
    assert(whole.subrange(at, at + pattern.len()) =~= pattern);
    assert(stands_at(whole, pattern, at));
    if holds(text, pattern) {
        let found = choose|found: int| stands_at(text, pattern, found);
        assert(text.skip(found).take(pattern.len() as int) =~= text.subrange(
            found,
            found + pattern.len(),
        ));
    }
}

/// Lowering changes the letters from A to Z, each to its small form, and nothing
/// else.
pub proof fn law_lowering_changes_capitals_only(text: Seq<char>, i: int)
    requires
        0 <= i < text.len(),
    ensures
        lowered(text).len() == text.len(),
        'A' <= text[i] <= 'Z' ==> lowered(text)[i] as u32 == text[i] as u32 + 32,
        !('A' <= text[i] <= 'Z') ==> lowered(text)[i] == text[i],
{
}

/// Leading and trailing occurrences of a character are taken off, all of them and
/// nothing else.
pub proof fn law_repeated_ends_are_taken_off(count: nat, text: Seq<char>, c: char)
    ensures
        text.len() == 0 || text[0] != c ==> after_leading(Seq::new(count, |i: int| c) + text, c)
            == text,
        text.len() == 0 || text.last() != c ==> before_trailing(
            text + Seq::new(count, |i: int| c),
            c,
        ) == text,
    decreases count,
{
    let ends = Seq::new(count, |i: int| c);
    if count == 0 {
        assert(ends + text =~= text);
        assert(text + ends =~= text);
    } else {
        let fewer = Seq::new((count - 1) as nat, |i: int| c);
        law_repeated_ends_are_taken_off((count - 1) as nat, text, c);
        assert((ends + text).drop_first() =~= fewer + text);
        assert((text + ends).drop_last() =~= text + fewer);
    }
}

/// A number is read from decimal digits only, of which there is one at least,
/// after one plus sign at most; leading zeros say nothing, each further digit
/// counts ten times what stands before it, and what does not go into 64 bits is
/// no number.
pub proof fn law_number_is_read_digit_by_digit(text: Seq<char>, last: char)
    requires
        '0' <= last <= '9',
    ensures
        parsed(Seq::empty()) is None,
        parsed(seq!['+']) is None,
        parsed(seq![last]) == Some((last as u32 - 48) as u64),
        text.len() > 0 && text[0] != '+' ==> parsed(seq!['+'] + text) == parsed(text),
        text.len() > 0 && text != seq!['+'] ==> parsed(text.push(last)) == (match parsed(text) {
            Some(n) if n * 10 + (last as u32 - 48) <= u64::MAX => Some(
                (n * 10 + (last as u32 - 48)) as u64,
            ),
            _ => None,
        }),
{
    assert(seq!['+'].skip(1) =~= Seq::<char>::empty());
    let one = seq![last];
    assert(one.drop_last() =~= Seq::<char>::empty());
    assert(number_of(Seq::<char>::empty()) == 0);
    assert(number_of(one) == last as u32 - 48);
    assert((seq!['+'] + text).skip(1) =~= text);
    if text.len() > 0 && text != seq!['+'] {
        let digits = unsigned_part(text);
        let longer = unsigned_part(text.push(last));
        assert(longer =~= digits.push(last));
        assert(longer.drop_last() =~= digits);
        if text[0] == '+' {
            assert(text.len() > 1) by {
                if text.len() == 1 {
                    assert(text =~= seq!['+']);
                }
            }
        }
        assert(digits.len() > 0);
        assert((forall|i: int| 0 <= i < longer.len() ==> is_digit(longer[i])) <==> (forall|i: int|
            0 <= i < digits.len() ==> is_digit(digits[i]))) by {
            if forall|i: int| 0 <= i < longer.len() ==> is_digit(longer[i]) {
                assert forall|i: int| 0 <= i < digits.len() implies is_digit(digits[i]) by {
                    assert(is_digit(longer[i]));
                }
            }
        }
    }
}

/// A character that is no decimal digit makes a text no number, but for one plus
/// sign in front.
pub proof fn law_number_has_no_other_characters(text: Seq<char>, i: int)
    requires
        0 <= i < text.len(),
        !('0' <= text[i] <= '9'),
        i > 0 || text[0] != '+',
    ensures
        parsed(text) is None,
{
    let digits = unsigned_part(text);
    if text[0] == '+' {
        assert(digits[i - 1] == text[i]);
    } else {
        assert(digits[i] == text[i]);
    }
}

/// A number is written in digits only, without leading zeros.
pub proof fn law_decimal_is_plain(n: u64, i: int)
    ensures
        0 <= i < decimal(n as nat).len() ==> '0' <= decimal(n as nat)[i] <= '9',
        n > 0 ==> decimal(n as nat)[0] != '0',
        n == 0 ==> decimal(n as nat) == seq!['0'],
{
    lemma_decimal(n as nat);
    lemma_decimal_front(n as nat);
    assert(0 <= i < decimal(n as nat).len() ==> is_digit(decimal(n as nat)[i]));
}

/// The first digit of a number is not zero, but for that of zero.
proof fn lemma_decimal_front(n: nat)
    ensures
        n > 0 ==> decimal(n)[0] != '0',
    decreases n,
{
    if n >= 10 {
        lemma_decimal_front(n / 10);
        lemma_decimal(n / 10);
        assert(decimal(n)[0] == decimal(n / 10)[0]);
    }
}

/// Pieces are set in a row with one character between any two.
pub proof fn law_pieces_are_set_in_a_row(pieces: Seq<Seq<char>>, more: Seq<char>, c: char)
    ensures
        rejoined(seq![more], c) == more,
        pieces.len() > 0 ==> rejoined(pieces.push(more), c) == rejoined(pieces, c) + seq![c]
            + more,
{
    assert(pieces.push(more).drop_last() =~= pieces);
    if pieces.len() > 0 {
        assert(rejoined(pieces, c).push(c) + more =~= rejoined(pieces, c) + seq![c] + more);
    }
}

/// A list of texts has each of the strings, as it is and in its place.
pub proof fn law_list_has_each_text_in_its_place(list: Seq<String>, i: int)
    ensures
        texts(list).len() == list.len(),
        0 <= i < list.len() ==> texts(list)[i] == list[i]@,
{
}

} // verus!
