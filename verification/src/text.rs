//! Text as a sequence of characters: searching, splitting, trimming, joining.
//!
//! The executable functions work on slices of characters, so that a piece of a
//! text is a view of it; `string_of` turns such a piece into a `String`.

use vstd::prelude::*;
use vstd::slice::slice_subrange;
use vstd::string::*;

verus! {

/// `String::push` appends one character to the end of the string.
pub assume_specification[ String::push ](text: &mut String, c: char)
    ensures
        final(text)@ == old(text)@.push(c),
;

// -- models ------------------------------------------------------------------

/// What the strings of a list hold.
pub open spec fn texts(list: Seq<String>) -> Seq<Seq<char>> {
    list.map_values(|text: String| text@)
}

/// What the character slices of a list hold.
pub open spec fn pieces(list: Seq<&[char]>) -> Seq<Seq<char>> {
    list.map_values(|piece: &[char]| piece@)
}

/// What an optional string holds.
pub open spec fn text_of(text: Option<String>) -> Option<Seq<char>> {
    match text {
        Some(text) => Some(text@),
        None => None,
    }
}

/// `part` stands in `whole` at position `at`.
pub open spec fn occurs_at(whole: Seq<char>, part: Seq<char>, at: int) -> bool {
    &&& 0 <= at
    &&& at + part.len() <= whole.len()
    &&& whole.subrange(at, at + part.len()) == part
}

/// The first position, not before `from`, at which `part` stands in `whole`.
pub open spec fn first_from(whole: Seq<char>, part: Seq<char>, from: int) -> Option<int>
    decreases whole.len() + 1 - from,
{
    if from < 0 || from + part.len() > whole.len() {
        None
    } else if occurs_at(whole, part, from) {
        Some(from)
    } else {
        first_from(whole, part, from + 1)
    }
}

/// The first position at which `part` stands in `whole`.
pub open spec fn first(whole: Seq<char>, part: Seq<char>) -> Option<int> {
    first_from(whole, part, 0)
}

/// The pieces of `whole` between the occurrences of `separator`, which are
/// looked for from left to right and do not overlap. An empty separator splits
/// nothing.
pub open spec fn split(whole: Seq<char>, separator: Seq<char>) -> Seq<Seq<char>>
    decreases whole.len(),
{
    if separator.len() == 0 {
        seq![whole]
    } else {
        match first(whole, separator) {
            None => seq![whole],
            Some(at) => {
                proof {
                    lemma_first_from(whole, separator, 0);
                }
                seq![whole.take(at)] + split(whole.skip(at + separator.len()), separator)
            },
        }
    }
}

/// The list's texts with `separator` between each two.
pub open spec fn join(list: Seq<Seq<char>>, separator: Seq<char>) -> Seq<char>
    decreases list.len(),
{
    if list.len() == 0 {
        Seq::empty()
    } else if list.len() == 1 {
        list[0]
    } else {
        join(list.drop_last(), separator) + separator + list.last()
    }
}

/// `whole` without as many leading copies of `prefix` as there are. An empty
/// prefix takes nothing away.
pub open spec fn without_prefixes(whole: Seq<char>, prefix: Seq<char>) -> Seq<char>
    decreases whole.len(),
{
    if prefix.len() > 0 && prefix.is_prefix_of(whole) {
        without_prefixes(whole.skip(prefix.len() as int), prefix)
    } else {
        whole
    }
}

/// The last position of `c` in `whole`.
pub open spec fn last_of(whole: Seq<char>, c: char) -> Option<int>
    decreases whole.len(),
{
    if whole.len() == 0 {
        None
    } else if whole.last() == c {
        Some(whole.len() - 1)
    } else {
        last_of(whole.drop_last(), c)
    }
}

/// What follows the last `c` in `whole`; all of `whole` where there is none.
pub open spec fn after_last(whole: Seq<char>, c: char) -> Seq<char> {
    match last_of(whole, c) {
        Some(at) => whole.skip(at + 1),
        None => whole,
    }
}

/// The characters with Unicode's `White_Space` property.
pub open spec fn is_space(c: char) -> bool {
    ||| 0x9 <= c as u32 <= 0xd
    ||| c as u32 == 0x20
    ||| c as u32 == 0x85
    ||| c as u32 == 0xa0
    ||| c as u32 == 0x1680
    ||| 0x2000 <= c as u32 <= 0x200a
    ||| 0x2028 <= c as u32 <= 0x2029
    ||| c as u32 == 0x202f
    ||| c as u32 == 0x205f
    ||| c as u32 == 0x3000
}

/// `text` without its leading white space.
pub open spec fn without_leading_space(text: Seq<char>) -> Seq<char>
    decreases text.len(),
{
    if text.len() > 0 && is_space(text[0]) {
        without_leading_space(text.skip(1))
    } else {
        text
    }
}

/// `text` without its trailing white space.
pub open spec fn without_trailing_space(text: Seq<char>) -> Seq<char>
    decreases text.len(),
{
    if text.len() > 0 && is_space(text.last()) {
        without_trailing_space(text.drop_last())
    } else {
        text
    }
}

/// `text` without white space at either end.
pub open spec fn trimmed(text: Seq<char>) -> Seq<char> {
    without_trailing_space(without_leading_space(text))
}

/// How many characters stand before the first white space.
pub open spec fn word_len(text: Seq<char>) -> int
    decreases text.len(),
{
    if text.len() == 0 || is_space(text[0]) {
        0
    } else {
        1 + word_len(text.skip(1))
    }
}

/// The words of a text: what stands between its white space.
pub open spec fn words(text: Seq<char>) -> Seq<Seq<char>>
    decreases text.len(),
    via words_decreases
{
    let rest = without_leading_space(text);
    if rest.len() == 0 {
        seq![]
    } else {
        seq![rest.take(word_len(rest))] + words(rest.skip(word_len(rest)))
    }
}

#[via_fn]
proof fn words_decreases(text: Seq<char>) {
    lemma_word_len(without_leading_space(text));
    lemma_leading_space(text);
}

/// `a` stands before `b` in the order of their code points, a prefix first.
pub open spec fn precedes(a: Seq<char>, b: Seq<char>) -> bool
    decreases a.len(),
{
    if b.len() == 0 {
        false
    } else if a.len() == 0 {
        true
    } else if a[0] != b[0] {
        a[0] < b[0]
    } else {
        precedes(a.skip(1), b.skip(1))
    }
}

// -- lemmas ------------------------------------------------------------------

/// A word ends at the first white space.
pub proof fn lemma_word_len(text: Seq<char>)
    ensures
        0 <= word_len(text) <= text.len(),
        forall|i: int| 0 <= i < word_len(text) ==> !is_space(#[trigger] text[i]),
        word_len(text) < text.len() ==> is_space(text[word_len(text)]),
    decreases text.len(),
{
    if text.len() > 0 && !is_space(text[0]) {
        let rest = text.skip(1);
        lemma_word_len(rest);
        assert forall|i: int| 0 <= i < word_len(text) implies !is_space(#[trigger] text[i]) by {
            if i > 0 {
                assert(rest[i - 1] == text[i]);
            }
        }
    }
}

/// Leading white space is no longer than the text, and what follows it is none.
pub proof fn lemma_leading_space(text: Seq<char>)
    ensures
        without_leading_space(text).len() <= text.len(),
        without_leading_space(text).len() > 0 ==> !is_space(without_leading_space(text)[0]),
    decreases text.len(),
{
    if text.len() > 0 && is_space(text[0]) {
        lemma_leading_space(text.skip(1));
    }
}

/// A word at the front of a text is the first of its words.
pub proof fn lemma_words_front(word: Seq<char>, rest: Seq<char>)
    requires
        word.len() > 0,
        forall|i: int| 0 <= i < word.len() ==> !is_space(#[trigger] word[i]),
        rest.len() == 0 || is_space(rest[0]),
    ensures
        words(word + rest) == seq![word] + words(rest),
{
    let whole = word + rest;
    assert(whole[0] == word[0]);
    lemma_word_len(whole);
    let end = word_len(whole);
    if end < word.len() {
        assert(whole[end] == word[end]);
    }
    if word.len() < end {
        assert(whole[word.len() as int] == rest[0]);
    }
    assert(whole.take(end) =~= word);
    assert(whole.skip(end) =~= rest);
}

/// White space at the front of a text is no part of its words.
pub proof fn lemma_words_after_space(c: char, rest: Seq<char>)
    requires
        is_space(c),
    ensures
        words(seq![c] + rest) == words(rest),
{
    assert((seq![c] + rest).skip(1) =~= rest);
    assert(without_leading_space(seq![c] + rest) == without_leading_space(rest));
}

/// `first_from` is the least position that qualifies.
pub proof fn lemma_first_from(whole: Seq<char>, part: Seq<char>, from: int)
    requires
        0 <= from,
    ensures
        match first_from(whole, part, from) {
            Some(at) => from <= at && occurs_at(whole, part, at) && forall|i: int|
                from <= i < at ==> !occurs_at(whole, part, i),
            None => forall|i: int| from <= i ==> !occurs_at(whole, part, i),
        },
    decreases whole.len() + 1 - from,
{
    if from + part.len() <= whole.len() && !occurs_at(whole, part, from) {
        lemma_first_from(whole, part, from + 1);
    }
}

/// A position that qualifies and has none before it is the first.
pub proof fn lemma_first_is(whole: Seq<char>, part: Seq<char>, from: int, at: int)
    requires
        0 <= from <= at,
        occurs_at(whole, part, at),
        forall|i: int| from <= i < at ==> !occurs_at(whole, part, i),
    ensures
        first_from(whole, part, from) == Some(at),
    decreases at - from,
{
    if from < at {
        lemma_first_is(whole, part, from + 1, at);
    }
}

/// `last_of` is the greatest position of the character.
pub proof fn lemma_last_of(whole: Seq<char>, c: char)
    ensures
        match last_of(whole, c) {
            Some(at) => 0 <= at < whole.len() && whole[at] == c && forall|i: int|
                at < i < whole.len() ==> whole[i] != c,
            None => forall|i: int| 0 <= i < whole.len() ==> whole[i] != c,
        },
    decreases whole.len(),
{
    if whole.len() > 0 && whole.last() != c {
        lemma_last_of(whole.drop_last(), c);
        assert(forall|i: int| 0 <= i < whole.len() - 1 ==> whole[i] == whole.drop_last()[i]);
    }
}

/// No text precedes itself.
pub proof fn lemma_precedes_irreflexive(a: Seq<char>)
    ensures
        !precedes(a, a),
    decreases a.len(),
{
    if a.len() > 0 {
        lemma_precedes_irreflexive(a.skip(1));
    }
}

/// The order is transitive.
pub proof fn lemma_precedes_transitive(a: Seq<char>, b: Seq<char>, c: Seq<char>)
    requires
        precedes(a, b),
        precedes(b, c),
    ensures
        precedes(a, c),
    decreases a.len(),
{
    if a.len() > 0 && a[0] == b[0] && b[0] == c[0] {
        lemma_precedes_transitive(a.skip(1), b.skip(1), c.skip(1));
    }
}

/// Of two different texts one precedes the other.
pub proof fn lemma_precedes_total(a: Seq<char>, b: Seq<char>)
    ensures
        a == b || precedes(a, b) || precedes(b, a),
    decreases a.len(),
{
    if a.len() > 0 && b.len() > 0 && a[0] == b[0] {
        lemma_precedes_total(a.skip(1), b.skip(1));
        if a.skip(1) == b.skip(1) {
            assert(a =~= seq![a[0]] + a.skip(1));
            assert(b =~= seq![b[0]] + b.skip(1));
        }
    } else if a.len() == 0 && b.len() == 0 {
        assert(a =~= b);
    }
}

/// A single character stands where the text has it.
pub proof fn lemma_occurs_char(whole: Seq<char>, c: char, at: int)
    ensures
        occurs_at(whole, seq![c], at) <==> 0 <= at < whole.len() && whole[at] == c,
{
    if 0 <= at < whole.len() {
        assert(whole.subrange(at, at + 1) =~= seq![whole[at]]);
        assert(seq![whole[at]][0] == whole[at] && seq![c][0] == c);
    }
}

/// `first` for a single character.
pub proof fn lemma_first_char(whole: Seq<char>, c: char)
    ensures
        match first(whole, seq![c]) {
            Some(at) => 0 <= at < whole.len() && whole[at] == c && forall|i: int|
                0 <= i < at ==> whole[i] != c,
            None => forall|i: int| 0 <= i < whole.len() ==> whole[i] != c,
        },
{
    lemma_first_from(whole, seq![c], 0);
    assert forall|i: int| #[trigger]
        occurs_at(whole, seq![c], i) <==> 0 <= i < whole.len() && whole[i] == c by {
        lemma_occurs_char(whole, c, i);
    }
    assert forall|i: int| 0 <= i < whole.len() && !occurs_at(whole, seq![c], i) implies whole[i]
        != c by {}
}

/// The position of a character with none before it is its first.
pub proof fn lemma_first_char_is(whole: Seq<char>, c: char, at: int)
    requires
        0 <= at < whole.len(),
        whole[at] == c,
        forall|i: int| 0 <= i < at ==> whole[i] != c,
    ensures
        first(whole, seq![c]) == Some(at),
{
    lemma_first_char(whole, c);
}

/// Text with a separator in it splits into what the two sides split into.
pub proof fn lemma_split_concat(a: Seq<char>, c: char, b: Seq<char>)
    ensures
        split(a.push(c) + b, seq![c]) == split(a, seq![c]) + split(b, seq![c]),
    decreases a.len(),
{
    let whole = a.push(c) + b;
    lemma_first_char(a, c);
    match first(a, seq![c]) {
        None => {
            lemma_first_char_is(whole, c, a.len() as int);
            assert(whole.take(a.len() as int) =~= a);
            assert(whole.skip(a.len() + 1 as int) =~= b);
        },
        Some(at) => {
            lemma_first_char_is(whole, c, at);
            let rest = a.skip(at + 1);
            assert(whole.take(at) =~= a.take(at));
            assert(whole.skip(at + 1) =~= rest.push(c) + b);
            lemma_split_concat(rest, c, b);
            assert(seq![a.take(at)] + (split(rest, seq![c]) + split(b, seq![c])) =~= seq![
                a.take(at),
            ] + split(rest, seq![c]) + split(b, seq![c]));
        },
    }
}

/// Joining puts the first text before the others joined.
pub proof fn lemma_join_front(list: Seq<Seq<char>>, separator: Seq<char>)
    requires
        list.len() >= 2,
    ensures
        join(list, separator) == list[0] + separator + join(list.drop_first(), separator),
    decreases list.len(),
{
    let front = list.drop_last();
    let back = list.drop_first();
    if list.len() == 2 {
        assert(join(front, separator) == list[0]);
        assert(join(back, separator) == list[1]);
    } else {
        lemma_join_front(front, separator);
        assert(front.drop_first() =~= back.drop_last());
        assert(join(list, separator) =~= list[0] + separator + join(back, separator));
    }
}

/// Joining two lists puts one separator between what each joins to.
pub proof fn lemma_join_concat(x: Seq<Seq<char>>, y: Seq<Seq<char>>, separator: Seq<char>)
    requires
        x.len() > 0,
        y.len() > 0,
    ensures
        join(x + y, separator) == join(x, separator) + separator + join(y, separator),
    decreases y.len(),
{
    let whole = x + y;
    if y.len() == 1 {
        assert(whole.drop_last() =~= x);
    } else {
        assert(whole.drop_last() =~= x + y.drop_last());
        lemma_join_concat(x, y.drop_last(), separator);
        assert(join(whole, separator) =~= join(x, separator) + separator + join(y, separator));
    }
}

/// A split has at least one piece, and none holds the separator.
pub proof fn lemma_split_pieces(text: Seq<char>, c: char)
    ensures
        split(text, seq![c]).len() > 0,
        forall|i: int, j: int|
            0 <= i < split(text, seq![c]).len() && 0 <= j < split(text, seq![c])[i].len()
                ==> #[trigger] split(text, seq![c])[i][j] != c,
    decreases text.len(),
{
    lemma_first_char(text, c);
    match first(text, seq![c]) {
        None => {},
        Some(at) => {
            lemma_split_pieces(text.skip(at + 1), c);
            let rest = split(text.skip(at + 1), seq![c]);
            let all = split(text, seq![c]);
            assert forall|i: int, j: int| 0 <= i < all.len() && 0 <= j < all[i].len() implies (
            #[trigger] all[i][j]) != c by {
                if i > 0 {
                    assert(all[i] == rest[i - 1]);
                    assert(rest[i - 1][j] != c);
                }
            }
        },
    }
}

/// Joining what a text splits into gives the text back.
pub proof fn lemma_join_split(text: Seq<char>, c: char)
    ensures
        join(split(text, seq![c]), seq![c]) == text,
    decreases text.len(),
{
    lemma_first_char(text, c);
    match first(text, seq![c]) {
        None => {},
        Some(at) => {
            let rest = text.skip(at + 1);
            lemma_join_split(rest, c);
            lemma_split_pieces(rest, c);
            lemma_join_front(split(text, seq![c]), seq![c]);
            assert(split(text, seq![c]).drop_first() =~= split(rest, seq![c]));
            assert(text =~= text.take(at) + seq![c] + rest);
        },
    }
}

/// Splitting what texts without the separator were joined to gives the texts
/// back.
pub proof fn lemma_split_join(list: Seq<Seq<char>>, c: char)
    requires
        list.len() > 0,
        forall|i: int, j: int|
            0 <= i < list.len() && 0 <= j < list[i].len() ==> #[trigger] list[i][j] != c,
    ensures
        split(join(list, seq![c]), seq![c]) == list,
    decreases list.len(),
{
    let last = list.last();
    lemma_first_char(last, c);
    assert forall|j: int| 0 <= j < last.len() implies last[j] != c by {
        assert(list[list.len() - 1][j] != c);
    }
    assert(split(last, seq![c]) =~= seq![last]);
    if list.len() == 1 {
        assert(list =~= seq![last]);
    } else {
        let front = list.drop_last();
        assert forall|i: int, j: int| 0 <= i < front.len() && 0 <= j < front[i].len() implies (
        #[trigger] front[i][j]) != c by {
            assert(list[i][j] != c);
        }
        lemma_split_join(front, c);
        lemma_split_concat(join(front, seq![c]), c, last);
        assert(join(list, seq![c]) =~= join(front, seq![c]).push(c) + last);
        assert(list =~= front + seq![last]);
    }
}

// -- strings and characters --------------------------------------------------

/// The characters of a string.
pub fn chars_of(text: &str) -> (chars: Vec<char>)
    ensures
        chars@ == text@,
{
    let mut chars: Vec<char> = Vec::new();
    for c in it: text.chars()
        invariant
            chars@ == text@.take(it.index()),
            it.seq() == text@,
    {
        chars.push(c);
    }
    chars
}

/// The string of some characters.
pub fn string_of(chars: &[char]) -> (text: String)
    ensures
        text@ == chars@,
{
    let mut text = String::new();
    let mut i: usize = 0;
    while i < chars.len()
        invariant
            i <= chars@.len(),
            text@ == chars@.take(i as int),
        decreases chars@.len() - i,
    {
        text.push(chars[i]);
        i += 1;
        assert(chars@.take(i as int) =~= chars@.take(i - 1).push(chars@[i - 1]));
    }
    assert(chars@.take(i as int) =~= chars@);
    text
}

/// Whether two character sequences are equal.
pub fn same_chars(a: &[char], b: &[char]) -> (same: bool)
    ensures
        same == (a@ == b@),
{
    if a.len() != b.len() {
        return false;
    }
    let mut i: usize = 0;
    while i < a.len()
        invariant
            i <= a@.len(),
            a@.len() == b@.len(),
            forall|j: int| 0 <= j < i ==> a@[j] == b@[j],
        decreases a@.len() - i,
    {
        if a[i] != b[i] {
            return false;
        }
        i += 1;
    }
    assert(a@ =~= b@);
    true
}

/// Whether two texts are equal.
pub fn same_text(a: &str, b: &str) -> (same: bool)
    ensures
        same == (a@ == b@),
{
    let a_chars = chars_of(a);
    let b_chars = chars_of(b);
    same_chars(&a_chars, &b_chars)
}

/// Whether `a` precedes `b`.
pub fn text_precedes(a: &str, b: &str) -> (less: bool)
    ensures
        less == precedes(a@, b@),
{
    let a_chars = chars_of(a);
    let b_chars = chars_of(b);
    let mut i: usize = 0;
    assert(a@.skip(0) =~= a@);
    assert(b@.skip(0) =~= b@);
    while i < a_chars.len() && i < b_chars.len()
        invariant
            i <= a@.len(),
            i <= b@.len(),
            a_chars@ == a@,
            b_chars@ == b@,
            precedes(a@, b@) == precedes(a@.skip(i as int), b@.skip(i as int)),
        decreases a@.len() - i,
    {
        if a_chars[i] != b_chars[i] {
            return a_chars[i] < b_chars[i];
        }
        assert(a@.skip(i as int).skip(1) =~= a@.skip(i + 1));
        assert(b@.skip(i as int).skip(1) =~= b@.skip(i + 1));
        i += 1;
    }
    i < b_chars.len()
}

// -- searching ---------------------------------------------------------------

/// Whether `part` stands in `whole` at position `at`.
pub fn stands_at(whole: &[char], part: &[char], at: usize) -> (found: bool)
    ensures
        found == occurs_at(whole@, part@, at as int),
{
    if at > whole.len() || part.len() > whole.len() - at {
        return false;
    }
    same_chars(slice_subrange(whole, at, at + part.len()), part)
}

/// The first position, not before `from`, at which `part` stands in `whole`.
pub fn find_from(whole: &[char], part: &[char], from: usize) -> (found: Option<usize>)
    ensures
        match found {
            Some(at) => first_from(whole@, part@, from as int) == Some(at as int),
            None => first_from(whole@, part@, from as int) is None,
        },
{
    let mut at: usize = from;
    while at <= whole.len() && part.len() <= whole.len() - at
        invariant
            first_from(whole@, part@, from as int) == first_from(whole@, part@, at as int),
        decreases whole@.len() - at,
    {
        if stands_at(whole, part, at) {
            return Some(at);
        }
        assert(part@.len() > 0) by {
            if part@.len() == 0 {
                assert(whole@.subrange(at as int, at as int) =~= part@);
            }
        }
        at += 1;
    }
    None
}

/// The last position of `c` in `whole`.
pub fn find_last(whole: &[char], c: char) -> (found: Option<usize>)
    ensures
        match found {
            Some(at) => last_of(whole@, c) == Some(at as int) && at < whole@.len(),
            None => last_of(whole@, c) is None,
        },
{
    let mut at: usize = whole.len();
    assert(whole@.take(at as int) =~= whole@);
    while at > 0
        invariant
            at <= whole@.len(),
            last_of(whole@, c) == last_of(whole@.take(at as int), c),
        decreases at,
    {
        assert(whole@.take(at as int).drop_last() =~= whole@.take(at - 1));
        if whole[at - 1] == c {
            return Some(at - 1);
        }
        at -= 1;
    }
    None
}

/// What follows the last `c` in `whole`; all of `whole` where there is none.
pub fn rest_after_last(whole: &[char], c: char) -> (rest: &[char])
    ensures
        rest@ == after_last(whole@, c),
{
    let len = whole.len();
    match find_last(whole, c) {
        Some(at) => slice_subrange(whole, at + 1, len),
        None => whole,
    }
}

/// Whether `whole` begins with `prefix`.
pub fn begins_with(whole: &[char], prefix: &[char]) -> (begins: bool)
    ensures
        begins == prefix@.is_prefix_of(whole@),
{
    stands_at(whole, prefix, 0)
}

/// Whether `whole` ends with `suffix`.
pub fn finishes_with(whole: &[char], suffix: &[char]) -> (ends: bool)
    ensures
        ends == suffix@.is_suffix_of(whole@),
{
    if suffix.len() > whole.len() {
        return false;
    }
    stands_at(whole, suffix, whole.len() - suffix.len())
}

/// The pieces of `whole` between the occurrences of `separator`.
pub fn split_on<'a>(whole: &'a [char], separator: &[char]) -> (out: Vec<&'a [char]>)
    requires
        separator@.len() > 0,
    ensures
        pieces(out@) == split(whole@, separator@),
{
    let mut out: Vec<&'a [char]> = Vec::new();
    let mut rest: &'a [char] = whole;
    assert(pieces(out@) + split(rest@, separator@) =~= split(whole@, separator@));
    loop
        invariant
            separator@.len() > 0,
            pieces(out@) + split(rest@, separator@) == split(whole@, separator@),
        decreases rest@.len(),
    {
        let ghost before = out@;
        let len = rest.len();
        proof {
            lemma_first_from(rest@, separator@, 0);
        }
        match find_from(rest, separator, 0) {
            None => {
                out.push(rest);
                assert(pieces(out@) =~= pieces(before) + split(rest@, separator@));
                return out;
            },
            Some(at) => {
                let next = slice_subrange(rest, at + separator.len(), len);
                let piece = slice_subrange(rest, 0, at);
                out.push(piece);
                assert(next@ =~= rest@.skip(at + separator@.len()));
                assert(pieces(out@) + split(next@, separator@) =~= pieces(before) + split(
                    rest@,
                    separator@,
                ));
                rest = next;
            },
        }
    }
}

// -- trimming ----------------------------------------------------------------

/// `whole` without as many leading copies of `prefix` as there are.
pub fn trim_start_matches<'a>(whole: &'a [char], prefix: &[char]) -> (rest: &'a [char])
    ensures
        rest@ == without_prefixes(whole@, prefix@),
{
    let mut rest: &'a [char] = whole;
    while prefix.len() > 0 && begins_with(rest, prefix)
        invariant
            without_prefixes(rest@, prefix@) == without_prefixes(whole@, prefix@),
        decreases rest@.len(),
    {
        rest = slice_subrange(rest, prefix.len(), rest.len());
    }
    rest
}

/// Whether a character is white space.
pub fn is_whitespace(c: char) -> (space: bool)
    ensures
        space == is_space(c),
{
    let code = c as u32;
    (0x9 <= code && code <= 0xd) || code == 0x20 || code == 0x85 || code == 0xa0 || code == 0x1680
        || (0x2000 <= code && code <= 0x200a) || (0x2028 <= code && code <= 0x2029) || code
        == 0x202f || code == 0x205f || code == 0x3000
}

/// `text` without its leading white space.
pub fn trim_start(text: &[char]) -> (rest: &[char])
    ensures
        rest@ == without_leading_space(text@),
{
    let mut rest: &[char] = text;
    while rest.len() > 0 && is_whitespace(rest[0])
        invariant
            without_leading_space(rest@) == without_leading_space(text@),
        decreases rest@.len(),
    {
        rest = slice_subrange(rest, 1, rest.len());
    }
    rest
}

/// `text` without its trailing white space.
pub fn trim_end(text: &[char]) -> (rest: &[char])
    ensures
        rest@ == without_trailing_space(text@),
{
    let mut rest: &[char] = text;
    while rest.len() > 0 && is_whitespace(rest[rest.len() - 1])
        invariant
            without_trailing_space(rest@) == without_trailing_space(text@),
        decreases rest@.len(),
    {
        rest = slice_subrange(rest, 0, rest.len() - 1);
    }
    rest
}

/// `text` without white space at either end.
pub fn trim(text: &[char]) -> (rest: &[char])
    ensures
        rest@ == trimmed(text@),
{
    trim_end(trim_start(text))
}

// -- joining -----------------------------------------------------------------

/// A text without the white space around it.
pub fn trim_text(text: &str) -> (trimmed_text: String)
    ensures
        trimmed_text@ == trimmed(text@),
{
    let chars = chars_of(text);
    string_of(trim(&chars))
}

/// The first word of a text, and what follows it.
pub fn next_word(text: &[char]) -> (word: Option<(&[char], &[char])>)
    ensures
        match word {
            Some((first, rest)) => words(text@) == seq![first@] + words(rest@),
            None => words(text@) == Seq::<Seq<char>>::empty(),
        },
{
    let rest = trim_start(text);
    let len = rest.len();
    if len == 0 {
        return None;
    }
    proof {
        lemma_word_len(rest@);
    }
    let mut end: usize = 0;
    while end < len && !is_whitespace(rest[end])
        invariant
            end <= len,
            len == rest@.len(),
            forall|i: int| 0 <= i < end ==> !is_space(#[trigger] rest@[i]),
        decreases len - end,
    {
        end += 1;
    }
    proof {
        if end < word_len(rest@) {
            assert(!is_space(rest@[end as int]));
        }
        if word_len(rest@) < end {
            assert(!is_space(rest@[word_len(rest@)]));
        }
    }
    let first = slice_subrange(rest, 0, end);
    let after = slice_subrange(rest, end, len);
    assert(first@ =~= rest@.take(word_len(rest@)));
    assert(after@ =~= rest@.skip(word_len(rest@)));
    Some((first, after))
}

/// The list's texts with `separator` between each two.
pub fn join_texts(list: &[String], separator: &str) -> (text: String)
    ensures
        text@ == join(texts(list@), separator@),
{
    let mut text = String::new();
    let mut i: usize = 0;
    assert(texts(list@).take(0) =~= Seq::empty());
    while i < list.len()
        invariant
            i <= list@.len(),
            text@ == join(texts(list@).take(i as int), separator@),
        decreases list@.len() - i,
    {
        let ghost done = texts(list@).take(i + 1);
        assert(done.drop_last() =~= texts(list@).take(i as int));
        if i > 0 {
            text.append(separator);
            text.append(list[i].as_str());
        } else {
            text.append(list[i].as_str());
            assert(text@ =~= done[0]);
        }
        i += 1;
    }
    assert(texts(list@).take(i as int) =~= texts(list@));
    text
}

/// Picking from two lists one after the other picks from each in turn.
pub proof fn lemma_filter_map_concat<A, B>(a: Seq<A>, b: Seq<A>, pick: spec_fn(A) -> Option<B>)
    ensures
        (a + b).filter_map(pick) == a.filter_map(pick) + b.filter_map(pick),
    decreases b.len(),
{
    reveal(Seq::filter_map);
    if b.len() == 0 {
        assert(a + b =~= a);
        assert(a.filter_map(pick) + b.filter_map(pick) =~= a.filter_map(pick));
    } else {
        let front = b.drop_last();
        lemma_filter_map_concat(a, front, pick);
        let whole = a + b;
        assert(whole.drop_last() =~= a + front);
        whole.lemma_filter_map_take_succ(pick, whole.len() - 1);
        b.lemma_filter_map_take_succ(pick, b.len() - 1);
        assert(whole.take(whole.len() - 1) =~= a + front);
        assert(whole.take(whole.len() as int) =~= whole);
        assert(b.take(b.len() - 1) =~= front);
        assert(b.take(b.len() as int) =~= b);
        assert(whole[whole.len() - 1] == b[b.len() - 1]);
        assert((a + b).filter_map(pick) =~= a.filter_map(pick) + b.filter_map(pick));
    }
}

/// Keeping from two lists one after the other keeps from each in turn.
pub proof fn lemma_filter_concat<A>(a: Seq<A>, b: Seq<A>, pred: spec_fn(A) -> bool)
    ensures
        (a + b).filter(pred) == a.filter(pred) + b.filter(pred),
    decreases b.len(),
{
    reveal(Seq::filter);
    if b.len() == 0 {
        assert(a + b =~= a);
        assert(a.filter(pred) + b.filter(pred) =~= a.filter(pred));
    } else {
        let front = b.drop_last();
        lemma_filter_concat(a, front, pred);
        assert((a + b).drop_last() =~= a + front);
        assert((a + b).filter(pred) =~= a.filter(pred) + b.filter(pred));
    }
}

// -- laws --------------------------------------------------------------------

/// The first place of a text in another is one where it stands, and it stands nowhere
/// before; there is none only where it stands nowhere.
pub proof fn law_first_is_the_first(whole: Seq<char>, part: Seq<char>)
    ensures
        match first(whole, part) {
            Some(at) => {
                &&& 0 <= at
                &&& at + part.len() <= whole.len()
                &&& whole.subrange(at, at + part.len()) == part
                &&& forall|i: int|
                    0 <= i < at ==> #[trigger] whole.subrange(i, i + part.len()) != part
            },
            None => forall|i: int|
                0 <= i <= whole.len() - part.len() ==> #[trigger] whole.subrange(i, i + part.len())
                    != part,
        },
{
    lemma_first_from(whole, part, 0);
    if let Some(at) = first(whole, part) {
        assert(occurs_at(whole, part, at));
        assert forall|i: int| 0 <= i < at implies #[trigger] whole.subrange(i, i + part.len())
            != part by {
            assert(!occurs_at(whole, part, i));
        }
    } else {
        assert forall|i: int| 0 <= i <= whole.len() - part.len() implies #[trigger] whole.subrange(
            i,
            i + part.len(),
        ) != part by {
            assert(!occurs_at(whole, part, i));
        }
    }
}

/// Joining nothing gives nothing, joining one text gives it, and joining two lists
/// after each other gives what each is joined to, with the separator between.
pub proof fn law_joining_puts_the_separator_between(
    x: Seq<Seq<char>>,
    y: Seq<Seq<char>>,
    text: Seq<char>,
    separator: Seq<char>,
)
    ensures
        join(Seq::empty(), separator).len() == 0,
        join(seq![text], separator) == text,
        x.len() > 0 && y.len() > 0 ==> join(x + y, separator) == join(x, separator) + separator
            + join(y, separator),
{
    if x.len() > 0 && y.len() > 0 {
        lemma_join_concat(x, y, separator);
    }
}

/// What a text splits into joins to the text, and none of it holds the separator.
pub proof fn law_splitting_cuts_at_every_separator(whole: Seq<char>, separator: Seq<char>)
    requires
        separator.len() > 0,
    ensures
        split(whole, separator).len() > 0,
        join(split(whole, separator), separator) == whole,
        forall|i: int, k: int|
            0 <= i < split(whole, separator).len() && 0 <= k && k + separator.len() <= split(
                whole,
                separator,
            )[i].len() ==> #[trigger] split(whole, separator)[i].subrange(k, k + separator.len())
                != separator,
    decreases whole.len(),
{
    lemma_first_from(whole, separator, 0);
    let all = split(whole, separator);
    match first(whole, separator) {
        None => {
            assert forall|i: int, k: int|
                0 <= i < all.len() && 0 <= k && k + separator.len() <= all[i].len() implies
                #[trigger] all[i].subrange(k, k + separator.len()) != separator by {
                assert(!occurs_at(whole, separator, k));
            }
        },
        Some(at) => {
            let tail = whole.skip(at + separator.len());
            let rest = split(tail, separator);
            law_splitting_cuts_at_every_separator(tail, separator);
            assert(all =~= seq![whole.take(at)] + rest);
            lemma_join_front(all, separator);
            assert(all.drop_first() =~= rest);
            assert(whole =~= whole.take(at) + separator + tail);
            assert forall|i: int, k: int|
                0 <= i < all.len() && 0 <= k && k + separator.len() <= all[i].len() implies
                #[trigger] all[i].subrange(k, k + separator.len()) != separator by {
                if i == 0 {
                    assert(!occurs_at(whole, separator, k));
                    assert(whole.take(at).subrange(k, k + separator.len()) =~= whole.subrange(
                        k,
                        k + separator.len(),
                    ));
                } else {
                    assert(all[i] == rest[i - 1]);
                    assert(rest[i - 1].subrange(k, k + separator.len()) != separator);
                }
            }
        },
    }
}

/// Leading copies of a prefix are taken away, all of them and nothing else.
pub proof fn law_every_prefix_is_taken_away(whole: Seq<char>, prefix: Seq<char>)
    requires
        prefix.len() > 0,
    ensures
        without_prefixes(prefix + whole, prefix) == without_prefixes(whole, prefix),
        !prefix.is_prefix_of(whole) ==> without_prefixes(whole, prefix) == whole,
{
    assert((prefix + whole).skip(prefix.len() as int) =~= whole);
    assert(prefix.is_prefix_of(prefix + whole));
}

/// The ASCII characters that are white space are the blank and the five from the tab
/// to the carriage return; those that can be printed are not.
pub proof fn law_ascii_white_space(c: char)
    requires
        c as u32 <= 0x7f,
    ensures
        is_space(c) <==> c == ' ' || '\t' <= c <= '\r',
{
}

/// Trimming takes the white space at both ends away, and nothing else.
pub proof fn law_trimming_leaves_the_middle(before: Seq<char>, text: Seq<char>, after: Seq<char>)
    requires
        forall|i: int| 0 <= i < before.len() ==> is_space(#[trigger] before[i]),
        forall|i: int| 0 <= i < after.len() ==> is_space(#[trigger] after[i]),
        text.len() > 0 ==> !is_space(text[0]) && !is_space(text.last()),
    ensures
        trimmed(before + text + after) == text,
    decreases before.len() + after.len(),
{
    let whole = before + text + after;
    if before.len() > 0 {
        assert(whole[0] == before[0]);
        assert(whole.skip(1) =~= before.skip(1) + text + after);
        law_trimming_leaves_the_middle(before.skip(1), text, after);
    } else if text.len() == 0 {
        if after.len() > 0 {
            assert(whole[0] == after[0]);
            assert(whole.skip(1) =~= before + text + after.skip(1));
            law_trimming_leaves_the_middle(before, text, after.skip(1));
        } else {
            assert(whole =~= text);
        }
    } else {
        assert(whole[0] == text[0]);
        assert(without_leading_space(whole) == whole);
        assert(whole =~= text + after);
        lemma_trailing_space(text, after);
    }
}

proof fn lemma_trailing_space(text: Seq<char>, after: Seq<char>)
    requires
        forall|i: int| 0 <= i < after.len() ==> is_space(#[trigger] after[i]),
        text.len() > 0 ==> !is_space(text.last()),
    ensures
        without_trailing_space(text + after) == text,
    decreases after.len(),
{
    if after.len() > 0 {
        assert((text + after).last() == after[after.len() - 1]);
        assert((text + after).drop_last() =~= text + after.drop_last());
        lemma_trailing_space(text, after.drop_last());
    } else {
        assert(text + after =~= text);
    }
}

/// White space parts words: a text without white space is one word, and the words on
/// both sides of white space are all the words there are.
pub proof fn law_white_space_parts_words(a: Seq<char>, c: char, b: Seq<char>)
    requires
        is_space(c),
    ensures
        words(a + seq![c] + b) == words(a) + words(b),
        words(Seq::empty()).len() == 0,
        a.len() > 0 && (forall|i: int| 0 <= i < a.len() ==> !is_space(#[trigger] a[i])) ==> words(a)
            == seq![a],
    decreases a.len(),
{
    let empty = Seq::<char>::empty();
    let whole = a + seq![c] + b;
    if a.len() > 0 && forall|i: int| 0 <= i < a.len() ==> !is_space(#[trigger] a[i]) {
        lemma_words_front(a, empty);
        assert(a + empty =~= a);
        assert(words(empty) =~= seq![]);
        assert(seq![a] + words(empty) =~= seq![a]);
    }
    if a.len() == 0 {
        assert(whole =~= seq![c] + b);
        lemma_words_after_space(c, b);
        assert(a =~= empty);
        assert(words(a) + words(b) =~= words(b));
    } else if is_space(a[0]) {
        let tail = a.skip(1);
        law_white_space_parts_words(tail, c, b);
        assert(whole =~= seq![a[0]] + (tail + seq![c] + b));
        assert(a =~= seq![a[0]] + tail);
        lemma_words_after_space(a[0], tail + seq![c] + b);
        lemma_words_after_space(a[0], tail);
    } else {
        lemma_word_len(a);
        let n = word_len(a);
        let word = a.take(n);
        let tail = a.skip(n);
        assert(n > 0);
        law_white_space_parts_words(tail, c, b);
        assert(a =~= word + tail);
        assert(whole =~= word + (tail + seq![c] + b));
        lemma_words_front(word, tail);
        assert((tail + seq![c] + b).len() > 0);
        if tail.len() == 0 {
            assert((tail + seq![c] + b)[0] == c);
        } else {
            assert((tail + seq![c] + b)[0] == tail[0]);
        }
        lemma_words_front(word, tail + seq![c] + b);
        assert(words(whole) =~= words(a) + words(b));
    }
}

/// What follows the last of a character is what follows it and holds no other; all of
/// a text follows where it holds none.
pub proof fn law_rest_follows_the_last(before: Seq<char>, c: char, rest: Seq<char>)
    requires
        forall|i: int| 0 <= i < rest.len() ==> #[trigger] rest[i] != c,
    ensures
        after_last(before.push(c) + rest, c) == rest,
        after_last(rest, c) == rest,
{
    let whole = before.push(c) + rest;
    lemma_last_of(whole, c);
    lemma_last_of(rest, c);
    let at = last_of(whole, c)->Some_0;
    assert(whole[before.len() as int] == c);
    if at > before.len() {
        assert(whole[at] == rest[at - before.len() - 1]);
    }
    assert(whole.skip(at + 1) =~= rest);
}

/// Texts are ordered by the first character in which they differ, and a text comes
/// before what continues it.
pub proof fn law_texts_are_ordered_by_characters(
    common: Seq<char>,
    a: char,
    b: char,
    rest: Seq<char>,
    other: Seq<char>,
)
    ensures
        a != b ==> (precedes(common + seq![a] + rest, common + seq![b] + other) <==> a < b),
        precedes(common, common + seq![a] + rest),
        !precedes(common + rest, common),
    decreases common.len(),
{
    let x = common + seq![a] + rest;
    let y = common + seq![b] + other;
    if common.len() == 0 {
        assert(x[0] == a && y[0] == b);
    } else {
        let tail = common.skip(1);
        law_texts_are_ordered_by_characters(tail, a, b, rest, other);
        assert(x.skip(1) =~= tail + seq![a] + rest);
        assert(y.skip(1) =~= tail + seq![b] + other);
        assert((common + rest).skip(1) =~= tail + rest);
        assert(x[0] == common[0] && y[0] == common[0] && (common + rest)[0] == common[0]);
    }
}

/// The model of a list of strings, or of slices, holds all of them, in their order,
/// and that of a string that may be missing holds it where it is there.
pub proof fn law_models_hold_every_text(list: Seq<String>, slices: Seq<&[char]>, text: String)
    ensures
        texts(list).len() == list.len(),
        forall|i: int| 0 <= i < list.len() ==> #[trigger] texts(list)[i] == list[i]@,
        pieces(slices).len() == slices.len(),
        forall|i: int| 0 <= i < slices.len() ==> #[trigger] pieces(slices)[i] == slices[i]@,
        text_of(Some(text)) == Some(text@),
        text_of(None) is None,
{
}

/// Looking from a place on finds the first place from there on, and overlooks what
/// stands before.
pub proof fn law_first_from_looks_ahead(whole: Seq<char>, part: Seq<char>, from: int)
    requires
        0 <= from,
    ensures
        match first_from(whole, part, from) {
            Some(at) => {
                &&& from <= at
                &&& at + part.len() <= whole.len()
                &&& whole.subrange(at, at + part.len()) == part
                &&& forall|i: int|
                    from <= i < at ==> #[trigger] whole.subrange(i, i + part.len()) != part
            },
            None => forall|i: int|
                from <= i <= whole.len() - part.len() ==> #[trigger] whole.subrange(
                    i,
                    i + part.len(),
                ) != part,
        },
{
    lemma_first_from(whole, part, from);
    if let Some(at) = first_from(whole, part, from) {
        assert(occurs_at(whole, part, at));
        assert forall|i: int| from <= i < at implies #[trigger] whole.subrange(i, i + part.len())
            != part by {
            assert(!occurs_at(whole, part, i));
        }
    } else {
        assert forall|i: int| from <= i <= whole.len() - part.len() implies
            #[trigger] whole.subrange(i, i + part.len()) != part by {
            assert(!occurs_at(whole, part, i));
        }
    }
}

/// The last place of a character is one where it stands, and it stands nowhere after.
pub proof fn law_last_is_the_last(whole: Seq<char>, c: char)
    ensures
        match last_of(whole, c) {
            Some(at) => 0 <= at < whole.len() && whole[at] == c && forall|i: int|
                at < i < whole.len() ==> whole[i] != c,
            None => forall|i: int| 0 <= i < whole.len() ==> whole[i] != c,
        },
{
    lemma_last_of(whole, c);
}

/// White space is taken away at the beginning, or at the end, and nothing else.
pub proof fn law_one_end_is_trimmed(space: Seq<char>, text: Seq<char>)
    requires
        forall|i: int| 0 <= i < space.len() ==> is_space(#[trigger] space[i]),
    ensures
        text.len() == 0 || !is_space(text[0]) ==> without_leading_space(space + text) == text,
        text.len() == 0 || !is_space(text.last()) ==> without_trailing_space(text + space) == text,
    decreases space.len(),
{
    if text.len() == 0 || !is_space(text.last()) {
        lemma_trailing_space(text, space);
    }
    if space.len() > 0 {
        let tail = space.skip(1);
        assert((space + text)[0] == space[0]);
        assert((space + text).skip(1) =~= tail + text);
        law_one_end_is_trimmed(tail, text);
    } else {
        assert(space + text =~= text);
    }
}

/// A text stands in another at a place where it is read there.
pub proof fn law_texts_stand_where_they_are_read(whole: Seq<char>, part: Seq<char>, at: int)
    ensures
        occurs_at(whole, part, at) <==> 0 <= at && at + part.len() <= whole.len() && forall|i: int|
            0 <= i < part.len() ==> whole[at + i] == #[trigger] part[i],
{
    if occurs_at(whole, part, at) {
        assert forall|i: int| 0 <= i < part.len() implies whole[at + i] == #[trigger] part[i] by {
            assert(whole.subrange(at, at + part.len())[i] == part[i]);
        }
    }
    if 0 <= at && at + part.len() <= whole.len() && forall|i: int|
        0 <= i < part.len() ==> whole[at + i] == #[trigger] part[i] {
        assert(whole.subrange(at, at + part.len()) =~= part);
    }
}

} // verus!
