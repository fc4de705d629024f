//! Characters, strings and numbers as the rest of the library reads and writes them.

use vstd::prelude::*;

use crate::sort::{in_order, keys_view, lemma_order_of, order, order_of};

verus! {

/// `String::push` puts one character at the end of the string.
pub assume_specification[ String::push ](text: &mut String, c: char)
    ensures
        final(text)@ == old(text)@.push(c),
;

/// `String::push_str` puts a string at the end of the string.
pub assume_specification[ String::push_str ](text: &mut String, more: &str)
    ensures
        final(text)@ == old(text)@ + more@,
;

/// The characters of a string, where they can be indexed.
pub fn chars_of(text: &str) -> (chars: Vec<char>)
    ensures
        chars@ == text@,
{
    let mut chars: Vec<char> = Vec::new();
    for c in it: text.chars()
        invariant
            it.seq() == text@,
            chars@ =~= it.seq().take(it.index() as int),
    {
        chars.push(c);
    }
    chars
}

/// A string made of the given characters.
pub fn string_of(chars: &[char]) -> (text: String)
    ensures
        text@ == chars@,
{
    let mut text = String::new();
    let mut i: usize = 0;
    while i < chars.len()
        invariant
            i <= chars.len(),
            text@ =~= chars@.take(i as int),
        decreases chars.len() - i,
    {
        text.push(chars[i]);
        i = i + 1;
    }
    text
}

/// Do two strings hold the same characters?
pub fn same(left: &str, right: &str) -> (equal: bool)
    ensures
        equal == (left@ == right@),
{
    let a = chars_of(left);
    let b = chars_of(right);
    if a.len() != b.len() {
        return false;
    }
    let mut i: usize = 0;
    while i < a.len()
        invariant
            i <= a.len(),
            a.len() == b.len(),
            a@ == left@,
            b@ == right@,
            forall|k: int| 0 <= k < i ==> a@[k] == b@[k],
        decreases a.len() - i,
    {
        if a[i] != b[i] {
            return false;
        }
        i = i + 1;
    }
    assert(left@ =~= right@);
    true
}


/// The characters of each string of a list.
pub open spec fn texts(list: Seq<String>) -> Seq<Seq<char>> {
    Seq::new(list.len(), |i: int| list[i]@)
}

pub proof fn lemma_texts_push(list: Seq<String>, last: String)
    ensures
        texts(list.push(last)) == texts(list).push(last@),
{
    assert(texts(list.push(last)) =~= texts(list).push(last@));
}

/// Is the string in the list?
pub fn lists(list: &Vec<String>, text: &str) -> (found: bool)
    ensures
        found == texts(list@).contains(text@),
{
    let mut i: usize = 0;
    while i < list.len()
        invariant
            i <= list.len(),
            forall|k: int| 0 <= k < i ==> list@[k]@ != text@,
        decreases list.len() - i,
    {
        if same(list[i].as_str(), text) {
            assert(texts(list@)[i as int] == text@);
            return true;
        }
        i = i + 1;
    }
    false
}

/// What `String::from_utf8_lossy` makes of bytes that are not UTF-8.
pub uninterp spec fn replaced_text(bytes: Seq<u8>) -> Seq<char>;

/// Bytes as text: what they encode, or, where they are not UTF-8, with something in place of what is not.
pub open spec fn utf8_text(bytes: Seq<u8>) -> Seq<char> {
    if vstd::utf8::valid_utf8(bytes) {
        vstd::utf8::decode_utf8(bytes)
    } else {
        replaced_text(bytes)
    }
}

/// `String::from_utf8_lossy`: bytes that are valid UTF-8 are read as the text they encode. What
/// stands in for bytes that are not is left to the function.
#[verifier::external_body]
pub(crate) fn lossy(bytes: &[u8]) -> (text: String)
    ensures
        text@ == if vstd::utf8::valid_utf8(bytes@) {
            vstd::utf8::decode_utf8(bytes@)
        } else {
            replaced_text(bytes@)
        },
{
    String::from_utf8_lossy(bytes).into_owned()
}

/// Bytes that are UTF-8 are what their text encodes to, and text that is encoded is read as it was.
pub proof fn law_utf8_is_kept(bytes: Seq<u8>, text: Seq<char>)
    ensures
        vstd::utf8::valid_utf8(bytes) ==> vstd::utf8::encode_utf8(utf8_text(bytes)) == bytes,
        utf8_text(vstd::utf8::encode_utf8(text)) == text,
{
    if vstd::utf8::valid_utf8(bytes) {
        vstd::utf8::decode_utf8_encode_utf8(bytes);
    }
    vstd::utf8::encode_utf8_valid_utf8(text);
    vstd::utf8::encode_utf8_decode_utf8(text);
}

/// A string without letters that have a lower case other than themselves outside ASCII.
pub open spec fn ascii(text: Seq<char>) -> bool {
    forall|i: int| 0 <= i < text.len() ==> text[i] <= '\u{7f}'
}

pub open spec fn lower_char(c: char) -> char {
    if 'A' <= c && c <= 'Z' {
        ((c as u8) + 32) as u8 as char
    } else {
        c
    }
}

/// A string with its ASCII letters in lower case and everything else as it was.
pub open spec fn lowered(text: Seq<char>) -> Seq<char> {
    Seq::new(text.len(), |i: int| lower_char(text[i]))
}

/// What `str::to_lowercase` makes of a string.
pub uninterp spec fn lowercase_text(text: Seq<char>) -> Seq<char>;

/// `str::to_lowercase`: the Unicode lower case of the string, which for ASCII text is the ASCII
/// lower case of each of its characters.
#[verifier::external_body]
pub(crate) fn lowercase(text: &str) -> (lower: String)
    ensures
        lower@ == lowercase_text(text@),
        ascii(text@) ==> lower@ == lowered(text@),
{
    text.to_lowercase()
}

/// The lower case of one ASCII letter; any other character is kept.
pub fn ascii_lower(c: char) -> (lower: char)
    ensures
        lower == lower_char(c),
{
    if 'A' <= c && c <= 'Z' {
        ((c as u8) + 32) as char
    } else {
        c
    }
}

/// `str::eq_ignore_ascii_case`.
pub fn same_ignoring_case(left: &str, right: &str) -> (equal: bool)
    ensures
        equal == (lowered(left@) == lowered(right@)),
{
    let a = chars_of(left);
    let b = chars_of(right);
    if a.len() != b.len() {
        assert(lowered(left@).len() != lowered(right@).len());
        return false;
    }
    let mut i: usize = 0;
    while i < a.len()
        invariant
            i <= a.len(),
            a.len() == b.len(),
            a@ == left@,
            b@ == right@,
            forall|k: int| 0 <= k < i ==> lower_char(a@[k]) == lower_char(b@[k]),
        decreases a.len() - i,
    {
        if ascii_lower(a[i]) != ascii_lower(b[i]) {
            assert(lowered(left@)[i as int] != lowered(right@)[i as int]);
            return false;
        }
        i = i + 1;
    }
    assert(lowered(left@) =~= lowered(right@));
    true
}

/// The Unicode property White_Space.
pub open spec fn white(c: char) -> bool {
    ||| '\u{9}' <= c && c <= '\u{d}'
    ||| c == '\u{20}'
    ||| c == '\u{85}'
    ||| c == '\u{a0}'
    ||| c == '\u{1680}'
    ||| '\u{2000}' <= c && c <= '\u{200a}'
    ||| c == '\u{2028}'
    ||| c == '\u{2029}'
    ||| c == '\u{202f}'
    ||| c == '\u{205f}'
    ||| c == '\u{3000}'
}

pub fn is_white(c: char) -> (is: bool)
    ensures
        is == white(c),
{
    ('\u{9}' <= c && c <= '\u{d}') || c == '\u{20}' || c == '\u{85}' || c == '\u{a0}'
        || c == '\u{1680}' || ('\u{2000}' <= c && c <= '\u{200a}') || c == '\u{2028}'
        || c == '\u{2029}' || c == '\u{202f}' || c == '\u{205f}' || c == '\u{3000}'
}

/// The text without white space in front.
pub open spec fn trimmed_front(text: Seq<char>) -> Seq<char>
    decreases text.len(),
{
    if text.len() > 0 && white(text[0]) {
        trimmed_front(text.skip(1))
    } else {
        text
    }
}

/// The text without white space behind.
pub open spec fn trimmed_back(text: Seq<char>) -> Seq<char>
    decreases text.len(),
{
    if text.len() > 0 && white(text.last()) {
        trimmed_back(text.drop_last())
    } else {
        text
    }
}

/// The text without white space at either end.
pub open spec fn trimmed(text: Seq<char>) -> Seq<char> {
    trimmed_back(trimmed_front(text))
}

/// `str::trim`.
pub fn trim(text: &str) -> (inner: String)
    ensures
        inner@ == trimmed(text@),
{
    let chars = chars_of(text);
    let mut start: usize = 0;
    assert(text@.skip(0) =~= text@);
    while start < chars.len() && is_white(chars[start])
        invariant
            start <= chars.len(),
            chars@ == text@,
            trimmed_front(text@) == trimmed_front(text@.skip(start as int)),
        decreases chars.len() - start,
    {
        assert(text@.skip(start as int).skip(1) =~= text@.skip(start + 1));
        start = start + 1;
    }
    assert(trimmed_front(text@) == text@.skip(start as int));
    let mut end: usize = chars.len();
    assert(text@.subrange(start as int, end as int) =~= text@.skip(start as int));
    while end > start && is_white(chars[end - 1])
        invariant
            start <= end <= chars.len(),
            chars@ == text@,
            trimmed(text@) == trimmed_back(text@.subrange(start as int, end as int)),
        decreases end,
    {
        assert(text@.subrange(start as int, end as int).drop_last() =~= text@.subrange(
            start as int,
            end - 1,
        ));
        end = end - 1;
    }
    string_of(vstd::slice::slice_subrange(chars.as_slice(), start, end))
}

/// A sequence cut at every occurrence of a separator, which is dropped. There is always at least
/// one piece.
pub open spec fn split<T>(whole: Seq<T>, separator: T) -> Seq<Seq<T>>
    decreases whole.len(),
{
    if whole.len() == 0 {
        seq![Seq::empty()]
    } else {
        let before = split(whole.drop_last(), separator);
        if whole.last() == separator {
            before.push(Seq::empty())
        } else {
            before.drop_last().push(before.last().push(whole.last()))
        }
    }
}

pub proof fn lemma_split_some<T>(whole: Seq<T>, separator: T)
    ensures
        split(whole, separator).len() >= 1,
    decreases whole.len(),
{
    if whole.len() > 0 {
        lemma_split_some(whole.drop_last(), separator);
    }
}

/// Cutting two sequences put together cuts each of them, and joins the pieces at the seam.
pub proof fn lemma_split_concat<T>(a: Seq<T>, b: Seq<T>, separator: T)
    ensures
        split(a + b, separator) == split(a, separator).drop_last() + (seq![split(a, separator).last() + split(b, separator)[0]]
            + split(b, separator).skip(1)),
    decreases b.len(),
{
    lemma_split_some(a, separator);
    lemma_split_some(b, separator);
    let sa = split(a, separator);
    let sb = split(b, separator);
    if b.len() == 0 {
        assert(a + b =~= a);
        assert(sa.last() + sb[0] =~= sa.last());
        assert(sa =~= sa.drop_last() + (seq![sa.last() + sb[0]] + sb.skip(1)));
    } else {
        let c = b.drop_last();
        lemma_split_concat(a, c, separator);
        lemma_split_some(c, separator);
        let sc = split(c, separator);
        assert((a + b).drop_last() =~= a + c);
        assert((a + b).last() == b.last());
        let before = split(a + c, separator);
        assert(before =~= sa.drop_last() + (seq![sa.last() + sc[0]] + sc.skip(1)));
        let whole = sa.drop_last() + (seq![sa.last() + sb[0]] + sb.skip(1));
        if b.last() == separator {
            assert(sb == sc.push(Seq::empty()));
            assert(split(a + b, separator) =~= whole);
        } else {
            assert(sb == sc.drop_last().push(sc.last().push(b.last())));
            if sc.len() == 1 {
                assert((sa.last() + sc[0]).push(b.last()) =~= sa.last() + sb[0]);
            }
            assert(split(a + b, separator) =~= whole);
        }
    }
}

pub proof fn lemma_split_without<T>(whole: Seq<T>, separator: T)
    requires
        !whole.contains(separator),
    ensures
        split(whole, separator) == seq![whole],
    decreases whole.len(),
{
    if whole.len() == 0 {
        assert(whole =~= Seq::empty());
        assert(split(whole, separator) =~= seq![whole]);
    } else {
        let short = whole.drop_last();
        assert(whole.contains(whole.last()));
        if short.contains(separator) {
            let i = choose|i: int| 0 <= i < short.len() && short[i] == separator;
            assert(whole[i] == separator);
        }
        lemma_split_without(short, separator);
        assert(short.push(whole.last()) =~= whole);
        assert(split(whole, separator) =~= seq![whole]);
    }
}

/// `str::split` with a character.
pub fn split_at_char(text: &str, separator: char) -> (pieces: Vec<String>)
    ensures
        texts(pieces@) == split(text@, separator),
        pieces.len() >= 1,
{
    let chars = chars_of(text);
    let mut pieces: Vec<String> = Vec::new();
    let mut current = String::new();
    let mut i: usize = 0;
    assert(texts(pieces@).push(current@) =~= split(text@.take(0), separator)) by {
        assert(current@ =~= Seq::<char>::empty());
    }
    while i < chars.len()
        invariant
            i <= chars.len(),
            chars@ == text@,
            texts(pieces@).push(current@) == split(text@.take(i as int), separator),
        decreases chars.len() - i,
    {
        let ghost before = texts(pieces@).push(current@);
        assert(text@.take(i + 1).drop_last() =~= text@.take(i as int));
        assert(before.drop_last() =~= texts(pieces@));
        if chars[i] == separator {
            proof {
                lemma_texts_push(pieces@, current);
            }
            pieces.push(current);
            current = String::new();
            assert(current@ =~= Seq::<char>::empty());
        } else {
            current.push(chars[i]);
        }
        i = i + 1;
    }
    proof {
        lemma_texts_push(pieces@, current);
        assert(text@.take(i as int) =~= text@);
    }
    pieces.push(current);
    pieces
}

pub open spec fn without_return(line: Seq<char>) -> Seq<char> {
    if line.len() > 0 && line.last() == '\r' {
        line.drop_last()
    } else {
        line
    }
}

/// The lines of a text: what stands before each line feed, without a carriage return at its end,
/// and what stands after the last one unless that is empty.
pub open spec fn lines_of(text: Seq<char>) -> Seq<Seq<char>> {
    let pieces = split(text, '\n');
    let ended = Seq::new((pieces.len() - 1) as nat, |i: int| without_return(pieces[i]));
    if pieces.last().len() == 0 {
        ended
    } else {
        ended.push(pieces.last())
    }
}

/// `str::lines`.
pub fn lines(text: &str) -> (lines: Vec<String>)
    ensures
        texts(lines@) == lines_of(text@),
{
    let mut pieces = split_at_char(text, '\n');
    let ghost cut = split(text@, '\n');
    let mut found: Vec<String> = Vec::new();
    let mut i: usize = 0;
    while i < pieces.len() - 1
        invariant
            i <= pieces.len() - 1,
            texts(pieces@) == cut,
            texts(found@) =~= Seq::new(i as nat, |k: int| without_return(cut[k])),
        decreases pieces.len() - i,
    {
        let mut chars = chars_of(pieces[i].as_str());
        assert(chars@ == cut[i as int]);
        if chars.len() > 0 && chars[chars.len() - 1] == '\r' {
            let dropped = chars.pop();
            assert(chars@ =~= cut[i as int].drop_last());
        }
        let line = string_of(chars.as_slice());
        proof {
            lemma_texts_push(found@, line);
        }
        found.push(line);
        i = i + 1;
    }
    assert(pieces@[i as int]@ == cut.last());
    let ghost ended = texts(found@);
    if let Some(last) = pieces.pop() {
        if last.as_str().unicode_len() > 0 {
            proof {
                lemma_texts_push(found@, last);
            }
            found.push(last);
        }
    }
    assert(texts(found@) =~= lines_of(text@));
    found
}

/// The pieces that are not empty.
pub open spec fn filled<T>(pieces: Seq<Seq<T>>) -> Seq<Seq<T>>
    decreases pieces.len(),
{
    if pieces.len() == 0 {
        Seq::empty()
    } else {
        let before = filled(pieces.drop_last());
        if pieces.last().len() == 0 {
            before
        } else {
            before.push(pieces.last())
        }
    }
}

pub open spec fn spaced(text: Seq<char>) -> Seq<char> {
    Seq::new(
        text.len(),
        |i: int|
            if white(text[i]) {
                ' '
            } else {
                text[i]
            },
    )
}

/// The words of a text, as white space sets them apart.
pub open spec fn words_of(text: Seq<char>) -> Seq<Seq<char>> {
    filled(split(spaced(text), ' '))
}

/// `str::split_whitespace`.
pub fn words(text: &str) -> (words: Vec<String>)
    ensures
        texts(words@) == words_of(text@),
{
    let chars = chars_of(text);
    let mut even: Vec<char> = Vec::new();
    let mut i: usize = 0;
    while i < chars.len()
        invariant
            i <= chars.len(),
            chars@ == text@,
            even@ =~= spaced(text@).take(i as int),
        decreases chars.len() - i,
    {
        if is_white(chars[i]) {
            even.push(' ');
        } else {
            even.push(chars[i]);
        }
        i = i + 1;
    }
    assert(even@ =~= spaced(text@));
    let line = string_of(even.as_slice());
    let pieces = split_at_char(line.as_str(), ' ');
    let mut found: Vec<String> = Vec::new();
    let mut k: usize = 0;
    assert(texts(found@) =~= filled(texts(pieces@).take(0)));
    while k < pieces.len()
        invariant
            k <= pieces.len(),
            texts(found@) == filled(texts(pieces@).take(k as int)),
        decreases pieces.len() - k,
    {
        assert(texts(pieces@).take(k + 1).drop_last() =~= texts(pieces@).take(k as int));
        assert(texts(pieces@).take(k + 1).last() == pieces@[k as int]@);
        if pieces[k].as_str().unicode_len() > 0 {
            let piece = pieces[k].clone();
            proof {
                lemma_texts_push(found@, piece);
            }
            found.push(piece);
        }
        k = k + 1;
    }
    assert(texts(pieces@).take(k as int) =~= texts(pieces@));
    found
}

/// `str::starts_with` with a string.
pub fn starts_with(text: &str, prefix: &str) -> (does: bool)
    ensures
        does == prefix@.is_prefix_of(text@),
{
    let a = chars_of(text);
    let b = chars_of(prefix);
    if a.len() < b.len() {
        return false;
    }
    let mut i: usize = 0;
    while i < b.len()
        invariant
            i <= b.len() <= a.len(),
            a@ == text@,
            b@ == prefix@,
            forall|k: int| 0 <= k < i ==> a@[k] == b@[k],
        decreases b.len() - i,
    {
        if a[i] != b[i] {
            assert(text@.subrange(0, prefix@.len() as int)[i as int] != prefix@[i as int]);
            return false;
        }
        i = i + 1;
    }
    assert(text@.subrange(0, prefix@.len() as int) =~= prefix@);
    true
}

/// `str::strip_prefix`.
pub fn after_prefix(text: &str, prefix: &str) -> (rest: Option<String>)
    ensures
        rest is Some <==> prefix@.is_prefix_of(text@),
        rest matches Some(rest) ==> rest@ == text@.skip(prefix@.len() as int),
{
    if !starts_with(text, prefix) {
        return None;
    }
    let chars = chars_of(text);
    let from = prefix.unicode_len();
    assert(chars@.subrange(from as int, chars.len() as int) =~= text@.skip(from as int));
    Some(string_of(vstd::slice::slice_subrange(chars.as_slice(), from, chars.len())))
}

/// `str::strip_suffix`.
pub fn before_suffix(text: &str, suffix: &str) -> (rest: Option<String>)
    ensures
        rest is Some <==> suffix@.is_suffix_of(text@),
        rest matches Some(rest) ==> rest@ == text@.take(text@.len() - suffix@.len()),
{
    let a = chars_of(text);
    let b = chars_of(suffix);
    if a.len() < b.len() {
        return None;
    }
    let from: usize = a.len() - b.len();
    let mut i: usize = 0;
    while i < b.len()
        invariant
            i <= b.len() <= a.len(),
            from == a.len() - b.len(),
            a@ == text@,
            b@ == suffix@,
            forall|k: int| 0 <= k < i ==> a@[from + k] == b@[k],
        decreases b.len() - i,
    {
        if a[from + i] != b[i] {
            assert(text@.subrange(from as int, text@.len() as int)[i as int] != suffix@[i as int]);
            return None;
        }
        i = i + 1;
    }
    assert(text@.subrange(from as int, text@.len() as int) =~= suffix@);
    assert(a@.subrange(0, from as int) =~= text@.take(from as int));
    Some(string_of(vstd::slice::slice_subrange(a.as_slice(), 0, from)))
}

/// Does the text hold the other somewhere?
pub open spec fn holds(text: Seq<char>, part: Seq<char>) -> bool {
    exists|at: int|
        0 <= at <= text.len() - part.len() && #[trigger] text.subrange(at, at + part.len()) == part
}

/// `str::contains` with a string.
pub fn contains(text: &str, part: &str) -> (does: bool)
    ensures
        does == holds(text@, part@),
{
    let a = chars_of(text);
    let b = chars_of(part);
    if a.len() < b.len() {
        return false;
    }
    let mut at: usize = 0;
    while at <= a.len() - b.len()
        invariant
            b.len() <= a.len(),
            at <= a.len() - b.len() + 1,
            a@ == text@,
            b@ == part@,
            forall|k: int|
                0 <= k < at ==> #[trigger] text@.subrange(k, k + part@.len()) != part@,
        decreases a.len() - b.len() + 1 - at,
    {
        let mut i: usize = 0;
        while i < b.len() && a[at + i] == b[i]
            invariant
                i <= b.len(),
                at + b.len() <= a.len(),
                a@ == text@,
                b@ == part@,
                forall|k: int| 0 <= k < i ==> a@[at + k] == b@[k],
            decreases b.len() - i,
        {
            i = i + 1;
        }
        if i == b.len() {
            assert(text@.subrange(at as int, at + part@.len()) =~= part@);
            return true;
        }
        assert(text@.subrange(at as int, at + part@.len())[i as int] != part@[i as int]);
        at = at + 1;
    }
    false
}


pub open spec fn digit(n: nat) -> char {
    ((48 + n) as u8) as char
}

/// A number in decimal.
pub open spec fn decimal_text(n: nat) -> Seq<char>
    decreases n,
{
    if n < 10 {
        seq![digit(n)]
    } else {
        decimal_text(n / 10).push(digit(n % 10))
    }
}

pub fn decimal(n: u64) -> (text: String)
    ensures
        text@ == decimal_text(n as nat),
{
    decimal_wide(n as u128)
}

pub fn decimal_wide(n: u128) -> (text: String)
    ensures
        text@ == decimal_text(n as nat),
    decreases n,
{
    let mut text = String::new();
    if n >= 10 {
        text = decimal_wide(n / 10);
    }
    text.push(((n % 10) as u8 + 48) as char);
    assert(n < 10 ==> text@ =~= seq![digit(n as nat)]);
    text
}

pub open spec fn is_digit(c: char) -> bool {
    '0' <= c && c <= '9'
}

pub open spec fn all_digits(text: Seq<char>) -> bool {
    forall|i: int| 0 <= i < text.len() ==> is_digit(#[trigger] text[i])
}

/// What a row of decimal digits stands for.
pub open spec fn digits_value(text: Seq<char>) -> nat
    decreases text.len(),
{
    if text.len() == 0 {
        0
    } else {
        10 * digits_value(text.drop_last()) + (text.last() as nat - 48) as nat
    }
}

pub open spec fn without_plus(text: Seq<char>) -> Seq<char> {
    if text.len() > 0 && text[0] == '+' {
        text.skip(1)
    } else {
        text
    }
}

/// The number a text stands for, as `FromStr` of the unsigned integers reads it: decimal digits,
/// at least one, with an optional `+` in front.
pub open spec fn number(text: Seq<char>) -> Option<nat> {
    let digits = without_plus(text);
    if digits.len() > 0 && all_digits(digits) {
        Some(digits_value(digits))
    } else {
        None
    }
}

proof fn lemma_value_grows(text: Seq<char>, n: int)
    requires
        0 <= n <= text.len(),
    ensures
        digits_value(text.take(n)) <= digits_value(text),
    decreases text.len(),
{
    if n < text.len() {
        assert(text.drop_last().take(n) =~= text.take(n));
        lemma_value_grows(text.drop_last(), n);
    } else {
        assert(text.take(n) =~= text);
    }
}

/// Reads an unsigned integer that is at most `most`.
pub fn parse_number(text: &str, most: u64) -> (value: Option<u64>)
    ensures
        value is Some <==> number(text@) is Some && number(text@)->0 <= most,
        value matches Some(value) ==> value == number(text@)->0,
{
    let chars = chars_of(text);
    let mut start: usize = 0;
    if chars.len() > 0 && chars[0] == '+' {
        start = 1;
    }
    let ghost digits = without_plus(text@);
    assert(digits =~= text@.skip(start as int));
    if start == chars.len() {
        return None;
    }
    let mut value: u64 = 0;
    let mut i: usize = start;
    while i < chars.len()
        invariant
            start <= i <= chars.len(),
            chars@ == text@,
            digits == text@.skip(start as int),
            digits == without_plus(text@),
            forall|k: int| start <= k < i ==> is_digit(#[trigger] text@[k]),
            value == digits_value(digits.take(i - start)),
            value <= most,
        decreases chars.len() - i,
    {
        let c = chars[i];
        if c < '0' || c > '9' {
            assert(!is_digit(digits[i - start]));
            return None;
        }
        assert(digits.take(i - start + 1).drop_last() =~= digits.take(i - start));
        assert(digits.take(i - start + 1).last() == c);
        let step: u64 = (c as u8 - 48) as u64;
        proof {
            lemma_value_grows(digits, i - start + 1);
        }
        if step > most || value > (most - step) / 10 {
            return None;
        }
        value = value * 10 + step;
        i = i + 1;
    }
    assert(digits.take(i - start) =~= digits);
    assert forall|k: int| 0 <= k < digits.len() implies is_digit(#[trigger] digits[k]) by {
        assert(digits[k] == text@[start + k]);
    }
    Some(value)
}

/// Writing a number in decimal and reading it gives the number back.
pub proof fn law_decimal_reads_back(n: nat)
    ensures
        number(decimal_text(n)) == Some(n),
{
    lemma_decimal_digits(n);
}

pub proof fn lemma_decimal_digits(n: nat)
    ensures
        decimal_text(n).len() > 0,
        all_digits(decimal_text(n)),
        digits_value(decimal_text(n)) == n,
    decreases n,
{
    if n < 10 {
        assert(decimal_text(n).drop_last() =~= Seq::<char>::empty());
        assert(digits_value(Seq::<char>::empty()) == 0);
        assert(decimal_text(n).last() == digit(n));
    } else {
        lemma_decimal_digits(n / 10);
        assert(decimal_text(n).drop_last() =~= decimal_text(n / 10));
    }
}

/// The texts of a list with a separator between each two.
pub open spec fn joined(list: Seq<Seq<char>>, separator: Seq<char>) -> Seq<char>
    decreases list.len(),
{
    if list.len() == 0 {
        Seq::empty()
    } else if list.len() == 1 {
        list[0]
    } else {
        joined(list.drop_last(), separator) + separator + list.last()
    }
}

/// `[String]::join`.
pub fn join(list: &Vec<String>, separator: &str) -> (text: String)
    ensures
        text@ == joined(texts(list@), separator@),
{
    let mut text = String::new();
    let mut i: usize = 0;
    assert(text@ =~= joined(texts(list@).take(0), separator@));
    while i < list.len()
        invariant
            i <= list.len(),
            text@ == joined(texts(list@).take(i as int), separator@),
        decreases list.len() - i,
    {
        let ghost next = texts(list@).take(i + 1);
        assert(next.drop_last() =~= texts(list@).take(i as int));
        assert(next.last() == list@[i as int]@);
        if i > 0 {
            text.push_str(separator);
        }
        text.push_str(list[i].as_str());
        assert(i == 0 ==> text@ =~= next[0]);
        i = i + 1;
    }
    assert(texts(list@).take(i as int) =~= texts(list@));
    text
}

/// Puts a text at the end of a list.
pub fn add_text(list: &mut Vec<String>, text: String)
    ensures
        texts(final(list)@) == texts(old(list)@).push(text@),
{
    proof {
        lemma_texts_push(list@, text);
    }
    list.push(text);
}

/// A number in octal.
pub open spec fn octal_text(n: nat) -> Seq<char>
    decreases n,
{
    if n < 8 {
        seq![digit(n)]
    } else {
        octal_text(n / 8).push(digit(n % 8))
    }
}

pub fn octal(n: u32) -> (text: String)
    ensures
        text@ == octal_text(n as nat),
    decreases n,
{
    let mut text = String::new();
    if n >= 8 {
        text = octal(n / 8);
    }
    text.push(((n % 8) as u8 + 48) as char);
    assert(n < 8 ==> text@ =~= seq![digit(n as nat)]);
    text
}

/// The sort key of a text. Texts are ordered by their characters, as their UTF-8 bytes are.
pub open spec fn text_key(text: Seq<char>) -> Seq<u32> {
    Seq::new(text.len(), |i: int| text[i] as u32)
}

pub fn key_of(text: &str) -> (key: Vec<u32>)
    ensures
        key@ == text_key(text@),
{
    let chars = chars_of(text);
    let mut key: Vec<u32> = Vec::new();
    let mut i: usize = 0;
    while i < chars.len()
        invariant
            i <= chars.len(),
            chars@ == text@,
            key@ =~= text_key(text@).take(i as int),
        decreases chars.len() - i,
    {
        key.push(chars[i] as u32);
        i = i + 1;
    }
    assert(key@ =~= text_key(text@));
    key
}

pub open spec fn text_keys(list: Seq<Seq<char>>) -> Seq<Seq<u32>> {
    Seq::new(list.len(), |i: int| text_key(list[i]))
}

/// Texts in order.
pub open spec fn sorted_texts(list: Seq<Seq<char>>) -> Seq<Seq<char>> {
    let places = order_of(text_keys(list));
    Seq::new(places.len(), |i: int| list[places[i] as int])
}

/// Sorts texts.
pub fn sort_texts(list: &Vec<String>) -> (sorted: Vec<String>)
    ensures
        texts(sorted@) == sorted_texts(texts(list@)),
{
    let ghost all = texts(list@);
    let mut keys: Vec<Vec<u32>> = Vec::new();
    let mut i: usize = 0;
    while i < list.len()
        invariant
            i <= list.len(),
            keys@.len() == i,
            forall|k: int| 0 <= k < i ==> (#[trigger] keys@[k])@ == text_key(list@[k]@),
        decreases list.len() - i,
    {
        keys.push(key_of(list[i].as_str()));
        i = i + 1;
    }
    assert(keys_view(keys@) =~= text_keys(all));
    let places = order(&keys);
    proof {
        lemma_order_of(text_keys(all), places@);
    }
    let mut sorted: Vec<String> = Vec::new();
    let mut n: usize = 0;
    while n < places.len()
        invariant
            n <= places.len(),
            all == texts(list@),
            in_order(text_keys(all), places@),
            sorted@.len() == n,
            forall|k: int| 0 <= k < n ==> (#[trigger] sorted@[k])@ == all[places@[k] as int],
        decreases places.len() - n,
    {
        assert(places@[n as int] < text_keys(all).len());
        sorted.push(list[places[n]].clone());
        n = n + 1;
    }
    assert(texts(sorted@) =~= sorted_texts(all));
    sorted
}

} // verus!
