//! Small helpers on strings, stated over their `Seq<char>` views.

use vstd::prelude::*;
use vstd::string::StringSliceAdditionalSpecFns;
use vstd::utf8::{decode_utf8, encode_utf8_decode_utf8, valid_utf8};

verus! {

/// The characters of `s`, in order.
pub fn chars_of(s: &str) -> (chars: Vec<char>)
    ensures
        chars@ == s@,
{
    let mut chars: Vec<char> = Vec::new();
    for c in it: s.chars()
        invariant
            chars@ == it.seq().take(it.index() as int),
            it.seq() == s@,
    {
        chars.push(c);
    }
    chars
}

/// Whether two string slices hold the same characters.
pub fn str_eq(a: &str, b: &str) -> (same: bool)
    ensures
        same == (a@ == b@),
{
    let left = a.to_owned();
    let right = b.to_owned();
    left == right
}

/// `String::from_iter` over the characters of a vector: the string that
/// holds exactly those characters in that order.
#[verifier::external_body]
pub(crate) fn string_from_chars(chars: &Vec<char>) -> (s: String)
    ensures
        s@ == chars@,
{
    String::from_iter(chars.iter())
}

/// Whether `text` begins with the characters of `prefix`.
pub open spec fn has_prefix<T>(text: Seq<T>, prefix: Seq<T>) -> bool {
    prefix.len() <= text.len() && text.subrange(0, prefix.len() as int) == prefix
}

/// The view of an optional string slice.
pub open spec fn opt_str_view(text: Option<&str>) -> Option<Seq<char>> {
    match text {
        Some(text) => Some(text@),
        None => None,
    }
}

/// Index of the last occurrence of `symbol` in `text`, or -1 where there is
/// none.
pub open spec fn last_index_of(text: Seq<char>, symbol: char) -> int
    decreases text.len(),
{
    if text.len() == 0 {
        -1
    } else if text.last() == symbol {
        text.len() - 1
    } else {
        last_index_of(text.drop_last(), symbol)
    }
}

/// The path without what follows its last component: separators and
/// components that are a single dot.
pub open spec fn without_tail(path: Seq<char>) -> Seq<char>
    decreases path.len(),
{
    if path.len() == 0 {
        path
    } else if path.last() == '/' {
        without_tail(path.drop_last())
    } else if path.last() == '.' && (path.len() == 1 || path[path.len() - 2] == '/') {
        without_tail(path.drop_last())
    } else {
        path
    }
}

/// The last component of a path, empty where the path has none.
pub open spec fn file_name_of(path: Seq<char>) -> Seq<char> {
    let trimmed = without_tail(path);
    trimmed.skip(last_index_of(trimmed, '/') + 1)
}

/// The extension of a path: what follows the last dot of its last
/// component. A path has none where it has no last component, where that is
/// `..`, where it holds no dot, or none but the one it begins with.
pub open spec fn extension_of(path: Seq<char>) -> Option<Seq<char>> {
    let name = file_name_of(path);
    let dot = last_index_of(name, '.');
    if dot <= 0 || name == seq!['.', '.'] {
        None
    } else {
        Some(name.skip(dot + 1))
    }
}

/// `last_index_of` is the place of an occurrence that none follows.
pub proof fn lemma_last_index_is(text: Seq<char>, symbol: char, at: int)
    requires
        -1 <= at < text.len(),
        at >= 0 ==> text[at] == symbol,
        forall|k: int| at < k < text.len() ==> text[k] != symbol,
    ensures
        last_index_of(text, symbol) == at,
    decreases text.len(),
{
    if text.len() > 0 && text.last() != symbol {
        lemma_last_index_is(text.drop_last(), symbol, at);
    }
}

/// The extension of a file name, as `extension_of` defines it.
pub fn file_extension(filename: &str) -> (extension: Option<&str>)
    ensures
        opt_str_view(extension) == extension_of(filename@),
{
    let chars = chars_of(filename);
    let ghost path = chars@;
    let mut end: usize = chars.len();
    assert(path.take(end as int) =~= path);
    while end > 0 && (chars[end - 1] == '/' || (chars[end - 1] == '.' && (end == 1 || chars[end
        - 2] == '/')))
        invariant
            end <= chars.len(),
            path == chars@,
            without_tail(path) == without_tail(path.take(end as int)),
        decreases end,
    {
        assert(path.take(end as int).drop_last() =~= path.take(end - 1));
        end -= 1;
    }
    let ghost trimmed = path.take(end as int);
    assert(without_tail(path) == trimmed);
    let mut start: usize = end;
    while start > 0 && chars[start - 1] != '/'
        invariant
            start <= end <= chars.len(),
            path == chars@,
            forall|k: int| start <= k < end ==> path[k] != '/',
        decreases start,
    {
        start -= 1;
    }
    proof {
        lemma_last_index_is(trimmed, '/', start - 1);
    }
    let ghost name = trimmed.skip(start as int);
    assert(name == file_name_of(path));
    let mut dot: usize = end;
    while dot > start && chars[dot - 1] != '.'
        invariant
            start <= dot <= end <= chars.len(),
            path == chars@,
            forall|k: int| dot <= k < end ==> path[k] != '.',
        decreases dot,
    {
        dot -= 1;
    }
    proof {
        assert forall|k: int| dot - 1 - start < k < name.len() implies name[k] != '.' by {
            assert(name[k] == path[k + start]);
        }
        lemma_last_index_is(name, '.', dot - 1 - start);
    }
    if dot <= start + 1 {
        return None;
    }
    if end - start == 2 && chars[start] == '.' && chars[start + 1] == '.' {
        assert(name =~= seq!['.', '.']);
        return None;
    }
    assert(name != seq!['.', '.']) by {
        if name == seq!['.', '.'] {
            assert(name.len() == 2);
            assert(name[0] == '.' && name[1] == '.');
            assert(name[0] == path[start as int]);
            assert(name[1] == path[start + 1]);
        }
    }
    assert(name.skip(dot - start) =~= path.subrange(dot as int, end as int));
    Some(filename.substring_char(dot, end))
}


/// Whether the character is ASCII whitespace: space, tab, line feed, form
/// feed or carriage return.
pub open spec fn is_ascii_space(symbol: char) -> bool {
    symbol == ' ' || symbol == '\t' || symbol == '\n' || symbol == '\x0C' || symbol == '\r'
}

/// Whether the character has the Unicode property `White_Space`.
pub open spec fn is_unicode_space(symbol: char) -> bool {
    ||| '\u{9}' <= symbol <= '\u{d}'
    ||| symbol == ' '
    ||| symbol == '\u{85}'
    ||| symbol == '\u{a0}'
    ||| symbol == '\u{1680}'
    ||| '\u{2000}' <= symbol <= '\u{200a}'
    ||| symbol == '\u{2028}'
    ||| symbol == '\u{2029}'
    ||| symbol == '\u{202f}'
    ||| symbol == '\u{205f}'
    ||| symbol == '\u{3000}'
}

/// Whether the character parts words: by the Unicode property where
/// `unicode` is set, as ASCII whitespace where it is not.
pub open spec fn is_space(symbol: char, unicode: bool) -> bool {
    if unicode {
        is_unicode_space(symbol)
    } else {
        is_ascii_space(symbol)
    }
}

/// The words of a text: its longest runs of characters that are not
/// whitespace, in order.
pub open spec fn words(text: Seq<char>, unicode: bool) -> Seq<Seq<char>>
    decreases text.len(),
{
    if text.len() == 0 {
        Seq::empty()
    } else if is_space(text.last(), unicode) {
        words(text.drop_last(), unicode)
    } else if text.len() >= 2 && !is_space(text[text.len() - 2], unicode) {
        let before = words(text.drop_last(), unicode);
        before.drop_last().push(before.last().push(text.last()))
    } else {
        words(text.drop_last(), unicode).push(seq![text.last()])
    }
}

/// The words of a text that ASCII whitespace parts.
pub open spec fn ascii_words(text: Seq<char>) -> Seq<Seq<char>> {
    words(text, false)
}

/// The words of a text that Unicode whitespace parts.
pub open spec fn unicode_words(text: Seq<char>) -> Seq<Seq<char>> {
    words(text, true)
}

/// Whether the character parts words.
fn parts_words(symbol: char, unicode: bool) -> (parts: bool)
    ensures
        parts == is_space(symbol, unicode),
{
    if unicode {
        ('\u{9}' <= symbol && symbol <= '\u{d}') || symbol == ' ' || symbol == '\u{85}' || symbol
            == '\u{a0}' || symbol == '\u{1680}' || ('\u{2000}' <= symbol && symbol <= '\u{200a}')
            || symbol == '\u{2028}' || symbol == '\u{2029}' || symbol == '\u{202f}' || symbol
            == '\u{205f}' || symbol == '\u{3000}'
    } else {
        symbol == ' ' || symbol == '\t' || symbol == '\n' || symbol == '\x0C' || symbol == '\r'
    }
}

/// Whether two vectors hold the same characters.
pub fn chars_eq(a: &Vec<char>, b: &Vec<char>) -> (same: bool)
    ensures
        same == (a@ == b@),
{
    if a.len() != b.len() {
        return false;
    }
    let mut at: usize = 0;
    while at < a.len()
        invariant
            at <= a.len(),
            a.len() == b.len(),
            forall|k: int| 0 <= k < at ==> a@[k] == b@[k],
        decreases a.len() - at,
    {
        if a[at] != b[at] {
            return false;
        }
        at += 1;
    }
    assert(a@ =~= b@);
    true
}

/// The views of a sequence of words.
pub open spec fn word_views(words: Seq<Vec<char>>) -> Seq<Seq<char>> {
    words.map_values(|word: Vec<char>| word@)
}

/// Splits a text into its words.
fn split_words(text: &str, unicode: bool) -> (found: Vec<Vec<char>>)
    ensures
        word_views(found@) == words(text@, unicode),
{
    let chars = chars_of(text);
    let mut found: Vec<Vec<char>> = Vec::new();
    let mut word: Vec<char> = Vec::new();
    let mut at: usize = 0;
    assert(chars@.take(0) =~= Seq::<char>::empty());
    assert(word_views(found@) =~= Seq::<Seq<char>>::empty());
    while at < chars.len()
        invariant
            at <= chars.len(),
            chars@ == text@,
            word@.len() > 0 <==> at > 0 && !is_space(chars@[at - 1], unicode),
            words(chars@.take(at as int), unicode) == if word@.len() > 0 {
                word_views(found@).push(word@)
            } else {
                word_views(found@)
            },
        decreases chars.len() - at,
    {
        let symbol = chars[at];
        let ghost before = chars@.take(at as int);
        let ghost now = chars@.take(at + 1);
        assert(now.drop_last() =~= before);
        assert(now.last() == symbol);
        let ghost finished = word_views(found@);
        if parts_words(symbol, unicode) {
            if word.len() > 0 {
                found.push(word);
                word = Vec::new();
                assert(word_views(found@) =~= finished.push(found@[found.len() - 1]@));
            }
        } else {
            if word.len() > 0 {
                assert(now[now.len() - 2] == chars@[at - 1]);
                let ghost old_word = word@;
                word.push(symbol);
                assert(finished.push(old_word).drop_last() =~= finished);
            } else {
                word.push(symbol);
                assert(word@ =~= seq![symbol]);
            }
        }
        at += 1;
    }
    assert(chars@.take(at as int) =~= chars@);
    if word.len() > 0 {
        let ghost finished = word_views(found@);
        found.push(word);
        assert(word_views(found@) =~= finished.push(found@[found.len() - 1]@));
    }
    found
}

/// Splits a text into the words that ASCII whitespace parts.
pub fn split_ascii_whitespace(text: &str) -> (found: Vec<Vec<char>>)
    ensures
        word_views(found@) == ascii_words(text@),
{
    split_words(text, false)
}

/// Splits a text into the words that Unicode whitespace parts.
pub fn split_whitespace(text: &str) -> (found: Vec<Vec<char>>)
    ensures
        word_views(found@) == unicode_words(text@),
{
    split_words(text, true)
}

/// `std::str::from_utf8`, the error dropped: the string slice over the
/// bytes where they are valid UTF-8, nothing where they are not.
#[verifier::external_body]
fn from_utf8(bytes: &[u8]) -> (text: Option<&str>)
    ensures
        text.is_some() == valid_utf8(bytes@),
        text matches Some(text) ==> text.spec_bytes() == bytes@,
{
    std::str::from_utf8(bytes).ok()
}

/// The text that the bytes encode, where they are valid UTF-8.
pub open spec fn utf8_text(bytes: Seq<u8>) -> Option<Seq<char>> {
    if valid_utf8(bytes) {
        Some(decode_utf8(bytes))
    } else {
        None
    }
}

/// The bytes as text, where they are valid UTF-8.
pub fn bytes_as_str(bytes: &[u8]) -> (text: Option<&str>)
    ensures
        opt_str_view(text) == utf8_text(bytes@),
{
    let text = from_utf8(bytes);
    proof {
        if let Some(text) = text {
            encode_utf8_decode_utf8(text@);
        }
    }
    text
}

} // verus!
