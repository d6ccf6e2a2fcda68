//! Text and byte-string helpers shared by the other modules.

use vstd::prelude::*;
use vstd::utf8::{decode_utf8, encode_utf8, valid_utf8};

verus! {

/// Appends one character.
///
/// Trusted: `String::push` appends the given character to the end of the string.
pub assume_specification[ String::push ](s: &mut String, c: char)
    ensures
        final(s)@ == old(s)@.push(c),
;

/// Whether a character has the Unicode property `White_Space`.
pub open spec fn white_space(c: char) -> bool {
    ||| '\u{9}' <= c <= '\u{d}'
    ||| c == ' '
    ||| c == '\u{85}'
    ||| c == '\u{a0}'
    ||| c == '\u{1680}'
    ||| '\u{2000}' <= c <= '\u{200a}'
    ||| c == '\u{2028}'
    ||| c == '\u{2029}'
    ||| c == '\u{202f}'
    ||| c == '\u{205f}'
    ||| c == '\u{3000}'
}

/// Trusted: `char::is_whitespace` tells whether the character has the Unicode
/// property `White_Space`, whose members [`white_space`] lists.
pub assume_specification[ char::is_whitespace ](c: char) -> (res: bool)
    ensures
        res == white_space(c),
;

/// The text that `String::from_utf8_lossy` makes of an ill-formed byte string: each
/// ill-formed sequence is replaced by U+FFFD.
pub uninterp spec fn lossy_text(bytes: Seq<u8>) -> Seq<char>;

/// The text that a byte string holds: plain decoding where it is well-formed UTF-8,
/// and [`lossy_text`] where it is not.
pub open spec fn text_of(bytes: Seq<u8>) -> Seq<char> {
    if valid_utf8(bytes) {
        decode_utf8(bytes)
    } else {
        lossy_text(bytes)
    }
}

/// The text that a byte string holds, ill-formed sequences replaced.
///
/// Trusted: `String::from_utf8_lossy` depends on the bytes alone, and on well-formed
/// UTF-8 it is plain decoding. Which characters an ill-formed byte string becomes is
/// left to [`lossy_text`].
#[verifier::external_body]
pub(crate) fn lossy(bytes: &[u8]) -> (res: String)
    ensures
        res@ == if valid_utf8(bytes@) {
            decode_utf8(bytes@)
        } else {
            lossy_text(bytes@)
        },
{
    String::from_utf8_lossy(bytes).into_owned()
}

/// A text written out as UTF-8 reads back as itself.
pub proof fn text_round_trip(text: Seq<char>)
    ensures
        text_of(encode_utf8(text)) == text,
{
    broadcast use vstd::utf8::encode_utf8_valid_utf8, vstd::utf8::encode_utf8_decode_utf8;
}

/// The characters of a string.
pub(crate) fn chars_of(s: &str) -> (res: Vec<char>)
    ensures
        res@ == s@,
{
    let mut res: Vec<char> = Vec::new();
    for c in it: s.chars()
        invariant
            res@ == it.seq().take(it.index()),
            it.seq() == s@,
    {
        res.push(c);
    }
    assert(s@.take(s@.len() as int) =~= s@);
    res
}

/// The string of the given characters.
pub(crate) fn string_of(chars: &Vec<char>) -> (res: String)
    ensures
        res@ == chars@,
{
    let mut res = String::new();
    let mut i: usize = 0;
    while i < chars.len()
        invariant
            i <= chars.len(),
            res@ == chars@.take(i as int),
        decreases chars.len() - i,
    {
        res.push(chars[i]);
        i += 1;
    }
    assert(chars@.take(chars@.len() as int) =~= chars@);
    res
}

/// `head`, `middle` and `tail` in one string.
pub(crate) fn concat3(head: &str, middle: &str, tail: &str) -> (res: String)
    ensures
        res@ == head@ + middle@ + tail@,
{
    let mut res = head.to_owned();
    res.append(middle);
    res.append(tail);
    res
}

/// Whether two strings hold the same characters.
pub(crate) fn str_eq(a: &str, b: &str) -> (res: bool)
    ensures
        res == (a@ == b@),
{
    let a_chars = chars_of(a);
    let b_chars = chars_of(b);
    if a_chars.len() != b_chars.len() {
        return false;
    }
    let mut i: usize = 0;
    while i < a_chars.len()
        invariant
            i <= a_chars.len(),
            a_chars.len() == b_chars.len(),
            a_chars@ == a@,
            b_chars@ == b@,
            forall|j: int| 0 <= j < i ==> a_chars[j] == b_chars[j],
        decreases a_chars.len() - i,
    {
        if a_chars[i] != b_chars[i] {
            assert(a@[i as int] != b@[i as int]);
            return false;
        }
        i += 1;
    }
    assert(a@ =~= b@);
    true
}

/// Whether two byte strings are equal.
pub(crate) fn bytes_eq(a: &[u8], b: &[u8]) -> (res: bool)
    ensures
        res == (a@ == b@),
{
    if a.len() != b.len() {
        return false;
    }
    let mut i: usize = 0;
    while i < a.len()
        invariant
            i <= a.len(),
            a.len() == b.len(),
            forall|j: int| 0 <= j < i ==> a[j] == b[j],
        decreases a.len() - i,
    {
        if a[i] != b[i] {
            assert(a@[i as int] != b@[i as int]);
            return false;
        }
        i += 1;
    }
    assert(a@ =~= b@);
    true
}

/// Whether `needle` occurs somewhere in `text`.
pub open spec fn occurs(text: Seq<char>, needle: Seq<char>) -> bool {
    exists|at: int|
        0 <= at && at + needle.len() <= text.len() && #[trigger] text.subrange(
            at,
            at + needle.len(),
        ) == needle
}

/// Whether the characters of `needle` stand in `text` from position `at` on.
fn stands_at(text: &Vec<char>, needle: &Vec<char>, at: usize) -> (res: bool)
    requires
        at + needle.len() <= text.len(),
    ensures
        res == (text@.subrange(at as int, at + needle.len()) == needle@),
{
    let mut i: usize = 0;
    while i < needle.len()
        invariant
            i <= needle.len(),
            at + needle.len() <= text.len(),
            forall|j: int| 0 <= j < i ==> text[at + j] == needle[j],
        decreases needle.len() - i,
    {
        if text[at + i] != needle[i] {
            assert(text@.subrange(at as int, at + needle.len())[i as int] != needle@[i as int]);
            return false;
        }
        i += 1;
    }
    assert(text@.subrange(at as int, at + needle.len()) =~= needle@);
    true
}

/// Substring search.
pub(crate) fn contains_text(text: &str, needle: &str) -> (res: bool)
    ensures
        res == occurs(text@, needle@),
{
    let hay = chars_of(text);
    let pin = chars_of(needle);
    if pin.len() > hay.len() {
        return false;
    }
    let last: usize = hay.len() - pin.len();
    let mut at: usize = 0;
    while at <= last
        invariant
            hay@ == text@,
            pin@ == needle@,
            last + pin.len() == hay.len(),
            at <= last + 1,
            forall|k: int|
                0 <= k < at ==> #[trigger] text@.subrange(k, k + needle@.len()) != needle@,
        decreases last + 1 - at,
    {
        if stands_at(&hay, &pin, at) {
            return true;
        }
        if at == last {
            return false;
        }
        at += 1;
    }
    false
}

/// The text without its leading white space.
pub open spec fn trim_start(s: Seq<char>) -> Seq<char>
    decreases s.len(),
{
    if s.len() > 0 && white_space(s[0]) {
        trim_start(s.skip(1))
    } else {
        s
    }
}

/// The text without its trailing white space.
pub open spec fn trim_end(s: Seq<char>) -> Seq<char>
    decreases s.len(),
{
    if s.len() > 0 && white_space(s.last()) {
        trim_end(s.drop_last())
    } else {
        s
    }
}

/// The text without the white space around it.
pub open spec fn trimmed(s: Seq<char>) -> Seq<char> {
    trim_end(trim_start(s))
}

/// Whether the text is `word`, but for white space around it.
pub(crate) fn trims_to(text: &str, word: &str) -> (res: bool)
    ensures
        res == (trimmed(text@) == word@),
{
    let chars = chars_of(text);
    let mut lo: usize = 0;
    assert(chars@.subrange(0, chars@.len() as int) =~= chars@);
    while lo < chars.len() && chars[lo].is_whitespace()
        invariant
            lo <= chars.len(),
            trim_start(chars@) == trim_start(chars@.subrange(lo as int, chars@.len() as int)),
        decreases chars.len() - lo,
    {
        assert(chars@.subrange(lo as int, chars@.len() as int).skip(1) =~= chars@.subrange(
            lo + 1,
            chars@.len() as int,
        ));
        lo += 1;
    }
    let ghost started = chars@.subrange(lo as int, chars@.len() as int);
    assert(trim_start(chars@) == started);
    let mut hi: usize = chars.len();
    while hi > lo && chars[hi - 1].is_whitespace()
        invariant
            lo <= hi <= chars.len(),
            trim_end(started) == trim_end(chars@.subrange(lo as int, hi as int)),
        decreases hi,
    {
        assert(chars@.subrange(lo as int, hi as int).drop_last() =~= chars@.subrange(
            lo as int,
            hi - 1,
        ));
        hi -= 1;
    }
    assert(trimmed(text@) == chars@.subrange(lo as int, hi as int));
    let mut middle: Vec<char> = Vec::new();
    let mut i: usize = lo;
    while i < hi
        invariant
            lo <= i <= hi <= chars.len(),
            middle@ == chars@.subrange(lo as int, i as int),
        decreases hi - i,
    {
        middle.push(chars[i]);
        i += 1;
    }
    str_eq(string_of(&middle).as_str(), word)
}

/// Whether the text starts with a hyphen.
pub open spec fn starts_with_hyphen(s: Seq<char>) -> bool {
    s.len() > 0 && s[0] == '-'
}

/// Whether a string starts with a hyphen.
pub(crate) fn has_leading_hyphen(s: &str) -> (res: bool)
    ensures
        res == starts_with_hyphen(s@),
{
    s.unicode_len() > 0 && s.get_char(0) == '-'
}

/// The contents of a list of byte strings.
pub open spec fn words(list: Seq<Vec<u8>>) -> Seq<Seq<u8>> {
    Seq::new(list.len(), |i: int| list[i]@)
}

/// A copy of a byte string.
pub(crate) fn copy_bytes(bytes: &[u8]) -> (res: Vec<u8>)
    ensures
        res@ == bytes@,
{
    vstd::slice::slice_to_vec(bytes)
}

/// A copy of the byte strings from `from` up to `to`.
pub(crate) fn copy_words(list: &[Vec<u8>], from: usize, to: usize) -> (res: Vec<Vec<u8>>)
    requires
        from <= to <= list.len(),
    ensures
        words(res@) == words(list@).subrange(from as int, to as int),
{
    let mut res: Vec<Vec<u8>> = Vec::new();
    let mut i: usize = from;
    while i < to
        invariant
            from <= i <= to <= list.len(),
            words(res@) == words(list@).subrange(from as int, i as int),
        decreases to - i,
    {
        let ghost before = words(res@);
        res.push(copy_bytes(list[i].as_slice()));
        assert(words(res@) =~= before.push(list@[i as int]@));
        assert(words(list@).subrange(from as int, i + 1) =~= before.push(list@[i as int]@));
        i += 1;
    }
    res
}

// ---------------------------------------------------------------------------
// Laws
// ---------------------------------------------------------------------------

/// A list of byte strings has as many words as it has entries, and each word is the
/// entry at its place.
pub proof fn every_word_is_kept(list: Seq<Vec<u8>>)
    ensures
        words(list).len() == list.len(),
        forall|i: int| 0 <= i < list.len() ==> (#[trigger] words(list)[i]) == list[i]@,
{
}

/// Well-formed bytes are decoded as they are, and only ill-formed ones are left to
/// replacement.
pub proof fn only_ill_formed_bytes_are_replaced(bytes: Seq<u8>)
    ensures
        valid_utf8(bytes) ==> text_of(bytes) == decode_utf8(bytes),
        !valid_utf8(bytes) ==> text_of(bytes) == lossy_text(bytes),
{
}

/// Whether a text is some text, then the needle, then some text.
pub open spec fn mentions(text: Seq<char>, needle: Seq<char>) -> bool {
    exists|before: Seq<char>, after: Seq<char>| text == #[trigger] (before + needle + after)
}

/// A needle is found in exactly the texts that mention it.
pub proof fn search_finds_every_mention(text: Seq<char>, needle: Seq<char>)
    ensures
        occurs(text, needle) <==> mentions(text, needle),
{
    if occurs(text, needle) {
        let at = choose|at: int|
            0 <= at && at + needle.len() <= text.len() && #[trigger] text.subrange(
                at,
                at + needle.len(),
            ) == needle;
        let before = text.take(at);
        let after = text.skip(at + needle.len());
        assert(text =~= before + needle + after);
    }
    if mentions(text, needle) {
        let (before, after) = choose|before: Seq<char>, after: Seq<char>|
            text == #[trigger] (before + needle + after);
        let at = before.len() as int;
        assert(text.subrange(at, at + needle.len()) =~= needle);
    }
}

/// Whether a text is white space throughout.
pub open spec fn blank(text: Seq<char>) -> bool {
    forall|i: int| 0 <= i < text.len() ==> white_space(#[trigger] text[i])
}

/// Whether a text is a word with nothing but white space around it.
pub open spec fn says_only(text: Seq<char>, word: Seq<char>) -> bool {
    exists|before: Seq<char>, after: Seq<char>|
        {
            &&& text == #[trigger] (before + word + after)
            &&& blank(before)
            &&& blank(after)
        }
}

proof fn lemma_trim_start(before: Seq<char>, rest: Seq<char>)
    requires
        blank(before),
        rest.len() > 0 ==> !white_space(rest[0]),
    ensures
        trim_start(before + rest) == rest,
    decreases before.len(),
{
    let text = before + rest;
    if before.len() == 0 {
        assert(text =~= rest);
    } else {
        assert(white_space(before[0]));
        assert(text.skip(1) =~= before.skip(1) + rest);
        assert forall|i: int| 0 <= i < before.skip(1).len() implies white_space(
            #[trigger] before.skip(1)[i],
        ) by {
            assert(white_space(before[i + 1]));
        }
        lemma_trim_start(before.skip(1), rest);
    }
}

proof fn lemma_trim_end(rest: Seq<char>, after: Seq<char>)
    requires
        blank(after),
        rest.len() > 0 ==> !white_space(rest.last()),
    ensures
        trim_end(rest + after) == rest,
    decreases after.len(),
{
    let text = rest + after;
    if after.len() == 0 {
        assert(text =~= rest);
    } else {
        assert(white_space(after[after.len() - 1]));
        assert(text.drop_last() =~= rest + after.drop_last());
        lemma_trim_end(rest, after.drop_last());
    }
}

proof fn lemma_trimmed_start(text: Seq<char>) -> (before: Seq<char>)
    ensures
        text == before + trim_start(text),
        blank(before),
    decreases text.len(),
{
    if text.len() > 0 && white_space(text[0]) {
        let more = lemma_trimmed_start(text.skip(1));
        let before = seq![text[0]] + more;
        assert(text =~= seq![text[0]] + text.skip(1));
        assert(seq![text[0]] + (more + trim_start(text)) =~= before + trim_start(text));
        assert forall|i: int| 0 <= i < before.len() implies white_space(#[trigger] before[i]) by {
            if i > 0 {
                assert(before[i] == more[i - 1]);
            }
        }
        before
    } else {
        assert(text =~= Seq::empty() + text);
        Seq::empty()
    }
}

proof fn lemma_trimmed_end(text: Seq<char>) -> (after: Seq<char>)
    ensures
        text == trim_end(text) + after,
        blank(after),
    decreases text.len(),
{
    if text.len() > 0 && white_space(text.last()) {
        let more = lemma_trimmed_end(text.drop_last());
        let after = more.push(text.last());
        assert(text =~= text.drop_last().push(text.last()));
        assert((trim_end(text) + more).push(text.last()) =~= trim_end(text) + after);
        after
    } else {
        assert(text =~= text + Seq::empty());
        Seq::empty()
    }
}

/// Trimming leaves a word, which itself has no white space at its ends, of exactly the
/// texts that hold the word and white space around it.
pub proof fn trimming_takes_only_white_space(text: Seq<char>, word: Seq<char>)
    requires
        word.len() > 0,
        !white_space(word[0]),
        !white_space(word.last()),
    ensures
        trimmed(text) == word <==> says_only(text, word),
{
    if trimmed(text) == word {
        let before = lemma_trimmed_start(text);
        let after = lemma_trimmed_end(trim_start(text));
        assert(text =~= before + word + after);
    }
    if says_only(text, word) {
        let (before, after) = choose|before: Seq<char>, after: Seq<char>|
            {
                &&& text == #[trigger] (before + word + after)
                &&& blank(before)
                &&& blank(after)
            };
        let rest = word + after;
        assert(text =~= before + rest);
        lemma_trim_start(before, rest);
        lemma_trim_end(word, after);
    }
}

} // verus!
