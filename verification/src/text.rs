//! Character-level helpers over `str` and `String`, stated over their views.
use vstd::prelude::*;

verus! {

broadcast use vstd::string::group_string_axioms;

/// ASCII whitespace as `char::is_ascii_whitespace` defines it: space, tab,
/// line feed, form feed and carriage return.
pub open spec fn is_ascii_ws(c: char) -> bool {
    c == ' ' || c == '\t' || c == '\n' || c == '\x0C' || c == '\r'
}

/// `word` occurs in `s` as one of the runs of non-whitespace characters that
/// ASCII whitespace separates, starting at index `i`.
pub open spec fn is_token_at(s: Seq<char>, word: Seq<char>, i: int) -> bool {
    &&& word.len() > 0
    &&& 0 <= i
    &&& i + word.len() <= s.len()
    &&& s.subrange(i, i + word.len()) == word
    &&& (i == 0 || is_ascii_ws(s[i - 1]))
    &&& (i + word.len() == s.len() || is_ascii_ws(s[i + word.len()]))
    &&& forall|k: int| 0 <= k < word.len() ==> !is_ascii_ws(#[trigger] word[k])
}

/// `word` is one of the ASCII-whitespace separated tokens of `s`.
pub open spec fn has_token(s: Seq<char>, word: Seq<char>) -> bool {
    exists|i: int| is_token_at(s, word, i)
}

/// Whether a character is ASCII whitespace.
pub fn is_ascii_whitespace_char(c: char) -> (ws: bool)
    ensures
        ws == is_ascii_ws(c),
{
    c == ' ' || c == '\t' || c == '\n' || c == '\x0C' || c == '\r'
}

/// The characters of a string slice, in order.
pub fn chars_of(s: &str) -> (chars: Vec<char>)
    ensures
        chars@ == s@,
{
    let mut chars: Vec<char> = Vec::new();
    for c in it: s.chars()
        invariant
            it.seq() == s@,
            chars@ == s@.take(it.index() as int),
    {
        chars.push(c);
        assert(chars@ =~= s@.take(it.index() as int + 1));
    }
    assert(chars@ =~= s@);
    chars
}

/// Whether two character vectors are equal.
pub fn chars_equal(a: &Vec<char>, b: &Vec<char>) -> (equal: bool)
    ensures
        equal == (a@ == b@),
{
    if a.len() != b.len() {
        return false;
    }
    let mut i: usize = 0;
    while i < a.len()
        invariant
            a@.len() == b@.len(),
            i <= a@.len(),
            forall|j: int| 0 <= j < i ==> a@[j] == b@[j],
        decreases a@.len() - i,
    {
        if a[i] != b[i] {
            return false;
        }
        i = i + 1;
    }
    assert(a@ =~= b@);
    true
}

/// Whether two string slices hold the same characters.
pub fn str_equals(a: &str, b: &str) -> (equal: bool)
    ensures
        equal == (a@ == b@),
{
    let n = a.unicode_len();
    if n != b.unicode_len() {
        return false;
    }
    let mut i: usize = 0;
    while i < n
        invariant
            n == a@.len(),
            n == b@.len(),
            i <= n,
            forall|j: int| 0 <= j < i ==> a@[j] == b@[j],
        decreases n - i,
    {
        if a.get_char(i) != b.get_char(i) {
            return false;
        }
        i = i + 1;
    }
    assert(a@ =~= b@);
    true
}

/// Whether `word` is one of the ASCII-whitespace separated tokens of `s`,
/// as `s.split_ascii_whitespace().any(|t| t == word)` decides.
pub fn str_has_token(s: &str, word: &str) -> (found: bool)
    ensures
        found == has_token(s@, word@),
{
    let target = chars_of(word);
    let mut target_has_ws = false;
    let mut k: usize = 0;
    while k < target.len()
        invariant
            target@ == word@,
            k <= target@.len(),
            target_has_ws == exists|j: int| 0 <= j < k && is_ascii_ws(#[trigger] target@[j]),
        decreases target@.len() - k,
    {
        if is_ascii_whitespace_char(target[k]) {
            target_has_ws = true;
        }
        k = k + 1;
    }
    if target.len() == 0 || target_has_ws {
        assert forall|i: int| !is_token_at(s@, word@, i) by {
            if target_has_ws {
                let j = choose|j: int| 0 <= j < k && is_ascii_ws(#[trigger] target@[j]);
                assert(!is_ascii_ws(word@[j]) || !is_token_at(s@, word@, i));
            }
        }
        return false;
    }
    let ghost sv = s@;
    let mut current: Vec<char> = Vec::new();
    let ghost mut index: int = 0;
    for c in it: s.chars()
        invariant
            it.seq() == sv,
            sv == s@,
            target@ == word@,
            word@.len() > 0,
            forall|j: int| 0 <= j < word@.len() ==> !is_ascii_ws(#[trigger] word@[j]),
            index == it.index(),
            index <= sv.len(),
            current@.len() <= index,
            current@ == sv.subrange(index - current@.len(), index),
            forall|j: int| 0 <= j < current@.len() ==> !is_ascii_ws(#[trigger] current@[j]),
            index - current@.len() == 0 || is_ascii_ws(sv[index - current@.len() - 1]),
            forall|p: int| is_token_at(sv, word@, p) ==> p + word@.len() >= index,
    {
        let ghost start = index - current@.len();
        if is_ascii_whitespace_char(c) {
            if chars_equal(&current, &target) {
                assert(is_token_at(sv, word@, start));
                return true;
            }
            assert forall|p: int| is_token_at(sv, word@, p) implies p + word@.len() >= index + 1 by {
                if p + word@.len() == index {
                    if p < start {
                        assert(!is_ascii_ws(sv.subrange(p, p + word@.len())[start - 1 - p]));
                    } else if p > start {
                        assert(!is_ascii_ws(current@[p - 1 - start]));
                    } else {
                        assert(current@ =~= sv.subrange(p, p + word@.len()));
                    }
                }
            }
            current = Vec::new();
            proof { index = index + 1; }
            assert(current@ =~= sv.subrange(index, index));
        } else {
            current.push(c);
            proof { index = index + 1; }
            assert(current@ =~= sv.subrange(index - current@.len(), index));
        }
    }
    let ghost start = index - current@.len();
    if chars_equal(&current, &target) {
        assert(is_token_at(sv, word@, start));
        return true;
    }
    assert forall|p: int| !is_token_at(sv, word@, p) by {
        if is_token_at(sv, word@, p) {
            assert(p + word@.len() == index);
            if p < start {
                assert(!is_ascii_ws(sv.subrange(p, p + word@.len())[start - 1 - p]));
            } else if p > start {
                assert(!is_ascii_ws(current@[p - 1 - start]));
            } else {
                assert(current@ =~= sv.subrange(p, p + word@.len()));
            }
        }
    }
    false
}


/// The number of bytes in the UTF-8 encoding of a character sequence.
pub open spec fn utf8_len(s: Seq<char>) -> nat {
    vstd::utf8::encode_utf8(s).len()
}

/// `str::len`: the length of the string's UTF-8 encoding in bytes. Claimed:
/// it equals the encoding's length exactly (a string in memory never holds
/// more bytes than a `usize` counts).
#[verifier::external_body]
pub(crate) fn byte_len(s: &String) -> (n: usize)
    ensures
        n == utf8_len(s@),
{
    s.len()
}

/// `String::push`: appends one character.
#[verifier::external_body]
pub(crate) fn push_char(s: &mut String, c: char)
    ensures
        final(s)@ == old(s)@.push(c),
{
    s.push(c);
}

/// The UTF-8 encoding of a concatenation is the concatenation of the
/// encodings.
pub proof fn lemma_encode_utf8_concat(a: Seq<char>, b: Seq<char>)
    ensures
        vstd::utf8::encode_utf8(a + b) == vstd::utf8::encode_utf8(a) + vstd::utf8::encode_utf8(b),
    decreases a.len(),
{
    if a.len() == 0 {
        assert(a + b =~= b);
        assert(vstd::utf8::encode_utf8(a) =~= Seq::<u8>::empty());
        assert(vstd::utf8::encode_utf8(a) + vstd::utf8::encode_utf8(b) =~= vstd::utf8::encode_utf8(b));
    } else {
        assert((a + b).drop_first() =~= a.drop_first() + b);
        assert((a + b)[0] == a[0]);
        lemma_encode_utf8_concat(a.drop_first(), b);
        assert(vstd::utf8::encode_utf8(a + b) =~= vstd::utf8::encode_utf8(a) + vstd::utf8::encode_utf8(b));
    }
}

/// Appending a character grows the encoding by that character's one to
/// four bytes.
pub proof fn lemma_utf8_len_push(s: Seq<char>, c: char)
    ensures
        utf8_len(s) < utf8_len(s.push(c)) <= utf8_len(s) + 4,
{
    lemma_encode_utf8_concat(s, seq![c]);
    assert(s.push(c) =~= s + seq![c]);
    assert(seq![c].drop_first() =~= Seq::<char>::empty());
    let e = vstd::utf8::encode_scalar(c as u32);
    assert(vstd::utf8::encode_utf8(seq![c]) =~= e + vstd::utf8::encode_utf8(Seq::<char>::empty()));
    assert(1 <= e.len() <= 4);
}

/// Unicode `White_Space`, the property `char::is_whitespace` tests.
pub open spec fn is_unicode_ws(c: char) -> bool {
    ||| ('\t' <= c && c <= '\r')
    ||| c == ' '
    ||| c == '\u{85}'
    ||| c == '\u{a0}'
    ||| c == '\u{1680}'
    ||| ('\u{2000}' <= c && c <= '\u{200a}')
    ||| c == '\u{2028}'
    ||| c == '\u{2029}'
    ||| c == '\u{202f}'
    ||| c == '\u{205f}'
    ||| c == '\u{3000}'
}

/// Whether a character is Unicode whitespace.
pub fn is_whitespace_char(c: char) -> (ws: bool)
    ensures
        ws == is_unicode_ws(c),
{
    ('\t' <= c && c <= '\r') || c == ' ' || c == '\u{85}' || c == '\u{a0}' || c == '\u{1680}'
        || ('\u{2000}' <= c && c <= '\u{200a}') || c == '\u{2028}' || c == '\u{2029}' || c
        == '\u{202f}' || c == '\u{205f}' || c == '\u{3000}'
}

/// A string that `str::trim` empties: every character is whitespace.
pub open spec fn is_blank(s: Seq<char>) -> bool {
    forall|i: int| 0 <= i < s.len() ==> is_unicode_ws(#[trigger] s[i])
}

/// Whether `s.trim().is_empty()`.
pub fn string_is_blank(s: &String) -> (blank: bool)
    ensures
        blank == is_blank(s@),
{
    for c in it: s.as_str().chars()
        invariant
            it.seq() == s@,
            forall|j: int| 0 <= j < it.index() ==> is_unicode_ws(#[trigger] s@[j]),
    {
        if !is_whitespace_char(c) {
            return false;
        }
    }
    true
}

/// Appends `text`.
pub fn append_str(out: &mut String, text: &str)
    ensures
        final(out)@ == old(out)@ + text@,
{
    let ghost start = out@;
    for c in it: text.chars()
        invariant
            it.seq() == text@,
            out@ == start + text@.take(it.index() as int),
    {
        push_char(out, c);
        assert(out@ =~= start + text@.take(it.index() as int + 1));
    }
    assert(text@.take(text@.len() as int) =~= text@);
}

} // verus!
