//! Text as sequences of characters: case folding, trimming, splitting,
//! joining and decimal numerals.
use vstd::prelude::*;
use vstd::slice::slice_subrange;

verus! {

/// `String::push`: the character is appended to the string.
pub assume_specification[ String::push ](s: &mut String, c: char)
    ensures
        final(s)@ == old(s)@.push(c),
;

/// `std::str::from_utf8`: succeeds exactly on valid UTF-8, and then gives the
/// characters that the bytes encode.
#[verifier::external_body]
pub(crate) fn from_utf8(bytes: &[u8]) -> (r: Option<&str>)
    ensures
        r is Some <==> vstd::utf8::valid_utf8(bytes@),
        r matches Some(s) ==> s@ == vstd::utf8::decode_utf8(bytes@),
{
    std::str::from_utf8(bytes).ok()
}

/// What `String::from_utf8_lossy` makes of bytes that are not valid UTF-8 and
/// have no ASCII among them.
pub uninterp spec fn repaired(bytes: Seq<u8>) -> Seq<char>;

/// How many of the first bytes are not ASCII.
pub open spec fn beyond_ascii(bytes: Seq<u8>) -> nat
    decreases bytes.len(),
{
    if bytes.len() == 0 || bytes[0] < 0x80 {
        0
    } else {
        1 + beyond_ascii(bytes.skip(1))
    }
}

/// The text that bytes stand for: the characters that they encode, if they
/// are valid UTF-8. If not, ASCII bytes still are their characters, and what
/// stands before, between and after them is text or repaired by itself.
pub open spec fn lossy_text(bytes: Seq<u8>) -> Seq<char>
    decreases bytes.len(),
{
    let n = beyond_ascii(bytes) as int;
    if vstd::utf8::valid_utf8(bytes) {
        vstd::utf8::decode_utf8(bytes)
    } else if n < bytes.len() {
        lossy_text(bytes.take(n)).push(bytes[n] as char) + lossy_text(bytes.skip(n + 1))
    } else {
        repaired(bytes)
    }
}

/// `String::from_utf8_lossy`: valid UTF-8 gives the characters that it
/// encodes. Only invalid sequences are replaced, and an ASCII byte is never
/// part of one, so that it gives its character and what stands on either side
/// of it is converted by itself. Bytes that are neither valid nor ASCII give a
/// text that depends on them alone; how many of them are replaced together is
/// not stated.
#[verifier::external_body]
pub(crate) fn from_utf8_lossy(bytes: &[u8]) -> (r: String)
    ensures
        !vstd::utf8::valid_utf8(bytes@) && beyond_ascii(bytes@) == bytes@.len() ==> r@ == repaired(
            bytes@,
        ),
        r@ == lossy_text(bytes@),
{
    String::from_utf8_lossy(bytes).into_owned()
}

/// The characters of a string.
pub fn chars_of(s: &str) -> (r: Vec<char>)
    ensures
        r@ == s@,
{
    let mut r: Vec<char> = Vec::new();
    for c in it: s.chars()
        invariant
            it.seq() == s@,
            r@ == s@.take(it.index() as int),
    {
        r.push(c);
    }
    r
}

/// The string made of the given characters.
pub fn string_of(chars: &[char]) -> (r: String)
    ensures
        r@ == chars@,
{
    let mut r = String::new();
    for i in 0..chars.len()
        invariant
            r@ == chars@.take(i as int),
    {
        r.push(chars[i]);
        assert(chars@.take(i + 1) =~= chars@.take(i as int).push(chars@[i as int]));
    }
    assert(chars@.take(chars@.len() as int) =~= chars@);
    r
}

/// The ASCII lower-case form of a character; others are unchanged.
pub open spec fn lower_char(c: char) -> char {
    if 'A' <= c && c <= 'Z' {
        (c as u32 + 32) as char
    } else {
        c
    }
}

/// ASCII lower-casing, character by character.
pub open spec fn lower(s: Seq<char>) -> Seq<char> {
    Seq::new(s.len(), |i: int| lower_char(s[i]))
}

/// The ASCII lower-case form of a byte; others are unchanged.
pub open spec fn lower_byte(b: u8) -> u8 {
    if 0x41 <= b <= 0x5a {
        (b + 32) as u8
    } else {
        b
    }
}

/// Whether bytes differ at most in the case of ASCII letters.
pub open spec fn same_letters(a: Seq<u8>, b: Seq<u8>) -> bool {
    a.len() == b.len() && forall|i: int|
        0 <= i < a.len() ==> lower_byte(#[trigger] a[i]) == lower_byte(b[i])
}

/// The case of ASCII letters in UTF-8 does not matter to the lower-case text.
pub proof fn lemma_letter_case(a: Seq<u8>, b: Seq<u8>)
    requires
        same_letters(a, b),
        vstd::utf8::valid_utf8(a),
    ensures
        vstd::utf8::valid_utf8(b),
        lower(vstd::utf8::decode_utf8(a)) == lower(vstd::utf8::decode_utf8(b)),
    decreases a.len(),
{
    let (of_a, of_b) = (vstd::utf8::decode_utf8(a), vstd::utf8::decode_utf8(b));
    if a.len() > 0 {
        let n = vstd::utf8::length_of_first_scalar(a);
        assert(lower_byte(a[0]) == lower_byte(b[0]));
        assert(n > 1 ==> lower_byte(a[1]) == lower_byte(b[1]));
        assert(n > 2 ==> lower_byte(a[2]) == lower_byte(b[2]));
        assert(n > 3 ==> lower_byte(a[3]) == lower_byte(b[3]));
        assert(vstd::utf8::length_of_first_scalar(b) == n);
        let (x, y) = (vstd::utf8::decode_first_scalar(a), vstd::utf8::decode_first_scalar(b));
        if n == 1 {
            let (p, q) = (a[0], b[0]);
            assert(p & 0x7f == p) by (bit_vector)
                requires
                    p <= 0x7f,
            ;
            assert(q & 0x7f == q) by (bit_vector)
                requires
                    q <= 0x7f,
            ;
            assert(x == p && y == q);
        } else {
            assert(x == y);
        }
        assert(lower_char(x as char) == lower_char(y as char));
        let (rest_a, rest_b) = (vstd::utf8::pop_first_scalar(a), vstd::utf8::pop_first_scalar(b));
        assert forall|i: int| 0 <= i < rest_a.len() implies lower_byte(#[trigger] rest_a[i])
            == lower_byte(rest_b[i]) by {
            assert(lower_byte(a[i + n]) == lower_byte(b[i + n]));
        }
        lemma_letter_case(rest_a, rest_b);
        let (tail_a, tail_b) = (vstd::utf8::decode_utf8(rest_a), vstd::utf8::decode_utf8(rest_b));
        assert(of_a == seq![x as char] + tail_a);
        assert(of_b == seq![y as char] + tail_b);
        assert(tail_a.len() == lower(tail_a).len() && tail_b.len() == lower(tail_b).len());
        assert forall|i: int| 0 <= i < of_a.len() implies lower(of_a)[i] == lower(of_b)[i] by {
            if i > 0 {
                assert(lower(tail_a)[i - 1] == lower(tail_b)[i - 1]);
            }
        }
    }
    assert(lower(of_a) =~= lower(of_b));
}

proof fn lemma_beyond_ascii(bytes: Seq<u8>)
    ensures
        beyond_ascii(bytes) <= bytes.len(),
        forall|i: int| 0 <= i < beyond_ascii(bytes) ==> #[trigger] bytes[i] >= 0x80,
        beyond_ascii(bytes) < bytes.len() ==> bytes[beyond_ascii(bytes) as int] < 0x80,
    decreases bytes.len(),
{
    if bytes.len() > 0 && bytes[0] >= 0x80 {
        let rest = bytes.skip(1);
        lemma_beyond_ascii(rest);
        assert forall|i: int| 0 <= i < beyond_ascii(bytes) implies #[trigger] bytes[i] >= 0x80 by {
            if i > 0 {
                assert(rest[i - 1] >= 0x80);
            }
        }
    }
}

/// The case of ASCII letters, in UTF-8 or not, does not matter to the
/// lower-case text.
pub proof fn lemma_letter_case_lossy(a: Seq<u8>, b: Seq<u8>)
    requires
        same_letters(a, b),
    ensures
        lower(lossy_text(a)) == lower(lossy_text(b)),
    decreases a.len(),
{
    assert(same_letters(b, a)) by {
        assert forall|i: int| 0 <= i < b.len() implies lower_byte(#[trigger] b[i]) == lower_byte(
            a[i],
        ) by {
            assert(lower_byte(a[i]) == lower_byte(b[i]));
        }
    }
    if vstd::utf8::valid_utf8(a) {
        lemma_letter_case(a, b);
    } else if vstd::utf8::valid_utf8(b) {
        lemma_letter_case(b, a);
    } else {
        let n = beyond_ascii(a) as int;
        lemma_beyond_ascii(a);
        lemma_beyond_ascii(b);
        assert forall|i: int| 0 <= i < n implies #[trigger] a[i] == b[i] by {
            assert(lower_byte(a[i]) == lower_byte(b[i]));
        }
        if n < a.len() {
            assert(lower_byte(a[n]) == lower_byte(b[n]));
        }
        if beyond_ascii(b) < n {
            assert(a[beyond_ascii(b) as int] == b[beyond_ascii(b) as int]);
        }
        assert(beyond_ascii(b) == n);
        if n < a.len() {
            let (head, c, d) = (a.take(n), a[n] as char, b[n] as char);
            let (rest_a, rest_b) = (a.skip(n + 1), b.skip(n + 1));
            assert(b.take(n) =~= head);
            assert forall|i: int| 0 <= i < rest_a.len() implies lower_byte(#[trigger] rest_a[i])
                == lower_byte(rest_b[i]) by {
                assert(lower_byte(a[i + n + 1]) == lower_byte(b[i + n + 1]));
            }
            lemma_letter_case_lossy(rest_a, rest_b);
            let (start, tail_a, tail_b) = (
                lossy_text(head),
                lossy_text(rest_a),
                lossy_text(rest_b),
            );
            assert(lower_char(c) == lower_char(d));
            assert(lower(start.push(c) + tail_a) =~= lower(start).push(lower_char(c)) + lower(
                tail_a,
            ));
            assert(lower(start.push(d) + tail_b) =~= lower(start).push(lower_char(d)) + lower(
                tail_b,
            ));
        } else {
            assert(a =~= b);
        }
    }
}

fn to_lower_char(c: char) -> (r: char)
    ensures
        r == lower_char(c),
{
    if c >= 'A' && c <= 'Z' {
        let b: u8 = c as u8;
        (b + 32) as char
    } else {
        c
    }
}

/// ASCII lower-casing of a character slice.
pub fn to_lower(chars: &[char]) -> (r: Vec<char>)
    ensures
        r@ == lower(chars@),
{
    let mut r: Vec<char> = Vec::new();
    for i in 0..chars.len()
        invariant
            r@ == lower(chars@).take(i as int),
    {
        r.push(to_lower_char(chars[i]));
        assert(lower(chars@).take(i + 1) =~= lower(chars@).take(i as int).push(
            lower(chars@)[i as int],
        ));
    }
    assert(lower(chars@).take(chars@.len() as int) =~= lower(chars@));
    r
}


/// Whether a character has the Unicode `White_Space` property.
pub open spec fn is_space(c: char) -> bool {
    ||| '\u{9}' <= c <= '\u{d}'
    ||| c == ' '
    ||| c == '\u{85}'
    ||| c == '\u{a0}'
    ||| c == '\u{1680}'
    ||| '\u{2000}' <= c <= '\u{200a}'
    ||| c == '\u{2028}'
    ||| c == '\u{2029}'
    ||| c == '\u{202f}'
    ||| c == '\u{205f}'
    ||| c == '\u{3000}'
}

/// Whether a character is white space, in the sense of `char::is_whitespace`.
pub fn is_white_space(c: char) -> (r: bool)
    ensures
        r == is_space(c),
{
    (c >= '\u{9}' && c <= '\u{d}') || c == ' ' || c == '\u{85}' || c == '\u{a0}' || c == '\u{1680}'
        || (c >= '\u{2000}' && c <= '\u{200a}') || c == '\u{2028}' || c == '\u{2029}' || c
        == '\u{202f}' || c == '\u{205f}' || c == '\u{3000}'
}

/// The text without its leading white space.
pub open spec fn trim_start(s: Seq<char>) -> Seq<char>
    decreases s.len(),
{
    if s.len() > 0 && is_space(s[0]) {
        trim_start(s.skip(1))
    } else {
        s
    }
}

/// The text without its trailing characters that are among `drop`.
pub open spec fn trim_end_of(s: Seq<char>, drop: spec_fn(char) -> bool) -> Seq<char>
    decreases s.len(),
{
    if s.len() > 0 && drop(s.last()) {
        trim_end_of(s.drop_last(), drop)
    } else {
        s
    }
}

/// The text without leading and trailing white space.
pub open spec fn trimmed(s: Seq<char>) -> Seq<char> {
    trim_end_of(trim_start(s), |c: char| is_space(c))
}

/// How many of the first characters are to be kept.
pub open spec fn run_len(s: Seq<char>, keep: spec_fn(char) -> bool) -> nat
    decreases s.len(),
{
    if s.len() == 0 || !keep(s[0]) {
        0
    } else {
        1 + run_len(s.skip(1), keep)
    }
}

/// The first `n` characters are to be kept and the next one, if any, is not.
pub proof fn lemma_run_len(s: Seq<char>, keep: spec_fn(char) -> bool, n: int)
    requires
        0 <= n <= s.len(),
        forall|i: int| 0 <= i < n ==> keep(#[trigger] s[i]),
        n < s.len() ==> !keep(s[n]),
    ensures
        run_len(s, keep) == n,
    decreases n,
{
    if n > 0 {
        assert(keep(s[0]));
        let t = s.skip(1);
        assert forall|i: int| 0 <= i < n - 1 implies keep(#[trigger] t[i]) by {
            assert(keep(s[i + 1]));
        }
        lemma_run_len(t, keep, n - 1);
    }
}

/// How many of the first characters are not white space.
pub open spec fn word_len(s: Seq<char>) -> nat {
    run_len(s, |c: char| !is_space(c))
}

/// The maximal runs of characters other than white space, in order.
pub open spec fn words(s: Seq<char>) -> Seq<Seq<char>>
    decreases s.len(),
{
    if s.len() == 0 {
        seq![]
    } else if is_space(s[0]) {
        words(s.skip(1))
    } else {
        let n = word_len(s) as int;
        if 0 < n <= s.len() {
            seq![s.take(n)] + words(s.skip(n))
        } else {
            seq![]
        }
    }
}

proof fn lemma_word_len(s: Seq<char>)
    ensures
        word_len(s) <= s.len(),
        s.len() > 0 && !is_space(s[0]) ==> word_len(s) > 0,
    decreases s.len(),
{
    if s.len() > 0 && !is_space(s[0]) {
        lemma_word_len(s.skip(1));
    }
}

/// Trimming leaves a text alone that neither starts nor ends with white
/// space.
pub proof fn lemma_trimmed_bare(s: Seq<char>)
    requires
        s.len() > 0,
        !is_space(s[0]),
        !is_space(s.last()),
    ensures
        trimmed(s) == s,
{
}

/// Trimming keeps the first character, if that is not white space.
pub proof fn lemma_trimmed_keeps_start(s: Seq<char>)
    requires
        s.len() > 0,
        !is_space(s[0]),
    ensures
        trimmed(s).len() > 0,
        trimmed(s)[0] == s[0],
{
    lemma_trim_end_keeps(s, |c: char| is_space(c), 0);
    assert(trimmed(s)[0] == s[0]);
}

/// A character that is not dropped is kept, and so is what stands before it.
pub proof fn lemma_trim_end_keeps(s: Seq<char>, drop: spec_fn(char) -> bool, k: int)
    requires
        0 <= k < s.len(),
        !drop(s[k]),
    ensures
        trim_end_of(s, drop).len() > k,
        forall|i: int| 0 <= i <= k ==> #[trigger] trim_end_of(s, drop)[i] == s[i],
    decreases s.len(),
{
    if drop(s.last()) {
        lemma_trim_end_keeps(s.drop_last(), drop, k);
        assert(trim_end_of(s, drop) == trim_end_of(s.drop_last(), drop));
    }
}

/// What is left after trailing characters are dropped is the start of the
/// text, and does not end with a character that is dropped.
pub proof fn lemma_trim_end_prefix(s: Seq<char>, drop: spec_fn(char) -> bool)
    ensures
        trim_end_of(s, drop).len() <= s.len(),
        trim_end_of(s, drop) == s.take(trim_end_of(s, drop).len() as int),
        trim_end_of(s, drop).len() > 0 ==> !drop(trim_end_of(s, drop).last()),
    decreases s.len(),
{
    if s.len() > 0 && drop(s.last()) {
        lemma_trim_end_prefix(s.drop_last(), drop);
        let n = trim_end_of(s, drop).len() as int;
        assert(s.drop_last().take(n) =~= s.take(n));
    } else {
        assert(s.take(s.len() as int) =~= s);
    }
}

/// The length of the first word of a text that starts with one and goes on
/// with white space, or ends there.
proof fn lemma_word_len_exact(word: Seq<char>, rest: Seq<char>)
    requires
        forall|i: int| 0 <= i < word.len() ==> !is_space(#[trigger] word[i]),
        rest.len() > 0 ==> is_space(rest[0]),
    ensures
        word_len(word + rest) == word.len(),
    decreases word.len(),
{
    let s = word + rest;
    if word.len() > 0 {
        assert(s[0] == word[0]);
        assert(s.skip(1) =~= word.skip(1) + rest);
        lemma_word_len_exact(word.skip(1), rest);
    } else {
        assert(s =~= rest);
    }
}

/// A text without white space is one word.
pub proof fn lemma_one_word(word: Seq<char>)
    requires
        word.len() > 0,
        forall|i: int| 0 <= i < word.len() ==> !is_space(#[trigger] word[i]),
    ensures
        words(word) == seq![word],
{
    lemma_word_len_exact(word, seq![]);
    assert(word + Seq::<char>::empty() =~= word);
    assert(word.take(word.len() as int) =~= word);
    assert(words(word.skip(word.len() as int)) =~= seq![]);
    assert(words(word) =~= seq![word]);
}

/// Two words with a space between them.
pub proof fn lemma_two_words(first: Seq<char>, second: Seq<char>)
    requires
        first.len() > 0,
        second.len() > 0,
        forall|i: int| 0 <= i < first.len() ==> !is_space(#[trigger] first[i]),
        forall|i: int| 0 <= i < second.len() ==> !is_space(#[trigger] second[i]),
    ensures
        words(first + seq![' '] + second) == seq![first, second],
{
    let rest = seq![' '] + second;
    let s = first + seq![' '] + second;
    let n = first.len() as int;
    assert(s =~= first + rest);
    lemma_word_len_exact(first, rest);
    assert(s[0] == first[0]);
    assert(s.take(n) =~= first);
    assert(s.skip(n) =~= rest);
    assert(rest.skip(1) =~= second);
    lemma_one_word(second);
    assert(words(rest) == seq![second]);
    assert(words(s) == seq![first] + words(rest));
    assert(words(s) =~= seq![first, second]);
}

/// Drops leading white space.
pub fn without_leading_space(s: &[char]) -> (r: &[char])
    ensures
        r@ == trim_start(s@),
{
    let mut i: usize = 0;
    assert(s@.skip(0) =~= s@);
    while i < s.len() && is_white_space(s[i])
        invariant
            i <= s@.len(),
            trim_start(s@.skip(i as int)) == trim_start(s@),
        decreases s@.len() - i,
    {
        assert(s@.skip(i as int).skip(1) =~= s@.skip(i + 1));
        i += 1;
    }
    let r = slice_subrange(s, i, s.len());
    assert(r@ =~= s@.skip(i as int));
    r
}

/// Drops leading and trailing white space.
pub fn trim(s: &[char]) -> (r: &[char])
    ensures
        r@ == trimmed(s@),
{
    let t = without_leading_space(s);
    let ghost drop = |c: char| is_space(c);
    let mut n: usize = t.len();
    assert(t@.take(n as int) =~= t@);
    while n > 0 && is_white_space(t[n - 1])
        invariant
            n <= t@.len(),
            drop == (|c: char| is_space(c)),
            trim_end_of(t@.take(n as int), drop) == trim_end_of(t@, drop),
        decreases n,
    {
        assert(t@.take(n as int).drop_last() =~= t@.take(n - 1));
        n -= 1;
    }
    let r = slice_subrange(t, 0, n);
    assert(r@ =~= t@.take(n as int));
    r
}

/// Drops the trailing characters that are among `drop`.
pub fn without_trailing<'a>(s: &'a [char], drop: &[char]) -> (r: &'a [char])
    ensures
        r@ == trim_end_of(s@, |c: char| drop@.contains(c)),
{
    let ghost among = |c: char| drop@.contains(c);
    let mut n: usize = s.len();
    assert(s@.take(n as int) =~= s@);
    while n > 0 && has_char(drop, s[n - 1])
        invariant
            n <= s@.len(),
            among == (|c: char| drop@.contains(c)),
            trim_end_of(s@.take(n as int), among) == trim_end_of(s@, among),
        decreases n,
    {
        assert(s@.take(n as int).drop_last() =~= s@.take(n - 1));
        n -= 1;
    }
    let r = slice_subrange(s, 0, n);
    assert(r@ =~= s@.take(n as int));
    r
}

/// Splits a text at white space: the first word and what follows it, or
/// nothing when there is no word.
pub fn next_word<'a>(s: &'a [char]) -> (r: Option<(&'a [char], &'a [char])>)
    ensures
        match r {
            Some((word, rest)) => words(s@) == seq![word@] + words(rest@),
            None => words(s@).len() == 0,
        },
{
    let mut i: usize = 0;
    assert(s@.skip(0) =~= s@);
    while i < s.len() && is_white_space(s[i])
        invariant
            i <= s@.len(),
            words(s@.skip(i as int)) == words(s@),
        decreases s@.len() - i,
    {
        assert(s@.skip(i as int).skip(1) =~= s@.skip(i + 1));
        i += 1;
    }
    if i == s.len() {
        return None;
    }
    let ghost t = s@.skip(i as int);
    let mut j: usize = i;
    assert(t.skip(0) =~= t);
    while j < s.len() && !is_white_space(s[j])
        invariant
            i <= j <= s@.len(),
            t == s@.skip(i as int),
            word_len(t) == (j - i) + word_len(t.skip(j - i)),
        decreases s@.len() - j,
    {
        assert(t.skip(j - i).skip(1) =~= t.skip(j - i + 1));
        j += 1;
    }
    proof {
        lemma_word_len(t);
    }
    let word = slice_subrange(s, i, j);
    let rest = slice_subrange(s, j, s.len());
    assert(word@ =~= t.take(j - i));
    assert(rest@ =~= t.skip(j - i));
    Some((word, rest))
}

/// The texts with the separator between each two of them.
pub open spec fn join(texts: Seq<Seq<char>>, separator: char) -> Seq<char>
    decreases texts.len(),
{
    if texts.len() == 0 {
        seq![]
    } else if texts.len() == 1 {
        texts[0]
    } else {
        join(texts.drop_last(), separator).push(separator) + texts.last()
    }
}

/// Whether two texts are the same.
pub fn same_text(a: &[char], b: &[char]) -> (r: bool)
    ensures
        r == (a@ == b@),
{
    if a.len() != b.len() {
        return false;
    }
    for i in 0..a.len()
        invariant
            a@.len() == b@.len(),
            forall|j: int| 0 <= j < i ==> a@[j] == b@[j],
    {
        if a[i] != b[i] {
            return false;
        }
    }
    assert(a@ =~= b@);
    true
}

/// Whether a character occurs in a text.
pub fn has_char(s: &[char], c: char) -> (r: bool)
    ensures
        r == s@.contains(c),
{
    for i in 0..s.len()
        invariant
            forall|j: int| 0 <= j < i ==> s@[j] != c,
    {
        if s[i] == c {
            return true;
        }
    }
    false
}

/// The decimal digit of a number below ten.
pub open spec fn digit(n: nat) -> char {
    (48 + n) as char
}

/// The decimal numeral of a natural number.
pub open spec fn decimal(n: nat) -> Seq<char>
    decreases n,
{
    if n < 10 {
        seq![digit(n)]
    } else {
        decimal(n / 10).push(digit(n % 10))
    }
}

/// The decimal numeral of an integer, with a minus sign when it is negative.
pub open spec fn decimal_int(n: int) -> Seq<char> {
    if n < 0 {
        seq!['-'] + decimal((-n) as nat)
    } else {
        decimal(n as nat)
    }
}

/// A numeral is made of digits.
pub proof fn lemma_decimal_digits(n: nat)
    ensures
        decimal(n).len() > 0,
        forall|i: int| 0 <= i < decimal(n).len() ==> '0' <= #[trigger] decimal(n)[i] <= '9',
    decreases n,
{
    if n >= 10 {
        lemma_decimal_digits(n / 10);
    }
}

/// Appends the decimal numeral of `n`.
pub fn push_decimal(s: &mut String, n: u64)
    ensures
        final(s)@ == old(s)@ + decimal(n as nat),
    decreases n,
{
    if n >= 10 {
        push_decimal(s, n / 10);
    }
    let d: u8 = (n % 10) as u8;
    s.push((48 + d) as char);
    assert(s@ =~= old(s)@ + decimal(n as nat));
}

/// Appends the decimal numeral of `n`, signed.
pub fn push_decimal_int(s: &mut String, n: i32)
    ensures
        final(s)@ == old(s)@ + decimal_int(n as int),
{
    let wide: i64 = n as i64;
    if wide < 0 {
        s.push('-');
        push_decimal(s, (-wide) as u64);
        assert(s@ =~= old(s)@ + decimal_int(n as int));
    } else {
        push_decimal(s, wide as u64);
    }
}

// ---------------------------------------------------------------------------
// Laws
// ---------------------------------------------------------------------------

/// Lower-casing keeps the length, moves the letters from `A` to `Z` by 32, and
/// changes nothing else.
pub proof fn law_lower_changes_capitals_only(s: Seq<char>)
    ensures
        lower(s).len() == s.len(),
        forall|i: int|
            0 <= i < s.len() && 65 <= s[i] as u32 <= 90 ==> (#[trigger] lower(s)[i]) as u32
                == s[i] as u32 + 32,
        forall|i: int|
            0 <= i < s.len() && !(65 <= s[i] as u32 <= 90) ==> #[trigger] lower(s)[i] == s[i],
{
}

/// Lower-casing once or twice, a text as a whole or in parts, is the same.
pub proof fn law_lower_of_parts(a: Seq<char>, b: Seq<char>)
    ensures
        lower(a + b) == lower(a) + lower(b),
        lower(lower(a)) == lower(a),
{
    assert(lower(a + b) =~= lower(a) + lower(b));
    assert(lower(lower(a)) =~= lower(a));
}

/// Dropping trailing characters takes off nothing but such characters, and all
/// of them that stand at the end.
pub proof fn law_trim_end(s: Seq<char>, drop: spec_fn(char) -> bool, kept: int)
    requires
        0 <= kept <= s.len(),
        forall|i: int| kept <= i < s.len() ==> drop(#[trigger] s[i]),
        kept > 0 ==> !drop(s[kept - 1]),
    ensures
        trim_end_of(s, drop) == s.take(kept),
    decreases s.len(),
{
    if kept < s.len() {
        assert(drop(s[s.len() - 1]));
        law_trim_end(s.drop_last(), drop, kept);
        assert(s.drop_last().take(kept) =~= s.take(kept));
    } else {
        assert(s.take(kept) =~= s);
    }
}

/// Whether a text is white space throughout.
pub open spec fn all_space(s: Seq<char>) -> bool {
    forall|i: int| 0 <= i < s.len() ==> is_space(#[trigger] s[i])
}

/// Whether a text has no white space in it.
pub open spec fn no_space(s: Seq<char>) -> bool {
    forall|i: int| 0 <= i < s.len() ==> !is_space(#[trigger] s[i])
}

/// Trimming takes off the white space around a text and leaves the text as it
/// is.
pub proof fn law_trimming(before: Seq<char>, s: Seq<char>, after: Seq<char>)
    requires
        all_space(before),
        all_space(after),
        s.len() > 0 ==> !is_space(s[0]) && !is_space(s.last()),
    ensures
        trimmed(before + s + after) == s,
    decreases before.len(),
{
    let all = before + s + after;
    let drop = |c: char| is_space(c);
    if before.len() > 0 {
        assert(is_space(before[0]));
        assert(all[0] == before[0]);
        assert(all.skip(1) =~= before.skip(1) + s + after);
        assert forall|i: int| 0 <= i < before.skip(1).len() implies is_space(
            #[trigger] before.skip(1)[i],
        ) by {
            assert(is_space(before[i + 1]));
        }
        law_trimming(before.skip(1), s, after);
    } else if s.len() > 0 {
        assert(all =~= s + after);
        assert(all[0] == s[0]);
        let n = s.len() as int;
        assert forall|i: int| n <= i < all.len() implies drop(#[trigger] all[i]) by {
            assert(all[i] == after[i - n]);
        }
        law_trim_end(all, drop, n);
        assert(all.take(n) =~= s);
    } else {
        assert(all =~= after);
        lemma_space_trims_to_nothing(after);
        assert(trimmed(all) =~= s);
    }
}

proof fn lemma_space_trims_to_nothing(s: Seq<char>)
    requires
        all_space(s),
    ensures
        trim_start(s).len() == 0,
    decreases s.len(),
{
    if s.len() > 0 {
        assert(is_space(s[0]));
        assert forall|i: int| 0 <= i < s.skip(1).len() implies is_space(
            #[trigger] s.skip(1)[i],
        ) by {
            assert(is_space(s[i + 1]));
        }
        lemma_space_trims_to_nothing(s.skip(1));
    }
}

/// The words of a text are what stands between white space: a text that is
/// white space has none; else the first word is what follows the leading white
/// space, and the others are those of what follows the next white space.
pub proof fn law_words(before: Seq<char>, word: Seq<char>, gap: char, rest: Seq<char>)
    requires
        all_space(before),
        word.len() > 0,
        no_space(word),
        is_space(gap),
    ensures
        words(before).len() == 0,
        words(before + word) == seq![word],
        words(before + word + seq![gap] + rest) == seq![word] + words(rest),
    decreases before.len(),
{
    if before.len() > 0 {
        let later = before.skip(1);
        assert(is_space(before[0]));
        assert forall|i: int| 0 <= i < later.len() implies is_space(#[trigger] later[i]) by {
            assert(is_space(before[i + 1]));
        }
        law_words(later, word, gap, rest);
        let (a, b) = (before + word, before + word + seq![gap] + rest);
        assert(a[0] == before[0] && b[0] == before[0]);
        assert(a.skip(1) =~= later + word);
        assert(b.skip(1) =~= later + word + seq![gap] + rest);
    } else {
        let tail = seq![gap] + rest;
        let all = before + word + seq![gap] + rest;
        assert(before + word =~= word);
        lemma_one_word(word);
        assert(all =~= word + tail);
        lemma_word_len_exact(word, tail);
        assert(all[0] == word[0]);
        let n = word.len() as int;
        assert(all.take(n) =~= word);
        assert(all.skip(n) =~= tail);
        assert(tail.skip(1) =~= rest);
        assert(words(tail) == words(rest));
    }
}

/// Texts are joined with one separator between each two of them, and nothing
/// before the first or after the last.
pub proof fn law_join(a: Seq<Seq<char>>, b: Seq<Seq<char>>, t: Seq<char>, separator: char)
    ensures
        join(seq![], separator) == Seq::<char>::empty(),
        join(seq![t], separator) == t,
        a.len() > 0 && b.len() > 0 ==> join(a + b, separator) == join(a, separator) + seq![
            separator,
        ] + join(b, separator),
    decreases b.len(),
{
    let all = a + b;
    if a.len() > 0 && b.len() > 0 {
        assert(all.drop_last() =~= a + b.drop_last());
        assert(all.last() == b.last());
        if b.len() == 1 {
            assert(a + b.drop_last() =~= a);
            assert(join(all, separator) =~= join(a, separator) + seq![separator] + join(
                b,
                separator,
            ));
        } else {
            law_join(a, b.drop_last(), t, separator);
            assert(join(all, separator) =~= join(a, separator) + seq![separator] + join(
                b,
                separator,
            ));
        }
    }
}

/// The number that decimal digits stand for.
pub open spec fn digits_value(s: Seq<char>) -> int
    decreases s.len(),
{
    if s.len() == 0 {
        0
    } else {
        10 * digits_value(s.drop_last()) + (s.last() as u32 - 48)
    }
}

/// A numeral stands for its number, is made of digits, and does not start with
/// a zero unless it is one; a negative one has a minus sign before it.
pub proof fn law_numerals(n: nat)
    ensures
        digits_value(decimal(n)) == n,
        forall|i: int| 0 <= i < decimal(n).len() ==> 48 <= (#[trigger] decimal(n)[i]) as u32 <= 57,
        decimal(n).len() > 0,
        decimal(n)[0] as u32 == 48 ==> n == 0,
        decimal_int(n as int) == decimal(n),
        n > 0 ==> decimal_int(-n) == seq!['-'] + decimal(n),
    decreases n,
{
    if n >= 10 {
        law_numerals(n / 10);
        let d = decimal(n);
        assert(d.drop_last() =~= decimal(n / 10));
        assert(digit(n % 10) as u32 == 48 + n % 10);
    } else {
        let d = decimal(n);
        assert(d.drop_last() =~= Seq::empty());
        assert(digits_value(d.drop_last()) == 0);
        assert(digit(n) as u32 == 48 + n);
    }
}

/// Bytes that are ASCII stand for their characters, and valid UTF-8 for what
/// it encodes.
pub proof fn law_ascii_text(bytes: Seq<u8>)
    requires
        forall|i: int| 0 <= i < bytes.len() ==> #[trigger] bytes[i] < 0x80,
    ensures
        vstd::utf8::valid_utf8(bytes),
        lossy_text(bytes) == bytes.map_values(|b: u8| b as char),
    decreases bytes.len(),
{
    let chars = bytes.map_values(|b: u8| b as char);
    if bytes.len() > 0 {
        let b = bytes[0];
        let rest = vstd::utf8::pop_first_scalar(bytes);
        assert(b < 0x80);
        assert(b & 0x7f == b) by (bit_vector)
            requires
                b < 0x80,
        ;
        assert(rest =~= bytes.skip(1));
        assert forall|i: int| 0 <= i < rest.len() implies #[trigger] rest[i] < 0x80 by {
            assert(bytes[i + 1] < 0x80);
        }
        law_ascii_text(rest);
        assert(vstd::utf8::valid_utf8(bytes));
        assert(chars =~= seq![b as char] + rest.map_values(|b: u8| b as char));
    } else {
        assert(chars =~= seq![]);
    }
}

} // verus!
