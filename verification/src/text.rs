//! Text primitives shared by every module. A string is modelled by its view,
//! the sequence of its characters.

use vstd::prelude::*;
use vstd::string::*;
use vstd::utf8::*;

verus! {

/// `String::push` appends the given character at the end of the string.
pub assume_specification[ String::push ](s: &mut String, c: char)
    ensures
        final(s)@ == old(s)@.push(c),
;

/// The characters with the Unicode `White_Space` property.
pub open spec fn is_space(c: char) -> bool {
    ||| 0x9 <= c as u32 <= 0xd
    ||| c as u32 == 0x20
    ||| c as u32 == 0x85
    ||| c as u32 == 0xa0
    ||| c as u32 == 0x1680
    ||| 0x2000 <= c as u32 <= 0x200a
    ||| 0x2028 <= c as u32 <= 0x2029
    ||| c as u32 == 0x202f
    ||| c as u32 == 0x205f
    ||| c as u32 == 0x3000
}

/// `char::is_whitespace` tells the characters with the `White_Space` property
/// from the others.
pub assume_specification[ char::is_whitespace ](c: char) -> (r: bool)
    ensures
        r == is_space(c),
;

/// The control codes: the characters of general category `Cc`.
pub open spec fn is_control_code(c: char) -> bool {
    c as u32 <= 0x1f || 0x7f <= c as u32 <= 0x9f
}

/// `char::is_control` tells the characters of general category `Cc` from the
/// others.
pub assume_specification[ char::is_control ](c: char) -> (r: bool)
    ensures
        r == is_control_code(c),
;

/// ASCII letters and digits.
pub open spec fn is_ascii_alnum(c: char) -> bool {
    ||| 'a' <= c <= 'z'
    ||| 'A' <= c <= 'Z'
    ||| '0' <= c <= '9'
}

/// Whether the Unicode tables of the standard library call `c` alphabetic or
/// numeric.
pub uninterp spec fn is_alnum(c: char) -> bool;

/// `char::is_alphanumeric` is a property of the character alone; among the
/// ASCII characters it holds of the letters and the digits.
pub assume_specification[ char::is_alphanumeric ](c: char) -> (r: bool)
    ensures
        r == is_alnum(c),
        c as u32 <= 0x7f ==> r == is_ascii_alnum(c),
;

/// The lower-case letter of an ASCII upper-case letter; any other character
/// unchanged.
pub open spec fn ascii_lower(c: char) -> char {
    if 'A' <= c <= 'Z' {
        (c as u32 + 32) as char
    } else {
        c
    }
}

/// The lower-case mapping of one character in the Unicode tables of the
/// standard library.
pub uninterp spec fn lower_mapping(c: char) -> Seq<char>;

/// `char::to_lowercase` yields the lower-case mapping of the character, which
/// depends on the character alone and is one character on ASCII.
#[verifier::external_body]
pub(crate) fn char_to_lowercase(c: char) -> (r: Vec<char>)
    ensures
        r@ == lower_mapping(c),
        c as u32 <= 0x7f ==> r@ == seq![ascii_lower(c)],
{
    c.to_lowercase().collect()
}

/// The lower-case form of a whole text in the Unicode tables of the standard
/// library.
pub uninterp spec fn text_lowercase(s: Seq<char>) -> Seq<char>;

/// `str::to_lowercase` depends on the text alone. It differs from the
/// character-wise mapping at a word-final capital sigma.
#[verifier::external_body]
pub(crate) fn lowercase_text(s: &str) -> (r: String)
    ensures
        r@ == text_lowercase(s@),
{
    s.to_lowercase()
}

// ---------------------------------------------------------------------------
// Views of containers of strings.

/// The texts of a sequence of strings.
pub open spec fn texts(v: Seq<String>) -> Seq<Seq<char>> {
    Seq::new(v.len(), |i: int| v[i]@)
}

/// The text of an optional string.
pub open spec fn text_opt(o: Option<String>) -> Option<Seq<char>> {
    match o {
        Some(s) => Some(s@),
        None => None,
    }
}

pub fn same_text_opt(a: &Option<String>, b: &Option<String>) -> (r: bool)
    ensures
        r == (text_opt(*a) == text_opt(*b)),
{
    match (a, b) {
        (Some(x), Some(y)) => *x == *y,
        (None, None) => true,
        _ => false,
    }
}

/// A copy of an optional string.
pub fn clone_opt(o: &Option<String>) -> (r: Option<String>)
    ensures
        r == *o,
{
    match o {
        Some(s) => Some(s.clone()),
        None => None,
    }
}

/// A copy of a list of strings.
pub fn clone_strings(v: &Vec<String>) -> (r: Vec<String>)
    ensures
        r@ == v@,
{
    let mut out: Vec<String> = Vec::new();
    let mut i: usize = 0;
    while i < v.len()
        invariant
            i <= v.len(),
            out@ == v@.subrange(0, i as int),
        decreases v.len() - i,
    {
        out.push(v[i].clone());
        i += 1;
        assert(v@.subrange(0, i as int) == v@.subrange(0, i - 1).push(v@[i - 1]));
    }
    assert(v@.subrange(0, v@.len() as int) == v@);
    out
}

// ---------------------------------------------------------------------------
// Characters of a string and back.

/// The characters of a string.
pub fn chars_of(s: &str) -> (r: Vec<char>)
    ensures
        r@ == s@,
{
    let mut out: Vec<char> = Vec::new();
    for c in it: s.chars()
        invariant
            it.seq() == s@,
            out@ == s@.subrange(0, it.index() as int),
    {
        out.push(c);
        assert(s@.subrange(0, it.index() + 1) == s@.subrange(0, it.index() as int).push(
            s@[it.index() as int],
        ));
    }
    assert(s@.subrange(0, s@.len() as int) == s@);
    out
}

/// The string of the characters `chars[from..to]`.
pub fn string_from(chars: &Vec<char>, from: usize, to: usize) -> (r: String)
    requires
        from <= to <= chars.len(),
    ensures
        r@ == chars@.subrange(from as int, to as int),
{
    let mut out = String::new();
    let mut i: usize = from;
    while i < to
        invariant
            from <= i <= to <= chars.len(),
            out@ == chars@.subrange(from as int, i as int),
        decreases to - i,
    {
        out.push(chars[i]);
        i += 1;
        assert(chars@.subrange(from as int, i as int) == chars@.subrange(
            from as int,
            i - 1,
        ).push(chars@[i - 1]));
    }
    out
}

/// The string of all the given characters.
pub fn string_of(chars: &Vec<char>) -> (r: String)
    ensures
        r@ == chars@,
{
    let r = string_from(chars, 0, chars.len());
    assert(chars@.subrange(0, chars@.len() as int) == chars@);
    r
}

/// The number of bytes of the UTF-8 encoding.
pub open spec fn utf8_len(s: Seq<char>) -> nat {
    encode_utf8(s).len()
}

pub fn byte_len(s: &str) -> (r: usize)
    ensures
        r == utf8_len(s@),
{
    s.as_bytes().len()
}

pub fn char_count(s: &str) -> (r: usize)
    ensures
        r == s@.len(),
{
    s.unicode_len()
}

// ---------------------------------------------------------------------------
// Trimming.

/// Whether every character is white space.
pub open spec fn is_blank(s: Seq<char>) -> bool {
    forall|i: int| 0 <= i < s.len() ==> is_space(#[trigger] s[i])
}

/// `s` without its leading white space.
pub open spec fn trim_start_of(s: Seq<char>) -> Seq<char>
    decreases s.len(),
{
    if s.len() > 0 && is_space(s[0]) {
        trim_start_of(s.subrange(1, s.len() as int))
    } else {
        s
    }
}

/// `s` without its trailing white space.
pub open spec fn trim_end_of(s: Seq<char>) -> Seq<char>
    decreases s.len(),
{
    if s.len() > 0 && is_space(s.last()) {
        trim_end_of(s.drop_last())
    } else {
        s
    }
}

/// `s` without leading and trailing white space.
pub open spec fn trimmed(s: Seq<char>) -> Seq<char> {
    trim_end_of(trim_start_of(s))
}

proof fn lemma_trim_start(s: Seq<char>, n: int)
    requires
        0 <= n <= s.len(),
        forall|i: int| 0 <= i < n ==> is_space(#[trigger] s[i]),
        n < s.len() ==> !is_space(s[n]),
    ensures
        trim_start_of(s) == s.subrange(n, s.len() as int),
    decreases n,
{
    if n > 0 {
        let rest = s.subrange(1, s.len() as int);
        assert forall|i: int| 0 <= i < n - 1 implies is_space(#[trigger] rest[i]) by {
            assert(rest[i] == s[i + 1]);
        }
        if n < s.len() {
            assert(rest[n - 1] == s[n]);
        }
        lemma_trim_start(rest, n - 1);
        assert(rest.subrange(n - 1, rest.len() as int) == s.subrange(n, s.len() as int));
        assert(is_space(s[0]));
    } else {
        assert(s.subrange(0, s.len() as int) == s);
    }
}

proof fn lemma_trim_end(s: Seq<char>, n: int)
    requires
        0 <= n <= s.len(),
        forall|i: int| n <= i < s.len() ==> is_space(#[trigger] s[i]),
        n > 0 ==> !is_space(s[n - 1]),
    ensures
        trim_end_of(s) == s.subrange(0, n),
    decreases s.len() - n,
{
    if n < s.len() {
        let rest = s.drop_last();
        assert(is_space(s[s.len() - 1]));
        assert forall|i: int| n <= i < rest.len() implies is_space(#[trigger] rest[i]) by {
            assert(rest[i] == s[i]);
        }
        lemma_trim_end(rest, n);
        assert(rest.subrange(0, n) == s.subrange(0, n));
    } else {
        assert(s.subrange(0, n) == s);
    }
}

/// A text trims to nothing exactly when it is all white space.
proof fn lemma_trim_start_clean(s: Seq<char>)
    ensures
        trim_start_of(s).len() > 0 ==> !is_space(trim_start_of(s)[0]),
    decreases s.len(),
{
    if s.len() > 0 && is_space(s[0]) {
        lemma_trim_start_clean(s.subrange(1, s.len() as int));
    }
}

proof fn lemma_trim_end_clean(s: Seq<char>)
    ensures
        trim_end_of(s).len() > 0 ==> !is_space(trim_end_of(s).last()) && trim_end_of(s)[0] == s[0],
    decreases s.len(),
{
    if s.len() > 0 && is_space(s.last()) {
        lemma_trim_end_clean(s.drop_last());
    }
}

/// A trimmed text is not trimmed any further.
pub proof fn lemma_trimmed_twice(s: Seq<char>)
    ensures
        trimmed(trimmed(s)) == trimmed(s),
{
    lemma_trim_start_clean(s);
    lemma_trim_end_clean(trim_start_of(s));
    let u = trimmed(s);
    assert(trim_start_of(u) == u);
    assert(trim_end_of(u) == u);
}

/// Trimming takes away the white space around a text, and nothing else.
pub proof fn law_trimming_takes_what_is_around(s: Seq<char>, a: int, b: int)
    requires
        0 <= a < b <= s.len(),
        !is_space(s[a]),
        !is_space(s[b - 1]),
        forall|i: int| 0 <= i < a ==> is_space(#[trigger] s[i]),
        forall|i: int| b <= i < s.len() ==> is_space(#[trigger] s[i]),
    ensures
        trimmed(s) == s.subrange(a, b),
{
    lemma_trim_start(s, a);
    let rest = s.subrange(a, s.len() as int);
    assert forall|i: int| b - a <= i < rest.len() implies is_space(#[trigger] rest[i]) by {
        assert(rest[i] == s[a + i]);
    }
    assert(rest[b - a - 1] == s[b - 1]);
    lemma_trim_end(rest, b - a);
    assert(rest.subrange(0, b - a) =~= s.subrange(a, b));
}

pub proof fn lemma_trimmed_empty(s: Seq<char>)
    ensures
        trimmed(s).len() == 0 <==> is_blank(s),
    decreases s.len(),
{
    if s.len() > 0 && is_space(s[0]) {
        let rest = s.subrange(1, s.len() as int);
        lemma_trimmed_empty(rest);
        if is_blank(rest) {
            assert forall|i: int| 0 <= i < s.len() implies is_space(#[trigger] s[i]) by {
                if i > 0 {
                    assert(rest[i - 1] == s[i]);
                }
            }
        }
        if is_blank(s) {
            assert forall|i: int| 0 <= i < rest.len() implies is_space(#[trigger] rest[i]) by {
                assert(rest[i] == s[i + 1]);
            }
        }
    } else if s.len() > 0 {
        assert(trim_start_of(s) == s);
        lemma_trim_end_keeps(s, 0);
        assert(!is_blank(s));
    }
}

/// Trimming the end keeps every position up to a character that is not white
/// space.
proof fn lemma_trim_end_keeps(s: Seq<char>, i: int)
    requires
        0 <= i < s.len(),
        !is_space(s[i]),
    ensures
        trim_end_of(s).len() > i,
    decreases s.len(),
{
    if is_space(s.last()) {
        assert(s.drop_last()[i] == s[i]);
        lemma_trim_end_keeps(s.drop_last(), i);
    }
}

/// Removes leading and trailing white space.
pub fn trim(s: &str) -> (r: String)
    ensures
        r@ == trimmed(s@),
{
    let chars = chars_of(s);
    let mut start: usize = 0;
    while start < chars.len() && chars[start].is_whitespace()
        invariant
            start <= chars.len(),
            forall|i: int| 0 <= i < start ==> is_space(#[trigger] chars@[i]),
        decreases chars.len() - start,
    {
        start += 1;
    }
    let mut end: usize = chars.len();
    while end > start && chars[end - 1].is_whitespace()
        invariant
            start <= end <= chars.len(),
            forall|i: int| end <= i < chars.len() ==> is_space(#[trigger] chars@[i]),
        decreases end,
    {
        end -= 1;
    }
    proof {
        let rest = chars@.subrange(start as int, chars@.len() as int);
        lemma_trim_start(chars@, start as int);
        assert forall|i: int| end - start <= i < rest.len() implies is_space(#[trigger] rest[i]) by {
            assert(rest[i] == chars@[i + start]);
        }
        lemma_trim_end(rest, end - start);
        assert(rest.subrange(0, end - start) == chars@.subrange(start as int, end as int));
    }
    string_from(&chars, start, end)
}

/// Whether the text is empty or all white space.
pub fn blank(s: &str) -> (r: bool)
    ensures
        r == is_blank(s@),
        r == (trimmed(s@).len() == 0),
{
    proof {
        lemma_trimmed_empty(s@);
    }
    for c in it: s.chars()
        invariant
            it.seq() == s@,
            forall|i: int| 0 <= i < it.index() ==> is_space(#[trigger] s@[i]),
            trimmed(s@).len() == 0 <==> is_blank(s@),
    {
        if !c.is_whitespace() {
            assert(!is_space(s@[it.index() as int]));
            return false;
        }
    }
    true
}

// ---------------------------------------------------------------------------
// Searching.

/// Whether `needle` occurs in `hay` at position `at`.
pub open spec fn occurs_at(hay: Seq<char>, needle: Seq<char>, at: int) -> bool {
    0 <= at && at + needle.len() <= hay.len() && hay.subrange(at, at + needle.len()) == needle
}

/// Whether `needle` occurs somewhere in `hay`.
pub open spec fn occurs_in(needle: Seq<char>, hay: Seq<char>) -> bool {
    exists|at: int| occurs_at(hay, needle, at)
}

/// Whether `prefix` starts `s`.
pub open spec fn starts_with(s: Seq<char>, prefix: Seq<char>) -> bool {
    prefix.len() <= s.len() && s.subrange(0, prefix.len() as int) == prefix
}

/// Whether `suffix` ends `s`.
pub open spec fn ends_with(s: Seq<char>, suffix: Seq<char>) -> bool {
    suffix.len() <= s.len() && s.subrange(s.len() - suffix.len(), s.len() as int) == suffix
}

pub fn matches_at(hay: &Vec<char>, needle: &Vec<char>, at: usize) -> (r: bool)
    requires
        at <= hay.len(),
    ensures
        r == occurs_at(hay@, needle@, at as int),
{
    if needle.len() > hay.len() - at {
        return false;
    }
    let mut i: usize = 0;
    while i < needle.len()
        invariant
            i <= needle.len(),
            at + needle.len() <= hay.len(),
            forall|j: int| 0 <= j < i ==> hay@[at + j] == #[trigger] needle@[j],
        decreases needle.len() - i,
    {
        if hay[at + i] != needle[i] {
            assert(hay@.subrange(at as int, at + needle@.len())[i as int] == hay@[at + i]);
            return false;
        }
        i += 1;
    }
    assert(hay@.subrange(at as int, at + needle@.len()) == needle@);
    true
}

/// Whether `hay` contains `needle`.
pub fn contains_chars(hay: &Vec<char>, needle: &Vec<char>) -> (r: bool)
    ensures
        r == occurs_in(needle@, hay@),
{
    let mut at: usize = 0;
    while at < hay.len()
        invariant
            at <= hay.len(),
            forall|j: int| 0 <= j < at ==> !#[trigger] occurs_at(hay@, needle@, j),
        decreases hay.len() - at,
    {
        if matches_at(hay, needle, at) {
            return true;
        }
        at += 1;
    }
    matches_at(hay, needle, at)
}

pub fn has_prefix(s: &Vec<char>, prefix: &Vec<char>) -> (r: bool)
    ensures
        r == starts_with(s@, prefix@),
{
    matches_at(s, prefix, 0)
}

pub fn str_starts_with(s: &str, prefix: &str) -> (r: bool)
    ensures
        r == starts_with(s@, prefix@),
{
    has_prefix(&chars_of(s), &chars_of(prefix))
}

pub fn str_ends_with(s: &str, suffix: &str) -> (r: bool)
    ensures
        r == ends_with(s@, suffix@),
{
    let hay = chars_of(s);
    let needle = chars_of(suffix);
    if needle.len() > hay.len() {
        return false;
    }
    matches_at(&hay, &needle, hay.len() - needle.len())
}

pub fn str_contains(hay: &str, needle: &str) -> (r: bool)
    ensures
        r == occurs_in(needle@, hay@),
{
    contains_chars(&chars_of(hay), &chars_of(needle))
}

pub fn contains_char(chars: &Vec<char>, wanted: char) -> (r: bool)
    ensures
        r == chars@.contains(wanted),
{
    let mut i: usize = 0;
    while i < chars.len()
        invariant
            i <= chars.len(),
            forall|j: int| 0 <= j < i ==> #[trigger] chars@[j] != wanted,
        decreases chars.len() - i,
    {
        if chars[i] == wanted {
            return true;
        }
        i += 1;
    }
    false
}

/// Whether some character is white space.
pub open spec fn has_space(s: Seq<char>) -> bool {
    exists|i: int| 0 <= i < s.len() && is_space(#[trigger] s[i])
}

pub fn contains_space(chars: &Vec<char>) -> (r: bool)
    ensures
        r == has_space(chars@),
{
    let mut i: usize = 0;
    while i < chars.len()
        invariant
            i <= chars.len(),
            forall|j: int| 0 <= j < i ==> !is_space(#[trigger] chars@[j]),
        decreases chars.len() - i,
    {
        if chars[i].is_whitespace() {
            return true;
        }
        i += 1;
    }
    false
}

/// Whether two strings hold the same text.
pub fn same_text(a: &str, b: &str) -> (r: bool)
    ensures
        r == (a@ == b@),
{
    let x = chars_of(a);
    let y = chars_of(b);
    if x.len() != y.len() {
        return false;
    }
    let r = matches_at(&x, &y, 0);
    assert(x@.subrange(0, y@.len() as int) == x@);
    r
}

/// Whether a list of strings holds the given text.
pub fn strings_contain(v: &Vec<String>, wanted: &str) -> (r: bool)
    ensures
        r == texts(v@).contains(wanted@),
{
    let mut i: usize = 0;
    while i < v.len()
        invariant
            i <= v.len(),
            forall|j: int| 0 <= j < i ==> (#[trigger] v@[j])@ != wanted@,
        decreases v.len() - i,
    {
        if same_text(v[i].as_str(), wanted) {
            assert(texts(v@)[i as int] == wanted@);
            return true;
        }
        i += 1;
    }
    assert forall|j: int| 0 <= j < texts(v@).len() implies texts(v@)[j] != wanted@ by {
        assert(texts(v@)[j] == v@[j]@);
    }
    false
}

// ---------------------------------------------------------------------------
// Words.

/// The maximal runs of characters that are not white space, in order.
pub open spec fn words(s: Seq<char>) -> Seq<Seq<char>>
    decreases s.len(),
{
    if s.len() == 0 {
        Seq::empty()
    } else {
        let init = words(s.drop_last());
        if is_space(s.last()) {
            init
        } else if s.len() == 1 || is_space(s[s.len() - 2]) {
            init.push(seq![s.last()])
        } else {
            init.drop_last().push(init.last().push(s.last()))
        }
    }
}

/// Splits a text into its words.
pub fn split_words(chars: &Vec<char>) -> (r: Vec<String>)
    ensures
        texts(r@) == words(chars@),
{
    let mut done: Vec<String> = Vec::new();
    let mut cur = String::new();
    let mut open: bool = false;
    let mut i: usize = 0;
    assert(texts(done@) =~= Seq::<Seq<char>>::empty());
    while i < chars.len()
        invariant
            i <= chars.len(),
            open == (i > 0 && !is_space(chars@[i - 1])),
            open ==> words(chars@.subrange(0, i as int)) == texts(done@).push(cur@),
            !open ==> words(chars@.subrange(0, i as int)) == texts(done@),
            !open ==> cur@.len() == 0,
        decreases chars.len() - i,
    {
        let c = chars[i];
        let ghost before = chars@.subrange(0, i as int);
        let ghost after = chars@.subrange(0, i + 1);
        let ghost old_done = done@;
        assert(after.drop_last() == before);
        assert(after.last() == c);
        if i > 0 {
            assert(after[after.len() - 2] == chars@[i - 1]);
        }
        if c.is_whitespace() {
            if open {
                done.push(cur);
                cur = String::new();
                open = false;
                assert(texts(done@) =~= texts(old_done).push(done@.last()@));
            }
        } else {
            let ghost old_cur = cur@;
            cur.push(c);
            if open {
                assert(texts(done@).push(old_cur).drop_last() == texts(done@));
            } else {
                assert(cur@ =~= seq![c]);
            }
            open = true;
        }
        i += 1;
    }
    assert(chars@.subrange(0, chars@.len() as int) == chars@);
    if open {
        let ghost old_done = done@;
        done.push(cur);
        assert(texts(done@) =~= texts(old_done).push(done@.last()@));
    }
    done
}

// ---------------------------------------------------------------------------
// Pieces.

/// The position of the first `wanted` in `s`, or the length of `s`.
pub open spec fn first_index(s: Seq<char>, wanted: char) -> int
    decreases s.len(),
{
    if s.len() == 0 || s[0] == wanted {
        0
    } else {
        1 + first_index(s.subrange(1, s.len() as int), wanted)
    }
}

/// `first_index` is the first position that holds the wanted character.
pub proof fn lemma_first_index(s: Seq<char>, wanted: char)
    ensures
        0 <= first_index(s, wanted) <= s.len(),
        first_index(s, wanted) < s.len() ==> s[first_index(s, wanted)] == wanted,
        forall|i: int| 0 <= i < first_index(s, wanted) ==> #[trigger] s[i] != wanted,
        first_index(s, wanted) < s.len() <==> s.contains(wanted),
    decreases s.len(),
{
    if s.len() > 0 && s[0] != wanted {
        let rest = s.subrange(1, s.len() as int);
        lemma_first_index(rest, wanted);
        let n = first_index(rest, wanted);
        assert forall|i: int| 0 <= i < 1 + n implies #[trigger] s[i] != wanted by {
            if i > 0 {
                assert(rest[i - 1] == s[i]);
            }
        }
        if n < rest.len() {
            assert(s[1 + n] == wanted);
        }
    } else if s.len() > 0 {
        assert(s[0] == wanted);
    }
}

proof fn lemma_first_index_at(s: Seq<char>, wanted: char, n: int)
    requires
        0 <= n <= s.len(),
        n < s.len() ==> s[n] == wanted,
        forall|i: int| 0 <= i < n ==> #[trigger] s[i] != wanted,
    ensures
        first_index(s, wanted) == n,
{
    lemma_first_index(s, wanted);
}

/// The position of the first `wanted`, or the number of characters.
pub fn find_char(chars: &Vec<char>, wanted: char) -> (r: usize)
    ensures
        r == first_index(chars@, wanted),
        r <= chars.len(),
        r < chars.len() <==> chars@.contains(wanted),
{
    let mut i: usize = 0;
    while i < chars.len() && chars[i] != wanted
        invariant
            i <= chars.len(),
            forall|j: int| 0 <= j < i ==> #[trigger] chars@[j] != wanted,
        decreases chars.len() - i,
    {
        i += 1;
    }
    proof {
        lemma_first_index_at(chars@, wanted, i as int);
        lemma_first_index(chars@, wanted);
    }
    i
}

/// The characters `chars[from..to]`.
pub fn slice_chars(chars: &Vec<char>, from: usize, to: usize) -> (r: Vec<char>)
    requires
        from <= to <= chars.len(),
    ensures
        r@ == chars@.subrange(from as int, to as int),
{
    let mut out: Vec<char> = Vec::new();
    let mut i: usize = from;
    while i < to
        invariant
            from <= i <= to <= chars.len(),
            out@ == chars@.subrange(from as int, i as int),
        decreases to - i,
    {
        out.push(chars[i]);
        i += 1;
        assert(chars@.subrange(from as int, i as int) == chars@.subrange(
            from as int,
            i - 1,
        ).push(chars@[i - 1]));
    }
    out
}

/// At most the first `max` characters.
pub open spec fn first_chars(s: Seq<char>, max: int) -> Seq<char> {
    if s.len() <= max {
        s
    } else {
        s.subrange(0, max)
    }
}

/// A text of at most `max` characters: `s` itself, or its beginning followed
/// by an ellipsis. The ellipsis stays even where `max` is zero.
pub open spec fn ellipsized(s: Seq<char>, max: int) -> Seq<char> {
    if s.len() <= max {
        s
    } else {
        s.subrange(0, if max > 0 { max - 1 } else { 0 }).push('\u{2026}')
    }
}

pub fn ellipsize(s: &str, max_chars: usize) -> (r: String)
    ensures
        r@ == ellipsized(s@, max_chars as int),
        max_chars > 0 ==> r@.len() <= max_chars,
{
    let chars = chars_of(s);
    if chars.len() <= max_chars {
        return string_of(&chars);
    }
    let keep: usize = if max_chars > 0 { max_chars - 1 } else { 0 };
    let mut r = string_from(&chars, 0, keep);
    r.push('\u{2026}');
    r
}

/// Appends `tail` to `head`.
pub fn joined(head: &str, tail: &str) -> (r: String)
    ensures
        r@ == head@ + tail@,
{
    let mut r = String::from_str(head);
    r.append(tail);
    r
}

/// Three texts in a row.
pub fn concat3(a: &str, b: &str, c: &str) -> (r: String)
    ensures
        r@ == a@ + b@ + c@,
{
    let mut r = joined(a, b);
    r.append(c);
    r
}

/// Four texts in a row.
pub fn concat4(a: &str, b: &str, c: &str, d: &str) -> (r: String)
    ensures
        r@ == a@ + b@ + c@ + d@,
{
    let mut r = concat3(a, b, c);
    r.append(d);
    r
}

/// Five texts in a row.
pub fn concat5(a: &str, b: &str, c: &str, d: &str, e: &str) -> (r: String)
    ensures
        r@ == a@ + b@ + c@ + d@ + e@,
{
    let mut r = concat4(a, b, c, d);
    r.append(e);
    r
}

// ---------------------------------------------------------------------------
// Decimal numbers.

pub open spec fn digit(n: int) -> char {
    (n + 0x30) as char
}

/// The decimal digits of a number, without leading zeros.
pub open spec fn decimal(n: nat) -> Seq<char>
    decreases n,
{
    if n < 10 {
        seq![digit(n as int)]
    } else {
        decimal(n / 10).push(digit((n % 10) as int))
    }
}

pub fn decimal_usize(n: usize) -> (r: String)
    ensures
        r@ == decimal(n as nat),
{
    decimal_text(n as u64)
}

pub fn decimal_text(n: u64) -> (r: String)
    ensures
        r@ == decimal(n as nat),
    decreases n,
{
    if n < 10 {
        let mut r = String::new();
        r.push((0x30u8 + n as u8) as char);
        assert(r@ =~= decimal(n as nat));
        r
    } else {
        let mut r = decimal_text(n / 10);
        r.push((0x30u8 + (n % 10) as u8) as char);
        r
    }
}

/// The decimal form of a signed number.
pub open spec fn signed_decimal(n: int) -> Seq<char> {
    if n < 0 {
        seq!['-'] + decimal((-n) as nat)
    } else {
        decimal(n as nat)
    }
}

pub fn decimal_i64(n: i64) -> (r: String)
    ensures
        r@ == signed_decimal(n as int),
{
    if n >= 0 {
        return decimal_text(n as u64);
    }
    let size: u64 = if n == i64::MIN {
        0x8000_0000_0000_0000
    } else {
        (-n) as u64
    };
    let mut r = String::new();
    r.push('-');
    r.append(decimal_text(size).as_str());
    assert(r@ =~= signed_decimal(n as int));
    r
}

// ---------------------------------------------------------------------------
// Order.

/// The order of texts: by the first character that differs, a prefix before
/// its extensions.
pub open spec fn text_at_most(a: Seq<char>, b: Seq<char>) -> bool
    decreases a.len(),
{
    if a.len() == 0 {
        true
    } else if b.len() == 0 {
        false
    } else if a[0] != b[0] {
        a[0] < b[0]
    } else {
        text_at_most(a.subrange(1, a.len() as int), b.subrange(1, b.len() as int))
    }
}

pub proof fn lemma_text_total(a: Seq<char>, b: Seq<char>)
    ensures
        text_at_most(a, b) || text_at_most(b, a),
    decreases a.len(),
{
    if a.len() > 0 && b.len() > 0 && a[0] == b[0] {
        lemma_text_total(a.subrange(1, a.len() as int), b.subrange(1, b.len() as int));
    }
}

pub proof fn lemma_text_antisymmetric(a: Seq<char>, b: Seq<char>)
    requires
        text_at_most(a, b),
        text_at_most(b, a),
    ensures
        a == b,
    decreases a.len(),
{
    if a.len() > 0 && b.len() > 0 {
        let x = a.subrange(1, a.len() as int);
        let y = b.subrange(1, b.len() as int);
        lemma_text_antisymmetric(x, y);
        assert(a == seq![a[0]] + x);
        assert(b == seq![b[0]] + y);
    } else {
        assert(a =~= b);
    }
}

pub proof fn lemma_text_transitive(a: Seq<char>, b: Seq<char>, c: Seq<char>)
    requires
        text_at_most(a, b),
        text_at_most(b, c),
    ensures
        text_at_most(a, c),
    decreases a.len(),
{
    if a.len() > 0 && b.len() > 0 && c.len() > 0 && a[0] == b[0] && b[0] == c[0] {
        lemma_text_transitive(
            a.subrange(1, a.len() as int),
            b.subrange(1, b.len() as int),
            c.subrange(1, c.len() as int),
        );
    }
}

proof fn lemma_text_at_most_split(a: Seq<char>, b: Seq<char>, n: int)
    requires
        0 <= n <= a.len(),
        n <= b.len(),
        a.subrange(0, n) == b.subrange(0, n),
    ensures
        text_at_most(a, b) == text_at_most(
            a.subrange(n, a.len() as int),
            b.subrange(n, b.len() as int),
        ),
    decreases n,
{
    if n == 0 {
        assert(a.subrange(0, a.len() as int) == a);
        assert(b.subrange(0, b.len() as int) == b);
    } else {
        assert(a[0] == a.subrange(0, n)[0]);
        assert(b[0] == b.subrange(0, n)[0]);
        let x = a.subrange(1, a.len() as int);
        let y = b.subrange(1, b.len() as int);
        assert(x.subrange(0, n - 1) == a.subrange(0, n).subrange(1, n));
        assert(y.subrange(0, n - 1) == b.subrange(0, n).subrange(1, n));
        lemma_text_at_most_split(x, y, n - 1);
        assert(x.subrange(n - 1, x.len() as int) == a.subrange(n, a.len() as int));
        assert(y.subrange(n - 1, y.len() as int) == b.subrange(n, b.len() as int));
    }
}

pub fn is_text_at_most(a: &str, b: &str) -> (r: bool)
    ensures
        r == text_at_most(a@, b@),
{
    let x = chars_of(a);
    let y = chars_of(b);
    let mut i: usize = 0;
    while i < x.len() && i < y.len() && x[i] == y[i]
        invariant
            i <= x.len(),
            i <= y.len(),
            x@.subrange(0, i as int) == y@.subrange(0, i as int),
        decreases x.len() - i,
    {
        i += 1;
        assert(x@.subrange(0, i as int) == x@.subrange(0, i - 1).push(x@[i - 1]));
        assert(y@.subrange(0, i as int) == y@.subrange(0, i - 1).push(y@[i - 1]));
    }
    proof {
        lemma_text_at_most_split(x@, y@, i as int);
    }
    if i == x.len() {
        true
    } else if i == y.len() {
        false
    } else {
        x[i] < y[i]
    }
}

// ---------------------------------------------------------------------------
// Sorted lists without duplicates.

/// Whether the texts ascend, each before the next.
pub open spec fn ascending(s: Seq<Seq<char>>) -> bool {
    forall|i: int, j: int|
        #![trigger s[i], s[j]]
        0 <= i < j < s.len() ==> text_at_most(s[i], s[j]) && s[i] != s[j]
}

/// Puts a text in its place among ascending texts, unless it is there.
pub fn insert_ascending(out: &mut Vec<String>, item: String)
    requires
        ascending(texts(old(out)@)),
    ensures
        ascending(texts(final(out)@)),
        forall|s: Seq<char>| #[trigger]
            texts(final(out)@).contains(s) <==> texts(old(out)@).contains(s) || s == item@,
{
    let ghost before = texts(out@);
    let mut at: usize = 0;
    while at < out.len() && !is_text_at_most(item.as_str(), out[at].as_str())
        invariant
            at <= out.len(),
            before == texts(out@),
            forall|i: int| 0 <= i < at ==> !text_at_most(item@, #[trigger] before[i]),
        decreases out.len() - at,
    {
        assert(before[at as int] == out@[at as int]@);
        at += 1;
    }
    if at < out.len() && same_text(item.as_str(), out[at].as_str()) {
        assert(before[at as int] == item@);
        return;
    }
    proof {
        assert forall|i: int| 0 <= i < at implies text_at_most(#[trigger] before[i], item@)
            && before[i] != item@ by {
            lemma_text_total(before[i], item@);
        }
        assert forall|i: int| at <= i < before.len() implies text_at_most(
            item@,
            #[trigger] before[i],
        ) && before[i] != item@ by {
            assert(before[at as int] == out@[at as int]@);
            if i > at {
                assert(text_at_most(before[at as int], before[i]));
                lemma_text_transitive(item@, before[at as int], before[i]);
                if before[i] == item@ {
                    lemma_text_antisymmetric(before[at as int], before[i]);
                }
            }
        }
    }
    let ghost item_text = item@;
    out.insert(at, item);
    proof {
        let after = texts(out@);
        assert(after =~= before.insert(at as int, item_text));
        assert forall|i: int, j: int|
            #![trigger after[i], after[j]]
            0 <= i < j < after.len() implies text_at_most(after[i], after[j]) && after[i]
            != after[j] by {
            let a = if i < at {
                i
            } else {
                i - 1
            };
            let b = if j < at {
                j
            } else {
                j - 1
            };
            if i != at {
                assert(after[i] == before[a]);
            }
            if j != at {
                assert(after[j] == before[b]);
            }
        }
        assert forall|s: Seq<char>| #[trigger] after.contains(s) <==> before.contains(s) || s
            == item_text by {
            if before.contains(s) {
                let k = choose|k: int| 0 <= k < before.len() && before[k] == s;
                let m = if k < at {
                    k
                } else {
                    k + 1
                };
                assert(after[m] == s);
            }
            if after.contains(s) {
                let k = choose|k: int| 0 <= k < after.len() && after[k] == s;
                if k != at {
                    let m = if k < at {
                        k
                    } else {
                        k - 1
                    };
                    assert(before[m] == s);
                }
            }
            assert(after[at as int] == item_text);
        }
    }
}

/// Two ascending lists of the same texts are the same list.
pub proof fn law_ascending_is_unique(a: Seq<Seq<char>>, b: Seq<Seq<char>>)
    requires
        ascending(a),
        ascending(b),
        forall|s: Seq<char>| #[trigger] a.contains(s) <==> b.contains(s),
    ensures
        a == b,
    decreases a.len(),
{
    if a.len() == 0 {
        if b.len() > 0 {
            assert(b.contains(b[0]));
            assert(a.contains(b[0]));
        }
        assert(a =~= b);
    } else if b.len() == 0 {
        assert(a.contains(a[0]));
    } else {
        assert(a.contains(a[0]) && b.contains(b[0]));
        assert(a.contains(b[0]));
        let i = choose|i: int| 0 <= i < b.len() && b[i] == a[0];
        let j = choose|j: int| 0 <= j < a.len() && a[j] == b[0];
        if i > 0 {
            assert(text_at_most(b[0], b[i]) && b[0] != b[i]);
            if j == 0 {
                lemma_text_total(a[0], a[0]);
            }
            assert(text_at_most(a[0], a[j]));
            lemma_text_antisymmetric(a[0], b[0]);
        }
        let x = a.subrange(1, a.len() as int);
        let y = b.subrange(1, b.len() as int);
        assert forall|s: Seq<char>| #[trigger] x.contains(s) <==> y.contains(s) by {
            if x.contains(s) {
                let k = choose|k: int| 0 <= k < x.len() && x[k] == s;
                assert(a[k + 1] == s);
                assert(a.contains(s));
                let m = choose|m: int| 0 <= m < b.len() && b[m] == s;
                assert(m > 0);
                assert(y[m - 1] == s);
            }
            if y.contains(s) {
                let k = choose|k: int| 0 <= k < y.len() && y[k] == s;
                assert(b[k + 1] == s);
                assert(b.contains(s));
                assert(a.contains(s));
                let m = choose|m: int| 0 <= m < a.len() && a[m] == s;
                assert(m > 0);
                assert(x[m - 1] == s);
            }
        }
        law_ascending_is_unique(x, y);
        assert(a =~= seq![a[0]] + x);
        assert(b =~= seq![b[0]] + y);
    }
}

// ---------------------------------------------------------------------------
// ASCII letters.

/// A text in which every capital ASCII letter is small.
pub open spec fn ascii_lowered(s: Seq<char>) -> Seq<char> {
    Seq::new(s.len(), |i: int| ascii_lower(s[i]))
}

pub fn ascii_alnum(c: char) -> (r: bool)
    ensures
        r == is_ascii_alnum(c),
{
    ('a' <= c && c <= 'z') || ('A' <= c && c <= 'Z') || ('0' <= c && c <= '9')
}

fn lower_ascii(c: char) -> (r: char)
    ensures
        r == ascii_lower(c),
{
    if 'A' <= c && c <= 'Z' {
        (c as u8 + 32u8) as char
    } else {
        c
    }
}

/// Makes every capital ASCII letter small.
pub fn ascii_lowercase(s: &str) -> (r: String)
    ensures
        r@ == ascii_lowered(s@),
{
    let chars = chars_of(s);
    let ghost lowered = ascii_lowered(s@);
    let mut out = String::new();
    let mut i: usize = 0;
    assert(lowered.subrange(0, 0) =~= Seq::<char>::empty());
    while i < chars.len()
        invariant
            i <= chars.len(),
            chars@ == s@,
            lowered == ascii_lowered(s@),
            out@ == lowered.subrange(0, i as int),
        decreases chars.len() - i,
    {
        out.push(lower_ascii(chars[i]));
        i += 1;
        assert(lowered.subrange(0, i as int) =~= lowered.subrange(0, i - 1).push(lowered[i - 1]));
    }
    assert(lowered.subrange(0, lowered.len() as int) =~= lowered);
    out
}

/// Whether two texts differ in the case of ASCII letters at most.
pub open spec fn same_but_case(a: Seq<char>, b: Seq<char>) -> bool {
    ascii_lowered(a) == ascii_lowered(b)
}

pub fn same_ignoring_case(a: &str, b: &str) -> (r: bool)
    ensures
        r == same_but_case(a@, b@),
{
    same_text(ascii_lowercase(a).as_str(), ascii_lowercase(b).as_str())
}

/// The first position from `from` on at which `needle` occurs, if any.
pub open spec fn first_occurrence(hay: Seq<char>, needle: Seq<char>, from: int) -> Option<int>
    decreases hay.len() - from,
{
    if from + needle.len() > hay.len() {
        None
    } else if occurs_at(hay, needle, from) {
        Some(from)
    } else if from == hay.len() {
        None
    } else {
        first_occurrence(hay, needle, from + 1)
    }
}

/// Finds the first occurrence of a text.
pub fn find_text(hay: &Vec<char>, needle: &Vec<char>, from: usize) -> (r: Option<usize>)
    requires
        from <= hay.len(),
    ensures
        match r {
            Some(i) => first_occurrence(hay@, needle@, from as int) == Some(i as int) && from <= i
                && i + needle.len() <= hay.len(),
            None => first_occurrence(hay@, needle@, from as int) is None,
        },
{
    let mut i: usize = from;
    while i < hay.len()
        invariant
            from <= i <= hay.len(),
            first_occurrence(hay@, needle@, from as int) == first_occurrence(
                hay@,
                needle@,
                i as int,
            ),
        decreases hay.len() - i,
    {
        if needle.len() > hay.len() - i {
            return None;
        }
        if matches_at(hay, needle, i) {
            return Some(i);
        }
        i += 1;
    }
    if matches_at(hay, needle, i) {
        Some(i)
    } else {
        None
    }
}

// ---------------------------------------------------------------------------
// Laws.

proof fn lemma_last_word(s: Seq<char>)
    ensures
        s.len() > 0 && !is_space(s.last()) ==> words(s).len() > 0,
        words(s).len() <= s.len(),
    decreases s.len(),
{
    if s.len() > 0 {
        lemma_last_word(s.drop_last());
    }
}

/// The words on both sides of a white space are those of the whole text.
pub proof fn law_white_space_parts_words(a: Seq<char>, c: char, b: Seq<char>)
    requires
        is_space(c),
    ensures
        words(a.push(c) + b) == words(a) + words(b),
    decreases b.len(),
{
    let s = a.push(c) + b;
    if b.len() == 0 {
        assert(s =~= a.push(c));
        assert(s.drop_last() =~= a);
        assert(words(a) + words(b) =~= words(a));
    } else {
        let init = b.drop_last();
        law_white_space_parts_words(a, c, init);
        assert(s.drop_last() =~= a.push(c) + init);
        assert(s.last() == b.last());
        if b.len() == 1 {
            assert(s[s.len() - 2] == c);
            assert(words(init) =~= Seq::<Seq<char>>::empty());
        } else {
            assert(s[s.len() - 2] == b[b.len() - 2]);
            assert(init.last() == b[b.len() - 2]);
            lemma_last_word(init);
        }
        assert(words(s) =~= words(a) + words(b));
    }
}

/// A text without white space is a word.
pub proof fn law_text_without_white_space_is_a_word(s: Seq<char>)
    requires
        s.len() > 0,
        forall|i: int| 0 <= i < s.len() ==> !is_space(#[trigger] s[i]),
    ensures
        words(s) == seq![s],
    decreases s.len(),
{
    let init = s.drop_last();
    assert(!is_space(s[s.len() - 1]));
    if s.len() == 1 {
        assert(words(init) =~= Seq::<Seq<char>>::empty());
        assert(seq![s.last()] =~= s);
        assert(words(s) =~= seq![s]);
    } else {
        assert forall|i: int| 0 <= i < init.len() implies !is_space(#[trigger] init[i]) by {
            assert(init[i] == s[i]);
        }
        law_text_without_white_space_is_a_word(init);
        assert(!is_space(s[s.len() - 2]));
        assert(init.push(s.last()) =~= s);
        assert(words(s) =~= seq![s]);
    }
}

/// What is found is the first occurrence from a position on, and where nothing
/// is found there is none.
pub proof fn law_first_occurrences(hay: Seq<char>, needle: Seq<char>, from: int)
    requires
        0 <= from,
    ensures
        match first_occurrence(hay, needle, from) {
            Some(at) => from <= at && at + needle.len() <= hay.len() && hay.subrange(
                at,
                at + needle.len(),
            ) == needle && forall|i: int| from <= i < at ==> !#[trigger] occurs_at(hay, needle, i),
            None => forall|i: int| from <= i ==> !#[trigger] occurs_at(hay, needle, i),
        },
    decreases hay.len() - from,
{
    if from + needle.len() <= hay.len() && !occurs_at(hay, needle, from) && from != hay.len() {
        law_first_occurrences(hay, needle, from + 1);
    }
}

/// A text occurs in another where that has it in the middle.
pub proof fn law_occurrences(a: Seq<char>, needle: Seq<char>, b: Seq<char>)
    ensures
        occurs_in(needle, a + needle + b),
        starts_with(needle + b, needle),
        ends_with(a + needle, needle),
{
    assert((a + needle + b).subrange(a.len() as int, (a.len() + needle.len()) as int) =~= needle);
    assert(occurs_at(a + needle + b, needle, a.len() as int));
    assert((needle + b).subrange(0, needle.len() as int) =~= needle);
    assert((a + needle).subrange(a.len() as int, (a + needle).len() as int) =~= needle);
}

/// What a text starts or ends with or holds is a part of it.
pub proof fn law_parts_of_texts(s: Seq<char>, part: Seq<char>)
    ensures
        starts_with(s, part) ==> s == part + s.subrange(part.len() as int, s.len() as int),
        ends_with(s, part) ==> s == s.subrange(0, s.len() - part.len()) + part,
        occurs_in(part, s) ==> exists|at: int|
            0 <= at && at + part.len() <= s.len() && #[trigger] s.skip(at).take(part.len() as int)
                == part,
{
    if starts_with(s, part) {
        assert(s =~= s.subrange(0, part.len() as int) + s.subrange(
            part.len() as int,
            s.len() as int,
        ));
    }
    if ends_with(s, part) {
        assert(s =~= s.subrange(0, s.len() - part.len()) + s.subrange(
            s.len() - part.len(),
            s.len() as int,
        ));
    }
    if occurs_in(part, s) {
        let at = choose|at: int| occurs_at(s, part, at);
        assert(s.skip(at).take(part.len() as int) =~= s.subrange(at, at + part.len()));
    }
}

/// Texts are the same but for their case where each character is the same, or
/// both are the same ASCII letter, small and capital.
pub proof fn law_same_but_case(a: Seq<char>, b: Seq<char>)
    ensures
        same_but_case(a, b) <==> a.len() == b.len() && forall|i: int|
            0 <= i < a.len() ==> #[trigger] a[i] == b[i] || ('A' <= a[i] <= 'Z' && b[i] as int
                == a[i] as int + 32) || ('A' <= b[i] <= 'Z' && a[i] as int == b[i] as int + 32),
{
    if same_but_case(a, b) {
        assert(ascii_lowered(a).len() == a.len() && ascii_lowered(b).len() == b.len());
        assert forall|i: int| 0 <= i < a.len() implies #[trigger] a[i] == b[i] || ('A' <= a[i]
            <= 'Z' && b[i] as int == a[i] as int + 32) || ('A' <= b[i] <= 'Z' && a[i] as int
            == b[i] as int + 32) by {
            assert(ascii_lowered(a)[i] == ascii_lower(a[i]));
            assert(ascii_lowered(b)[i] == ascii_lower(b[i]));
        }
    }
    if a.len() == b.len() && forall|i: int|
        0 <= i < a.len() ==> #[trigger] a[i] == b[i] || ('A' <= a[i] <= 'Z' && b[i] as int
            == a[i] as int + 32) || ('A' <= b[i] <= 'Z' && a[i] as int == b[i] as int + 32) {
        assert forall|i: int| 0 <= i < a.len() implies ascii_lower(#[trigger] a[i])
            == ascii_lower(b[i]) by {}
        assert(ascii_lowered(a) =~= ascii_lowered(b));
    }
}

/// The number that decimal digits stand for.
pub open spec fn worth(digits: Seq<char>) -> int
    decreases digits.len(),
{
    if digits.len() == 0 {
        0
    } else {
        10 * worth(digits.drop_last()) + (digits.last() as int - '0' as int)
    }
}

/// A number in decimal form stands for itself, in digits alone, and starts with
/// a zero only where it is zero.
pub proof fn law_decimals_read_back(n: nat)
    ensures
        worth(decimal(n)) == n,
        decimal(n).len() > 0,
        forall|i: int| 0 <= i < decimal(n).len() ==> '0' <= #[trigger] decimal(n)[i] <= '9',
        n > 0 ==> decimal(n)[0] != '0',
        n == 0 ==> decimal(n) == seq!['0'],
        signed_decimal(n as int) == decimal(n),
        n > 0 ==> signed_decimal(-(n as int)) == seq!['-'] + decimal(n),
    decreases n,
{
    if n < 10 {
        let d = digit(n as int);
        assert(d as int == n + 0x30);
        assert(decimal(n).drop_last() =~= Seq::<char>::empty());
        assert(worth(Seq::<char>::empty()) == 0);
    } else {
        law_decimals_read_back(n / 10);
        let d = digit((n % 10) as int);
        assert(d as int == n % 10 + 0x30);
        assert(decimal(n).drop_last() =~= decimal(n / 10));
        assert(decimal(n)[0] == decimal(n / 10)[0]);
        assert forall|i: int| 0 <= i < decimal(n).len() implies '0' <= #[trigger] decimal(n)[i]
            <= '9' by {
            if i < decimal(n / 10).len() {
                assert(decimal(n)[i] == decimal(n / 10)[i]);
            }
        }
    }
}

/// A text that is short enough stays; a longer one is cut, and its last place is
/// an ellipsis.
pub proof fn law_long_texts_are_cut(s: Seq<char>, max: int)
    requires
        max >= 0,
    ensures
        s.len() <= max ==> ellipsized(s, max) == s && first_chars(s, max) == s,
        s.len() > max && max > 0 ==> ellipsized(s, max).len() == max && ellipsized(
            s,
            max,
        ).drop_last() == s.take(max - 1),
        s.len() > max ==> ellipsized(s, max).last() == '\u{2026}' && first_chars(s, max)
            == s.take(max),
{
    if s.len() > max {
        assert(s.subrange(0, max) =~= s.take(max));
        if max > 0 {
            assert(ellipsized(s, max).drop_last() =~= s.take(max - 1));
        }
    }
}

/// Texts are ordered by the first character in which they differ, and a text
/// comes before what it begins.
pub proof fn law_text_order(a: Seq<char>, b: Seq<char>, i: int)
    ensures
        0 <= i < a.len() && i < b.len() && a.take(i) == b.take(i) && a[i] < b[i] ==> text_at_most(
            a,
            b,
        ) && !text_at_most(b, a),
        a.is_prefix_of(b) ==> text_at_most(a, b),
        a.is_prefix_of(b) && a.len() < b.len() ==> !text_at_most(b, a),
    decreases a.len(),
{
    if a.len() > 0 && b.len() > 0 {
        let x = a.subrange(1, a.len() as int);
        let y = b.subrange(1, b.len() as int);
        law_text_order(x, y, i - 1);
        if 0 < i < a.len() && i < b.len() && a.take(i) == b.take(i) {
            assert(a.take(i)[0] == b.take(i)[0]);
            assert(x.take(i - 1) =~= a.take(i).subrange(1, i));
            assert(y.take(i - 1) =~= b.take(i).subrange(1, i));
        }
        if a.is_prefix_of(b) {
            assert(a[0] == b[0]);
            assert(x.is_prefix_of(y)) by {
                assert(x =~= y.subrange(0, x.len() as int));
            }
        }
    }
}

/// A text is blank where all of it is white space.
pub proof fn law_blank_texts(s: Seq<char>)
    ensures
        is_blank(s) <==> forall|i: int| 0 <= i < s.len() ==> is_space(#[trigger] s[i]),
        has_space(s) <==> exists|i: int| 0 <= i < s.len() && is_space(#[trigger] s[i]),
        is_blank(s) ==> trimmed(s).len() == 0,
{
    if is_blank(s) {
        lemma_trim_start(s, s.len() as int);
    }
}

} // verus!
