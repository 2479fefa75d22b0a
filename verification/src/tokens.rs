//! Texts as lower-case words of letters and digits.

use crate::text;
use vstd::prelude::*;

verus! {

/// A character in lower case, where letters and digits stay and everything
/// else is a blank.
pub open spec fn folded(s: Seq<char>) -> Seq<char>
    decreases s.len(),
{
    if s.len() == 0 {
        Seq::empty()
    } else {
        folded(s.drop_last()) + blanked(text::lower_mapping(s.last()))
    }
}

/// The letters and digits of a text, with a blank in place of every other
/// character.
pub open spec fn blanked(s: Seq<char>) -> Seq<char> {
    Seq::new(
        s.len(),
        |i: int|
            if text::is_alnum(s[i]) {
                s[i]
            } else {
                ' '
            },
    )
}

/// Folds a text: letters and digits in lower case, blanks elsewhere.
pub fn fold_chars(chars: &Vec<char>) -> (r: Vec<char>)
    ensures
        r@ == folded(chars@),
{
    let mut out: Vec<char> = Vec::new();
    let mut i: usize = 0;
    assert(chars@.subrange(0, 0) =~= Seq::<char>::empty());
    while i < chars.len()
        invariant
            i <= chars.len(),
            out@ == folded(chars@.subrange(0, i as int)),
        decreases chars.len() - i,
    {
        let lower = text::char_to_lowercase(chars[i]);
        let ghost start = out@;
        let ghost image = text::lower_mapping(chars@[i as int]);
        let mut k: usize = 0;
        assert(start + blanked(image).subrange(0, 0) =~= start);
        while k < lower.len()
            invariant
                k <= lower.len(),
                lower@ == image,
                out@ == start + blanked(image).subrange(0, k as int),
            decreases lower.len() - k,
        {
            let c = lower[k];
            if c.is_alphanumeric() {
                out.push(c);
            } else {
                out.push(' ');
            }
            k += 1;
            assert(blanked(image).subrange(0, k as int) =~= blanked(image).subrange(0, k - 1).push(
                blanked(image)[k - 1],
            ));
        }
        assert(blanked(image).subrange(0, image.len() as int) =~= blanked(image));
        i += 1;
        assert(chars@.subrange(0, i as int).drop_last() =~= chars@.subrange(0, i - 1));
    }
    assert(chars@.subrange(0, chars@.len() as int) =~= chars@);
    out
}

/// The runs of letters and digits of a text in lower case.
pub open spec fn lexemes(s: Seq<char>) -> Seq<Seq<char>> {
    text::words(folded(s))
}

pub fn split_lexemes(s: &str) -> (r: Vec<String>)
    ensures
        text::texts(r@) == lexemes(s@),
{
    let chars = text::chars_of(s);
    text::split_words(&fold_chars(&chars))
}

/// Texts in a row with a separator between them.
pub open spec fn joined_with(parts: Seq<Seq<char>>, separator: Seq<char>) -> Seq<char>
    decreases parts.len(),
{
    if parts.len() == 0 {
        Seq::empty()
    } else if parts.len() == 1 {
        parts[0]
    } else {
        joined_with(parts.drop_last(), separator) + separator + parts.last()
    }
}

pub fn join_texts(parts: &Vec<String>, separator: &str) -> (r: String)
    ensures
        r@ == joined_with(text::texts(parts@), separator@),
{
    let ghost all = text::texts(parts@);
    let mut out = String::new();
    let mut i: usize = 0;
    assert(all.subrange(0, 0) =~= Seq::<Seq<char>>::empty());
    while i < parts.len()
        invariant
            i <= parts.len(),
            all == text::texts(parts@),
            out@ == joined_with(all.subrange(0, i as int), separator@),
        decreases parts.len() - i,
    {
        let ghost part = all.subrange(0, i + 1);
        assert(part.drop_last() =~= all.subrange(0, i as int));
        assert(part.last() == parts@[i as int]@);
        if i == 0 {
            assert(part[0] == parts@[0]@);
            out = parts[i].clone();
        } else {
            out = text::concat3(out.as_str(), separator, parts[i].as_str());
        }
        i += 1;
    }
    assert(all.subrange(0, all.len() as int) =~= all);
    out
}

/// The texts of a list without repetitions, in the order of their first
/// occurrences.
pub open spec fn distinct(parts: Seq<Seq<char>>) -> Seq<Seq<char>>
    decreases parts.len(),
{
    if parts.len() == 0 {
        Seq::empty()
    } else {
        let init = distinct(parts.drop_last());
        if init.contains(parts.last()) {
            init
        } else {
            init.push(parts.last())
        }
    }
}

pub fn distinct_texts(parts: &Vec<String>) -> (r: Vec<String>)
    ensures
        text::texts(r@) == distinct(text::texts(parts@)),
{
    let ghost all = text::texts(parts@);
    let mut out: Vec<String> = Vec::new();
    let mut i: usize = 0;
    assert(all.subrange(0, 0) =~= Seq::<Seq<char>>::empty());
    assert(text::texts(out@) =~= Seq::<Seq<char>>::empty());
    while i < parts.len()
        invariant
            i <= parts.len(),
            all == text::texts(parts@),
            text::texts(out@) == distinct(all.subrange(0, i as int)),
        decreases parts.len() - i,
    {
        let ghost part = all.subrange(0, i + 1);
        assert(part.drop_last() =~= all.subrange(0, i as int));
        assert(part.last() == parts@[i as int]@);
        if !text::strings_contain(&out, parts[i].as_str()) {
            let ghost before = text::texts(out@);
            out.push(parts[i].clone());
            assert(text::texts(out@) =~= before.push(parts@[i as int]@));
        }
        i += 1;
    }
    assert(all.subrange(0, all.len() as int) =~= all);
    out
}

/// Taking repetitions away keeps every text, and keeps it once.
pub proof fn law_distinct_texts(parts: Seq<Seq<char>>)
    ensures
        distinct(parts).no_duplicates(),
        forall|x: Seq<char>| #[trigger] distinct(parts).contains(x) <==> parts.contains(x),
    decreases parts.len(),
{
    if parts.len() > 0 {
        let head = parts.drop_last();
        let init = distinct(head);
        law_distinct_texts(head);
        let out = distinct(parts);
        assert forall|x: Seq<char>| #[trigger] out.contains(x) <==> parts.contains(x) by {
            if parts.contains(x) {
                let k = choose|k: int| 0 <= k < parts.len() && parts[k] == x;
                if k < head.len() {
                    assert(head[k] == x);
                    assert(init.contains(x));
                    let j = choose|j: int| 0 <= j < init.len() && init[j] == x;
                    assert(out[j] == x);
                } else if !init.contains(x) {
                    assert(out[init.len() as int] == x);
                }
            }
            if out.contains(x) {
                let j = choose|j: int| 0 <= j < out.len() && out[j] == x;
                if j < init.len() {
                    assert(init[j] == x);
                    assert(init.contains(x));
                    assert(head.contains(x));
                    let k = choose|k: int| 0 <= k < head.len() && head[k] == x;
                    assert(parts[k] == x);
                } else {
                    assert(parts[parts.len() - 1] == x);
                }
            }
        }
        assert(out.no_duplicates()) by {
            if !init.contains(parts.last()) {
                assert forall|i: int, j: int|
                    0 <= i < out.len() && 0 <= j < out.len() && i != j implies out[i]
                        != out[j] by {
                    if i < init.len() {
                        assert(init.contains(init[i]));
                    }
                    if j < init.len() {
                        assert(init.contains(init[j]));
                    }
                }
            }
        }
    }
}

/// Folding goes by the characters: what comes of two texts in a row comes of
/// each of them.
pub proof fn law_folding_goes_by_characters(a: Seq<char>, b: Seq<char>)
    ensures
        folded(a + b) == folded(a) + folded(b),
        forall|i: int|
            0 <= i < folded(a).len() ==> (#[trigger] folded(a)[i]) == ' ' || text::is_alnum(
                folded(a)[i],
            ),
    decreases b.len(), a.len(),
{
    if b.len() > 0 {
        assert((a + b).drop_last() =~= a + b.drop_last());
        law_folding_goes_by_characters(a, b.drop_last());
        assert(folded(a + b) =~= folded(a) + folded(b));
    } else {
        assert(a + b =~= a);
        assert(folded(a + b) =~= folded(a) + folded(b));
        if a.len() > 0 {
            law_folding_goes_by_characters(a.drop_last(), b);
        }
    }
}

/// A letter or digit that is its own lower case stays, and a character without
/// letters or digits in its lower case becomes blank.
pub proof fn law_folding_keeps_letters_and_digits(c: char)
    ensures
        text::lower_mapping(c) == seq![c] && text::is_alnum(c) ==> folded(seq![c]) == seq![c],
        text::lower_mapping(c) == seq![c] && !text::is_alnum(c) ==> folded(seq![c]) == seq![' '],
{
    assert(seq![c].drop_last() =~= Seq::<char>::empty());
    assert(folded(seq![c].drop_last()) =~= Seq::<char>::empty());
    if text::lower_mapping(c) == seq![c] {
        if text::is_alnum(c) {
            assert(folded(seq![c]) =~= seq![c]);
        } else {
            assert(folded(seq![c]) =~= seq![' ']);
        }
    }
}

/// Texts are joined in order, with the separator between them and nowhere else.
pub proof fn law_joining_puts_the_separator_between(
    a: Seq<Seq<char>>,
    b: Seq<Seq<char>>,
    separator: Seq<char>,
)
    ensures
        joined_with(Seq::empty(), separator) == Seq::<char>::empty(),
        a.len() == 1 ==> joined_with(a, separator) == a[0],
        a.len() > 0 && b.len() > 0 ==> joined_with(a + b, separator) == joined_with(a, separator)
            + separator + joined_with(b, separator),
    decreases b.len(),
{
    if a.len() > 0 && b.len() == 1 {
        assert((a + b).drop_last() =~= a);
        assert((a + b).last() == b[0]);
    } else if a.len() > 0 && b.len() > 1 {
        assert((a + b).drop_last() =~= a + b.drop_last());
        assert((a + b).last() == b.last());
        law_joining_puts_the_separator_between(a, b.drop_last(), separator);
        assert(joined_with(a + b, separator) =~= joined_with(a, separator) + separator
            + joined_with(b, separator));
    }
}

} // verus!
