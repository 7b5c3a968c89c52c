//! Text handling: white space, separators, ASCII case and UTF-8.

use vstd::prelude::*;
use vstd::utf8::{decode_utf8, valid_utf8};

verus! {

/// The code points with the Unicode property `White_Space`.
pub open spec fn is_white_space(c: char) -> bool {
    ||| '\u{9}' <= c <= '\u{d}'
    ||| c == '\u{20}'
    ||| c == '\u{85}'
    ||| c == '\u{a0}'
    ||| c == '\u{1680}'
    ||| '\u{2000}' <= c <= '\u{200a}'
    ||| c == '\u{2028}'
    ||| c == '\u{2029}'
    ||| c == '\u{202f}'
    ||| c == '\u{205f}'
    ||| c == '\u{3000}'
}

/// `text` without its leading white space.
pub open spec fn trimmed_start(text: Seq<char>) -> Seq<char>
    decreases text.len(),
{
    if text.len() > 0 && is_white_space(text[0]) {
        trimmed_start(text.drop_first())
    } else {
        text
    }
}

/// `text` without its trailing white space.
pub open spec fn trimmed_end(text: Seq<char>) -> Seq<char>
    decreases text.len(),
{
    if text.len() > 0 && is_white_space(text.last()) {
        trimmed_end(text.drop_last())
    } else {
        text
    }
}

/// `text` without the white space around it.
pub open spec fn trimmed(text: Seq<char>) -> Seq<char> {
    trimmed_end(trimmed_start(text))
}

pub fn white_space(c: char) -> (result: bool)
    ensures
        result == is_white_space(c),
{
    ('\u{9}' <= c && c <= '\u{d}') || c == '\u{20}' || c == '\u{85}' || c == '\u{a0}' || c
        == '\u{1680}' || ('\u{2000}' <= c && c <= '\u{200a}') || c == '\u{2028}' || c == '\u{2029}'
        || c == '\u{202f}' || c == '\u{205f}' || c == '\u{3000}'
}

/// The characters of `text`.
pub fn chars_of(text: &str) -> (chars: Vec<char>)
    ensures
        chars@ == text@,
{
    let mut chars: Vec<char> = Vec::new();
    for c in it: text.chars()
        invariant
            it.seq() == text@,
            chars@ == text@.take(it.index() as int),
    {
        chars.push(c);
    }
    assert(text@.take(text@.len() as int) == text@);
    chars
}

/// `text` without the white space around it.
pub fn trim(text: &str) -> (result: &str)
    ensures
        result@ == trimmed(text@),
{
    let chars = chars_of(text);
    let mut start: usize = 0;
    assert(text@.skip(0) == text@);
    while start < chars.len() && white_space(chars[start])
        invariant
            chars@ == text@,
            start <= chars.len(),
            trimmed_start(text@) == trimmed_start(text@.skip(start as int)),
        decreases chars.len() - start,
    {
        assert(text@.skip(start as int).drop_first() == text@.skip(start + 1));
        start = start + 1;
    }
    let ghost rest = text@.skip(start as int);
    let mut end: usize = chars.len();
    assert(rest.take(end - start) == rest);
    while start < end && white_space(chars[end - 1])
        invariant
            chars@ == text@,
            start <= end <= chars.len(),
            rest == text@.skip(start as int),
            trimmed_end(rest) == trimmed_end(rest.take(end - start)),
        decreases end - start,
    {
        assert(rest.take(end - start).drop_last() == rest.take(end - start - 1));
        end = end - 1;
    }
    assert(rest.take(end - start) == text@.subrange(start as int, end as int));
    text.substring_char(start, end)
}

/// The pieces of `text` between the occurrences of `separator`. There is one
/// piece more than there are separators.
pub open spec fn split_on(text: Seq<char>, separator: char) -> Seq<Seq<char>>
    decreases text.len(),
{
    if text.len() == 0 {
        seq![Seq::<char>::empty()]
    } else {
        let pieces = split_on(text.drop_last(), separator);
        if text.last() == separator {
            pieces.push(Seq::<char>::empty())
        } else {
            pieces.drop_last().push(pieces.last().push(text.last()))
        }
    }
}

/// What a list of string slices holds.
pub open spec fn texts(list: Seq<&str>) -> Seq<Seq<char>> {
    list.map_values(|text: &str| text@)
}

/// The pieces of `text` between the occurrences of `separator`.
pub fn split(text: &str, separator: char) -> (pieces: Vec<&str>)
    ensures
        texts(pieces@) == split_on(text@, separator),
        pieces.len() > 0,
{
    let chars = chars_of(text);
    let mut pieces: Vec<&str> = Vec::new();
    let mut start: usize = 0;
    let mut i: usize = 0;
    assert(texts(pieces@) == Seq::<Seq<char>>::empty());
    assert(text@.subrange(0, 0) == Seq::<char>::empty());
    assert(texts(pieces@).push(text@.subrange(0, 0)) == seq![Seq::<char>::empty()]);
    while i < chars.len()
        invariant
            chars@ == text@,
            start <= i <= chars.len(),
            split_on(text@.take(i as int), separator) == texts(pieces@).push(
                text@.subrange(start as int, i as int),
            ),
        decreases chars.len() - i,
    {
        let ghost before = texts(pieces@);
        assert(text@.take(i + 1).drop_last() == text@.take(i as int));
        if chars[i] == separator {
            pieces.push(text.substring_char(start, i));
            assert(texts(pieces@) == before.push(text@.subrange(start as int, i as int)));
            start = i + 1;
            assert(text@.subrange(start as int, i + 1) == Seq::<char>::empty());
        } else {
            assert(text@.subrange(start as int, i + 1) == text@.subrange(
                start as int,
                i as int,
            ).push(text@[i as int]));
            assert(before.push(text@.subrange(start as int, i as int)).drop_last() == before);
        }
        i = i + 1;
    }
    let ghost before = texts(pieces@);
    pieces.push(text.substring_char(start, chars.len()));
    assert(texts(pieces@) == before.push(text@.subrange(start as int, i as int)));
    assert(text@.take(i as int) == text@);
    pieces
}

/// `c` with an ASCII upper case letter turned to lower case.
pub open spec fn ascii_lower(c: char) -> char {
    if 'A' <= c <= 'Z' {
        (c as u32 + 32) as char
    } else {
        c
    }
}

/// Whether the two texts differ at most in the case of ASCII letters.
pub open spec fn same_ignoring_case(a: Seq<char>, b: Seq<char>) -> bool {
    a.map_values(|c: char| ascii_lower(c)) == b.map_values(|c: char| ascii_lower(c))
}

fn lower(c: char) -> (result: char)
    ensures
        result == ascii_lower(c),
{
    if 'A' <= c && c <= 'Z' {
        ((c as u8) + 32) as char
    } else {
        c
    }
}

/// Whether the two texts differ at most in the case of ASCII letters.
pub fn eq_ignore_ascii_case(a: &str, b: &str) -> (result: bool)
    ensures
        result == same_ignoring_case(a@, b@),
{
    let left = chars_of(a);
    let right = chars_of(b);
    let ghost lower_left = a@.map_values(|c: char| ascii_lower(c));
    let ghost lower_right = b@.map_values(|c: char| ascii_lower(c));
    if left.len() != right.len() {
        assert(lower_left.len() != lower_right.len());
        return false;
    }
    let mut i: usize = 0;
    while i < left.len()
        invariant
            left@ == a@,
            right@ == b@,
            left.len() == right.len(),
            lower_left == a@.map_values(|c: char| ascii_lower(c)),
            lower_right == b@.map_values(|c: char| ascii_lower(c)),
            i <= left.len(),
            forall|j: int| 0 <= j < i ==> lower_left[j] == lower_right[j],
        decreases left.len() - i,
    {
        if lower(left[i]) != lower(right[i]) {
            assert(lower_left[i as int] != lower_right[i as int]);
            return false;
        }
        i = i + 1;
    }
    assert(lower_left == lower_right);
    true
}

/// Whether `c` occurs in `text`.
pub fn contains_char(text: &str, c: char) -> (result: bool)
    ensures
        result == text@.contains(c),
{
    let chars = chars_of(text);
    let mut i: usize = 0;
    while i < chars.len()
        invariant
            chars@ == text@,
            i <= chars.len(),
            forall|j: int| 0 <= j < i ==> text@[j] != c,
        decreases chars.len() - i,
    {
        if chars[i] == c {
            assert(text@[i as int] == c);
            return true;
        }
        i = i + 1;
    }
    false
}

/// Whether the two texts are equal.
pub fn same_text(a: &str, b: &str) -> (result: bool)
    ensures
        result == (a@ == b@),
{
    let left = chars_of(a);
    let right = chars_of(b);
    if left.len() != right.len() {
        return false;
    }
    let mut i: usize = 0;
    while i < left.len()
        invariant
            left@ == a@,
            right@ == b@,
            left.len() == right.len(),
            i <= left.len(),
            forall|j: int| 0 <= j < i ==> a@[j] == b@[j],
        decreases left.len() - i,
    {
        if left[i] != right[i] {
            return false;
        }
        i = i + 1;
    }
    assert(a@ == b@);
    true
}

/// The message of the error with which `std::str::from_utf8` refuses `bytes`.
pub uninterp spec fn utf8_error_text(bytes: Seq<u8>) -> Seq<char>;

/// Calls `std::str::from_utf8`. It accepts the bytes that are valid UTF-8 and
/// gives the text that they encode; it refuses all others with an error whose
/// message depends on the bytes alone.
#[verifier::external_body]
pub(crate) fn from_utf8(bytes: &[u8]) -> (result: Result<&str, String>)
    ensures
        match result {
            Ok(text) => valid_utf8(bytes@) && text@ == decode_utf8(bytes@),
            Err(message) => !valid_utf8(bytes@) && message@ == utf8_error_text(bytes@),
        },
{
    std::str::from_utf8(bytes).map_err(|err| err.to_string())
}

proof fn lemma_trimming_start(lead: Seq<char>, rest: Seq<char>)
    requires
        forall|i: int| 0 <= i < lead.len() ==> is_white_space(#[trigger] lead[i]),
        rest.len() > 0 ==> !is_white_space(rest[0]),
    ensures
        trimmed_start(lead + rest) == rest,
    decreases lead.len(),
{
    if lead.len() > 0 {
        let fewer = lead.drop_first();
        assert forall|i: int| 0 <= i < fewer.len() implies is_white_space(#[trigger] fewer[i]) by {
            assert(fewer[i] == lead[i + 1]);
        }
        lemma_trimming_start(fewer, rest);
        assert((lead + rest)[0] == lead[0]);
        assert((lead + rest).drop_first() =~= fewer + rest);
    } else {
        assert(lead + rest =~= rest);
    }
}

proof fn lemma_trimming_end(rest: Seq<char>, trail: Seq<char>)
    requires
        forall|i: int| 0 <= i < trail.len() ==> is_white_space(#[trigger] trail[i]),
        rest.len() > 0 ==> !is_white_space(rest.last()),
    ensures
        trimmed_end(rest + trail) == rest,
    decreases trail.len(),
{
    if trail.len() > 0 {
        let fewer = trail.drop_last();
        assert forall|i: int| 0 <= i < fewer.len() implies is_white_space(#[trigger] fewer[i]) by {
            assert(fewer[i] == trail[i]);
        }
        lemma_trimming_end(rest, fewer);
        assert((rest + trail).last() == trail[trail.len() - 1]);
        assert((rest + trail).drop_last() =~= rest + fewer);
    } else {
        assert(rest + trail =~= rest);
    }
}

/// Trimming takes off the white space around a text, all of it and nothing else.
pub proof fn trimming_takes_off_white_space(lead: Seq<char>, text: Seq<char>, trail: Seq<char>)
    requires
        forall|i: int| 0 <= i < lead.len() ==> is_white_space(#[trigger] lead[i]),
        forall|i: int| 0 <= i < trail.len() ==> is_white_space(#[trigger] trail[i]),
        text.len() > 0 ==> !is_white_space(text[0]) && !is_white_space(text.last()),
    ensures
        trimmed(lead + text + trail) == text,
{
    if text.len() > 0 {
        assert(lead + text + trail =~= lead + (text + trail));
        lemma_trimming_start(lead, text + trail);
        lemma_trimming_end(text, trail);
    } else {
        let all = lead + text + trail;
        assert forall|i: int| 0 <= i < all.len() implies is_white_space(#[trigger] all[i]) by {
            if i < lead.len() {
                assert(all[i] == lead[i]);
            } else {
                assert(all[i] == trail[i - lead.len()]);
            }
        }
        lemma_trimming_start(all, Seq::empty());
        assert(all + Seq::<char>::empty() =~= all);
        assert(text =~= Seq::<char>::empty());
    }
}

/// Of the ASCII characters the white space is the space and the five that move to
/// another place on a page: no letter, digit or punctuation mark is white space.
pub proof fn ascii_white_space(c: char)
    requires
        c <= '\u{7f}',
    ensures
        is_white_space(c) <==> c == ' ' || c == '\t' || c == '\n' || c == '\u{b}' || c == '\u{c}'
            || c == '\r',
{
}

/// A separator stands between the last piece and the pieces before it: splitting
/// gives the pieces of what stands before the last separator, and then what follows
/// it. A text without separators is its only piece.
pub proof fn splitting_cuts_at_each_separator(text: Seq<char>, separator: char, last: Seq<char>)
    requires
        !last.contains(separator),
    ensures
        split_on(last, separator) == seq![last],
        split_on(text.push(separator) + last, separator) == split_on(text, separator).push(last),
    decreases last.len(),
{
    let whole = text.push(separator) + last;
    if last.len() == 0 {
        assert(last =~= Seq::<char>::empty());
        assert(whole.drop_last() =~= text);
        assert(whole.last() == separator);
    } else {
        let fewer = last.drop_last();
        assert(last[last.len() - 1] != separator);
        assert forall|i: int| 0 <= i < fewer.len() implies fewer[i] != separator by {
            assert(last[i] != separator);
        }
        splitting_cuts_at_each_separator(text, separator, fewer);
        assert(fewer.push(last.last()) =~= last);
        assert(whole.drop_last() =~= text.push(separator) + fewer);
        assert(whole.last() == last.last());
        let pieces = split_on(text, separator);
        assert(pieces.push(fewer).drop_last() =~= pieces);
        assert(seq![fewer].drop_last().push(last) =~= seq![last]);
    }
}

/// What stands before a separator and what follows it are split independently.
pub proof fn splitting_goes_on_behind_a_separator(a: Seq<char>, separator: char, b: Seq<char>)
    ensures
        split_on(a.push(separator) + b, separator) == split_on(a, separator) + split_on(
            b,
            separator,
        ),
        split_on(a, separator).len() > 0,
    decreases b.len(), a.len(),
{
    let whole = a.push(separator) + b;
    let pieces = split_on(a, separator);
    if a.len() > 0 {
        if b.len() == 0 {
            splitting_goes_on_behind_a_separator(a.drop_last(), separator, Seq::empty());
        } else {
            splitting_goes_on_behind_a_separator(a, separator, b.drop_last());
        }
    }
    if b.len() == 0 {
        assert(whole.drop_last() =~= a);
        assert(b =~= Seq::<char>::empty());
        assert(split_on(b, separator) =~= seq![Seq::<char>::empty()]);
        assert(pieces.push(Seq::<char>::empty()) =~= pieces + seq![Seq::<char>::empty()]);
    } else {
        splitting_goes_on_behind_a_separator(a, separator, b.drop_last());
        splitting_goes_on_behind_a_separator(b.drop_last(), separator, Seq::empty());
        assert(whole.drop_last() =~= a.push(separator) + b.drop_last());
        assert(whole.last() == b.last());
        let rest = split_on(b.drop_last(), separator);
        if b.last() == separator {
            assert((pieces + rest).push(Seq::<char>::empty()) =~= pieces + rest.push(
                Seq::<char>::empty(),
            ));
        } else {
            assert((pieces + rest).drop_last().push((pieces + rest).last().push(b.last()))
                =~= pieces + rest.drop_last().push(rest.last().push(b.last())));
        }
    }
}

/// Texts are the same but for the case of their letters exactly where they have the
/// same length and at each place the same character, or the two cases of one of the
/// letters from A to Z.
pub proof fn only_the_case_of_letters_is_ignored(a: Seq<char>, b: Seq<char>)
    ensures
        same_ignoring_case(a, b) <==> a.len() == b.len() && forall|i: int|
            0 <= i < a.len() ==> {
                ||| #[trigger] a[i] == b[i]
                ||| 'A' <= a[i] <= 'Z' && a[i] as u32 + 32 == b[i] as u32
                ||| 'A' <= b[i] <= 'Z' && b[i] as u32 + 32 == a[i] as u32
            },
{
    let lower_a = a.map_values(|c: char| ascii_lower(c));
    let lower_b = b.map_values(|c: char| ascii_lower(c));
    if same_ignoring_case(a, b) {
        assert(lower_a.len() == a.len() && lower_b.len() == b.len());
        assert forall|i: int| 0 <= i < a.len() implies {
            ||| #[trigger] a[i] == b[i]
            ||| 'A' <= a[i] <= 'Z' && a[i] as u32 + 32 == b[i] as u32
            ||| 'A' <= b[i] <= 'Z' && b[i] as u32 + 32 == a[i] as u32
        } by {
            assert(lower_a[i] == ascii_lower(a[i]) && lower_b[i] == ascii_lower(b[i]));
        }
    }
    if a.len() == b.len() && forall|i: int|
        0 <= i < a.len() ==> {
            ||| #[trigger] a[i] == b[i]
            ||| 'A' <= a[i] <= 'Z' && a[i] as u32 + 32 == b[i] as u32
            ||| 'A' <= b[i] <= 'Z' && b[i] as u32 + 32 == a[i] as u32
        } {
        assert forall|i: int| 0 <= i < a.len() implies lower_a[i] == lower_b[i] by {
            assert(a[i] == a[i]);
        }
        assert(lower_a =~= lower_b);
    }
}

/// Pieces with a separator between each two of them.
pub open spec fn joined(pieces: Seq<Seq<char>>, separator: char) -> Seq<char>
    decreases pieces.len(),
{
    if pieces.len() == 0 {
        Seq::empty()
    } else if pieces.len() == 1 {
        pieces[0]
    } else {
        joined(pieces.drop_last(), separator).push(separator) + pieces.last()
    }
}

/// Splitting and joining undo each other: pieces without separators are found again,
/// and the pieces of a text make up the text.
pub proof fn splitting_undoes_joining(pieces: Seq<Seq<char>>, text: Seq<char>, separator: char)
    requires
        pieces.len() > 0,
        forall|i: int| 0 <= i < pieces.len() ==> !(#[trigger] pieces[i]).contains(separator),
    ensures
        split_on(joined(pieces, separator), separator) == pieces,
        joined(split_on(text, separator), separator) == text,
{
    lemma_joined_pieces_are_found(pieces, separator);
    lemma_pieces_make_up_the_text(text, separator);
}

proof fn lemma_joined_pieces_are_found(pieces: Seq<Seq<char>>, separator: char)
    requires
        pieces.len() > 0,
        forall|i: int| 0 <= i < pieces.len() ==> !(#[trigger] pieces[i]).contains(separator),
    ensures
        split_on(joined(pieces, separator), separator) == pieces,
    decreases pieces.len(),
{
    let last = pieces.last();
    let rest = pieces.drop_last();
    assert(!pieces[pieces.len() - 1].contains(separator));
    splitting_cuts_at_each_separator(joined(rest, separator), separator, last);
    if pieces.len() == 1 {
        assert(seq![last] =~= pieces);
    } else {
        assert forall|i: int| 0 <= i < rest.len() implies !(#[trigger] rest[i]).contains(
            separator,
        ) by {
            assert(rest[i] == pieces[i]);
        }
        lemma_joined_pieces_are_found(rest, separator);
        assert(rest.push(last) =~= pieces);
    }
}

proof fn lemma_pieces_make_up_the_text(text: Seq<char>, separator: char)
    ensures
        split_on(text, separator).len() > 0,
        joined(split_on(text, separator), separator) == text,
    decreases text.len(),
{
    let pieces = split_on(text, separator);
    if text.len() == 0 {
        assert(pieces[0] =~= text);
    } else {
        let fewer = text.drop_last();
        let before = split_on(fewer, separator);
        lemma_pieces_make_up_the_text(fewer, separator);
        if text.last() == separator {
            assert(pieces.drop_last() =~= before);
            assert(joined(pieces, separator) =~= text);
        } else {
            assert(pieces.drop_last() =~= before.drop_last());
            assert(pieces.last() == before.last().push(text.last()));
            assert(joined(pieces, separator) =~= fewer.push(text.last()));
            assert(fewer.push(text.last()) =~= text);
        }
    }
}

} // verus!
