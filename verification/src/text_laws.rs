//! What is made of texts, character by character.

use crate::text::{
    digits_of, encoded_len, ends_with, is_whitespace, joined, lemma_first_at, lemma_is_first_at,
    lemma_word_end, lines_of, optional_text, optional_texts, replaced, starts_with, texts, word_end,
    words_of,
};
use vstd::prelude::*;

verus! {

/// A list is seen with every text in it, in its order.
pub proof fn law_texts_are_seen_whole(list: Seq<String>)
    ensures
        texts(list).len() == list.len(),
        forall|i: int| 0 <= i < list.len() ==> texts(list)[i] == (#[trigger] list[i])@,
{
}

/// What may be missing is seen exactly where it is there, and whole.
pub proof fn law_optional_texts_are_seen_whole(text: Option<String>, list: Option<Vec<String>>)
    ensures
        optional_text(text) is Some <==> text is Some,
        text is Some ==> optional_text(text)->0 == text->0@,
        optional_texts(list) is Some <==> list is Some,
        list is Some ==> optional_texts(list)->0.len() == list->0@.len() && forall|i: int|
            0 <= i < list->0@.len() ==> optional_texts(list)->0[i] == (#[trigger] list->0@[i])@,
{
}

/// Joined texts are every text in its order, with the separator between each
/// two.
pub proof fn law_every_text_is_joined(
    list: Seq<Seq<char>>,
    text: Seq<char>,
    separator: Seq<char>,
)
    ensures
        joined(Seq::empty(), separator) == Seq::<char>::empty(),
        list.len() == 0 ==> joined(list.push(text), separator) == text,
        list.len() > 0 ==> joined(list.push(text), separator) == joined(list, separator) + separator
            + text,
{
    assert(list.push(text).drop_last() =~= list);
}

/// A line reaches to the first line feed, without a carriage return before it,
/// and the other lines are those of what stands behind it.
pub proof fn law_line_ends_at_the_first_feed(text: Seq<char>, k: int)
    requires
        0 <= k < text.len(),
        text[k] == '\n',
        forall|j: int| 0 <= j < k ==> text[j] != '\n',
    ensures
        k > 0 && text[k - 1] == '\r' ==> lines_of(text) == seq![text.take(k - 1)] + lines_of(
            text.skip(k + 1),
        ),
        k == 0 || text[k - 1] != '\r' ==> lines_of(text) == seq![text.take(k)] + lines_of(
            text.skip(k + 1),
        ),
{
    lemma_is_first_at(text, '\n', k);
    let line = text.take(k);
    if k > 0 && text[k - 1] == '\r' {
        assert(line.drop_last() =~= text.take(k - 1));
    }
}

/// A text without a line feed is one line, whole; an empty text is none.
pub proof fn law_last_line_is_whole(text: Seq<char>)
    requires
        !text.contains('\n'),
    ensures
        text.len() > 0 ==> lines_of(text) == seq![text],
        text.len() == 0 ==> lines_of(text).len() == 0,
{
    lemma_first_at(text, '\n');
}

/// White space before the words of a text changes none of them.
pub proof fn law_white_space_is_no_word(text: Seq<char>)
    requires
        text.len() > 0,
        is_whitespace(text[0]),
    ensures
        words_of(text) == words_of(text.drop_first()),
        words_of(Seq::empty()) == Seq::<Seq<char>>::empty(),
{
}

/// A word reaches to the white space behind it, or to the end of the text, and
/// the other words are those of what stands there.
pub proof fn law_word_ends_at_white_space(text: Seq<char>, end: int)
    requires
        0 < end <= text.len(),
        forall|j: int| 0 <= j < end ==> !is_whitespace(text[j]),
        end < text.len() ==> is_whitespace(text[end]),
    ensures
        words_of(text) == seq![text.take(end)] + words_of(text.skip(end)),
{
    lemma_word_end(text);
    let found = word_end(text);
    if found < end {
        assert(!is_whitespace(text[found]));
    }
    if end < found {
        assert(!is_whitespace(text[end]));
    }
}

/// Every place of a character is replaced, and nothing else changes.
pub proof fn law_every_place_is_replaced(text: Seq<char>, from: char, to: char)
    ensures
        replaced(text, from, to).len() == text.len(),
        forall|i: int|
            0 <= i < text.len() ==> (text[i] == from ==> #[trigger] replaced(text, from, to)[i]
                == to)
                && (text[i] != from ==> replaced(text, from, to)[i] == text[i]),
{
}

/// A number is written with its last digit behind the digits of the tens.
pub proof fn law_digits_are_of_the_number(n: nat)
    ensures
        digits_of(n).len() > 0,
        digits_of(n).last() as int == 48 + n % 10,
        n < 10 ==> digits_of(n).len() == 1,
        n >= 10 ==> digits_of(n).drop_last() == digits_of(n / 10),
{
    if n >= 10 {
        assert(digits_of(n).drop_last() =~= digits_of(n / 10));
    }
}

/// A text starts, or ends, with another where every character of the other
/// stands there.
pub proof fn law_ends_of_a_text(text: Seq<char>, part: Seq<char>)
    ensures
        starts_with(text, part) <==> text.len() >= part.len() && forall|i: int|
            0 <= i < part.len() ==> #[trigger] part[i] == text[i],
        ends_with(text, part) <==> text.len() >= part.len() && forall|i: int|
            0 <= i < part.len() ==> #[trigger] part[i] == text[text.len() - part.len() + i],
{
    if text.len() >= part.len() {
        let front = text.take(part.len() as int);
        let back = text.skip(text.len() - part.len());
        if forall|i: int| 0 <= i < part.len() ==> #[trigger] part[i] == text[i] {
            assert(front =~= part);
        }
        if front == part {
            assert forall|i: int| 0 <= i < part.len() implies #[trigger] part[i] == text[i] by {
                assert(front[i] == text[i]);
            }
        }
        if forall|i: int|
            0 <= i < part.len() ==> #[trigger] part[i] == text[text.len() - part.len() + i] {
            assert(back =~= part);
        }
        if back == part {
            assert forall|i: int| 0 <= i < part.len() implies #[trigger] part[i] == text[text.len()
                - part.len() + i] by {
                assert(back[i] == text[text.len() - part.len() + i]);
            }
        }
    }
}

/// The characters that are white space, by their numbers in Unicode.
pub proof fn law_white_space_by_number(c: char)
    ensures
        is_whitespace(c) <==> 9 <= c as int <= 13 || c as int == 32 || c as int == 133 || c as int
            == 160 || c as int == 5760 || 8192 <= c as int <= 8202 || 8232 <= c as int <= 8233
            || c as int == 8239 || c as int == 8287 || c as int == 12288,
{
}

/// A character takes as many bytes as hold the bits of its number in UTF-8.
pub proof fn law_bytes_by_number(c: char)
    ensures
        (c as int) < 128 ==> encoded_len(c) == 1,
        128 <= c as int && (c as int) < 2048 ==> encoded_len(c) == 2,
        2048 <= c as int && (c as int) < 65536 ==> encoded_len(c) == 3,
        65536 <= c as int ==> encoded_len(c) == 4,
{
}

} // verus!
