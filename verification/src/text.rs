//! Text, as sequences of characters.

use vstd::prelude::*;
use vstd::string::StringExecFns;

verus! {

/// `String::push`.
///
/// Claimed: the character is appended, and nothing else changes.
pub assume_specification[ String::push ](s: &mut String, ch: char)
    ensures
        final(s)@ == old(s)@.push(ch),
;

/// Whether a character is white space, as Unicode has it.
pub open spec fn is_whitespace(c: char) -> bool {
    ||| '\u{9}' <= c && c <= '\u{d}'
    ||| c == ' '
    ||| c == '\u{85}'
    ||| c == '\u{a0}'
    ||| c == '\u{1680}'
    ||| '\u{2000}' <= c && c <= '\u{200a}'
    ||| c == '\u{2028}'
    ||| c == '\u{2029}'
    ||| c == '\u{202f}'
    ||| c == '\u{205f}'
    ||| c == '\u{3000}'
}

/// Whether a character is white space, as Unicode has it.
pub fn char_is_whitespace(c: char) -> (r: bool)
    ensures
        r == is_whitespace(c),
{
    ('\u{9}' <= c && c <= '\u{d}') || c == ' ' || c == '\u{85}' || c == '\u{a0}' || c == '\u{1680}'
        || ('\u{2000}' <= c && c <= '\u{200a}') || c == '\u{2028}' || c == '\u{2029}' || c
        == '\u{202f}' || c == '\u{205f}' || c == '\u{3000}'
}

/// What `str::to_lowercase` returns.
pub uninterp spec fn lowercase(text: Seq<char>) -> Seq<char>;

/// `str::to_lowercase`.
///
/// Claimed: the text that comes back is a function of the text, and holds a line
/// feed only where the text does, since no letter's lower case is one.
#[verifier::external_body]
pub(crate) fn text_to_lowercase(text: &str) -> (r: String)
    ensures
        r@ == lowercase(text@),
        r@.contains('\n') ==> text@.contains('\n'),
{
    text.to_lowercase()
}

/// The characters of a text.
pub fn characters(text: &str) -> (chars: Vec<char>)
    ensures
        chars@ == text@,
{
    let mut chars: Vec<char> = Vec::new();
    for c in it: text.chars()
        invariant
            chars@ == it.seq().take(it.index() as int),
            it.seq() == text@,
    {
        proof {
            assert(it.seq().take(it.index() + 1) =~= it.seq().take(it.index() as int).push(c));
        }
        chars.push(c);
    }
    assert(text@.take(text@.len() as int) =~= text@);
    chars
}

/// The text that part of a list of characters spells.
pub fn spell(chars: &Vec<char>, from: usize, to: usize) -> (text: String)
    requires
        from <= to <= chars@.len(),
    ensures
        text@ == chars@.subrange(from as int, to as int),
{
    let mut text = String::new();
    let mut i: usize = from;
    while i < to
        invariant
            from <= i <= to <= chars@.len(),
            text@ == chars@.subrange(from as int, i as int),
        decreases to - i,
    {
        assert(chars@.subrange(from as int, i + 1) =~= chars@.subrange(from as int, i as int).push(
            chars@[i as int],
        ));
        text.push(chars[i]);
        i = i + 1;
    }
    text
}

/// Whether two texts are the same.
pub fn same_text(a: &str, b: &str) -> (r: bool)
    ensures
        r == (a@ == b@),
{
    a.to_owned() == b.to_owned()
}

/// Whether one text comes before another: by their characters' code points,
/// from the first on, a text before all that it begins.
pub open spec fn text_below(a: Seq<char>, b: Seq<char>) -> bool
    decreases a.len(),
{
    if b.len() == 0 {
        false
    } else if a.len() == 0 {
        true
    } else if a[0] != b[0] {
        a[0] < b[0]
    } else {
        text_below(a.drop_first(), b.drop_first())
    }
}

/// Whether one text comes before another.
pub fn is_text_below(a: &str, b: &str) -> (r: bool)
    ensures
        r == text_below(a@, b@),
{
    let left = characters(a);
    let right = characters(b);
    let mut i: usize = 0;
    assert(left@.skip(0) =~= left@);
    assert(right@.skip(0) =~= right@);
    while i < left.len() && i < right.len()
        invariant
            left@ == a@,
            right@ == b@,
            i <= left@.len(),
            i <= right@.len(),
            text_below(a@, b@) == text_below(left@.skip(i as int), right@.skip(i as int)),
        decreases left@.len() - i,
    {
        if left[i] != right[i] {
            return left[i] < right[i];
        }
        assert(left@.skip(i as int).drop_first() =~= left@.skip(i + 1));
        assert(right@.skip(i as int).drop_first() =~= right@.skip(i + 1));
        i = i + 1;
    }
    i < right.len()
}

/// No text comes before itself.
pub proof fn lemma_text_not_below_itself(a: Seq<char>)
    ensures
        !text_below(a, a),
    decreases a.len(),
{
    if a.len() > 0 {
        lemma_text_not_below_itself(a.drop_first());
    }
}

/// Of two texts that are not the same, one comes before the other.
pub proof fn lemma_text_order_is_total(a: Seq<char>, b: Seq<char>)
    ensures
        a == b || text_below(a, b) || text_below(b, a),
    decreases a.len(),
{
    if a.len() > 0 && b.len() > 0 {
        lemma_text_order_is_total(a.drop_first(), b.drop_first());
        if a[0] == b[0] && a.drop_first() == b.drop_first() {
            assert(a =~= seq![a[0]] + a.drop_first());
            assert(b =~= seq![b[0]] + b.drop_first());
        }
    } else if a.len() == 0 && b.len() == 0 {
        assert(a =~= b);
    }
}

/// A text before a second, which is before a third, is before the third.
pub proof fn lemma_text_order_is_transitive(a: Seq<char>, b: Seq<char>, c: Seq<char>)
    requires
        text_below(a, b),
        text_below(b, c),
    ensures
        text_below(a, c),
    decreases a.len(),
{
    if a.len() > 0 && a[0] == b[0] && b[0] == c[0] {
        lemma_text_order_is_transitive(a.drop_first(), b.drop_first(), c.drop_first());
    }
}

/// Whether two texts are the same up to a place, where the first ends and the
/// second goes on, or has the smaller character.
pub open spec fn is_decided_at(a: Seq<char>, b: Seq<char>, k: int) -> bool {
    &&& 0 <= k <= a.len()
    &&& k < b.len()
    &&& forall|j: int| 0 <= j < k ==> a[j] == b[j]
    &&& k == a.len() || a[k] < b[k]
}

/// Which of two texts comes first is decided where they first differ, by the
/// smaller code point there; where one begins the other, the shorter is first.
pub proof fn law_text_order(a: Seq<char>, b: Seq<char>)
    ensures
        text_below(a, b) <==> exists|k: int| is_decided_at(a, b, k),
    decreases a.len(),
{
    if a.len() > 0 && b.len() > 0 {
        let (c, d) = (a.drop_first(), b.drop_first());
        law_text_order(c, d);
        if a[0] == b[0] {
            if text_below(c, d) {
                let k = choose|k: int| is_decided_at(c, d, k);
                assert forall|j: int| 0 <= j < k + 1 implies a[j] == b[j] by {
                    if j > 0 {
                        assert(c[j - 1] == d[j - 1]);
                    }
                }
                assert(is_decided_at(a, b, k + 1));
            }
            if exists|k: int| is_decided_at(a, b, k) {
                let k = choose|k: int| is_decided_at(a, b, k);
                assert forall|j: int| 0 <= j < k - 1 implies c[j] == d[j] by {
                    assert(a[j + 1] == b[j + 1]);
                }
                assert(is_decided_at(c, d, k - 1));
            }
        } else if a[0] < b[0] {
            assert(is_decided_at(a, b, 0));
        }
    } else if b.len() > 0 {
        assert(is_decided_at(a, b, 0));
    }
}

/// An ASCII letter in upper case; any other character as it is.
pub open spec fn upper_char(c: char) -> char {
    if 'a' <= c && c <= 'z' {
        (c as u8 - 32) as u8 as char
    } else {
        c
    }
}

/// A text with its ASCII letters in upper case.
pub open spec fn ascii_upper(text: Seq<char>) -> Seq<char> {
    text.map_values(|c: char| upper_char(c))
}

/// A text with its ASCII letters in upper case.
pub fn to_ascii_upper(text: &str) -> (r: String)
    ensures
        r@ == ascii_upper(text@),
{
    let chars = characters(text);
    let mut upper = String::new();
    for i in 0..chars.len()
        invariant
            chars@ == text@,
            upper@ == ascii_upper(text@).take(i as int),
    {
        let c = chars[i];
        let raised = if 'a' <= c && c <= 'z' {
            (c as u8 - 32) as char
        } else {
            c
        };
        assert(ascii_upper(text@).take(i + 1) =~= ascii_upper(text@).take(i as int).push(
            upper_char(c),
        ));
        upper.push(raised);
    }
    assert(upper@ =~= ascii_upper(text@));
    upper
}

/// One text behind another.
pub fn chain(a: &str, b: &str) -> (r: String)
    ensures
        r@ == a@ + b@,
{
    let mut r = a.to_owned();
    r.append(b);
    r
}

/// The texts of a list.
pub open spec fn texts(list: Seq<String>) -> Seq<Seq<char>> {
    list.map_values(|text: String| text@)
}

/// Texts, one behind the other, with a separator between each two.
pub open spec fn joined(list: Seq<Seq<char>>, separator: Seq<char>) -> Seq<char>
    decreases list.len(),
{
    if list.len() == 0 {
        Seq::empty()
    } else if list.len() == 1 {
        list[0]
    } else {
        joined(list.drop_last(), separator) + separator + list.last()
    }
}

/// Texts, one behind the other, with a separator between each two.
pub fn join(list: &Vec<String>, separator: &str) -> (r: String)
    ensures
        r@ == joined(texts(list@), separator@),
{
    let mut r = String::new();
    for i in 0..list.len()
        invariant
            r@ == joined(texts(list@).take(i as int), separator@),
    {
        proof {
            assert(texts(list@).take(i + 1).drop_last() =~= texts(list@).take(i as int));
        }
        if i > 0 {
            r.append(separator);
        }
        r.append(list[i].as_str());
        assert(r@ =~= joined(texts(list@).take(i + 1), separator@));
    }
    assert(texts(list@).take(list@.len() as int) =~= texts(list@));
    r
}

/// Where a character first stands in a text.
pub open spec fn first_at(text: Seq<char>, c: char) -> Option<int>
    decreases text.len(),
{
    if text.len() == 0 {
        None
    } else if text[0] == c {
        Some(0int)
    } else {
        match first_at(text.drop_first(), c) {
            Some(k) => Some(k + 1),
            None => None,
        }
    }
}

/// What [`first_at`] finds is the first, and it misses none.
pub proof fn lemma_first_at(text: Seq<char>, c: char)
    ensures
        match first_at(text, c) {
            Some(k) => 0 <= k < text.len() && text[k] == c && forall|j: int|
                0 <= j < k ==> text[j] != c,
            None => !text.contains(c),
        },
    decreases text.len(),
{
    if text.len() > 0 && text[0] != c {
        lemma_first_at(text.drop_first(), c);
        match first_at(text.drop_first(), c) {
            Some(k) => {
                assert forall|j: int| 0 <= j < k + 1 implies text[j] != c by {
                    if j > 0 {
                        assert(text.drop_first()[j - 1] == text[j]);
                    }
                }
            },
            None => {
                assert forall|j: int| 0 <= j < text.len() implies text[j] != c by {
                    if j > 0 {
                        assert(text.drop_first()[j - 1] == text[j]);
                        assert(!text.drop_first().contains(c));
                    }
                }
            },
        }
    }
}

/// A place where a character stands, with none before it, is the first.
pub proof fn lemma_is_first_at(text: Seq<char>, c: char, k: int)
    requires
        0 <= k < text.len(),
        text[k] == c,
        forall|j: int| 0 <= j < k ==> text[j] != c,
    ensures
        first_at(text, c) == Some(k),
{
    lemma_first_at(text, c);
    if first_at(text, c) is None {
        assert(text.contains(c));
    }
}

/// Where a character first stands among characters.
pub fn find_char(chars: &Vec<char>, c: char) -> (found: Option<usize>)
    ensures
        match found {
            Some(k) => first_at(chars@, c) == Some(k as int) && k < chars@.len(),
            None => first_at(chars@, c) is None,
        },
{
    for i in 0..chars.len()
        invariant
            forall|j: int| 0 <= j < i ==> chars@[j] != c,
    {
        if chars[i] == c {
            proof {
                lemma_is_first_at(chars@, c, i as int);
            }
            return Some(i);
        }
    }
    proof {
        lemma_first_at(chars@, c);
    }
    None
}

/// A text without the white space it starts with.
pub open spec fn trimmed_start(text: Seq<char>) -> Seq<char>
    decreases text.len(),
{
    if text.len() > 0 && is_whitespace(text[0]) {
        trimmed_start(text.drop_first())
    } else {
        text
    }
}

/// A text without the white space it ends with.
pub open spec fn trimmed_end(text: Seq<char>) -> Seq<char>
    decreases text.len(),
{
    if text.len() > 0 && is_whitespace(text.last()) {
        trimmed_end(text.drop_last())
    } else {
        text
    }
}

/// A text without the white space around it.
pub open spec fn trimmed(text: Seq<char>) -> Seq<char> {
    trimmed_end(trimmed_start(text))
}

/// A text without the white space around it.
pub fn trim(text: &str) -> (r: String)
    ensures
        r@ == trimmed(text@),
{
    let chars = characters(text);
    let mut from: usize = 0;
    assert(chars@.skip(0) =~= chars@);
    while from < chars.len() && char_is_whitespace(chars[from])
        invariant
            from <= chars@.len(),
            trimmed_start(chars@) == trimmed_start(chars@.skip(from as int)),
        decreases chars@.len() - from,
    {
        assert(chars@.skip(from as int).drop_first() =~= chars@.skip(from + 1));
        from = from + 1;
    }
    let mut to: usize = chars.len();
    let ghost rest = chars@.skip(from as int);
    assert(rest =~= chars@.subrange(from as int, to as int));
    assert(trimmed_start(chars@) == rest);
    while from < to && char_is_whitespace(chars[to - 1])
        invariant
            from <= to <= chars@.len(),
            trimmed_end(rest) == trimmed_end(chars@.subrange(from as int, to as int)),
        decreases to - from,
    {
        assert(chars@.subrange(from as int, to as int).drop_last() =~= chars@.subrange(
            from as int,
            to - 1,
        ));
        to = to - 1;
    }
    spell(&chars, from, to)
}

/// Whether a text has no white space around it.
pub open spec fn is_trimmed(text: Seq<char>) -> bool {
    text.len() > 0 ==> !is_whitespace(text[0]) && !is_whitespace(text.last())
}

/// Trimming leaves no white space around a text, keeps what is between, and
/// leaves a text without any as it is.
pub proof fn lemma_trimmed(text: Seq<char>)
    ensures
        is_trimmed(trimmed(text)),
        is_trimmed(text) ==> trimmed(text) == text,
        exists|from: int, to: int|
            0 <= from <= to <= text.len() && trimmed(text) == #[trigger] text.subrange(from, to),
{
    let from = lemma_trimmed_start(text);
    let to = lemma_trimmed_end(text.skip(from));
    assert(text.skip(from).take(to) =~= text.subrange(from, from + to));
}

/// Trimming takes white space from around a text, all of it and nothing else.
pub proof fn law_trimming(text: Seq<char>) -> (range: (int, int))
    ensures
        0 <= range.0 <= range.1 <= text.len(),
        trimmed(text) == text.subrange(range.0, range.1),
        forall|j: int|
            0 <= j < text.len() && !(range.0 <= j < range.1) ==> is_whitespace(#[trigger] text[j]),
        range.0 < range.1 ==> !is_whitespace(text[range.0]) && !is_whitespace(text[range.1 - 1]),
    decreases text.len(),
{
    if text.len() > 0 && is_whitespace(text[0]) {
        let rest = text.drop_first();
        let (from, to) = law_trimming(rest);
        assert(rest.subrange(from, to) =~= text.subrange(from + 1, to + 1));
        assert forall|j: int|
            0 <= j < text.len() && !(from + 1 <= j < to + 1) implies is_whitespace(
            #[trigger] text[j],
        ) by {
            if j > 0 {
                assert(rest[j - 1] == text[j]);
            }
        }
        (from + 1, to + 1)
    } else {
        let to = lemma_trimmed_tail(text);
        assert(text.take(to) =~= text.subrange(0, to));
        (0, to)
    }
}

proof fn lemma_trimmed_tail(text: Seq<char>) -> (to: int)
    ensures
        0 <= to <= text.len(),
        trimmed_end(text) == text.take(to),
        to > 0 ==> !is_whitespace(text[to - 1]),
        forall|j: int| to <= j < text.len() ==> is_whitespace(#[trigger] text[j]),
    decreases text.len(),
{
    if text.len() > 0 && is_whitespace(text.last()) {
        let fewer = text.drop_last();
        let to = lemma_trimmed_tail(fewer);
        assert(fewer.take(to) =~= text.take(to));
        assert forall|j: int| to <= j < text.len() implies is_whitespace(#[trigger] text[j]) by {
            if j < text.len() - 1 {
                assert(fewer[j] == text[j]);
            }
        }
        to
    } else {
        assert(text.take(text.len() as int) =~= text);
        text.len() as int
    }
}

/// How much of a text trimming its start leaves out.
pub proof fn lemma_trimmed_start(text: Seq<char>) -> (from: int)
    ensures
        0 <= from <= text.len(),
        trimmed_start(text) == text.skip(from),
        from < text.len() ==> !is_whitespace(text[from]),
        text.len() > 0 && !is_whitespace(text[0]) ==> from == 0,
        text.len() == 0 ==> from == 0,
    decreases text.len(),
{
    if text.len() > 0 && is_whitespace(text[0]) {
        let from = lemma_trimmed_start(text.drop_first());
        assert(text.drop_first().skip(from) =~= text.skip(from + 1));
        from + 1
    } else {
        assert(text.skip(0) =~= text);
        0
    }
}

/// How much of a text trimming its end keeps.
pub proof fn lemma_trimmed_end(text: Seq<char>) -> (to: int)
    ensures
        0 <= to <= text.len(),
        trimmed_end(text) == text.take(to),
        to > 0 ==> !is_whitespace(text[to - 1]),
        text.len() > 0 && !is_whitespace(text.last()) ==> to == text.len(),
        text.len() > 0 && !is_whitespace(text[0]) ==> to > 0,
        text.len() == 0 ==> to == 0,
    decreases text.len(),
{
    if text.len() > 0 && is_whitespace(text.last()) {
        let to = lemma_trimmed_end(text.drop_last());
        assert(text.drop_last().take(to) =~= text.take(to));
        to
    } else {
        assert(text.take(text.len() as int) =~= text);
        text.len() as int
    }
}

/// A text without the carriage return it ends with.
pub open spec fn without_return(line: Seq<char>) -> Seq<char> {
    if line.len() > 0 && line.last() == '\r' {
        line.drop_last()
    } else {
        line
    }
}

/// The lines of a text: each ends with a line feed, with a carriage return
/// before it or not, or with the text.
pub open spec fn lines_of(text: Seq<char>) -> Seq<Seq<char>>
    decreases text.len(),
{
    if text.len() == 0 {
        Seq::empty()
    } else {
        match first_at(text, '\n') {
            None => seq![text],
            Some(k) => if 0 <= k < text.len() {
                seq![without_return(text.take(k))] + lines_of(text.skip(k + 1))
            } else {
                Seq::empty()
            },
        }
    }
}

/// The lines of a text.
pub fn lines(text: &str) -> (r: Vec<String>)
    ensures
        texts(r@) == lines_of(text@),
{
    let chars = characters(text);
    let mut r: Vec<String> = Vec::new();
    let mut start: usize = 0;
    assert(chars@.skip(0) =~= chars@);
    assert(texts(r@) + lines_of(chars@) =~= lines_of(chars@));
    while start < chars.len()
        invariant
            chars@ == text@,
            start <= chars@.len(),
            texts(r@) + lines_of(chars@.skip(start as int)) == lines_of(text@),
        decreases chars@.len() - start,
    {
        let ghost rest = chars@.skip(start as int);
        let ghost before = r@;
        let mut end: usize = start;
        while end < chars.len() && chars[end] != '\n'
            invariant
                start <= end <= chars@.len(),
                forall|j: int| start <= j < end ==> chars@[j] != '\n',
            decreases chars@.len() - end,
        {
            end = end + 1;
        }
        if end == chars.len() {
            proof {
                lemma_first_at(rest, '\n');
                if first_at(rest, '\n') is Some {
                    let k = first_at(rest, '\n')->0;
                    assert(chars@[start + k] == '\n');
                }
                assert(rest =~= chars@.subrange(start as int, end as int));
            }
            r.push(spell(&chars, start, end));
            proof {
                assert(texts(r@) =~= texts(before).push(rest));
                assert(texts(r@) =~= texts(before) + seq![rest]);
                assert(chars@.skip(end as int) =~= Seq::empty());
                assert(texts(r@) + lines_of(chars@.skip(end as int)) =~= texts(r@));
            }
            start = end;
        } else {
            proof {
                lemma_is_first_at(rest, '\n', end - start);
                assert(rest.take(end - start) =~= chars@.subrange(start as int, end as int));
                assert(rest.skip(end - start + 1) =~= chars@.skip(end + 1));
            }
            let line = if end > start && chars[end - 1] == '\r' {
                assert(chars@.subrange(start as int, end as int).drop_last() =~= chars@.subrange(
                    start as int,
                    end - 1,
                ));
                spell(&chars, start, end - 1)
            } else {
                spell(&chars, start, end)
            };
            assert(line@ == without_return(rest.take(end - start)));
            r.push(line);
            proof {
                assert(texts(r@) =~= texts(before).push(line@));
                assert(texts(r@) + lines_of(chars@.skip(end + 1)) =~= texts(before) + (
                seq![line@] + lines_of(chars@.skip(end + 1))));
            }
            start = end + 1;
        }
    }
    assert(chars@.skip(start as int) =~= Seq::empty());
    assert(texts(r@) + lines_of(chars@.skip(start as int)) =~= texts(r@));
    r
}

/// No line of a text holds a line feed.
pub proof fn lemma_lines_hold_no_feed(text: Seq<char>)
    ensures
        forall|i: int| 0 <= i < lines_of(text).len()
            ==> !(#[trigger] lines_of(text)[i]).contains('\n'),
    decreases text.len(),
{
    if text.len() > 0 {
        lemma_first_at(text, '\n');
        match first_at(text, '\n') {
            None => {},
            Some(k) => {
                let rest = text.skip(k + 1);
                lemma_lines_hold_no_feed(rest);
                let line = without_return(text.take(k));
                assert forall|i: int| 0 <= i < lines_of(text).len() implies !(
                #[trigger] lines_of(text)[i]).contains('\n') by {
                    if i == 0 {
                        assert(lines_of(text)[0] == line);
                        assert forall|j: int| 0 <= j < line.len() implies line[j] != '\n' by {
                            assert(line[j] == text[j]);
                        }
                    } else {
                        assert(lines_of(text)[i] == lines_of(rest)[i - 1]);
                    }
                }
            },
        }
    }
}

/// A text with one character in place of another.
pub open spec fn replaced(text: Seq<char>, from: char, to: char) -> Seq<char> {
    text.map_values(
        |c: char|
            if c == from {
                to
            } else {
                c
            },
    )
}

/// A text with one character in place of another.
pub fn replace_char(text: &str, from: char, to: char) -> (r: String)
    ensures
        r@ == replaced(text@, from, to),
{
    let chars = characters(text);
    let mut r = String::new();
    for i in 0..chars.len()
        invariant
            chars@ == text@,
            r@ == replaced(text@, from, to).take(i as int),
    {
        let ghost every = replaced(text@, from, to);
        assert(every.take(i + 1) =~= every.take(i as int).push(every[i as int]));
        if chars[i] == from {
            r.push(to);
        } else {
            r.push(chars[i]);
        }
    }
    assert(r@ =~= replaced(text@, from, to));
    r
}

/// How many bytes a character takes in UTF-8.
pub open spec fn encoded_len(c: char) -> nat {
    if c <= '\u{7f}' {
        1
    } else if c <= '\u{7ff}' {
        2
    } else if c <= '\u{ffff}' {
        3
    } else {
        4
    }
}

/// The characters at the start of a text that take a number of bytes in UTF-8,
/// where that many bytes end with a character.
pub open spec fn byte_prefix(text: Seq<char>, bytes: nat) -> Option<Seq<char>>
    decreases text.len(),
{
    if bytes == 0 {
        Some(Seq::empty())
    } else if text.len() == 0 || encoded_len(text[0]) > bytes {
        None
    } else {
        match byte_prefix(text.drop_first(), (bytes - encoded_len(text[0])) as nat) {
            Some(rest) => Some(seq![text[0]] + rest),
            None => None,
        }
    }
}

/// How many bytes a text takes in UTF-8.
pub open spec fn byte_len(text: Seq<char>) -> nat
    decreases text.len(),
{
    if text.len() == 0 {
        0
    } else {
        encoded_len(text[0]) + byte_len(text.drop_first())
    }
}

/// What is cut off a text begins it and takes the bytes asked for, and it is
/// missed nowhere: nothing is cut off only where no beginning of the text takes
/// that many bytes.
pub proof fn law_byte_prefix(text: Seq<char>, bytes: nat)
    ensures
        byte_prefix(text, bytes) matches Some(prefix) ==> prefix.len() <= text.len() && prefix
            == text.take(prefix.len() as int) && byte_len(prefix) == bytes,
        forall|k: int|
            0 <= k <= text.len() && byte_len(#[trigger] text.take(k)) == bytes ==> byte_prefix(
                text,
                bytes,
            ) == Some(text.take(k)),
    decreases text.len(),
{
    if bytes > 0 && text.len() > 0 {
        let rest = text.drop_first();
        if encoded_len(text[0]) <= bytes {
            law_byte_prefix(rest, (bytes - encoded_len(text[0])) as nat);
            match byte_prefix(rest, (bytes - encoded_len(text[0])) as nat) {
                Some(more) => {
                    let prefix = seq![text[0]] + more;
                    assert(prefix =~= text.take(prefix.len() as int));
                    assert(prefix.drop_first() =~= more);
                },
                None => {},
            }
        }
        assert forall|k: int|
            0 <= k <= text.len() && byte_len(#[trigger] text.take(k)) == bytes implies byte_prefix(
            text,
            bytes,
        ) == Some(text.take(k)) by {
            if k == 0 {
                assert(text.take(0) =~= Seq::empty());
            } else {
                assert(text.take(k).drop_first() =~= rest.take(k - 1));
                assert(seq![text[0]] + rest.take(k - 1) =~= text.take(k));
            }
        }
    } else {
        assert forall|k: int|
            0 <= k <= text.len() && byte_len(#[trigger] text.take(k)) == bytes implies byte_prefix(
            text,
            bytes,
        ) == Some(text.take(k)) by {
            if k > 0 {
                assert(encoded_len(text.take(k)[0]) > 0);
            }
            assert(text.take(k).len() == 0 || text.len() > 0);
            assert(text.take(0) =~= Seq::empty());
        }
    }
}

fn char_encoded_len(c: char) -> (r: usize)
    ensures
        r == encoded_len(c),
{
    if c <= '\u{7f}' {
        1
    } else if c <= '\u{7ff}' {
        2
    } else if c <= '\u{ffff}' {
        3
    } else {
        4
    }
}

/// The characters at the start of a text that take a number of bytes.
pub fn prefix_of_bytes(text: &str, bytes: usize) -> (prefix: Option<String>)
    ensures
        match prefix {
            Some(found) => byte_prefix(text@, bytes as nat) == Some(found@),
            None => byte_prefix(text@, bytes as nat) is None,
        },
{
    let chars = characters(text);
    let mut left: usize = bytes;
    let mut i: usize = 0;
    proof {
        assert(chars@.skip(0) =~= chars@);
        match byte_prefix(chars@, bytes as nat) {
            Some(found) => {
                assert(chars@.take(0) + found =~= found);
            },
            None => {},
        }
    }
    while left > 0
        invariant
            chars@ == text@,
            i <= chars@.len(),
            byte_prefix(text@, bytes as nat) == match byte_prefix(
                chars@.skip(i as int),
                left as nat,
            ) {
                Some(rest) => Some(chars@.take(i as int) + rest),
                None => None,
            },
        decreases left,
    {
        if i == chars.len() {
            return None;
        }
        let width: usize = char_encoded_len(chars[i]);
        if width > left {
            return None;
        }
        proof {
            let rest = chars@.skip(i as int);
            assert(rest.drop_first() =~= chars@.skip(i + 1));
            match byte_prefix(chars@.skip(i + 1), (left - width) as nat) {
                Some(more) => {
                    assert(chars@.take(i as int) + (seq![rest[0]] + more) =~= chars@.take(i + 1)
                        + more);
                },
                None => {},
            }
        }
        left = left - width;
        i = i + 1;
    }
    proof {
        assert(chars@.take(i as int) + Seq::<char>::empty() =~= chars@.subrange(0, i as int));
    }
    Some(spell(&chars, 0, i))
}

/// Whether a text starts with another.
pub open spec fn starts_with(text: Seq<char>, start: Seq<char>) -> bool {
    text.len() >= start.len() && text.take(start.len() as int) == start
}

/// Whether a text ends with another.
pub open spec fn ends_with(text: Seq<char>, end: Seq<char>) -> bool {
    text.len() >= end.len() && text.skip(text.len() - end.len()) == end
}

/// Whether a text starts with another.
pub fn text_starts_with(text: &str, start: &str) -> (r: bool)
    ensures
        r == starts_with(text@, start@),
{
    let chars = characters(text);
    let wanted = characters(start);
    if chars.len() < wanted.len() {
        return false;
    }
    let begin = spell(&chars, 0, wanted.len());
    assert(chars@.subrange(0, wanted@.len() as int) =~= text@.take(start@.len() as int));
    same_text(begin.as_str(), start)
}

/// Whether a text ends with another.
pub fn text_ends_with(text: &str, end: &str) -> (r: bool)
    ensures
        r == ends_with(text@, end@),
{
    let chars = characters(text);
    let wanted = characters(end);
    if chars.len() < wanted.len() {
        return false;
    }
    let begin: usize = chars.len() - wanted.len();
    let last = spell(&chars, begin, chars.len());
    assert(chars@.subrange(begin as int, chars@.len() as int) =~= text@.skip(
        text@.len() - end@.len(),
    ));
    same_text(last.as_str(), end)
}

/// Where the first word of a text ends: where white space stands first.
pub open spec fn word_end(text: Seq<char>) -> int
    decreases text.len(),
{
    if text.len() == 0 || is_whitespace(text[0]) {
        0
    } else {
        1 + word_end(text.drop_first())
    }
}

/// The end of a word is in the text.
pub proof fn lemma_word_end(text: Seq<char>)
    ensures
        0 <= word_end(text) <= text.len(),
        text.len() > 0 && !is_whitespace(text[0]) ==> word_end(text) > 0,
        forall|j: int| 0 <= j < word_end(text) ==> !is_whitespace(text[j]),
        word_end(text) < text.len() ==> is_whitespace(text[word_end(text)]),
    decreases text.len(),
{
    if text.len() > 0 && !is_whitespace(text[0]) {
        lemma_word_end(text.drop_first());
        assert forall|j: int| 0 <= j < word_end(text) implies !is_whitespace(text[j]) by {
            if j > 0 {
                assert(text.drop_first()[j - 1] == text[j]);
            }
        }
    }
}

/// The words of a text: the longest runs of characters that are not white
/// space.
pub open spec fn words_of(text: Seq<char>) -> Seq<Seq<char>>
    decreases text.len(),
{
    if text.len() == 0 {
        Seq::empty()
    } else if is_whitespace(text[0]) {
        words_of(text.drop_first())
    } else {
        let end = word_end(text);
        if 0 < end <= text.len() {
            seq![text.take(end)] + words_of(text.skip(end))
        } else {
            Seq::empty()
        }
    }
}

/// The words of a text.
pub fn words(text: &str) -> (r: Vec<String>)
    ensures
        texts(r@) == words_of(text@),
{
    let chars = characters(text);
    let mut r: Vec<String> = Vec::new();
    let mut start: usize = 0;
    assert(chars@.skip(0) =~= chars@);
    assert(texts(r@) + words_of(chars@) =~= words_of(chars@));
    while start < chars.len()
        invariant
            chars@ == text@,
            start <= chars@.len(),
            texts(r@) + words_of(chars@.skip(start as int)) == words_of(text@),
        decreases chars@.len() - start,
    {
        let ghost rest = chars@.skip(start as int);
        if char_is_whitespace(chars[start]) {
            assert(rest.drop_first() =~= chars@.skip(start + 1));
            start = start + 1;
        } else {
            let ghost before = r@;
            let mut end: usize = start;
            assert(rest =~= chars@.skip(end as int));
            while end < chars.len() && !char_is_whitespace(chars[end])
                invariant
                    start <= end <= chars@.len(),
                    rest == chars@.skip(start as int),
                    word_end(rest) == end - start + word_end(chars@.skip(end as int)),
                decreases chars@.len() - end,
            {
                assert(chars@.skip(end as int).drop_first() =~= chars@.skip(end + 1));
                end = end + 1;
            }
            proof {
                lemma_word_end(rest);
                assert(word_end(chars@.skip(end as int)) == 0);
                assert(rest.take(end - start) =~= chars@.subrange(start as int, end as int));
                assert(rest.skip(end - start) =~= chars@.skip(end as int));
            }
            let word = spell(&chars, start, end);
            r.push(word);
            proof {
                assert(texts(r@) =~= texts(before).push(word@));
                assert(texts(r@) + words_of(chars@.skip(end as int)) =~= texts(before) + (
                seq![word@] + words_of(chars@.skip(end as int))));
            }
            start = end;
        }
    }
    assert(chars@.skip(start as int) =~= Seq::empty());
    assert(texts(r@) + words_of(chars@.skip(start as int)) =~= texts(r@));
    r
}

/// The digit of a number below ten.
pub open spec fn digit(n: nat) -> char {
    (48 + n as u8) as u8 as char
}

/// A number in decimal digits.
pub open spec fn digits_of(n: nat) -> Seq<char>
    decreases n,
{
    if n < 10 {
        seq![digit(n)]
    } else {
        digits_of(n / 10).push(digit(n % 10))
    }
}

/// A number in decimal digits.
pub fn print_number(n: u64) -> (text: String)
    ensures
        text@ == digits_of(n as nat),
    decreases n,
{
    if n < 10 {
        let mut text = String::new();
        text.push((48 + n as u8) as char);
        assert(text@ =~= digits_of(n as nat));
        text
    } else {
        let mut text = print_number(n / 10);
        text.push((48 + (n % 10) as u8) as char);
        text
    }
}

/// What an optional text stands for.
pub open spec fn optional_text(text: Option<String>) -> Option<Seq<char>> {
    match text {
        Some(text) => Some(text@),
        None => None,
    }
}

/// What an optional list of texts stands for.
pub open spec fn optional_texts(list: Option<Vec<String>>) -> Option<Seq<Seq<char>>> {
    match list {
        Some(list) => Some(texts(list@)),
        None => None,
    }
}

/// An optional text once more.
pub fn copy_text(text: &Option<String>) -> (copy: Option<String>)
    ensures
        optional_text(copy) == optional_text(*text),
{
    match text {
        Some(text) => Some(text.clone()),
        None => None,
    }
}

/// Whether a text is in a list.
pub fn lists_text(list: &Vec<String>, text: &String) -> (r: bool)
    ensures
        r == texts(list@).contains(text@),
{
    for i in 0..list.len()
        invariant
            forall|k: int| 0 <= k < i ==> (#[trigger] list@[k])@ != text@,
    {
        if list[i] == *text {
            assert(texts(list@)[i as int] == text@);
            return true;
        }
    }
    proof {
        assert forall|k: int| 0 <= k < texts(list@).len() implies texts(list@)[k] != text@ by {
            assert(list@[k]@ != text@);
        }
    }
    false
}

} // verus!
