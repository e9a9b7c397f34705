//! Text as a sequence of characters: searching, trimming, splitting and
//! rewriting, each stated over `Seq<char>`.

use vstd::prelude::*;
use vstd::string::StringExecFns;

verus! {

/// `String::push` appends the given character at the end of the string.
pub assume_specification[ String::push ](s: &mut String, ch: char)
    ensures
        final(s)@ == old(s)@.push(ch),
;

/// The characters with Unicode's `White_Space` property.
pub open spec fn white_space(ch: char) -> bool {
    let c = ch as u32;
    ||| 0x09 <= c <= 0x0d
    ||| c == 0x20
    ||| c == 0x85
    ||| c == 0xa0
    ||| c == 0x1680
    ||| 0x2000 <= c <= 0x200a
    ||| c == 0x2028
    ||| c == 0x2029
    ||| c == 0x202f
    ||| c == 0x205f
    ||| c == 0x3000
}

/// `A` to `Z` become `a` to `z`; every other character stays.
pub open spec fn lower_char(ch: char) -> char {
    if 'A' <= ch && ch <= 'Z' {
        ((ch as u32 + 32) as u32) as char
    } else {
        ch
    }
}

/// A text with its ASCII letters in lower case.
pub open spec fn lower(s: Seq<char>) -> Seq<char> {
    s.map_values(|ch: char| lower_char(ch))
}

/// `s` begins with `head`.
pub open spec fn begins(s: Seq<char>, head: Seq<char>) -> bool {
    s.len() >= head.len() && s.take(head.len() as int) == head
}

/// `s` ends with `tail`.
pub open spec fn ends(s: Seq<char>, tail: Seq<char>) -> bool {
    s.len() >= tail.len() && s.skip(s.len() - tail.len()) == tail
}

/// `s` with each `from` replaced by the text `to`.
pub open spec fn replaced(s: Seq<char>, from: char, to: Seq<char>) -> Seq<char>
    decreases s.len(),
{
    if s.len() == 0 {
        Seq::empty()
    } else if s.last() == from {
        replaced(s.drop_last(), from, to) + to
    } else {
        replaced(s.drop_last(), from, to).push(s.last())
    }
}

/// `s` without the characters at its start that satisfy `p`.
pub open spec fn trimmed_start(s: Seq<char>, p: spec_fn(char) -> bool) -> Seq<char>
    decreases s.len(),
{
    if s.len() > 0 && p(s[0]) {
        trimmed_start(s.drop_first(), p)
    } else {
        s
    }
}

/// `s` without the characters at its end that satisfy `p`.
pub open spec fn trimmed_end(s: Seq<char>, p: spec_fn(char) -> bool) -> Seq<char>
    decreases s.len(),
{
    if s.len() > 0 && p(s.last()) {
        trimmed_end(s.drop_last(), p)
    } else {
        s
    }
}

/// `s` without surrounding white space.
pub open spec fn trimmed(s: Seq<char>) -> Seq<char> {
    trimmed_end(trimmed_start(s, |ch: char| white_space(ch)), |ch: char| white_space(ch))
}

/// `s` without the copies of `tail` at its end.
pub open spec fn without_tail(s: Seq<char>, tail: Seq<char>) -> Seq<char>
    decreases s.len(),
{
    if tail.len() > 0 && ends(s, tail) {
        without_tail(s.take(s.len() - tail.len()), tail)
    } else {
        s
    }
}

/// The pieces of `s` between the separators; a text without a separator is its
/// own only piece.
pub open spec fn pieces(s: Seq<char>, separator: char) -> Seq<Seq<char>>
    decreases s.len(),
{
    if s.len() == 0 {
        seq![Seq::empty()]
    } else {
        let init = pieces(s.drop_last(), separator);
        if s.last() == separator {
            init.push(Seq::empty())
        } else {
            init.drop_last().push(init.last().push(s.last()))
        }
    }
}

/// The texts of a sequence of strings.
pub open spec fn texts(items: Seq<String>) -> Seq<Seq<char>> {
    items.map_values(|s: String| s@)
}

/// The text that an optional string holds.
pub open spec fn text_option(s: Option<String>) -> Option<Seq<char>> {
    match s {
        Some(t) => Some(t@),
        None => None,
    }
}

/// The characters of a borrowed text, where there is one.
pub open spec fn borrowed_option(s: Option<&str>) -> Option<Seq<char>> {
    match s {
        Some(s) => Some(s@),
        None => None,
    }
}

/// Replacing goes on piece by piece.
pub proof fn lemma_replaced_concat(a: Seq<char>, b: Seq<char>, from: char, to: Seq<char>)
    ensures
        replaced(a + b, from, to) == replaced(a, from, to) + replaced(b, from, to),
    decreases b.len(),
{
    if b.len() == 0 {
        assert(a + b =~= a);
        assert(replaced(a, from, to) + replaced(b, from, to) =~= replaced(a, from, to));
    } else {
        assert((a + b).drop_last() =~= a + b.drop_last());
        lemma_replaced_concat(a, b.drop_last(), from, to);
        assert(replaced(a + b, from, to) =~= replaced(a, from, to) + replaced(b, from, to));
    }
}

/// Replacing in a single character.
pub proof fn lemma_replaced_one(ch: char, from: char, to: Seq<char>)
    ensures
        replaced(seq![ch], from, to) == if ch == from {
            to
        } else {
            seq![ch]
        },
{
    assert(seq![ch].drop_last() =~= Seq::<char>::empty());
    assert(replaced(Seq::<char>::empty(), from, to) =~= Seq::<char>::empty());
    assert(replaced(seq![ch], from, to) =~= if ch == from {
        to
    } else {
        seq![ch]
    });
}

/// Where the texts after the last separator have none themselves, equal texts
/// have equal parts.
pub proof fn lemma_last_separator(
    a: Seq<char>,
    x: Seq<char>,
    b: Seq<char>,
    y: Seq<char>,
    separator: char,
)
    requires
        a.push(separator) + x == b.push(separator) + y,
        !x.contains(separator),
        !y.contains(separator),
    ensures
        a == b,
        x == y,
{
    let left = a.push(separator) + x;
    let right = b.push(separator) + y;
    assert(left.len() == a.len() + 1 + x.len());
    assert(right.len() == b.len() + 1 + y.len());
    assert(left[a.len() as int] == separator);
    assert(right[b.len() as int] == separator);
    if a.len() < b.len() {
        assert(left[b.len() as int] == x[b.len() - a.len() - 1]);
    } else if b.len() < a.len() {
        assert(right[a.len() as int] == y[a.len() - b.len() - 1]);
    }
    assert(a =~= left.take(a.len() as int));
    assert(b =~= right.take(a.len() as int));
    assert(x =~= left.skip(a.len() as int + 1));
    assert(y =~= right.skip(a.len() as int + 1));
}

/// Splitting yields at least one piece.
pub proof fn lemma_pieces_nonempty(s: Seq<char>, separator: char)
    ensures
        pieces(s, separator).len() >= 1,
    decreases s.len(),
{
    if s.len() > 0 {
        lemma_pieces_nonempty(s.drop_last(), separator);
    }
}

/// A text without separators is its own only piece.
pub proof fn lemma_one_piece(s: Seq<char>, separator: char)
    requires
        !s.contains(separator),
    ensures
        pieces(s, separator) == seq![s],
    decreases s.len(),
{
    if s.len() > 0 {
        let init = s.drop_last();
        assert(s[s.len() - 1] != separator);
        assert forall|i: int| 0 <= i < init.len() implies init[i] != separator by {
            assert(init[i] == s[i]);
        }
        lemma_one_piece(init, separator);
        assert(init.push(s.last()) =~= s);
        assert(pieces(s, separator) =~= seq![s]);
    } else {
        assert(s =~= Seq::<char>::empty());
    }
}

/// What follows a separator and holds none itself is one more piece.
pub proof fn lemma_last_piece(a: Seq<char>, b: Seq<char>, separator: char)
    requires
        !b.contains(separator),
    ensures
        pieces(a.push(separator) + b, separator) == pieces(a, separator).push(b),
    decreases b.len(),
{
    let whole = a.push(separator) + b;
    let head = pieces(a, separator);
    if b.len() == 0 {
        assert(whole =~= a.push(separator));
        assert(whole.drop_last() =~= a);
        assert(b =~= Seq::<char>::empty());
    } else {
        let init = b.drop_last();
        assert(b[b.len() - 1] != separator);
        assert forall|i: int| 0 <= i < init.len() implies init[i] != separator by {
            assert(init[i] == b[i]);
        }
        lemma_last_piece(a, init, separator);
        assert(whole.drop_last() =~= a.push(separator) + init);
        assert(whole.last() == b.last());
        assert(head.push(init).drop_last() =~= head);
        assert(init.push(b.last()) =~= b);
    }
}

/// A text that ends with another character keeps its end.
pub proof fn lemma_tail_kept(s: Seq<char>, tail: Seq<char>)
    requires
        s.len() > 0,
        tail.len() > 0,
        s.last() != tail.last(),
    ensures
        without_tail(s, tail) == s,
{
    if ends(s, tail) {
        assert(s.skip(s.len() - tail.len())[tail.len() - 1] == s.last());
    }
}

/// Trimming at the start drops characters that satisfy `p` up to the first that
/// does not, and no other.
pub proof fn law_start_is_trimmed(s: Seq<char>, p: spec_fn(char) -> bool)
    ensures
        ends(s, trimmed_start(s, p)),
        forall|i: int|
            0 <= i < s.len() - trimmed_start(s, p).len() ==> p(#[trigger] s[i]),
        trimmed_start(s, p).len() > 0 ==> !p(trimmed_start(s, p)[0]),
    decreases s.len(),
{
    let out = trimmed_start(s, p);
    if s.len() > 0 && p(s[0]) {
        let rest = s.drop_first();
        law_start_is_trimmed(rest, p);
        assert(s.skip(s.len() - out.len()) =~= rest.skip(rest.len() - out.len()));
        assert forall|i: int| 0 <= i < s.len() - out.len() implies p(#[trigger] s[i]) by {
            if i > 0 {
                assert(s[i] == rest[i - 1]);
            }
        }
    } else {
        assert(s.skip(0) =~= s);
    }
}

/// Trimming at the end drops characters that satisfy `p` behind the last that does
/// not, and no other.
pub proof fn law_end_is_trimmed(s: Seq<char>, p: spec_fn(char) -> bool)
    ensures
        begins(s, trimmed_end(s, p)),
        forall|i: int| trimmed_end(s, p).len() <= i < s.len() ==> p(#[trigger] s[i]),
        trimmed_end(s, p).len() > 0 ==> !p(trimmed_end(s, p).last()),
    decreases s.len(),
{
    let out = trimmed_end(s, p);
    if s.len() > 0 && p(s.last()) {
        let init = s.drop_last();
        law_end_is_trimmed(init, p);
        assert(s.take(out.len() as int) =~= init.take(out.len() as int));
        assert forall|i: int| out.len() <= i < s.len() implies p(#[trigger] s[i]) by {
            if i < s.len() - 1 {
                assert(s[i] == init[i]);
            }
        }
    } else {
        assert(s.take(s.len() as int) =~= s);
    }
}

/// A trimmed text is what stands between the first and the last character that
/// are no white space.
pub proof fn law_white_space_around_is_trimmed(s: Seq<char>)
    ensures
        exists|from: int, to: int|
            0 <= from <= to <= s.len() && #[trigger] s.subrange(from, to) == trimmed(s) && (forall|
                i: int,
            |
                0 <= i < from || to <= i < s.len() ==> white_space(#[trigger] s[i])) && (from < to
                ==> !white_space(s[from]) && !white_space(s[to - 1])),
{
    let p = |ch: char| white_space(ch);
    let rest = trimmed_start(s, p);
    let out = trimmed(s);
    law_start_is_trimmed(s, p);
    law_end_is_trimmed(rest, p);
    let from = s.len() - rest.len();
    let to = from + out.len();
    assert(s.skip(from) =~= rest);
    assert(s.subrange(from, to) =~= rest.take(out.len() as int));
    assert forall|i: int| 0 <= i < from || to <= i < s.len() implies white_space(
        #[trigger] s[i],
    ) by {
        if i >= to {
            assert(s[i] == rest[i - from]);
            assert(p(rest[i - from]));
        } else {
            assert(p(s[i]));
        }
    }
    if from < to {
        assert(out[0] == s[from]);
        assert(rest[0] == s[from]);
        assert(out.last() == s[to - 1]);
    }
}

/// Blank, tab and line ends are white space, and no other ASCII character is.
/// Beyond ASCII these are the next line, the spaces of Unicode and its separators
/// of lines and paragraphs.
pub proof fn law_white_space_is_that_of_unicode(ch: char)
    ensures
        (ch as u32) < 128 ==> (white_space(ch) <==> ch == ' ' || (9 <= ch as u32 && ch as u32 <= 13)),
        (ch as u32) >= 128 ==> (white_space(ch) <==> ch == '\u{85}' || ch == '\u{a0}' || ch
            == '\u{1680}' || ('\u{2000}' <= ch && ch <= '\u{200a}') || ch == '\u{2028}' || ch
            == '\u{2029}' || ch == '\u{202f}' || ch == '\u{205f}' || ch == '\u{3000}'),
{
}

/// A text that may be missing is seen where it is there.
pub proof fn law_missing_texts_stay_missing(s: String, t: &str)
    ensures
        text_option(Some(s)) == Some(s@),
        text_option(None) is None,
        borrowed_option(Some(t)) == Some(t@),
        borrowed_option(None) is None,
{
}

/// Each string is seen as its text, in its place.
pub proof fn law_strings_are_seen_as_their_texts(items: Seq<String>, i: int)
    ensures
        texts(items).len() == items.len(),
        0 <= i < items.len() ==> texts(items)[i] == items[i]@,
{
}

/// Lower case turns `A` to `Z` into `a` to `z` in their places, and keeps every
/// other character.
pub proof fn law_letters_are_lowered(s: Seq<char>, i: int)
    requires
        0 <= i < s.len(),
    ensures
        lower(s).len() == s.len(),
        ('A' <= s[i] && s[i] <= 'Z') ==> lower(s)[i] as u32 == s[i] as u32 + 32,
        !('A' <= s[i] && s[i] <= 'Z') ==> lower(s)[i] == s[i],
        lower(lower(s)) == lower(s),
{
    assert(lower(lower(s)) =~= lower(s));
}

/// Replacing turns each `from` into `to`, and keeps every other character, in
/// their order.
pub proof fn law_each_character_is_replaced(s: Seq<char>, ch: char, from: char, to: Seq<char>)
    ensures
        replaced(Seq::<char>::empty(), from, to).len() == 0,
        ch == from ==> replaced(s.push(ch), from, to) == replaced(s, from, to) + to,
        ch != from ==> replaced(s.push(ch), from, to) == replaced(s, from, to).push(ch),
{
    assert(s.push(ch).drop_last() =~= s);
}

/// A text begins with its own first characters and ends with its own last ones,
/// and with nothing else of that length.
pub proof fn law_texts_begin_and_end(a: Seq<char>, b: Seq<char>, c: Seq<char>)
    ensures
        begins(a + b, a),
        ends(a + b, b),
        begins(a + b, c) && c.len() == a.len() ==> c == a,
        ends(a + b, c) && c.len() == b.len() ==> c == b,
        c.len() > a.len() ==> !begins(a, c) && !ends(a, c),
{
    assert((a + b).take(a.len() as int) =~= a);
    assert((a + b).skip(a.len() as int) =~= b);
}

/// No copy of the tail is left at the end, and what was dropped are copies of it.
pub proof fn law_tails_are_dropped(s: Seq<char>, tail: Seq<char>)
    requires
        tail.len() > 0,
    ensures
        !ends(without_tail(s, tail), tail),
        !ends(s, tail) ==> without_tail(s, tail) == s,
        without_tail(s + tail, tail) == without_tail(s, tail),
    decreases s.len(),
{
    let whole = s + tail;
    assert(whole.skip(whole.len() - tail.len()) =~= tail);
    assert(whole.take(whole.len() - tail.len()) =~= s);
    if ends(s, tail) {
        law_tails_are_dropped(s.take(s.len() - tail.len()), tail);
    }
}

/// The pieces hold no separator; a separator begins a new piece, and any other
/// character belongs to the last one.
pub proof fn law_texts_are_split_at_separators(s: Seq<char>, ch: char, separator: char)
    ensures
        pieces(Seq::<char>::empty(), separator) == seq![Seq::<char>::empty()],
        ch == separator ==> pieces(s.push(ch), separator) == pieces(s, separator).push(
            Seq::empty(),
        ),
        ch != separator ==> pieces(s.push(ch), separator) == pieces(s, separator).drop_last().push(
            pieces(s, separator).last().push(ch),
        ),
        forall|i: int|
            0 <= i < pieces(s, separator).len() ==> !(#[trigger] pieces(s, separator)[i]).contains(
                separator,
            ),
    decreases s.len(),
{
    assert(s.push(ch).drop_last() =~= s);
    let all = pieces(s, separator);
    if s.len() > 0 {
        let init = s.drop_last();
        law_texts_are_split_at_separators(init, ch, separator);
        lemma_pieces_nonempty(init, separator);
        let before = pieces(init, separator);
        assert forall|i: int| 0 <= i < all.len() implies !(#[trigger] all[i]).contains(separator) by {
            if i < before.len() - 1 {
                assert(all[i] == before[i]);
            } else if s.last() != separator {
                let piece = before.last().push(s.last());
                assert(all[i] == piece);
                assert(!before[before.len() - 1].contains(separator));
                assert forall|j: int| 0 <= j < piece.len() implies piece[j] != separator by {
                    if j < before.last().len() {
                        assert(before.last().contains(before.last()[j]));
                    }
                }
            } else if i == before.len() - 1 {
                assert(all[i] == before[i]);
            }
        }
    }
}

/// The characters of a text.
pub fn chars_of(s: &str) -> (out: Vec<char>)
    ensures
        out@ == s@,
{
    let mut out: Vec<char> = Vec::new();
    for ch in it: s.chars()
        invariant
            it.seq() == s@,
            out@ == s@.take(it.index() as int),
    {
        assert(s@.take(it.index() + 1) =~= s@.take(it.index() as int).push(ch));
        out.push(ch);
    }
    assert(s@.take(s@.len() as int) =~= s@);
    out
}

/// The text made of the characters from `from` up to `to`.
pub fn text_between(chars: &Vec<char>, from: usize, to: usize) -> (out: String)
    requires
        from <= to <= chars@.len(),
    ensures
        out@ == chars@.subrange(from as int, to as int),
{
    let mut out: String = String::new();
    let mut i: usize = from;
    while i < to
        invariant
            from <= i <= to <= chars@.len(),
            out@ == chars@.subrange(from as int, i as int),
        decreases to - i,
    {
        assert(chars@.subrange(from as int, i + 1) =~= chars@.subrange(from as int, i as int).push(
            chars@[i as int],
        ));
        out.push(chars[i]);
        i = i + 1;
    }
    out
}

/// The first two texts one after the other.
pub fn joined(a: &str, b: &str) -> (out: String)
    ensures
        out@ == a@ + b@,
{
    let mut out: String = a.to_owned();
    out.append(b);
    out
}

/// Whether two texts are the same.
pub fn same_text(a: &str, b: &str) -> (same: bool)
    ensures
        same == (a@ == b@),
{
    let left = chars_of(a);
    let right = chars_of(b);
    if left.len() != right.len() {
        return false;
    }
    let mut i: usize = 0;
    while i < left.len()
        invariant
            i <= left@.len(),
            left@ == a@,
            right@ == b@,
            left@.len() == right@.len(),
            forall|j: int| 0 <= j < i ==> left@[j] == right@[j],
        decreases left@.len() - i,
    {
        if left[i] != right[i] {
            return false;
        }
        i = i + 1;
    }
    assert(a@ =~= b@);
    true
}

/// Whether an optional string holds the given text.
pub fn holds_text(a: &Option<String>, b: &str) -> (same: bool)
    ensures
        same == (text_option(*a) == Some(b@)),
{
    match a {
        Some(t) => same_text(t.as_str(), b),
        None => false,
    }
}

/// Whether a character is white space.
pub fn is_white_space(ch: char) -> (yes: bool)
    ensures
        yes == white_space(ch),
{
    let c: u32 = ch as u32;
    (0x09 <= c && c <= 0x0d) || c == 0x20 || c == 0x85 || c == 0xa0 || c == 0x1680 || (0x2000 <= c
        && c <= 0x200a) || c == 0x2028 || c == 0x2029 || c == 0x202f || c == 0x205f || c == 0x3000
}

/// A text without surrounding white space.
pub fn trim_text(s: &str) -> (out: String)
    ensures
        out@ == trimmed(s@),
{
    let chars = chars_of(s);
    let ghost p = |ch: char| white_space(ch);
    let mut from: usize = 0;
    assert(chars@.skip(0) =~= chars@);
    while from < chars.len() && is_white_space(chars[from])
        invariant
            from <= chars@.len(),
            p == |ch: char| white_space(ch),
            trimmed_start(chars@, p) == trimmed_start(chars@.skip(from as int), p),
        decreases chars@.len() - from,
    {
        assert(chars@.skip(from as int).drop_first() =~= chars@.skip(from + 1));
        from = from + 1;
    }
    let ghost body = chars@.skip(from as int);
    assert(trimmed_start(chars@, p) == body) by {
        if from < chars@.len() {
            assert(body[0] == chars@[from as int]);
        }
    }
    let mut to: usize = chars.len();
    assert(chars@.subrange(from as int, to as int) =~= body);
    while to > from && is_white_space(chars[to - 1])
        invariant
            from <= to <= chars@.len(),
            p == |ch: char| white_space(ch),
            trimmed_end(body, p) == trimmed_end(chars@.subrange(from as int, to as int), p),
        decreases to - from,
    {
        let ghost s0 = chars@.subrange(from as int, to as int);
        assert(s0.last() == chars@[to - 1]);
        assert(s0.drop_last() =~= chars@.subrange(from as int, to - 1));
        to = to - 1;
    }
    text_between(&chars, from, to)
}

/// A text without the copies of `ch` at its start.
pub fn trim_start_char(s: &str, ch: char) -> (out: String)
    ensures
        out@ == trimmed_start(s@, |c: char| c == ch),
{
    let chars = chars_of(s);
    let ghost p = |c: char| c == ch;
    let mut from: usize = 0;
    assert(chars@.skip(0) =~= chars@);
    while from < chars.len() && chars[from] == ch
        invariant
            from <= chars@.len(),
            p == |c: char| c == ch,
            trimmed_start(chars@, p) == trimmed_start(chars@.skip(from as int), p),
        decreases chars@.len() - from,
    {
        assert(chars@.skip(from as int).drop_first() =~= chars@.skip(from + 1));
        from = from + 1;
    }
    assert(chars@.subrange(from as int, chars@.len() as int) =~= chars@.skip(from as int));
    text_between(&chars, from, chars.len())
}

/// A text without the copies of `ch` at its end.
pub fn trim_end_char(s: &str, ch: char) -> (out: String)
    ensures
        out@ == trimmed_end(s@, |c: char| c == ch),
{
    let chars = chars_of(s);
    let ghost p = |c: char| c == ch;
    let mut to: usize = chars.len();
    assert(chars@.take(to as int) =~= chars@);
    while to > 0 && chars[to - 1] == ch
        invariant
            to <= chars@.len(),
            p == |c: char| c == ch,
            trimmed_end(chars@, p) == trimmed_end(chars@.take(to as int), p),
        decreases to,
    {
        assert(chars@.take(to as int).drop_last() =~= chars@.take(to - 1));
        to = to - 1;
    }
    assert(chars@.subrange(0, to as int) =~= chars@.take(to as int));
    text_between(&chars, 0, to)
}

/// A text with each `from` replaced by `to`.
pub fn replace_char(s: &str, from: char, to: &str) -> (out: String)
    ensures
        out@ == replaced(s@, from, to@),
{
    let mut out: String = String::new();
    for ch in it: s.chars()
        invariant
            it.seq() == s@,
            out@ == replaced(s@.take(it.index() as int), from, to@),
    {
        assert(s@.take(it.index() + 1).drop_last() =~= s@.take(it.index() as int));
        if ch == from {
            out.append(to);
        } else {
            out.push(ch);
        }
    }
    assert(s@.take(s@.len() as int) =~= s@);
    out
}

/// A text with its ASCII letters in lower case.
pub fn lower_text(s: &str) -> (out: String)
    ensures
        out@ == lower(s@),
{
    let mut out: String = String::new();
    for ch in it: s.chars()
        invariant
            it.seq() == s@,
            out@ == lower(s@.take(it.index() as int)),
    {
        assert(s@.take(it.index() + 1) =~= s@.take(it.index() as int).push(ch));
        assert(lower(s@.take(it.index() + 1)) =~= lower(s@.take(it.index() as int)).push(
            lower_char(ch),
        ));
        out.push(lower_one(ch));
    }
    assert(s@.take(s@.len() as int) =~= s@);
    out
}

fn lower_one(ch: char) -> (out: char)
    ensures
        out == lower_char(ch),
{
    if 'A' <= ch && ch <= 'Z' {
        let c: u8 = ch as u8;
        (c + 32) as char
    } else {
        ch
    }
}

/// Whether two texts are the same but for the case of ASCII letters.
pub fn same_ignoring_case(a: &str, b: &str) -> (same: bool)
    ensures
        same == (lower(a@) == lower(b@)),
{
    same_text(lower_text(a).as_str(), lower_text(b).as_str())
}

/// Whether `s` begins with `head`.
pub fn begins_with(s: &str, head: &str) -> (yes: bool)
    ensures
        yes == begins(s@, head@),
{
    let chars = chars_of(s);
    let start = chars_of(head);
    if chars.len() < start.len() {
        return false;
    }
    assert(chars@.subrange(0, start@.len() as int) =~= chars@.take(start@.len() as int));
    same_text(text_between(&chars, 0, start.len()).as_str(), head)
}

/// Whether `s` ends with `tail`.
pub fn ends_with(s: &str, tail: &str) -> (yes: bool)
    ensures
        yes == ends(s@, tail@),
{
    let chars = chars_of(s);
    let end = chars_of(tail);
    if chars.len() < end.len() {
        return false;
    }
    let from: usize = chars.len() - end.len();
    assert(chars@.subrange(from as int, chars@.len() as int) =~= chars@.skip(from as int));
    same_text(text_between(&chars, from, chars.len()).as_str(), tail)
}

/// A text without the copies of `tail` at its end.
pub fn trim_tail(s: &str, tail: &str) -> (out: String)
    ensures
        out@ == without_tail(s@, tail@),
{
    let end = chars_of(tail);
    let mut out: String = s.to_owned();
    if end.len() == 0 {
        return out;
    }
    while ends_with(out.as_str(), tail)
        invariant
            end@ == tail@,
            end@.len() > 0,
            without_tail(s@, tail@) == without_tail(out@, tail@),
        decreases out@.len(),
    {
        let chars = chars_of(out.as_str());
        let to: usize = chars.len() - end.len();
        assert(chars@.subrange(0, to as int) =~= out@.take(to as int));
        out = text_between(&chars, 0, to);
    }
    out
}

/// The pieces of a text between the separators.
pub fn split_text(s: &str, separator: char) -> (out: Vec<String>)
    ensures
        texts(out@) == pieces(s@, separator),
        out@.len() >= 1,
{
    let mut out: Vec<String> = Vec::new();
    let mut last: String = String::new();
    assert(texts(out@).push(last@) =~= pieces(s@.take(0), separator));
    for ch in it: s.chars()
        invariant
            it.seq() == s@,
            texts(out@).push(last@) == pieces(s@.take(it.index() as int), separator),
    {
        let ghost before = s@.take(it.index() as int);
        let ghost after = s@.take(it.index() + 1);
        let ghost heads = texts(out@);
        let ghost tail = last@;
        assert(after.drop_last() =~= before);
        assert(after.last() == ch);
        let ghost init = pieces(before, separator);
        assert(init.drop_last() =~= heads);
        assert(init.last() == tail);
        if ch == separator {
            out.push(last);
            last = String::new();
            assert(texts(out@) =~= heads.push(tail));
        } else {
            last.push(ch);
        }
    }
    assert(s@.take(s@.len() as int) =~= s@);
    let ghost heads = texts(out@);
    let ghost tail = last@;
    out.push(last);
    assert(texts(out@) =~= heads.push(tail));
    out
}

} // verus!
