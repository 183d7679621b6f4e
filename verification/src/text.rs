//! Comparing and taking apart the words people write in a configuration.

use vstd::prelude::*;

verus! {

/// Whether two strings hold the same characters.
pub fn same(one: &str, other: &str) -> (r: bool)
    ensures
        r == (one@ == other@),
{
    one.to_owned() == other.to_owned()
}

/// The characters of a string.
pub fn chars(text: &str) -> (all: Vec<char>)
    ensures
        all@ == text@,
{
    let mut all: Vec<char> = Vec::new();
    for c in each: text.chars()
        invariant
            each.seq() == text@,
            all@ == text@.subrange(0, each.index()),
    {
        all.push(c);
    }
    all
}

/// Whether some characters spell a word.
pub fn spells(letters: &Vec<char>, word: &str) -> (r: bool)
    ensures
        r == (letters@ == word@),
{
    let wanted = chars(word);
    if letters.len() != wanted.len() {
        return false;
    }
    let mut i: usize = 0;
    while i < letters.len()
        invariant
            i <= letters.len(),
            letters.len() == wanted.len(),
            wanted@ == word@,
            forall|k: int| 0 <= k < i ==> letters@[k] == wanted@[k],
        decreases letters.len() - i,
    {
        if letters[i] != wanted[i] {
            return false;
        }
        i = i + 1;
    }
    assert(letters@ =~= wanted@);
    true
}

/// The characters Unicode calls white space.
pub open spec fn is_space(c: char) -> bool {
    let c = c as u32;
    ||| 0x09 <= c <= 0x0d
    ||| c == 0x20
    ||| c == 0x85
    ||| c == 0xa0
    ||| c == 0x1680
    ||| 0x2000 <= c <= 0x200a
    ||| c == 0x2028
    ||| c == 0x2029
    ||| c == 0x202f
    ||| c == 0x205f
    ||| c == 0x3000
}

fn space(c: char) -> (r: bool)
    ensures
        r == is_space(c),
{
    let c: u32 = c as u32;
    (0x09 <= c && c <= 0x0d) || c == 0x20 || c == 0x85 || c == 0xa0 || c == 0x1680 || (0x2000 <= c
        && c <= 0x200a) || c == 0x2028 || c == 0x2029 || c == 0x202f || c == 0x205f || c == 0x3000
}

/// What is left of a text without the white space in front of it.
pub open spec fn trimmed_start(text: Seq<char>) -> Seq<char>
    decreases text.len(),
{
    if text.len() > 0 && is_space(text.first()) {
        trimmed_start(text.drop_first())
    } else {
        text
    }
}

/// What is left of a text without the white space behind it.
pub open spec fn trimmed_end(text: Seq<char>) -> Seq<char>
    decreases text.len(),
{
    if text.len() > 0 && is_space(text.last()) {
        trimmed_end(text.drop_last())
    } else {
        text
    }
}

/// What is left of a text without the white space around it.
pub open spec fn trimmed(text: Seq<char>) -> Seq<char> {
    trimmed_end(trimmed_start(text))
}

/// A part of some characters, from one place up to another.
pub fn part(letters: &Vec<char>, from: usize, to: usize) -> (r: Vec<char>)
    requires
        from <= to <= letters.len(),
    ensures
        r@ == letters@.subrange(from as int, to as int),
{
    let mut r: Vec<char> = Vec::new();
    let mut i: usize = from;
    while i < to
        invariant
            from <= i <= to <= letters.len(),
            r@ == letters@.subrange(from as int, i as int),
        decreases to - i,
    {
        r.push(letters[i]);
        i = i + 1;
    }
    r
}

/// Some characters without the white space around them.
pub fn trim(letters: &Vec<char>) -> (r: Vec<char>)
    ensures
        r@ == trimmed(letters@),
{
    let len: usize = letters.len();
    let mut from: usize = 0;
    assert(letters@.subrange(0, len as int) =~= letters@);
    while from < len && space(letters[from])
        invariant
            from <= len == letters.len(),
            trimmed_start(letters@) == trimmed_start(letters@.subrange(from as int, len as int)),
        decreases len - from,
    {
        assert(letters@.subrange(from as int, len as int).drop_first() =~= letters@.subrange(
            from + 1,
            len as int,
        ));
        from = from + 1;
    }
    let ghost rest = letters@.subrange(from as int, len as int);
    assert(trimmed_start(letters@) == rest);
    let mut to: usize = len;
    while from < to && space(letters[to - 1])
        invariant
            from <= to <= len == letters.len(),
            trimmed_end(rest) == trimmed_end(letters@.subrange(from as int, to as int)),
        decreases to - from,
    {
        assert(letters@.subrange(from as int, to as int).drop_last() =~= letters@.subrange(
            from as int,
            to - 1,
        ));
        to = to - 1;
    }
    part(letters, from, to)
}

/// A character with a capital Latin letter made small.
pub open spec fn lowered_char(c: char) -> char {
    if 'A' <= c <= 'Z' {
        (c as u32 + 32) as char
    } else {
        c
    }
}

/// A text with its capital Latin letters made small.
pub open spec fn lowered(text: Seq<char>) -> Seq<char> {
    Seq::new(text.len(), |i: int| lowered_char(text[i]))
}

fn lower_char(c: char) -> (r: char)
    ensures
        r == lowered_char(c),
{
    if 'A' <= c && c <= 'Z' {
        (c as u8 + 32) as char
    } else {
        c
    }
}

/// Some characters with the capital Latin letters made small.
pub fn lower(letters: &Vec<char>) -> (r: Vec<char>)
    ensures
        r@ == lowered(letters@),
{
    let mut r: Vec<char> = Vec::new();
    let mut i: usize = 0;
    while i < letters.len()
        invariant
            i <= letters.len(),
            r.len() == i,
            forall|k: int| 0 <= k < i ==> r@[k] == lowered_char(letters@[k]),
        decreases letters.len() - i,
    {
        r.push(lower_char(letters[i]));
        i = i + 1;
    }
    assert(r@ =~= lowered(letters@));
    r
}

/// A word as a configuration is read: without the white space around it and in
/// small letters.
pub open spec fn read(text: Seq<char>) -> Seq<char> {
    lowered(trimmed(text))
}

/// A word as a configuration is read.
pub fn word(text: &str) -> (r: Vec<char>)
    ensures
        r@ == read(text@),
{
    let all = chars(text);
    let inner = trim(&all);
    lower(&inner)
}

/// Where a character first stands in a text.
pub open spec fn first_at(text: Seq<char>, c: char) -> Option<int>
    decreases text.len(),
{
    if text.len() == 0 {
        None
    } else if text.first() == c {
        Some(0)
    } else {
        match first_at(text.drop_first(), c) {
            Some(i) => Some(i + 1),
            None => None,
        }
    }
}

/// A character found is in the text, and nowhere before that.
pub proof fn first_at_is_first(text: Seq<char>, c: char)
    ensures
        match first_at(text, c) {
            Some(i) => {
                &&& 0 <= i < text.len()
                &&& text[i] == c
                &&& forall|k: int| 0 <= k < i ==> text[k] != c
            },
            None => forall|k: int| 0 <= k < text.len() ==> text[k] != c,
        },
    decreases text.len(),
{
    if text.len() > 0 && text.first() != c {
        let rest = text.drop_first();
        first_at_is_first(rest, c);
        assert forall|k: int| 0 < k < text.len() implies text[k] == rest[k - 1] by {}
    }
}

/// Where a character first stands among some others.
pub fn find(letters: &Vec<char>, c: char) -> (at: Option<usize>)
    ensures
        match at {
            Some(i) => first_at(letters@, c) == Some(i as int) && i < letters.len(),
            None => first_at(letters@, c) is None,
        },
{
    let mut i: usize = 0;
    proof {
        first_at_is_first(letters@, c);
    }
    while i < letters.len()
        invariant
            i <= letters.len(),
            forall|k: int| 0 <= k < i ==> letters@[k] != c,
            match first_at(letters@, c) {
                Some(i) => {
                    &&& 0 <= i < letters@.len()
                    &&& letters@[i] == c
                    &&& forall|k: int| 0 <= k < i ==> letters@[k] != c
                },
                None => forall|k: int| 0 <= k < letters@.len() ==> letters@[k] != c,
            },
        decreases letters.len() - i,
    {
        if letters[i] == c {
            return Some(i);
        }
        i = i + 1;
    }
    None
}

/// A text without the `hz`s at the end of it.
pub open spec fn without_hz(text: Seq<char>) -> Seq<char>
    decreases text.len(),
{
    if text.len() >= 2 && text[text.len() - 2] == 'h' && text.last() == 'z' {
        without_hz(text.subrange(0, text.len() - 2))
    } else {
        text
    }
}

/// Some characters without the `hz`s at the end of them.
pub fn strip_hz(letters: &Vec<char>) -> (r: Vec<char>)
    ensures
        r@ == without_hz(letters@),
{
    let mut to: usize = letters.len();
    assert(letters@.subrange(0, to as int) =~= letters@);
    while to >= 2 && letters[to - 2] == 'h' && letters[to - 1] == 'z'
        invariant
            to <= letters.len(),
            without_hz(letters@) == without_hz(letters@.subrange(0, to as int)),
        decreases to,
    {
        assert(letters@.subrange(0, to as int).subrange(0, to - 2) =~= letters@.subrange(
            0,
            to - 2,
        ));
        to = to - 2;
    }
    part(letters, 0, to)
}

/// What is white space: among the first characters the five from the tab on and
/// the space, and past those the ones that Unicode has for it.
pub proof fn what_is_white_space(c: char)
    ensures
        (c as u32) < 0x80 ==> (is_space(c) <==> c == ' ' || 9 <= c as u32 <= 13),
        'a' <= c <= 'z' || 'A' <= c <= 'Z' || '0' <= c <= '9' || c == '@' || c == '.' || c == '-' || c
            == '+' ==> !is_space(c),
        (c as u32) >= 0x80 ==> (is_space(c) <==> seq![
            0x85u32, 0xa0, 0x1680, 0x2000, 0x2001, 0x2002, 0x2003, 0x2004, 0x2005, 0x2006, 0x2007,
            0x2008, 0x2009, 0x200a, 0x2028, 0x2029, 0x202f, 0x205f, 0x3000,
        ].contains(c as u32)),
{
    let wide = seq![
        0x85u32, 0xa0, 0x1680, 0x2000, 0x2001, 0x2002, 0x2003, 0x2004, 0x2005, 0x2006, 0x2007,
        0x2008, 0x2009, 0x200a, 0x2028, 0x2029, 0x202f, 0x205f, 0x3000,
    ];
    assert(wide.len() == 19);
    assert(wide[0] == 0x85 && wide[1] == 0xa0 && wide[2] == 0x1680 && wide[3] == 0x2000 && wide[4]
        == 0x2001 && wide[5] == 0x2002 && wide[6] == 0x2003 && wide[7] == 0x2004 && wide[8]
        == 0x2005 && wide[9] == 0x2006 && wide[10] == 0x2007 && wide[11] == 0x2008 && wide[12]
        == 0x2009 && wide[13] == 0x200a && wide[14] == 0x2028 && wide[15] == 0x2029 && wide[16]
        == 0x202f && wide[17] == 0x205f && wide[18] == 0x3000);
    if wide.contains(c as u32) {
        let i = choose|i: int| 0 <= i < wide.len() && wide[i] == c as u32;
        assert(0 <= i < 19);
    }
}

proof fn trimming_the_start(text: Seq<char>) -> (from: int)
    ensures
        0 <= from <= text.len(),
        trimmed_start(text) == text.skip(from),
        forall|k: int| 0 <= k < from ==> is_space(#[trigger] text[k]),
        from < text.len() ==> !is_space(text[from]),
    decreases text.len(),
{
    if text.len() > 0 && is_space(text.first()) {
        let rest = text.drop_first();
        let from = trimming_the_start(rest);
        assert(rest.skip(from) =~= text.skip(from + 1));
        assert forall|k: int| 0 <= k < from + 1 implies is_space(#[trigger] text[k]) by {
            if k > 0 {
                assert(is_space(rest[k - 1]));
            }
        }
        from + 1
    } else {
        assert(text.skip(0) =~= text);
        0
    }
}

proof fn trimming_the_end(text: Seq<char>) -> (to: int)
    ensures
        0 <= to <= text.len(),
        trimmed_end(text) == text.take(to),
        forall|k: int| to <= k < text.len() ==> is_space(#[trigger] text[k]),
        to > 0 ==> !is_space(text[to - 1]),
    decreases text.len(),
{
    if text.len() > 0 && is_space(text.last()) {
        let rest = text.drop_last();
        let to = trimming_the_end(rest);
        assert(rest.take(to) =~= text.take(to));
        assert forall|k: int| to <= k < text.len() implies is_space(#[trigger] text[k]) by {
            if k < rest.len() {
                assert(is_space(rest[k]));
            }
        }
        if to > 0 {
            assert(rest[to - 1] == text[to - 1]);
        }
        to
    } else {
        assert(text.take(text.len() as int) =~= text);
        text.len() as int
    }
}

/// Trimming takes the white space off both ends of a text and nothing else: what
/// is left is a part of it that neither begins nor ends with any, and what was
/// around that part is nothing but white space.
pub proof fn trimming_takes_the_ends_off(text: Seq<char>)
    ensures
        exists|from: int, to: int|
            {
                &&& 0 <= from <= to <= text.len()
                &&& trimmed(text) == #[trigger] text.subrange(from, to)
                &&& forall|k: int| 0 <= k < from ==> is_space(#[trigger] text[k])
                &&& forall|k: int| to <= k < text.len() ==> is_space(#[trigger] text[k])
            },
        trimmed(text).len() > 0 ==> !is_space(trimmed(text).first()) && !is_space(
            trimmed(text).last(),
        ),
{
    let from = trimming_the_start(text);
    let rest = text.skip(from);
    let len = trimming_the_end(rest);
    let to = from + len;
    assert(rest.take(len) =~= text.subrange(from, to));
    assert forall|k: int| to <= k < text.len() implies is_space(#[trigger] text[k]) by {
        assert(is_space(rest[k - from]));
    }
    if len > 0 {
        assert(rest[len - 1] == text.subrange(from, to).last());
        assert(text[from] == text.subrange(from, to).first());
    }
}

/// Making letters small changes the capital Latin ones, each to its own small
/// one, and no other character.
pub proof fn letters_are_made_small(text: Seq<char>, i: int)
    requires
        0 <= i < text.len(),
    ensures
        lowered(text).len() == text.len(),
        65 <= text[i] as u32 <= 90 ==> lowered(text)[i] as u32 == text[i] as u32 + 32,
        !(65 <= text[i] as u32 <= 90) ==> lowered(text)[i] == text[i],
{
}

/// Whether a text is written the way it is read: in small letters, and with no
/// white space around it.
pub open spec fn is_plain(text: Seq<char>) -> bool {
    &&& forall|i: int| 0 <= i < text.len() ==> !('A' <= #[trigger] text[i] <= 'Z')
    &&& text.len() > 0 ==> !is_space(text.first()) && !is_space(text.last())
}

/// A text that is written the way it is read is read as it is written.
pub proof fn what_is_plain_is_read_as_it_is(text: Seq<char>)
    requires
        is_plain(text),
    ensures
        read(text) == text,
{
    assert(lowered(text) =~= text);
}

/// However a text is written, it is read as one that is written so, and that is
/// read as it is.
pub proof fn reading_is_plain(text: Seq<char>)
    ensures
        is_plain(read(text)),
        read(read(text)) == read(text),
        read(text).len() == trimmed(text).len(),
{
    trimming_takes_the_ends_off(text);
    let inner = trimmed(text);
    let small = read(text);
    assert forall|i: int| 0 <= i < small.len() implies !('A' <= #[trigger] small[i] <= 'Z') by {
        letters_are_made_small(inner, i);
    }
    if small.len() > 0 {
        letters_are_made_small(inner, 0);
        letters_are_made_small(inner, inner.len() - 1);
        what_is_white_space(inner[0]);
        what_is_white_space(inner[inner.len() - 1]);
        what_is_white_space(small[0]);
        what_is_white_space(small[small.len() - 1]);
    }
    what_is_plain_is_read_as_it_is(small);
}

/// Every `hz` at the end of a text is left out, and nothing else is.
pub proof fn every_hz_is_left_out(text: Seq<char>)
    ensures
        without_hz(text + "hz"@) == without_hz(text),
        without_hz(text).len() <= text.len(),
        without_hz(text) == text.take(without_hz(text).len() as int),
        without_hz(text).len() >= 2 ==> !(without_hz(text)[without_hz(text).len() - 2] == 'h'
            && without_hz(text).last() == 'z'),
        text.len() < 2 || text[text.len() - 2] != 'h' || text.last() != 'z' ==> without_hz(text)
            == text,
    decreases text.len(),
{
    reveal_strlit("hz");
    let more = text + "hz"@;
    assert(more.len() == text.len() + 2);
    assert(more[more.len() - 2] == 'h' && more[more.len() - 1] == 'z');
    assert(more.subrange(0, more.len() - 2) =~= text);
    if text.len() >= 2 && text[text.len() - 2] == 'h' && text.last() == 'z' {
        let rest = text.subrange(0, text.len() - 2);
        every_hz_is_left_out(rest);
        assert(rest.take(without_hz(rest).len() as int) =~= text.take(
            without_hz(rest).len() as int,
        ));
    } else {
        assert(text.take(text.len() as int) =~= text);
    }
}

/// White space around a text is all that goes: what has none at its ends is what
/// is left.
pub proof fn white_space_around_a_text_goes(front: Seq<char>, text: Seq<char>, back: Seq<char>)
    requires
        forall|k: int| 0 <= k < front.len() ==> is_space(#[trigger] front[k]),
        forall|k: int| 0 <= k < back.len() ==> is_space(#[trigger] back[k]),
        text.len() > 0 ==> !is_space(text.first()) && !is_space(text.last()),
    ensures
        trimmed(front + text + back) == text,
        read(front + text + back) == lowered(text),
{
    let all = front + text + back;
    let start = front.len() as int;
    let end = start + text.len();
    trimming_takes_the_ends_off(all);
    let (from, to) = choose|from: int, to: int|
        {
            &&& 0 <= from <= to <= all.len()
            &&& trimmed(all) == #[trigger] all.subrange(from, to)
            &&& forall|k: int| 0 <= k < from ==> is_space(#[trigger] all[k])
            &&& forall|k: int| to <= k < all.len() ==> is_space(#[trigger] all[k])
        };
    assert forall|k: int| 0 <= k < start implies is_space(#[trigger] all[k]) by {
        assert(all[k] == front[k]);
    }
    assert forall|k: int| end <= k < all.len() implies is_space(#[trigger] all[k]) by {
        assert(all[k] == back[k - end]);
    }
    if from < to {
        assert(trimmed(all).first() == all[from]);
        assert(trimmed(all).last() == all[to - 1]);
    }
    if text.len() > 0 {
        assert(all[start] == text.first());
        assert(all[end - 1] == text.last());
        assert(from == start && to == end);
        assert(all.subrange(start, end) =~= text);
    } else {
        assert(from == to);
        assert(all.subrange(from, to) =~= text);
    }
}

} // verus!
