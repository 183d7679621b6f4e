//! Monitors: where they sit on the desktop and how they are driven.
//!
//! A configuration names connectors and says where each goes, outright or
//! beside another; whatever it leaves out is worked out here. A monitor the
//! configuration gets wrong still gets a position, because a screen nobody can
//! see is worse than one in the wrong place.

use crate::density::{dense, is_dense};
use crate::double::{equal, equals};
use crate::geometry::{merging_spans_both, Rect, Size};
use crate::number::{
    a_whole_rate_is_itself, all_digits, is_digit, negative, positive, positive_of, rate, rate_of,
    unsigned, value,
};
use crate::text::{
    every_hz_is_left_out, find as find_char, first_at, first_at_is_first, is_space, part, read,
    spells, strip_hz, trim, trimmed, what_is_plain_is_read_as_it_is, what_is_white_space,
    white_space_around_a_text_goes, without_hz, word,
};
use vstd::prelude::*;

verus! {

/// Which side of another monitor a screen sits on.
#[derive(Clone, Copy, Debug, PartialEq, Eq, Structural)]
pub enum Side {
    Left,
    Right,
    Above,
    Below,
}

/// How the other axis lines up when one monitor is placed beside another.
#[derive(Clone, Copy, Debug, PartialEq, Eq, Structural)]
pub enum Align {
    /// Top edges, or left edges.
    Start,
    /// The middles: it halves the strip that belongs to no screen.
    Centre,
    /// Bottom edges, or right edges.
    End,
}

impl Default for Align {
    fn default() -> (align: Self)
        ensures
            align == Align::Centre,
    {
        Align::Centre
    }
}

/// Which mode to drive a monitor at.
#[derive(Clone, Copy, Debug, PartialEq, Eq, Structural)]
pub enum Wanted {
    /// The highest refresh rate at the monitor's preferred resolution.
    Best,
    /// Exactly what the monitor prefers, refresh rate included.
    Preferred,
    /// The largest resolution, at its highest refresh rate.
    Widest,
    /// A particular mode. No refresh means the highest at this resolution.
    Exact { width: i32, height: i32, refresh: Option<i32> },
}

impl Default for Wanted {
    fn default() -> (wanted: Self)
        ensures
            wanted == Wanted::Best,
    {
        Wanted::Best
    }
}

/// How many device pixels to a logical one.
#[derive(Clone, Copy, Debug)]
pub enum Scaling {
    /// Worked out from the panel's physical size and its mode.
    Auto,
    /// What the configuration said, as the bits of a double.
    Fixed(u64),
}

impl PartialEq for Scaling {
    fn eq(&self, other: &Self) -> (r: bool) {
        match (self, other) {
            (Scaling::Auto, Scaling::Auto) => true,
            (Scaling::Fixed(one), Scaling::Fixed(other)) => equals(*one, *other),
            _ => false,
        }
    }
}

/// Scales are compared as the doubles they are.
impl vstd::std_specs::cmp::PartialEqSpecImpl for Scaling {
    open spec fn obeys_eq_spec() -> bool {
        true
    }

    open spec fn eq_spec(&self, other: &Self) -> bool {
        match (self, other) {
            (Scaling::Auto, Scaling::Auto) => true,
            (Scaling::Fixed(one), Scaling::Fixed(other)) => equal(*one, *other),
            _ => false,
        }
    }
}

impl Default for Scaling {
    fn default() -> (scaling: Self)
        ensures
            scaling == Scaling::Auto,
    {
        Scaling::Auto
    }
}

/// How a monitor's picture is turned.
#[derive(Clone, Copy, Debug, PartialEq, Eq, Structural)]
pub enum Transform {
    Normal,
    _90,
    _180,
    _270,
    Flipped,
    Flipped90,
    Flipped180,
    Flipped270,
}

/// The scale a panel of this size, in millimetres, and this mode probably
/// wants. One that does not say how big it is gets 1.
pub fn automatic(physical: Size, mode: Size) -> (scale: u32)
    ensures
        scale == if is_dense(physical.w, mode.w) {
            2u32
        } else {
            1u32
        },
{
    if dense(physical.w, mode.w) {
        2
    } else {
        1
    }
}

/// The bits of the double 0.5.
pub const LEAST_SCALE: u64 = 0x3fe0_0000_0000_0000;

/// The bits of the double 8.0.
pub const MOST_SCALE: u64 = 0x4020_0000_0000_0000;

/// A scale by the way a configuration writes one, as the bits of a double.
/// Anything outside 0.5 to 8 is refused: doubles from zero up are in the order
/// of their bits, and the negative ones and those that are not numbers have
/// bits past every other.
pub fn scaling(value: u64) -> (scale: Option<Scaling>)
    ensures
        scale == if LEAST_SCALE <= value <= MOST_SCALE {
            Some(Scaling::Fixed(value))
        } else {
            None
        },
{
    if LEAST_SCALE <= value && value <= MOST_SCALE {
        Some(Scaling::Fixed(value))
    } else {
        None
    }
}

/// A resolution as a configuration writes one, width `x` height, both above
/// nothing, at a refresh rate or at none in particular.
pub open spec fn resolution(size: Seq<char>, refresh: Option<i32>) -> Option<Wanted> {
    match first_at(size, 'x') {
        None => None,
        Some(x) => match (
            positive(trimmed(size.subrange(0, x))),
            positive(trimmed(size.subrange(x + 1, size.len() as int))),
        ) {
            (Some(width), Some(height)) => Some(Wanted::Exact { width, height, refresh }),
            _ => None,
        },
    }
}

/// The mode a configuration's word stands for.
pub open spec fn mode_of(text: Seq<char>) -> Option<Wanted> {
    let text = read(text);
    if text == "best"@ || text == "auto"@ || text == ""@ {
        Some(Wanted::Best)
    } else if text == "preferred"@ {
        Some(Wanted::Preferred)
    } else if text == "widest"@ || text == "highres"@ {
        Some(Wanted::Widest)
    } else {
        match first_at(text, '@') {
            None => resolution(text, None),
            Some(at) => match rate(
                trimmed(without_hz(text.subrange(at + 1, text.len() as int))),
            ) {
                None => None,
                Some(refresh) => resolution(text.subrange(0, at), Some(refresh)),
            },
        }
    }
}

fn read_resolution(size: &Vec<char>, refresh: Option<i32>) -> (r: Option<Wanted>)
    ensures
        r == resolution(size@, refresh),
{
    let x: usize = match find_char(size, 'x') {
        None => {
            return None;
        },
        Some(x) => x,
    };
    let width = part(size, 0, x);
    let width = trim(&width);
    let height = part(size, x + 1, size.len());
    let height = trim(&height);
    match (positive_of(&width), positive_of(&height)) {
        (Some(width), Some(height)) => Some(Wanted::Exact { width, height, refresh }),
        _ => None,
    }
}

/// A mode by the way a configuration writes one: a word, or a resolution such
/// as `2560x1440`, or a resolution and a rate such as `2560x1440@59.94Hz`.
/// `None` for what does not read, rather than a guess.
pub fn mode(text: &str) -> (wanted: Option<Wanted>)
    ensures
        wanted == mode_of(text@),
        text@ == "best"@ || text@ == "auto"@ || text@ == ""@ ==> wanted == Some(Wanted::Best),
        text@ == "preferred"@ ==> wanted == Some(Wanted::Preferred),
        text@ == "widest"@ || text@ == "highres"@ ==> wanted == Some(Wanted::Widest),
{
    proof {
        the_words_for_modes();
    }
    let text = word(text);
    if spells(&text, "best") || spells(&text, "auto") || spells(&text, "") {
        return Some(Wanted::Best);
    }
    if spells(&text, "preferred") {
        return Some(Wanted::Preferred);
    }
    if spells(&text, "widest") || spells(&text, "highres") {
        return Some(Wanted::Widest);
    }
    match find_char(&text, '@') {
        None => read_resolution(&text, None),
        Some(at) => {
            let refresh = part(&text, at + 1, text.len());
            let refresh = strip_hz(&refresh);
            let refresh = trim(&refresh);
            match rate_of(&refresh) {
                None => None,
                Some(refresh) => {
                    let size = part(&text, 0, at);
                    read_resolution(&size, Some(refresh))
                },
            }
        },
    }
}

/// The transform a configuration's word stands for.
pub open spec fn transform_of(text: Seq<char>) -> Option<Transform> {
    let text = read(text);
    if text == "normal"@ || text == "0"@ {
        Some(Transform::Normal)
    } else if text == "90"@ {
        Some(Transform::_90)
    } else if text == "180"@ {
        Some(Transform::_180)
    } else if text == "270"@ {
        Some(Transform::_270)
    } else if text == "flipped"@ || text == "flipped-0"@ {
        Some(Transform::Flipped)
    } else if text == "flipped-90"@ {
        Some(Transform::Flipped90)
    } else if text == "flipped-180"@ {
        Some(Transform::Flipped180)
    } else if text == "flipped-270"@ {
        Some(Transform::Flipped270)
    } else {
        None
    }
}

/// A transform by the way a configuration writes one.
pub fn transform(name: &str) -> (transform: Option<Transform>)
    ensures
        transform == transform_of(name@),
        name@ == "normal"@ || name@ == "0"@ ==> transform == Some(Transform::Normal),
        name@ == "90"@ ==> transform == Some(Transform::_90),
        name@ == "180"@ ==> transform == Some(Transform::_180),
        name@ == "270"@ ==> transform == Some(Transform::_270),
        name@ == "flipped"@ || name@ == "flipped-0"@ ==> transform == Some(Transform::Flipped),
        name@ == "flipped-90"@ ==> transform == Some(Transform::Flipped90),
        name@ == "flipped-180"@ ==> transform == Some(Transform::Flipped180),
        name@ == "flipped-270"@ ==> transform == Some(Transform::Flipped270),
{
    proof {
        the_words_for_transforms();
    }
    let name = word(name);
    if spells(&name, "normal") || spells(&name, "0") {
        Some(Transform::Normal)
    } else if spells(&name, "90") {
        Some(Transform::_90)
    } else if spells(&name, "180") {
        Some(Transform::_180)
    } else if spells(&name, "270") {
        Some(Transform::_270)
    } else if spells(&name, "flipped") || spells(&name, "flipped-0") {
        Some(Transform::Flipped)
    } else if spells(&name, "flipped-90") {
        Some(Transform::Flipped90)
    } else if spells(&name, "flipped-180") {
        Some(Transform::Flipped180)
    } else if spells(&name, "flipped-270") {
        Some(Transform::Flipped270)
    } else {
        None
    }
}

/// The alignment a configuration's word stands for.
pub open spec fn align_of(text: Seq<char>) -> Option<Align> {
    let text = read(text);
    if text == "start"@ || text == "top"@ || text == "left"@ {
        Some(Align::Start)
    } else if text == "centre"@ || text == "center"@ || text == "middle"@ {
        Some(Align::Centre)
    } else if text == "end"@ || text == "bottom"@ || text == "right"@ {
        Some(Align::End)
    } else {
        None
    }
}

/// An alignment by the way a configuration writes one.
pub fn align(name: &str) -> (align: Option<Align>)
    ensures
        align == align_of(name@),
        name@ == "start"@ || name@ == "top"@ || name@ == "left"@ ==> align == Some(Align::Start),
        name@ == "centre"@ || name@ == "center"@ || name@ == "middle"@ ==> align == Some(
            Align::Centre,
        ),
        name@ == "end"@ || name@ == "bottom"@ || name@ == "right"@ ==> align == Some(Align::End),
{
    proof {
        the_words_for_alignments();
    }
    let name = word(name);
    if spells(&name, "start") || spells(&name, "top") || spells(&name, "left") {
        Some(Align::Start)
    } else if spells(&name, "centre") || spells(&name, "center") || spells(&name, "middle") {
        Some(Align::Centre)
    } else if spells(&name, "end") || spells(&name, "bottom") || spells(&name, "right") {
        Some(Align::End)
    } else {
        None
    }
}

/// Whether the pixel at `x`, `y` is on a screen.
pub open spec fn on_screen(screen: Rect, x: int, y: int) -> bool {
    &&& screen.loc.x <= x < screen.loc.x + screen.size.w
    &&& screen.loc.y <= y < screen.loc.y + screen.size.h
}

/// The first screen that has the pixel at `x`, `y`, if any has.
pub fn at(screens: &Vec<Rect>, x: i64, y: i64) -> (found: Option<usize>)
    ensures
        match found {
            Some(i) => {
                &&& i < screens.len()
                &&& on_screen(screens@[i as int], x as int, y as int)
                &&& forall|k: int|
                    0 <= k < i ==> !on_screen(#[trigger] screens@[k], x as int, y as int)
            },
            None => forall|k: int|
                0 <= k < screens.len() ==> !on_screen(#[trigger] screens@[k], x as int, y as int),
        },
{
    let mut i: usize = 0;
    while i < screens.len()
        invariant
            i <= screens.len(),
            forall|k: int| 0 <= k < i ==> !on_screen(#[trigger] screens@[k], x as int, y as int),
        decreases screens.len() - i,
    {
        let screen = screens[i];
        let left: i64 = screen.loc.x as i64;
        let top: i64 = screen.loc.y as i64;
        if left <= x && x < left + screen.size.w as i64 && top <= y && y < top
            + screen.size.h as i64 {
            return Some(i);
        }
        i = i + 1;
    }
    None
}

/// The screen whose centre is nearest, out of the distances to all of them;
/// the first of those that are equally near.
pub fn nearest(distances: &Vec<i64>) -> (found: Option<usize>)
    ensures
        match found {
            Some(i) => {
                &&& i < distances.len()
                &&& forall|k: int| 0 <= k < distances.len() ==> distances@[i as int] <= distances@[k]
                &&& forall|k: int| 0 <= k < i ==> distances@[i as int] < distances@[k]
            },
            None => distances.len() == 0,
        },
{
    if distances.len() == 0 {
        return None;
    }
    let mut best: usize = 0;
    let mut i: usize = 1;
    while i < distances.len()
        invariant
            best < i <= distances.len(),
            forall|k: int| 0 <= k < i ==> distances@[best as int] <= distances@[k],
            forall|k: int| 0 <= k < best ==> distances@[best as int] < distances@[k],
        decreases distances.len() - i,
    {
        if distances[i] < distances[best] {
            best = i;
        }
        i = i + 1;
    }
    Some(best)
}

/// What merging some screens in their order gives.
pub open spec fn union_of(screens: Seq<Rect>) -> Option<Rect>
    decreases screens.len(),
{
    if screens.len() == 0 {
        None
    } else if screens.len() == 1 {
        Some(screens[0])
    } else {
        Some(union_of(screens.drop_last())->0.joined(screens.last()))
    }
}

/// The rectangle around all the screens there are, if there are any.
pub fn union(screens: &Vec<Rect>) -> (whole: Option<Rect>)
    ensures
        whole == union_of(screens@),
{
    if screens.len() == 0 {
        return None;
    }
    let mut whole = screens[0];
    let mut i: usize = 1;
    assert(screens@.subrange(0, 1) =~= seq![screens@[0]]);
    while i < screens.len()
        invariant
            1 <= i <= screens.len(),
            union_of(screens@.subrange(0, i as int)) == Some(whole),
        decreases screens.len() - i,
    {
        whole = whole.merge(screens[i]);
        assert(screens@.subrange(0, i + 1).drop_last() =~= screens@.subrange(0, i as int));
        i = i + 1;
    }
    assert(screens@.subrange(0, screens.len() as int) =~= screens@);
    Some(whole)
}

/// A word in small letters, digits and dashes is written the way it is read.
proof fn a_small_word_is_plain(word: Seq<char>)
    requires
        forall|i: int|
            0 <= i < word.len() ==> 'a' <= #[trigger] word[i] <= 'z' || '0' <= word[i] <= '9'
                || word[i] == '-' || word[i] == '@' || word[i] == '.',
    ensures
        read(word) == word,
{
    if word.len() > 0 {
        what_is_white_space(word[0]);
        what_is_white_space(word[word.len() - 1]);
    }
    what_is_plain_is_read_as_it_is(word);
}

/// Each word for a transform stands for that transform alone, however it is
/// written, and nothing but its words stands for it: the degrees are those that
/// are written, and a picture is flipped where the word says so.
pub proof fn a_transform_by_its_word(text: Seq<char>)
    ensures
        transform_of(text) == Some(Transform::Normal) <==> read(text) == "normal"@
            || read(text) == "0"@,
        transform_of(text) == Some(Transform::_90) <==> read(text) == "90"@,
        transform_of(text) == Some(Transform::_180) <==> read(text) == "180"@,
        transform_of(text) == Some(Transform::_270) <==> read(text) == "270"@,
        transform_of(text) == Some(Transform::Flipped) <==> read(text) == "flipped"@
            || read(text) == "flipped-0"@,
        transform_of(text) == Some(Transform::Flipped90) <==> read(text) == "flipped-90"@,
        transform_of(text) == Some(Transform::Flipped180) <==> read(text) == "flipped-180"@,
        transform_of(text) == Some(Transform::Flipped270) <==> read(text) == "flipped-270"@,
{
    reveal_strlit("normal");
    reveal_strlit("0");
    reveal_strlit("90");
    reveal_strlit("180");
    reveal_strlit("270");
    reveal_strlit("flipped");
    reveal_strlit("flipped-0");
    reveal_strlit("flipped-90");
    reveal_strlit("flipped-180");
    reveal_strlit("flipped-270");
    assert("normal"@.len() == 6);
    assert("0"@.len() == 1);
    assert("90"@.len() == 2);
    assert("180"@.len() == 3);
    assert("270"@.len() == 3);
    assert("flipped"@.len() == 7);
    assert("flipped-0"@.len() == 9);
    assert("flipped-90"@.len() == 10);
    assert("flipped-180"@.len() == 11);
    assert("flipped-270"@.len() == 11);
    assert("180"@[0] != "270"@[0]);
    assert("flipped-180"@[8] != "flipped-270"@[8]);
}

/// Each word for an alignment stands for that alignment alone, and nothing else
/// does: the top and the left are where things start, and the bottom and the
/// right are where they end.
pub proof fn an_alignment_by_its_word(text: Seq<char>)
    ensures
        align_of(text) == Some(Align::Start) <==> read(text) == "start"@
            || read(text) == "top"@
            || read(text) == "left"@,
        align_of(text) == Some(Align::Centre) <==> read(text) == "centre"@
            || read(text) == "center"@
            || read(text) == "middle"@,
        align_of(text) == Some(Align::End) <==> read(text) == "end"@
            || read(text) == "bottom"@
            || read(text) == "right"@,
{
    reveal_strlit("start");
    reveal_strlit("top");
    reveal_strlit("left");
    reveal_strlit("centre");
    reveal_strlit("center");
    reveal_strlit("middle");
    reveal_strlit("end");
    reveal_strlit("bottom");
    reveal_strlit("right");
    assert("start"@.len() == 5);
    assert("top"@.len() == 3);
    assert("left"@.len() == 4);
    assert("centre"@.len() == 6);
    assert("center"@.len() == 6);
    assert("middle"@.len() == 6);
    assert("end"@.len() == 3);
    assert("bottom"@.len() == 6);
    assert("right"@.len() == 5);
    assert("start"@[0] != "right"@[0]);
    assert("top"@[0] != "end"@[0]);
    assert("centre"@[4] != "center"@[4]);
    assert("centre"@[0] != "middle"@[0]);
    assert("centre"@[0] != "bottom"@[0]);
    assert("center"@[0] != "middle"@[0]);
    assert("center"@[0] != "bottom"@[0]);
    assert("middle"@[0] != "bottom"@[0]);
}

/// The words for the transforms, as they are documented.
pub proof fn the_words_for_transforms()
    ensures
        transform_of("normal"@) == Some(Transform::Normal),
        transform_of("0"@) == Some(Transform::Normal),
        transform_of("90"@) == Some(Transform::_90),
        transform_of("180"@) == Some(Transform::_180),
        transform_of("270"@) == Some(Transform::_270),
        transform_of("flipped"@) == Some(Transform::Flipped),
        transform_of("flipped-0"@) == Some(Transform::Flipped),
        transform_of("flipped-90"@) == Some(Transform::Flipped90),
        transform_of("flipped-180"@) == Some(Transform::Flipped180),
        transform_of("flipped-270"@) == Some(Transform::Flipped270),
{
    reveal_strlit("normal");
    reveal_strlit("0");
    reveal_strlit("90");
    reveal_strlit("180");
    reveal_strlit("270");
    reveal_strlit("flipped");
    reveal_strlit("flipped-0");
    reveal_strlit("flipped-90");
    reveal_strlit("flipped-180");
    reveal_strlit("flipped-270");
    a_small_word_is_plain("normal"@);
    a_small_word_is_plain("0"@);
    a_small_word_is_plain("90"@);
    a_small_word_is_plain("180"@);
    a_small_word_is_plain("270"@);
    a_small_word_is_plain("flipped"@);
    a_small_word_is_plain("flipped-0"@);
    a_small_word_is_plain("flipped-90"@);
    a_small_word_is_plain("flipped-180"@);
    a_small_word_is_plain("flipped-270"@);
    a_transform_by_its_word("normal"@);
    a_transform_by_its_word("0"@);
    a_transform_by_its_word("90"@);
    a_transform_by_its_word("180"@);
    a_transform_by_its_word("270"@);
    a_transform_by_its_word("flipped"@);
    a_transform_by_its_word("flipped-0"@);
    a_transform_by_its_word("flipped-90"@);
    a_transform_by_its_word("flipped-180"@);
    a_transform_by_its_word("flipped-270"@);
}

/// The words for the alignments, as they are documented.
pub proof fn the_words_for_alignments()
    ensures
        align_of("start"@) == Some(Align::Start),
        align_of("top"@) == Some(Align::Start),
        align_of("left"@) == Some(Align::Start),
        align_of("centre"@) == Some(Align::Centre),
        align_of("center"@) == Some(Align::Centre),
        align_of("middle"@) == Some(Align::Centre),
        align_of("end"@) == Some(Align::End),
        align_of("bottom"@) == Some(Align::End),
        align_of("right"@) == Some(Align::End),
{
    reveal_strlit("start");
    reveal_strlit("top");
    reveal_strlit("left");
    reveal_strlit("centre");
    reveal_strlit("center");
    reveal_strlit("middle");
    reveal_strlit("end");
    reveal_strlit("bottom");
    reveal_strlit("right");
    a_small_word_is_plain("start"@);
    a_small_word_is_plain("top"@);
    a_small_word_is_plain("left"@);
    a_small_word_is_plain("centre"@);
    a_small_word_is_plain("center"@);
    a_small_word_is_plain("middle"@);
    a_small_word_is_plain("end"@);
    a_small_word_is_plain("bottom"@);
    a_small_word_is_plain("right"@);
    an_alignment_by_its_word("start"@);
    an_alignment_by_its_word("top"@);
    an_alignment_by_its_word("left"@);
    an_alignment_by_its_word("centre"@);
    an_alignment_by_its_word("center"@);
    an_alignment_by_its_word("middle"@);
    an_alignment_by_its_word("end"@);
    an_alignment_by_its_word("bottom"@);
    an_alignment_by_its_word("right"@);
}

/// The words for the modes, however they are written.
pub proof fn a_mode_by_its_word(text: Seq<char>)
    ensures
        read(text) == "best"@
            || read(text) == "auto"@
            || read(text) == ""@
            ==> mode_of(text) == Some(Wanted::Best),
        mode_of(text) == Some(Wanted::Best) ==> read(text) == "best"@
            || read(text) == "auto"@
            || read(text) == ""@,
        read(text) == "preferred"@ ==> mode_of(text) == Some(Wanted::Preferred),
        mode_of(text) == Some(Wanted::Preferred) ==> read(text) == "preferred"@,
        read(text) == "widest"@
            || read(text) == "highres"@
            ==> mode_of(text) == Some(Wanted::Widest),
        mode_of(text) == Some(Wanted::Widest) ==> read(text) == "widest"@
            || read(text) == "highres"@,
{
    reveal_strlit("best");
    reveal_strlit("auto");
    reveal_strlit("");
    reveal_strlit("preferred");
    reveal_strlit("widest");
    reveal_strlit("highres");
    assert("best"@.len() == 4);
    assert("auto"@.len() == 4);
    assert(""@.len() == 0);
    assert("preferred"@.len() == 9);
    assert("widest"@.len() == 6);
    assert("highres"@.len() == 7);
    assert("best"@[0] != "auto"@[0]);
}

/// The words for the modes, as they are documented.
pub proof fn the_words_for_modes()
    ensures
        mode_of("best"@) == Some(Wanted::Best),
        mode_of("auto"@) == Some(Wanted::Best),
        mode_of(""@) == Some(Wanted::Best),
        mode_of("preferred"@) == Some(Wanted::Preferred),
        mode_of("widest"@) == Some(Wanted::Widest),
        mode_of("highres"@) == Some(Wanted::Widest),
{
    reveal_strlit("best");
    reveal_strlit("auto");
    reveal_strlit("");
    reveal_strlit("preferred");
    reveal_strlit("widest");
    reveal_strlit("highres");
    a_small_word_is_plain("best"@);
    a_small_word_is_plain("auto"@);
    a_small_word_is_plain(""@);
    a_small_word_is_plain("preferred"@);
    a_small_word_is_plain("widest"@);
    a_small_word_is_plain("highres"@);
    a_mode_by_its_word("best"@);
    a_mode_by_its_word("auto"@);
    a_mode_by_its_word(""@);
    a_mode_by_its_word("preferred"@);
    a_mode_by_its_word("widest"@);
    a_mode_by_its_word("highres"@);
}

proof fn is_first_there(text: Seq<char>, c: char, i: int)
    requires
        0 <= i < text.len(),
        text[i] == c,
        forall|k: int| 0 <= k < i ==> text[k] != c,
    ensures
        first_at(text, c) == Some(i),
{
    first_at_is_first(text, c);
}

/// A resolution is its width and its height, each the number it is written as, at
/// whatever rate.
pub proof fn a_resolution_is_what_is_written(
    width: Seq<char>,
    height: Seq<char>,
    refresh: Option<i32>,
)
    requires
        width.len() > 0,
        height.len() > 0,
        all_digits(width),
        all_digits(height),
    ensures
        resolution(width + "x"@ + height, refresh) == if 1 <= value(width) <= 0x7fff_ffff && 1
            <= value(height) <= 0x7fff_ffff {
            Some(
                Wanted::Exact {
                    width: value(width) as i32,
                    height: value(height) as i32,
                    refresh,
                },
            )
        } else {
            None
        },
{
    reveal_strlit("x");
    let size = width + "x"@ + height;
    let at = width.len() as int;
    assert forall|k: int| 0 <= k < at implies size[k] != 'x' by {
        assert(is_digit(width[k]));
    }
    is_first_there(size, 'x', at);
    assert(size.subrange(0, at) =~= width);
    assert(size.subrange(at + 1, size.len() as int) =~= height);
    digits_are_not_trimmed(width);
    digits_are_not_trimmed(height);
}

proof fn digits_are_not_trimmed(digits: Seq<char>)
    requires
        digits.len() > 0,
        all_digits(digits),
    ensures
        trimmed(digits) == digits,
        unsigned(digits) == digits,
        !negative(digits),
{
    assert(is_digit(digits[0]));
    assert(is_digit(digits[digits.len() - 1]));
    what_is_white_space(digits[0]);
    what_is_white_space(digits[digits.len() - 1]);
}

/// A mode that is a width and a height alone is that resolution, at no rate in
/// particular.
pub proof fn a_mode_without_a_rate(width: Seq<char>, height: Seq<char>)
    requires
        width.len() > 0,
        height.len() > 0,
        all_digits(width),
        all_digits(height),
        1 <= value(width) <= 0x7fff_ffff,
        1 <= value(height) <= 0x7fff_ffff,
    ensures
        mode_of(width + "x"@ + height) == Some(
            Wanted::Exact {
                width: value(width) as i32,
                height: value(height) as i32,
                refresh: None,
            },
        ),
{
    reveal_strlit("x");
    let text = width + "x"@ + height;
    assert forall|i: int| 0 <= i < text.len() implies 'a' <= #[trigger] text[i] <= 'z' || '0'
        <= text[i] <= '9' || text[i] == '-' || text[i] == '@' || text[i] == '.' by {
        if i < width.len() {
            assert(is_digit(width[i]));
        } else if i > width.len() {
            assert(is_digit(height[i - width.len() - 1]));
        }
    }
    a_small_word_is_plain(text);
    not_a_word(text);
    first_at_is_first(text, '@');
    if let Some(i) = first_at(text, '@') {
        if i < width.len() {
            assert(is_digit(width[i]));
        } else if i > width.len() {
            assert(is_digit(height[i - width.len() - 1]));
        }
    }
    a_resolution_is_what_is_written(width, height, None);
}

proof fn not_a_word(text: Seq<char>)
    requires
        text.len() > 0,
        is_digit(text[0]),
    ensures
        text != "best"@,
        text != "auto"@,
        text != ""@,
        text != "preferred"@,
        text != "widest"@,
        text != "highres"@,
{
    reveal_strlit("best");
    reveal_strlit("auto");
    reveal_strlit("");
    reveal_strlit("preferred");
    reveal_strlit("widest");
    reveal_strlit("highres");
    assert("best"@[0] == 'b' && "auto"@[0] == 'a' && "preferred"@[0] == 'p' && "widest"@[0] == 'w'
        && "highres"@[0] == 'h');
}

/// A mode that is a width, a height and a whole rate is that resolution at that
/// rate, with the unit behind it or without.
pub proof fn a_mode_with_a_rate(width: Seq<char>, height: Seq<char>, hertz: Seq<char>)
    requires
        width.len() > 0,
        height.len() > 0,
        hertz.len() > 0,
        all_digits(width),
        all_digits(height),
        all_digits(hertz),
        1 <= value(width) <= 0x7fff_ffff,
        1 <= value(height) <= 0x7fff_ffff,
        1 <= value(hertz) <= 0x7fff_ffff,
    ensures
        ({
            let wanted = Some(
                Wanted::Exact {
                    width: value(width) as i32,
                    height: value(height) as i32,
                    refresh: Some(value(hertz) as i32),
                },
            );
            &&& mode_of(width + "x"@ + height + "@"@ + hertz) == wanted
            &&& mode_of(width + "x"@ + height + "@"@ + hertz + "hz"@) == wanted
        }),
{
    reveal_strlit("x");
    reveal_strlit("@");
    reveal_strlit("hz");
    digits_are_not_trimmed(hertz);
    a_whole_rate_is_itself(hertz);
    assert(is_digit(hertz[hertz.len() - 1]));
    every_hz_is_left_out(hertz);
    a_mode_at_a_rate(width, height, hertz);
    a_mode_at_a_rate(width, height, hertz + "hz"@);
    assert(width + "x"@ + height + "@"@ + (hertz + "hz"@) =~= width + "x"@ + height + "@"@ + hertz
        + "hz"@);
}

/// A mode at a rate that is written in digits and small letters is the resolution
/// at what the rate is read as, and none where it is not read as one.
pub proof fn a_mode_at_a_rate(width: Seq<char>, height: Seq<char>, hertz: Seq<char>)
    requires
        width.len() > 0,
        height.len() > 0,
        all_digits(width),
        all_digits(height),
        1 <= value(width) <= 0x7fff_ffff,
        1 <= value(height) <= 0x7fff_ffff,
        forall|i: int|
            0 <= i < hertz.len() ==> 'a' <= #[trigger] hertz[i] <= 'z' || '0' <= hertz[i] <= '9'
                || hertz[i] == '-' || hertz[i] == '.' || hertz[i] == '+' || hertz[i] == ' ',
        hertz.len() > 0 ==> hertz[hertz.len() - 1] != ' ',
    ensures
        mode_of(width + "x"@ + height + "@"@ + hertz) == match rate(trimmed(without_hz(hertz))) {
            Some(refresh) => Some(
                Wanted::Exact {
                    width: value(width) as i32,
                    height: value(height) as i32,
                    refresh: Some(refresh),
                },
            ),
            None => None,
        },
{
    reveal_strlit("x");
    reveal_strlit("@");
    let size = width + "x"@ + height;
    let text = size + "@"@ + hertz;
    let at = size.len() as int;
    assert forall|i: int| 0 <= i < at implies '0' <= #[trigger] size[i] <= '9' || size[i]
        == 'x' by {
        if i < width.len() {
            assert(is_digit(width[i]));
        } else if i > width.len() {
            assert(is_digit(height[i - width.len() - 1]));
        }
    }
    assert forall|i: int| 0 <= i < text.len() implies !('A' <= #[trigger] text[i] <= 'Z') by {
        if i < at {
            assert(text[i] == size[i]);
        } else if i > at {
            assert(text[i] == hertz[i - at - 1]);
        }
    }
    assert(text[0] == size[0]);
    assert(is_digit(width[0]));
    what_is_white_space(text[0]);
    what_is_white_space(text.last());
    assert(text.last() == if hertz.len() > 0 {
        hertz[hertz.len() - 1]
    } else {
        '@'
    });
    what_is_plain_is_read_as_it_is(text);
    not_a_word(text);
    assert(text[at] == '@');
    assert forall|k: int| 0 <= k < at implies text[k] != '@' by {
        assert(text[k] == size[k]);
    }
    is_first_there(text, '@', at);
    assert(text.subrange(0, at) =~= size);
    assert(text.subrange(at + 1, text.len() as int) =~= hertz);
    match rate(trimmed(without_hz(hertz))) {
        Some(refresh) => {
            a_resolution_is_what_is_written(width, height, Some(refresh));
        },
        None => {},
    }
}

/// However a mode is written, a resolution that comes of it has something of both
/// sides and a rate that is not below nothing, if it has one; and what has no `x`
/// in it and is none of the words is no mode.
pub proof fn no_mode_is_of_nothing(text: Seq<char>)
    ensures
        mode_of(text) matches Some(Wanted::Exact { width, height, refresh }) ==> width >= 1
            && height >= 1 && (refresh matches Some(refresh) ==> refresh >= 0),
        mode_of(text) is Some && !(mode_of(text)->0 is Exact) ==> read(text) == "best"@ || read(
            text,
        ) == "auto"@ || read(text) == ""@ || read(text) == "preferred"@ || read(text) == "widest"@
            || read(text) == "highres"@,
        mode_of(text) matches Some(Wanted::Exact { .. }) ==> exists|i: int|
            0 <= i < read(text).len() && #[trigger] read(text)[i] == 'x',
{
    let plain = read(text);
    first_at_is_first(plain, '@');
    first_at_is_first(plain, 'x');
    if let Some(at) = first_at(plain, '@') {
        let size = plain.subrange(0, at);
        first_at_is_first(size, 'x');
        if let Some(i) = first_at(size, 'x') {
            assert(plain[i] == 'x');
        }
    }
}

/// A scale is kept from a half to eight, which are the doubles with these bits: a
/// power of two is written as 1023 more than its exponent, in front of 52 zeros.
pub proof fn scales_from_a_half_to_eight()
    ensures
        LEAST_SCALE == (1023 - 1) * 0x10_0000_0000_0000,
        MOST_SCALE == (1023 + 3) * 0x10_0000_0000_0000,
{
}

/// A pixel is on a screen where it is to the right of its left edge and below its
/// top one, by less than its width and its height.
pub proof fn a_pixel_is_on_its_screen(screen: Rect, x: int, y: int)
    ensures
        on_screen(screen, screen.loc.x + x, screen.loc.y + y) <==> 0 <= x && 0 <= y && x
            < screen.size.w && y < screen.size.h,
{
}

proof fn a_union_is_within(screens: Seq<Rect>, most: int)
    requires
        screens.len() > 0,
        0 <= most <= 0x3fff_ffff,
        forall|i: int|
            0 <= i < screens.len() ==> (#[trigger] screens[i]).size.w >= 0 && screens[i].size.h >= 0
                && -most <= screens[i].loc.x && -most <= screens[i].loc.y && screens[i].loc.x
                + screens[i].size.w <= most && screens[i].loc.y + screens[i].size.h <= most,
    ensures
        ({
            let whole = union_of(screens)->0;
            &&& union_of(screens) is Some
            &&& whole.size.w >= 0
            &&& whole.size.h >= 0
            &&& -most <= whole.loc.x
            &&& -most <= whole.loc.y
            &&& whole.loc.x + whole.size.w <= most
            &&& whole.loc.y + whole.size.h <= most
            &&& forall|i: int|
                0 <= i < screens.len() ==> whole.loc.x <= (#[trigger] screens[i]).loc.x
                    && whole.loc.y <= screens[i].loc.y && whole.loc.x + whole.size.w
                    >= screens[i].loc.x + screens[i].size.w && whole.loc.y + whole.size.h
                    >= screens[i].loc.y + screens[i].size.h
            &&& exists|i: int|
                0 <= i < screens.len() && (#[trigger] screens[i]).loc.x == whole.loc.x
            &&& exists|i: int|
                0 <= i < screens.len() && (#[trigger] screens[i]).loc.y == whole.loc.y
            &&& exists|i: int|
                0 <= i < screens.len() && (#[trigger] screens[i]).loc.x + screens[i].size.w
                    == whole.loc.x + whole.size.w
            &&& exists|i: int|
                0 <= i < screens.len() && (#[trigger] screens[i]).loc.y + screens[i].size.h
                    == whole.loc.y + whole.size.h
        }),
    decreases screens.len(),
{
    let n = screens.len() - 1;
    let last = screens[n];
    if n == 0 {
        assert(screens[0] == union_of(screens)->0);
    } else {
        let short = screens.drop_last();
        assert forall|i: int| 0 <= i < short.len() implies #[trigger] short[i] == screens[i] by {}
        a_union_is_within(short, most);
        let before = union_of(short)->0;
        merging_spans_both(before, last);
        let whole = union_of(screens)->0;
        assert(whole == before.joined(last));
        assert(screens.last() == last);
        let left = choose|i: int| 0 <= i < short.len() && (#[trigger] short[i]).loc.x
            == before.loc.x;
        let top = choose|i: int| 0 <= i < short.len() && (#[trigger] short[i]).loc.y
            == before.loc.y;
        let right = choose|i: int|
            0 <= i < short.len() && (#[trigger] short[i]).loc.x + short[i].size.w == before.loc.x
                + before.size.w;
        let bottom = choose|i: int|
            0 <= i < short.len() && (#[trigger] short[i]).loc.y + short[i].size.h == before.loc.y
                + before.size.h;
        assert(screens[left] == short[left] && screens[top] == short[top] && screens[right]
            == short[right] && screens[bottom] == short[bottom]);
        assert forall|i: int| 0 <= i < screens.len() implies whole.loc.x <= (
        #[trigger] screens[i]).loc.x && whole.loc.y <= screens[i].loc.y && whole.loc.x
            + whole.size.w >= screens[i].loc.x + screens[i].size.w && whole.loc.y + whole.size.h
            >= screens[i].loc.y + screens[i].size.h by {
            if i < n {
                assert(short[i] == screens[i]);
            }
        }
        assert(whole.loc.x == screens[left].loc.x || whole.loc.x == screens[n].loc.x);
        assert(whole.loc.y == screens[top].loc.y || whole.loc.y == screens[n].loc.y);
        assert(whole.loc.x + whole.size.w == screens[right].loc.x + screens[right].size.w
            || whole.loc.x + whole.size.w == screens[n].loc.x + screens[n].size.w);
        assert(whole.loc.y + whole.size.h == screens[bottom].loc.y + screens[bottom].size.h
            || whole.loc.y + whole.size.h == screens[n].loc.y + screens[n].size.h);
    }
}

/// The rectangle around some screens has every one of them inside it, and each of
/// its four edges is an edge of one of them, so that none smaller has. Where there
/// are no screens there is none.
pub proof fn the_union_is_the_smallest_around_all(screens: Seq<Rect>)
    requires
        forall|i: int|
            0 <= i < screens.len() ==> (#[trigger] screens[i]).size.w >= 0 && screens[i].size.h >= 0
                && -0x3fff_ffff <= screens[i].loc.x && -0x3fff_ffff <= screens[i].loc.y
                && screens[i].loc.x + screens[i].size.w <= 0x3fff_ffff && screens[i].loc.y
                + screens[i].size.h <= 0x3fff_ffff,
    ensures
        union_of(screens) is None <==> screens.len() == 0,
        screens.len() > 0 ==> ({
            let whole = union_of(screens)->0;
            &&& forall|i: int|
                0 <= i < screens.len() ==> whole.loc.x <= (#[trigger] screens[i]).loc.x
                    && whole.loc.y <= screens[i].loc.y && whole.loc.x + whole.size.w
                    >= screens[i].loc.x + screens[i].size.w && whole.loc.y + whole.size.h
                    >= screens[i].loc.y + screens[i].size.h
            &&& exists|i: int|
                0 <= i < screens.len() && (#[trigger] screens[i]).loc.x == whole.loc.x
            &&& exists|i: int|
                0 <= i < screens.len() && (#[trigger] screens[i]).loc.y == whole.loc.y
            &&& exists|i: int|
                0 <= i < screens.len() && (#[trigger] screens[i]).loc.x + screens[i].size.w
                    == whole.loc.x + whole.size.w
            &&& exists|i: int|
                0 <= i < screens.len() && (#[trigger] screens[i]).loc.y + screens[i].size.h
                    == whole.loc.y + whole.size.h
        }),
{
    if screens.len() > 0 {
        a_union_is_within(screens, 0x3fff_ffff);
    }
}

/// A resolution is two numbers with an `x` between them, whatever white space is
/// around either; where one of them is none, it is none.
pub proof fn a_resolution_is_two_numbers(
    width: Seq<char>,
    height: Seq<char>,
    refresh: Option<i32>,
)
    requires
        forall|i: int| 0 <= i < width.len() ==> width[i] != 'x',
    ensures
        ({
            let size = width + "x"@ + height;
            let across = positive(trimmed(width));
            let down = positive(trimmed(height));
            &&& across is None || down is None ==> resolution(size, refresh) is None
            &&& across is Some && down is Some ==> resolution(size, refresh) == Some(
                Wanted::Exact { width: across->0, height: down->0, refresh },
            )
        }),
        resolution(width, refresh) is None,
{
    reveal_strlit("x");
    let size = width + "x"@ + height;
    let at = width.len() as int;
    assert(size[at] == 'x');
    assert forall|k: int| 0 <= k < at implies size[k] != 'x' by {
        assert(size[k] == width[k]);
    }
    is_first_there(size, 'x', at);
    assert(size.subrange(0, at) =~= width);
    assert(size.subrange(at + 1, size.len() as int) =~= height);
    first_at_is_first(width, 'x');
}

/// White space around the numbers of a resolution changes nothing.
pub proof fn a_resolution_may_be_spaced(
    before: Seq<char>,
    width: Seq<char>,
    between: Seq<char>,
    again: Seq<char>,
    height: Seq<char>,
    after: Seq<char>,
    refresh: Option<i32>,
)
    requires
        all_digits(width),
        all_digits(height),
        forall|k: int| 0 <= k < before.len() ==> is_space(#[trigger] before[k]),
        forall|k: int| 0 <= k < between.len() ==> is_space(#[trigger] between[k]),
        forall|k: int| 0 <= k < again.len() ==> is_space(#[trigger] again[k]),
        forall|k: int| 0 <= k < after.len() ==> is_space(#[trigger] after[k]),
    ensures
        resolution((before + width + between) + "x"@ + (again + height + after), refresh)
            == resolution(width + "x"@ + height, refresh),
{
    digits_have_no_space_at_their_ends(width);
    digits_have_no_space_at_their_ends(height);
    let nothing = Seq::<char>::empty();
    white_space_around_a_text_goes(before, width, between);
    white_space_around_a_text_goes(again, height, after);
    white_space_around_a_text_goes(nothing, width, nothing);
    white_space_around_a_text_goes(nothing, height, nothing);
    assert(nothing + width + nothing =~= width);
    assert(nothing + height + nothing =~= height);
    let padded = before + width + between;
    what_is_white_space('x');
    assert forall|i: int| 0 <= i < padded.len() implies padded[i] != 'x' by {
        if i < before.len() {
            assert(padded[i] == before[i]);
        } else if i < before.len() + width.len() {
            assert(padded[i] == width[i - before.len()]);
            assert(is_digit(width[i - before.len()]));
        } else {
            assert(padded[i] == between[i - before.len() - width.len()]);
        }
    }
    assert forall|i: int| 0 <= i < width.len() implies width[i] != 'x' by {
        assert(is_digit(width[i]));
    }
    a_resolution_is_two_numbers(padded, again + height + after, refresh);
    a_resolution_is_two_numbers(width, height, refresh);
}

proof fn digits_have_no_space_at_their_ends(text: Seq<char>)
    requires
        all_digits(text),
    ensures
        text.len() > 0 ==> !is_space(text.first()) && !is_space(text.last()),
{
    if text.len() > 0 {
        assert(is_digit(text[0]));
        assert(is_digit(text[text.len() - 1]));
        what_is_white_space(text[0]);
        what_is_white_space(text[text.len() - 1]);
    }
}

} // verus!
