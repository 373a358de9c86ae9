//! Text as a terminal shows it.

use crate::fragments::concatenated;
use crate::plan::larger;
use crate::text::decimal;
use crate::text::decimal_text;
use crate::text::digit;
use crate::text::from_chars;
use crate::text::joined;
use crate::text::join_texts;
use crate::text::signed_decimal;
use crate::text::signed_decimal_text;
use crate::text::texts;
use crate::text::to_chars;
use vstd::prelude::*;
use vstd::string::StringExecFns;

verus! {

/// The columns that a text takes in a terminal.
pub uninterp spec fn display_width(text: Seq<char>) -> nat;

/// A text of printable ASCII characters.
pub open spec fn printable(text: Seq<char>) -> bool {
    forall|i: int| 0 <= i < text.len() ==> 0x20 <= (#[trigger] text[i]) as u32 <= 0x7e
}

/// Calls `unicode_width::UnicodeWidthStr::width`. The contract claims that the result depends on
/// the text alone, and that printable ASCII characters take one column each; the width of any
/// other text is left unsaid.
#[verifier::external_body]
pub(crate) fn measure(text: &str) -> (width: usize)
    ensures
        width == display_width(text@),
        printable(text@) ==> width == text@.len(),
{
    unicode_width::UnicodeWidthStr::width(text)
}

/// The extended grapheme clusters of a text.
pub uninterp spec fn graphemes(text: Seq<char>) -> Seq<Seq<char>>;

/// Calls `unicode_segmentation::UnicodeSegmentation::graphemes` for extended clusters. The
/// contract claims that the result depends on the text alone, and that the clusters one after
/// the other are the text; where the cuts are is left unsaid.
#[verifier::external_body]
pub(crate) fn split_graphemes(text: &str) -> (parts: Vec<String>)
    ensures
        texts(parts@) == graphemes(text@),
        concatenated(texts(parts@)) == text@,
{
    let parts = unicode_segmentation::UnicodeSegmentation::graphemes(text, true);
    parts.map(String::from).collect()
}

/// A line of text wrapped to a width.
pub uninterp spec fn wrapped(line: Seq<char>, width: nat) -> Seq<Seq<char>>;

/// Calls `textwrap::wrap`. The contract claims that the result depends on the line and the width
/// alone; where it breaks the line is left unsaid.
#[verifier::external_body]
pub(crate) fn wrap_line(line: &str, width: usize) -> (parts: Vec<String>)
    requires
        width >= 1,
    ensures
        texts(parts@) == wrapped(line@, width as nat),
{
    let parts = textwrap::wrap(line, width);
    parts.into_iter().map(String::from).collect()
}

/// How a time is shown: month and day, hours, minutes and seconds.
pub const STAMP_FORMAT: &'static str = "%m-%d %H:%M:%S";

/// The first and the last instant that have a date, in seconds since the beginning of 1970 UTC:
/// the beginning of the year -262143 and the end of the year 262142.
pub const FIRST_INSTANT: i64 = -8_334_601_228_800;

pub const LAST_INSTANT: i64 = 8_210_266_876_799;

/// Whether an instant has a date.
pub open spec fn dated(value: int) -> bool {
    FIRST_INSTANT <= value <= LAST_INSTANT
}

/// Whether a time zone, given by its seconds east of UTC, is less than a day away.
pub open spec fn within_a_day(offset: int) -> bool {
    -86_400 < offset < 86_400
}

/// The shape of a time that is shown: two digits each, and what stands between them.
pub open spec fn stamped_shape(text: Seq<char>) -> bool {
    &&& text.len() == 14
    &&& text[2] == '-'
    &&& text[5] == ' '
    &&& text[8] == ':'
    &&& text[11] == ':'
}

/// Whether a text of that shape shows the hour, the minute and the second of a number of seconds
/// on the local clock.
pub open spec fn clock_shown(text: Seq<char>, local: int) -> bool {
    let second = local % 86_400;
    &&& text[6] == digit(second / 3600 / 10)
    &&& text[7] == digit(second / 3600 % 10)
    &&& text[9] == digit(second / 60 % 60 / 10)
    &&& text[10] == digit(second / 60 % 60 % 10)
    &&& text[12] == digit(second % 60 / 10)
    &&& text[13] == digit(second % 60 % 10)
}

/// Calls `chrono::TimeZone::timestamp_opt` of `chrono::Local` and reads the offset of the time it
/// gives. The contract claims for which instants there is one, and that it is less than a day, as
/// every `chrono::FixedOffset` is. Which offset it is depends on the machine's time zone and is
/// left unsaid.
#[verifier::external_body]
pub(crate) fn local_offset(value: i64) -> (offset: Option<i32>)
    ensures
        offset is Some <==> dated(value as int),
        offset matches Some(seconds) ==> within_a_day(seconds as int),
{
    let time = chrono::TimeZone::timestamp_opt(&chrono::Local, value, 0).single()?;
    Some(time.offset().local_minus_utc())
}

/// An instant written in a format, as the clocks of a time zone show it.
pub uninterp spec fn stamp(value: int, offset: int, format: Seq<char>) -> Seq<char>;

/// Calls `format` of the `chrono::DateTime` that `chrono::TimeZone::timestamp_opt` gives for an
/// instant and a `chrono::FixedOffset`. The contract claims that there is a text for exactly the
/// instants that have a date, that it depends on the instant, the offset and the format alone,
/// that it has the shape which the format documents, and which hour, minute and second it shows.
/// Which month and day it shows is left to the name.
#[verifier::external_body]
pub(crate) fn format_instant(value: i64, offset: i32, format: &str) -> (text: Option<String>)
    requires
        within_a_day(offset as int),
        format@ == STAMP_FORMAT@,
    ensures
        text is Some <==> dated(value as int),
        text matches Some(text) ==> text@ == stamp(value as int, offset as int, format@)
            && stamped_shape(text@) && clock_shown(text@, value + offset),
{
    let zone = chrono::FixedOffset::east_opt(offset)?;
    let time = chrono::TimeZone::timestamp_opt(&zone, value, 0).single()?;
    Some(time.format(format).to_string())
}

/// What a time that is not known is shown as.
pub const NO_STAMP: &'static str = "—";

/// A time as it is shown in a time zone.
pub open spec fn stamp_in(value: Option<i64>, offset: int) -> Seq<char> {
    match value {
        Some(value) => if dated(value as int) {
            stamp(value as int, offset, STAMP_FORMAT@)
        } else {
            NO_STAMP@
        },
        None => NO_STAMP@,
    }
}

/// Shows a time in the time zone that is `offset` seconds east of UTC.
pub fn timestamp_in(value: Option<i64>, offset: i32) -> (text: String)
    requires
        within_a_day(offset as int),
    ensures
        text@ == stamp_in(value, offset as int),
        value matches Some(value) ==> (dated(value as int) ==> stamped_shape(text@)
            && clock_shown(text@, value + offset)),
{
    match value {
        None => NO_STAMP.to_owned(),
        Some(value) => match format_instant(value, offset, STAMP_FORMAT) {
            Some(text) => text,
            None => NO_STAMP.to_owned(),
        },
    }
}

/// Whether a text shows a time in some time zone: an instant that has a date by its own month,
/// day, hour, minute and second, anything else by a dash.
pub open spec fn stamp_of(value: Option<i64>, text: Seq<char>) -> bool {
    match value {
        Some(value) => if dated(value as int) {
            &&& stamped_shape(text)
            &&& exists|offset: int|
                within_a_day(offset) && text == #[trigger] stamp(
                    value as int,
                    offset,
                    STAMP_FORMAT@,
                ) && clock_shown(text, value + offset)
        } else {
            text == NO_STAMP@
        },
        None => text == NO_STAMP@,
    }
}

/// A time as it is shown on this machine.
pub fn timestamp(value: Option<i64>) -> (text: String)
    ensures
        stamp_of(value, text@),
{
    match value {
        None => NO_STAMP.to_owned(),
        Some(instant) => match local_offset(instant) {
            Some(offset) => timestamp_in(value, offset),
            None => NO_STAMP.to_owned(),
        },
    }
}

/// A duration in minutes and seconds; a negative one shows as none.
pub open spec fn duration_text(seconds: int) -> Seq<char> {
    let s = larger(seconds, 0);
    decimal((s / 60) as nat) + seq![':', digit(s % 60 / 10), digit(s % 60 % 10)]
}

/// Every duration fits in a few columns.
pub proof fn lemma_duration_len(seconds: i64)
    ensures
        4 <= duration_text(seconds as int).len() <= 23,
{
    let s = larger(seconds as int, 0);
    lemma_decimal_len((s / 60) as nat);
}

pub fn duration(seconds: i64) -> (text: String)
    ensures
        text@ == duration_text(seconds as int),
        printable(text@),
        4 <= text@.len() <= 23,
{
    let s: u64 = if seconds < 0 {
        0
    } else {
        seconds as u64
    };
    let minutes: u64 = s / 60;
    let rest: u64 = s % 60;
    let mut text = decimal_text(minutes);
    proof {
        lemma_decimal_printable(minutes as nat);
        lemma_decimal_len(minutes as nat);
    }
    let tens: u8 = (rest / 10) as u8;
    let ones: u8 = (rest % 10) as u8;
    let a = (48u8 + tens) as char;
    let b = (48u8 + ones) as char;
    assert(a == digit(tens as int));
    assert(b == digit(ones as int));
    let ghost before = text@;
    text.push(':');
    text.push(a);
    text.push(b);
    assert(text@ =~= before + seq![':', a, b]);
    text
}

proof fn lemma_decimal_printable(n: nat)
    ensures
        printable(decimal(n)),
    decreases n,
{
    if n >= 10 {
        lemma_decimal_printable(n / 10);
    }
}

proof fn lemma_decimal_len(n: nat)
    requires
        n <= u64::MAX,
    ensures
        1 <= decimal(n).len() <= 20,
{
    reveal_with_fuel(tens, 21);
    lemma_decimal_len_below(n, 20, 100_000_000_000_000_000_000);
}

/// A number below a power of ten has no more digits than the power has zeros.
proof fn lemma_decimal_len_below(n: nat, digits: nat, power: nat)
    requires
        digits >= 1,
        n < power,
        power == tens(digits),
    ensures
        1 <= decimal(n).len() <= digits,
    decreases digits,
{
    if n >= 10 {
        if digits == 1 {
            assert(tens(0) == 1);
        } else {
            assert(power == 10 * tens((digits - 1) as nat));
            lemma_decimal_len_below(n / 10, (digits - 1) as nat, tens((digits - 1) as nat));
        }
    }
}

spec fn tens(digits: nat) -> nat
    decreases digits,
{
    if digits == 0 {
        1
    } else {
        10 * tens((digits - 1) as nat)
    }
}

/// A number with its sign.
pub open spec fn plus_decimal(n: int) -> Seq<char> {
    if n < 0 {
        signed_decimal(n)
    } else {
        "+"@ + decimal(n as nat)
    }
}

pub fn plus_decimal_text(n: i64) -> (text: String)
    ensures
        text@ == plus_decimal(n as int),
{
    if n < 0 {
        signed_decimal_text(n)
    } else {
        let mut text = "+".to_owned();
        text.append(decimal_text(n as u64).as_str());
        text
    }
}

/// A grapheme cluster with the columns it takes.
#[derive(Debug)]
pub struct Glyph {
    pub text: String,
    pub width: usize,
}

pub struct GlyphView {
    pub text: Seq<char>,
    pub width: int,
}

impl View for Glyph {
    type V = GlyphView;

    open spec fn view(&self) -> GlyphView {
        GlyphView { text: self.text@, width: self.width as int }
    }
}

pub open spec fn glyph_views(glyphs: Seq<Glyph>) -> Seq<GlyphView> {
    glyphs.map_values(|glyph: Glyph| glyph@)
}

/// How many leading glyphs fit in some columns.
pub open spec fn glyphs_fitting(glyphs: Seq<GlyphView>, room: int) -> nat
    decreases glyphs.len(),
{
    if glyphs.len() == 0 || glyphs[0].width > room {
        0
    } else {
        1 + glyphs_fitting(glyphs.drop_first(), room - glyphs[0].width)
    }
}

pub open spec fn glyphs_text(glyphs: Seq<GlyphView>) -> Seq<char>
    decreases glyphs.len(),
{
    if glyphs.len() == 0 {
        Seq::empty()
    } else {
        glyphs[0].text + glyphs_text(glyphs.drop_first())
    }
}

/// A title of some width in the columns that are there. One that does not fit ends in an
/// ellipsis.
pub open spec fn clipped_label(glyphs: Seq<GlyphView>, total: int, width: int) -> Seq<char> {
    let clipped = total > width;
    let room = if clipped && width > 0 {
        width - 1
    } else {
        width
    };
    let shown = glyphs_text(glyphs.take(glyphs_fitting(glyphs, room) as int));
    if clipped && width > 0 {
        shown.push('…')
    } else {
        shown
    }
}

proof fn lemma_glyphs_fitting(glyphs: Seq<GlyphView>, room: int)
    ensures
        glyphs_fitting(glyphs, room) <= glyphs.len(),
    decreases glyphs.len(),
{
    if glyphs.len() > 0 {
        lemma_glyphs_fitting(glyphs.drop_first(), room - glyphs[0].width);
    }
}

/// Clips a title of width `total`, given its glyphs, to `width` columns.
pub fn clip_label(glyphs: &Vec<Glyph>, total: usize, width: u16) -> (name: String)
    ensures
        name@ == clipped_label(glyph_views(glyphs@), total as int, width as int),
{
    let available: usize = width as usize;
    let clipped = total > available;
    let room: usize = if clipped && available > 0 {
        available - 1
    } else {
        available
    };
    let ghost views = glyph_views(glyphs@);
    let ghost count = glyphs_fitting(views, room as int) as int;
    proof {
        lemma_glyphs_fitting(views, room as int);
    }
    let mut name = String::new();
    let mut left: usize = room;
    let mut i: usize = 0;
    let ghost shown = views.take(count);
    assert(views.skip(0) =~= views);
    assert(shown.skip(0) =~= shown);
    assert(name@ + glyphs_text(shown) =~= glyphs_text(shown));
    while i < glyphs.len() && glyphs[i].width <= left
        invariant
            i <= glyphs@.len(),
            i <= count <= views.len(),
            views == glyph_views(glyphs@),
            shown == views.take(count),
            count == i + glyphs_fitting(views.skip(i as int), left as int),
            name@ + glyphs_text(shown.skip(i as int)) == glyphs_text(shown),
        decreases glyphs.len() - i,
    {
        let ghost rest = views.skip(i as int);
        assert(rest[0] == glyphs@[i as int]@);
        assert(rest.drop_first() =~= views.skip(i + 1));
        assert(shown.skip(i as int).drop_first() =~= shown.skip(i + 1));
        assert(shown.skip(i as int)[0] == rest[0]);
        let ghost before = name@;
        name.append(glyphs[i].text.as_str());
        assert(before + (rest[0].text + glyphs_text(shown.skip(i + 1))) =~= name@ + glyphs_text(
            shown.skip(i + 1),
        ));
        left = left - glyphs[i].width;
        i += 1;
    }
    proof {
        if i < glyphs@.len() {
            assert(views.skip(i as int)[0] == glyphs@[i as int]@);
        }
        assert(count == i);
        assert(shown.skip(i as int) =~= Seq::empty());
        assert(name@ + Seq::<char>::empty() =~= name@);
    }
    if clipped && available > 0 {
        name.push('…');
    }
    name
}

/// The glyphs of a text.
pub open spec fn text_glyphs(text: Seq<char>) -> Seq<GlyphView> {
    graphemes(text).map_values(
        |part: Seq<char>| GlyphView { text: part, width: display_width(part) as int },
    )
}

/// A title in the columns that are there.
pub fn label(title: &str, width: u16) -> (name: String)
    ensures
        name@ == clipped_label(
            text_glyphs(title@),
            display_width(title@) as int,
            width as int,
        ),
{
    let total: usize = measure(title);
    let parts = split_graphemes(title);
    let mut glyphs: Vec<Glyph> = Vec::new();
    let mut i: usize = 0;
    while i < parts.len()
        invariant
            i <= parts@.len(),
            glyphs@.len() == i,
            forall|k: int|
                0 <= k < i ==> (#[trigger] glyphs@[k])@ == (GlyphView {
                    text: parts@[k]@,
                    width: display_width(parts@[k]@) as int,
                }),
        decreases parts.len() - i,
    {
        let text = parts[i].clone();
        let width: usize = measure(text.as_str());
        glyphs.push(Glyph { text, width });
        i += 1;
    }
    assert(glyph_views(glyphs@) =~= text_glyphs(title@)) by {
        assert(texts(parts@) == graphemes(title@));
        assert forall|k: int| 0 <= k < parts@.len() implies glyph_views(glyphs@)[k]
            == text_glyphs(title@)[k] by {
            assert(texts(parts@)[k] == parts@[k]@);
        }
    }
    clip_label(&glyphs, total, width)
}

proof fn lemma_glyphs_text_prefix(glyphs: Seq<GlyphView>, n: int)
    requires
        0 <= n <= glyphs.len(),
    ensures
        glyphs_text(glyphs.take(n)).is_prefix_of(glyphs_text(glyphs)),
    decreases n,
{
    if n > 0 {
        lemma_glyphs_text_prefix(glyphs.drop_first(), n - 1);
        assert(glyphs.take(n).drop_first() =~= glyphs.drop_first().take(n - 1));
        let a = glyphs_text(glyphs.drop_first().take(n - 1));
        let b = glyphs_text(glyphs.drop_first());
        let head = glyphs[0].text;
        assert((head + b).subrange(0, (head + a).len() as int) =~= head + b.subrange(
            0,
            a.len() as int,
        ));
    } else {
        assert(glyphs.take(0) =~= Seq::empty());
        assert(glyphs_text(glyphs).subrange(0, 0) =~= Seq::<char>::empty());
    }
}

proof fn lemma_glyphs_width(glyphs: Seq<GlyphView>, room: int)
    requires
        room >= 0,
        forall|i: int| 0 <= i < glyphs.len() ==> (#[trigger] glyphs[i]).width >= 0,
    ensures
        glyphs_fitting(glyphs, room) <= glyphs.len(),
        glyphs_width(glyphs.take(glyphs_fitting(glyphs, room) as int)) <= room,
    decreases glyphs.len(),
{
    let n = glyphs_fitting(glyphs, room) as int;
    if glyphs.len() > 0 && glyphs[0].width <= room {
        let rest = glyphs.drop_first();
        assert forall|i: int| 0 <= i < rest.len() implies (#[trigger] rest[i]).width >= 0 by {
            assert(rest[i] == glyphs[i + 1]);
        }
        lemma_glyphs_width(rest, room - glyphs[0].width);
        assert(glyphs.take(n).drop_first() =~= rest.take(n - 1));
    } else {
        assert(glyphs.take(0) =~= Seq::empty());
    }
}

/// The columns that some glyphs take one after the other.
pub open spec fn glyphs_width(glyphs: Seq<GlyphView>) -> int
    decreases glyphs.len(),
{
    if glyphs.len() == 0 {
        0
    } else {
        glyphs[0].width + glyphs_width(glyphs.drop_first())
    }
}

/// A label is a beginning of its title, followed by an ellipsis where something is left out, and
/// what it shows of the title fits beside the ellipsis.
pub proof fn law_labels_begin_their_titles(glyphs: Seq<GlyphView>, total: int, width: int)
    requires
        width >= 0,
        forall|i: int| 0 <= i < glyphs.len() ==> (#[trigger] glyphs[i]).width >= 0,
    ensures
        ({
            let label = clipped_label(glyphs, total, width);
            let clipped = total > width && width > 0;
            let shown = if clipped {
                label.drop_last()
            } else {
                label
            };
            &&& clipped ==> label.len() > 0 && label.last() == '…'
            &&& shown.is_prefix_of(glyphs_text(glyphs))
            &&& exists|n: int|
                0 <= n <= glyphs.len() && shown == glyphs_text(#[trigger] glyphs.take(n))
                    && glyphs_width(glyphs.take(n)) + (if clipped {
                    1int
                } else {
                    0
                }) <= width
        }),
{
    let clipped = total > width && width > 0;
    let room = if clipped {
        width - 1
    } else {
        width
    };
    lemma_glyphs_width(glyphs, room);
    let n = glyphs_fitting(glyphs, room) as int;
    lemma_glyphs_text_prefix(glyphs, n);
    let text = glyphs_text(glyphs.take(n));
    assert(text.push('…').drop_last() =~= text);
}

/// The lines of a text, without their terminators; an empty end is no line.
pub open spec fn lines_of(s: Seq<char>) -> Seq<Seq<char>>
    decreases s.len(),
{
    if s.len() == 0 {
        Seq::empty()
    } else {
        let n = line_end(s);
        if 0 <= n < s.len() {
            seq![crate::message_parser::without_return(s.take(n))] + lines_of(s.skip(n + 1))
        } else {
            seq![s]
        }
    }
}

/// Where the first line of a text ends.
pub open spec fn line_end(s: Seq<char>) -> int
    decreases s.len(),
{
    if s.len() == 0 || s[0] == '\n' {
        0
    } else {
        1 + line_end(s.drop_first())
    }
}

fn find_line_end(chars: &Vec<char>, from: usize) -> (end: usize)
    requires
        from <= chars@.len(),
    ensures
        end == from + line_end(chars@.skip(from as int)),
        from <= end <= chars@.len(),
        end < chars@.len() ==> chars@[end as int] == '\n',
{
    let mut end: usize = from;
    while end < chars.len() && chars[end] != '\n'
        invariant
            from <= end <= chars@.len(),
            end + line_end(chars@.skip(end as int)) == from + line_end(chars@.skip(from as int)),
        decreases chars.len() - end,
    {
        assert(chars@.skip(end as int).drop_first() =~= chars@.skip(end + 1));
        end += 1;
    }
    end
}

/// The lines of a text.
pub fn split_lines(text: &str) -> (lines: Vec<String>)
    ensures
        texts(lines@) == lines_of(text@),
{
    let chars = to_chars(text);
    let mut lines: Vec<String> = Vec::new();
    let mut at: usize = 0;
    assert(text@.skip(0) =~= text@);
    assert(texts(lines@) + lines_of(text@) =~= lines_of(text@));
    while at < chars.len()
        invariant
            at <= chars@.len(),
            chars@ == text@,
            texts(lines@) + lines_of(text@.skip(at as int)) == lines_of(text@),
        decreases chars.len() - at,
    {
        let ghost rest = text@.skip(at as int);
        let ghost before = lines@;
        let end: usize = find_line_end(&chars, at);
        if end < chars.len() {
            let stop: usize = if end > at && chars[end - 1] == '\r' {
                end - 1
            } else {
                end
            };
            let line = from_chars(&chars, at, stop);
            let ghost view = line@;
            proof {
                let whole = rest.take(end - at);
                assert(whole =~= text@.subrange(at as int, end as int));
                assert(view =~= crate::message_parser::without_return(whole));
                assert(rest.skip(end - at + 1) =~= text@.skip(end + 1));
            }
            lines.push(line);
            assert(texts(lines@) =~= texts(before).push(view));
            assert(texts(before) + (seq![view] + lines_of(text@.skip(end + 1))) =~= texts(lines@)
                + lines_of(text@.skip(end + 1)));
            at = end + 1;
        } else {
            let line = from_chars(&chars, at, end);
            let ghost view = line@;
            assert(view =~= rest);
            lines.push(line);
            assert(texts(lines@) =~= texts(before).push(view));
            assert(text@.skip(end as int) =~= Seq::empty());
            assert(texts(before) + seq![view] =~= texts(lines@) + lines_of(
                text@.skip(end as int),
            ));
            at = end;
        }
    }
    assert(text@.skip(at as int) =~= Seq::empty());
    assert(texts(lines@) + lines_of(text@.skip(at as int)) =~= texts(lines@));
    lines
}

/// Lines wrapped to a width, one after the other.
pub open spec fn wrapped_lines(lines: Seq<Seq<char>>, width: nat) -> Seq<Seq<char>>
    decreases lines.len(),
{
    if lines.len() == 0 {
        Seq::empty()
    } else {
        wrapped_lines(lines.drop_last(), width) + wrapped(lines.last(), width)
    }
}

/// Wraps every line of a text to a width.
pub fn wrap_text(text: &str, width: u16) -> (shown: String)
    ensures
        shown@ == joined(
            wrapped_lines(
                lines_of(text@),
                if width == 0 {
                    1
                } else {
                    width as nat
                },
            ),
            "\n"@,
        ),
{
    let columns: usize = if width == 0 {
        1
    } else {
        width as usize
    };
    let lines = split_lines(text);
    let ghost whole = texts(lines@);
    let mut shown: Vec<String> = Vec::new();
    let mut i: usize = 0;
    assert(whole.take(0) =~= Seq::empty());
    assert(texts(shown@) =~= Seq::empty());
    while i < lines.len()
        invariant
            i <= lines@.len(),
            whole == texts(lines@),
            columns >= 1,
            texts(shown@) == wrapped_lines(whole.take(i as int), columns as nat),
        decreases lines.len() - i,
    {
        assert(whole.take(i + 1).drop_last() =~= whole.take(i as int));
        let parts = wrap_line(lines[i].as_str(), columns);
        append_texts(&mut shown, parts);
        i += 1;
    }
    assert(whole.take(i as int) =~= whole);
    join_texts(&shown, "\n")
}

fn append_texts(all: &mut Vec<String>, more: Vec<String>)
    ensures
        texts(final(all)@) == texts(old(all)@) + texts(more@),
{
    let ghost before = all@;
    let ghost added = more@;
    let mut more = more;
    all.append(&mut more);
    assert(texts(all@) =~= texts(before) + texts(added));
}

} // verus!
