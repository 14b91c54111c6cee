//! The radio switches of the kernel, as the `rfkill` tool lists them.
//!
//! A listing has one row for each switch: its id, a space, its device.

use crate::text::{characters, text_from_utf8};
use vstd::prelude::*;
use vstd::string::*;
use vstd::utf8::{decode_utf8, valid_utf8};

verus! {

/// Whether the character has the Unicode property `White_Space`.
pub open spec fn white_space(c: char) -> bool {
    ||| '\u{9}' <= c <= '\u{d}'
    ||| c == ' '
    ||| c == '\u{85}'
    ||| c == '\u{a0}'
    ||| c == '\u{1680}'
    ||| '\u{2000}' <= c <= '\u{200a}'
    ||| c == '\u{2028}'
    ||| c == '\u{2029}'
    ||| c == '\u{202f}'
    ||| c == '\u{205f}'
    ||| c == '\u{3000}'
}

/// Whether the character has the Unicode property `White_Space`.
pub fn is_white_space(c: char) -> (white: bool)
    ensures
        white == white_space(c),
{
    ('\u{9}' <= c && c <= '\u{d}') || c == ' ' || c == '\u{85}' || c == '\u{a0}' || c == '\u{1680}'
        || ('\u{2000}' <= c && c <= '\u{200a}') || c == '\u{2028}' || c == '\u{2029}' || c
        == '\u{202f}' || c == '\u{205f}' || c == '\u{3000}'
}

/// The text without the white space at its start.
pub open spec fn trim_start(text: Seq<char>) -> Seq<char>
    decreases text.len(),
{
    if text.len() > 0 && white_space(text[0]) {
        trim_start(text.drop_first())
    } else {
        text
    }
}

/// The text without the white space at its end.
pub open spec fn trim_end(text: Seq<char>) -> Seq<char>
    decreases text.len(),
{
    if text.len() > 0 && white_space(text.last()) {
        trim_end(text.drop_last())
    } else {
        text
    }
}

/// How many characters stand before the first `c`: all of them, where there is
/// none.
pub open spec fn before_first(text: Seq<char>, c: char) -> nat
    decreases text.len(),
{
    if text.len() == 0 || text[0] == c {
        0
    } else {
        1 + before_first(text.drop_first(), c)
    }
}

/// The id in a row, if the row is about `device`: what stands before the first
/// space of the trimmed row, where all that follows the space is the device.
pub open spec fn row_id(row: Seq<char>, device: Seq<char>) -> Option<Seq<char>> {
    let trimmed = trim_end(trim_start(row));
    let space = before_first(trimmed, ' ') as int;
    if space < trimmed.len() && trimmed.skip(space + 1) == device {
        Some(trimmed.take(space))
    } else {
        None
    }
}

/// The id in the first row about `device`.
pub open spec fn listed_id(listing: Seq<char>, device: Seq<char>) -> Option<Seq<char>>
    decreases listing.len(),
{
    let end = before_first(listing, '\n') as int;
    match row_id(listing.take(end), device) {
        Some(id) => Some(id),
        None => if end < listing.len() {
            listed_id(listing.skip(end + 1), device)
        } else {
            None
        },
    }
}

/// The id of the switch of `device` in what `rfkill` printed; none where that
/// is not UTF-8.
pub open spec fn radio_id_in(output: Seq<u8>, device: Seq<char>) -> Option<Seq<char>> {
    if valid_utf8(output) {
        listed_id(decode_utf8(output), device)
    } else {
        None
    }
}

fn position(chars: &Vec<char>, c: char, from: usize, to: usize) -> (at: usize)
    requires
        from <= to <= chars@.len(),
    ensures
        from <= at <= to,
        at - from == before_first(chars@.subrange(from as int, to as int), c),
{
    let mut at: usize = from;
    while at < to && chars[at] != c
        invariant
            from <= at <= to <= chars@.len(),
            before_first(chars@.subrange(from as int, to as int), c) == at - from + before_first(
                chars@.subrange(at as int, to as int),
                c,
            ),
        decreases to - at,
    {
        assert(chars@.subrange(at as int, to as int).drop_first() =~= chars@.subrange(
            at + 1,
            to as int,
        ));
        at += 1;
    }
    at
}

fn find_in_row(chars: &Vec<char>, from: usize, to: usize, device: &Vec<char>) -> (found: Option<
    (usize, usize),
>)
    requires
        from <= to <= chars@.len(),
    ensures
        match found {
            Some((start, end)) => {
                &&& start <= end <= chars@.len()
                &&& row_id(chars@.subrange(from as int, to as int), device@) == Some(
                    chars@.subrange(start as int, end as int),
                )
            },
            None => row_id(chars@.subrange(from as int, to as int), device@) is None,
        },
{
    let ghost row = chars@.subrange(from as int, to as int);
    let mut start: usize = from;
    while start < to && is_white_space(chars[start])
        invariant
            from <= start <= to <= chars@.len(),
            trim_start(row) == trim_start(chars@.subrange(start as int, to as int)),
        decreases to - start,
    {
        assert(chars@.subrange(start as int, to as int).drop_first() =~= chars@.subrange(
            start + 1,
            to as int,
        ));
        start += 1;
    }
    let mut end: usize = to;
    while end > start && is_white_space(chars[end - 1])
        invariant
            start <= end <= to <= chars@.len(),
            trim_end(chars@.subrange(start as int, to as int)) == trim_end(
                chars@.subrange(start as int, end as int),
            ),
        decreases end,
    {
        assert(chars@.subrange(start as int, end as int).drop_last() =~= chars@.subrange(
            start as int,
            end - 1,
        ));
        end -= 1;
    }
    let ghost trimmed = chars@.subrange(start as int, end as int);
    assert(trim_end(trim_start(row)) == trimmed);
    let space = position(chars, ' ', start, end);
    if space == end {
        return None;
    }
    let ghost rest = trimmed.skip(space - start + 1);
    assert(rest =~= chars@.subrange(space + 1, end as int));
    assert(trimmed.take(space - start) =~= chars@.subrange(start as int, space as int));
    assert(row_id(row, device@) == if rest == device@ {
        Some(chars@.subrange(start as int, space as int))
    } else {
        None
    });
    if end - space - 1 != device.len() {
        return None;
    }
    let mut i: usize = 0;
    while i < device.len()
        invariant
            i <= device@.len(),
            end - space - 1 == device@.len(),
            end <= chars@.len(),
            space < end,
            row == chars@.subrange(from as int, to as int),
            rest == chars@.subrange(space + 1, end as int),
            rest != device@ ==> row_id(row, device@) is None,
            forall|j: int| 0 <= j < i ==> rest[j] == device@[j],
        decreases device.len() - i,
    {
        if chars[space + 1 + i] != device[i] {
            assert(rest[i as int] != device@[i as int]);
            return None;
        }
        i += 1;
    }
    assert(rest =~= device@);
    Some((start, space))
}

/// The id of the switch of `device` in a listing of `rfkill`.
pub fn find_id(listing: &str, device: &str) -> (id: Option<String>)
    ensures
        match id {
            Some(id) => listed_id(listing@, device@) == Some(id@),
            None => listed_id(listing@, device@) is None,
        },
{
    let chars = characters(listing);
    let device_chars = characters(device);
    let mut from: usize = 0;
    assert(chars@.skip(0) =~= chars@);
    loop
        invariant
            chars@ == listing@,
            device_chars@ == device@,
            from <= chars@.len(),
            listed_id(listing@, device@) == listed_id(chars@.skip(from as int), device@),
        decreases chars@.len() - from,
    {
        let ghost left = chars@.skip(from as int);
        assert(left =~= chars@.subrange(from as int, chars@.len() as int));
        let end = position(&chars, '\n', from, chars.len());
        assert(left.take(end - from) =~= chars@.subrange(from as int, end as int));
        if let Some((start, stop)) = find_in_row(&chars, from, end, &device_chars) {
            return Some(listing.substring_char(start, stop).to_owned());
        }
        if end == chars.len() {
            return None;
        }
        assert(left.skip(end - from + 1) =~= chars@.skip(end + 1));
        from = end + 1;
    }
}

/// The id of the switch of `device` in what `rfkill` printed.
pub fn radio_id(output: Vec<u8>, device: &str) -> (id: Option<String>)
    ensures
        match id {
            Some(id) => radio_id_in(output@, device@) == Some(id@),
            None => radio_id_in(output@, device@) is None,
        },
{
    match text_from_utf8(output) {
        Some(listing) => find_id(listing.as_str(), device),
        None => None,
    }
}

/// The command of `rfkill` that switches a radio on or off.
pub fn rfkill_command(enabled: bool) -> (command: &'static str)
    ensures
        command@ == if enabled { "unblock"@ } else { "block"@ },
{
    if enabled {
        "unblock"
    } else {
        "block"
    }
}

/// Whether the text is white space.
pub open spec fn blank(text: Seq<char>) -> bool {
    forall|i: int| 0 <= i < text.len() ==> white_space(#[trigger] text[i])
}

proof fn lemma_trim_start_blank(pad: Seq<char>, text: Seq<char>)
    requires
        blank(pad),
    ensures
        trim_start(pad + text) == trim_start(text),
    decreases pad.len(),
{
    if pad.len() > 0 {
        lemma_trim_start_blank(pad.drop_first(), text);
        assert((pad + text).drop_first() =~= pad.drop_first() + text);
        assert((pad + text)[0] == pad[0]);
    } else {
        assert(pad + text =~= text);
    }
}

proof fn lemma_trim_end_blank(text: Seq<char>, pad: Seq<char>)
    requires
        blank(pad),
    ensures
        trim_end(text + pad) == trim_end(text),
    decreases pad.len(),
{
    if pad.len() > 0 {
        lemma_trim_end_blank(text, pad.drop_last());
        assert((text + pad).drop_last() =~= text + pad.drop_last());
        assert((text + pad).last() == pad.last());
    } else {
        assert(text + pad =~= text);
    }
}

proof fn lemma_before_first(before: Seq<char>, c: char, after: Seq<char>)
    requires
        !before.contains(c),
    ensures
        before_first(before + seq![c] + after, c) == before.len(),
    decreases before.len(),
{
    let all = before + seq![c] + after;
    if before.len() > 0 {
        assert(before[0] != c) by {
            assert(before.contains(before[0]));
        }
        assert(!before.drop_first().contains(c)) by {
            if before.drop_first().contains(c) {
                let i = choose|i: int|
                    0 <= i < before.drop_first().len() && before.drop_first()[i] == c;
                assert(before[i + 1] == c);
            }
        }
        lemma_before_first(before.drop_first(), c, after);
        assert(all.drop_first() =~= before.drop_first() + seq![c] + after);
        assert(all[0] == before[0]);
    } else {
        assert(all[0] == c);
    }
}

/// A row gives the id that was written in it, whatever white space stands
/// around the row. The id starts with no white space and holds no space, and
/// the device does not end in white space.
pub proof fn law_row_gives_its_id(
    left: Seq<char>,
    id: Seq<char>,
    device: Seq<char>,
    right: Seq<char>,
)
    requires
        blank(left),
        blank(right),
        id.len() > 0,
        !white_space(id[0]),
        !id.contains(' '),
        device.len() > 0,
        !white_space(device.last()),
    ensures
        row_id(left + id + seq![' '] + device + right, device) == Some(id),
{
    let middle = id + seq![' '] + device;
    let row = left + id + seq![' '] + device + right;
    assert(row =~= left + (middle + right));
    lemma_trim_start_blank(left, middle + right);
    assert((middle + right)[0] == id[0]);
    lemma_trim_end_blank(middle, right);
    assert(middle.last() == device.last());
    lemma_before_first(id, ' ', device);
    assert(middle.skip(id.len() as int + 1) =~= device);
    assert(middle.take(id.len() as int) =~= id);
}

/// A listing gives the id in its first row, or, where that is not about the
/// device, what the rows after it give.
pub proof fn law_first_row_decides(row: Seq<char>, rest: Seq<char>, device: Seq<char>)
    requires
        !row.contains('\n'),
    ensures
        listed_id(row + seq!['\n'] + rest, device) == match row_id(row, device) {
            Some(id) => Some(id),
            None => listed_id(rest, device),
        },
{
    let all = row + seq!['\n'] + rest;
    lemma_before_first(row, '\n', rest);
    assert(all.take(row.len() as int) =~= row);
    assert(all.skip(row.len() as int + 1) =~= rest);
}

/// The code points that are white space.
pub proof fn law_white_space_code_points(c: char)
    ensures
        white_space(c) <==> {
            let code = c as int;
            ||| 0x9 <= code <= 0xd
            ||| code == 0x20
            ||| code == 0x85
            ||| code == 0xa0
            ||| code == 0x1680
            ||| 0x2000 <= code <= 0x200a
            ||| 0x2028 <= code <= 0x2029
            ||| code == 0x202f
            ||| code == 0x205f
            ||| code == 0x3000
        },
{
}

/// Trimming the start splits the text behind the white space that it starts
/// with.
pub proof fn law_trim_start_splits(text: Seq<char>)
    ensures
        ({
            let left = text.len() - trim_start(text).len();
            &&& 0 <= left
            &&& text.skip(left) == trim_start(text)
            &&& blank(text.take(left))
            &&& left < text.len() ==> !white_space(text[left])
        }),
    decreases text.len(),
{
    if text.len() > 0 && white_space(text[0]) {
        let rest = text.drop_first();
        law_trim_start_splits(rest);
        let left = text.len() - trim_start(text).len();
        assert(rest.skip(left - 1) =~= text.skip(left));
        assert forall|i: int| 0 <= i < left implies white_space(#[trigger] text.take(left)[i]) by {
            if i > 0 {
                assert(text.take(left)[i] == rest.take(left - 1)[i - 1]);
            }
        }
    } else {
        assert(text.skip(0) =~= text);
    }
}

/// Trimming the end splits the text ahead of the white space that it ends with.
pub proof fn law_trim_end_splits(text: Seq<char>)
    ensures
        ({
            let right = trim_end(text).len() as int;
            &&& right <= text.len()
            &&& text.take(right) == trim_end(text)
            &&& blank(text.skip(right))
            &&& right > 0 ==> !white_space(text[right - 1])
        }),
    decreases text.len(),
{
    if text.len() > 0 && white_space(text.last()) {
        let rest = text.drop_last();
        law_trim_end_splits(rest);
        let right = trim_end(text).len() as int;
        assert(rest.take(right) =~= text.take(right));
        assert forall|i: int| 0 <= i < text.len() - right implies white_space(
            #[trigger] text.skip(right)[i],
        ) by {
            if i < text.len() - right - 1 {
                assert(text.skip(right)[i] == rest.skip(right)[i]);
            }
        }
    } else {
        assert(text.take(text.len() as int) =~= text);
    }
}

/// No character before the first `c` is a `c`, and the one behind them is.
pub proof fn law_before_first_is_the_first(text: Seq<char>, c: char)
    ensures
        before_first(text, c) <= text.len(),
        !text.take(before_first(text, c) as int).contains(c),
        before_first(text, c) < text.len() ==> text[before_first(text, c) as int] == c,
    decreases text.len(),
{
    let n = before_first(text, c) as int;
    if text.len() > 0 && text[0] != c {
        let rest = text.drop_first();
        law_before_first_is_the_first(rest, c);
        if text.take(n).contains(c) {
            let i = choose|i: int| 0 <= i < n && text.take(n)[i] == c;
            assert(i > 0);
            assert(rest.take(n - 1)[i - 1] == c);
        }
    }
}

/// Trimming at both ends takes nothing but white space away, and leaves none at
/// the ends.
pub proof fn law_trim_takes_blanks(row: Seq<char>) -> (around: (Seq<char>, Seq<char>))
    ensures
        ({
            let trimmed = trim_end(trim_start(row));
            &&& row == around.0 + trimmed + around.1
            &&& blank(around.0)
            &&& blank(around.1)
            &&& trimmed.len() > 0 ==> !white_space(trimmed[0]) && !white_space(trimmed.last())
        }),
{
    let started = trim_start(row);
    let trimmed = trim_end(started);
    let n = row.len() - started.len();
    let m = trimmed.len() as int;
    law_trim_start_splits(row);
    law_trim_end_splits(started);
    if m > 0 {
        assert(trimmed[0] == started[0]);
        assert(started[0] == row[n]);
        assert(trimmed[m - 1] == started[m - 1]);
    }
    assert(started =~= trimmed + started.skip(m));
    assert(row =~= row.take(n) + trimmed + started.skip(m));
    (row.take(n), started.skip(m))
}

proof fn lemma_split_at_space(text: Seq<char>)
    requires
        before_first(text, ' ') < text.len(),
    ensures
        ({
            let space = before_first(text, ' ') as int;
            &&& text == text.take(space) + seq![' '] + text.skip(space + 1)
            &&& !text.take(space).contains(' ')
        }),
{
    let space = before_first(text, ' ') as int;
    law_before_first_is_the_first(text, ' ');
    assert(text =~= text.take(space) + seq![' '] + text.skip(space + 1));
}

/// A row gives an id only where it is that id, one space and exactly the device,
/// but for white space around them; the id holds no space.
pub proof fn law_row_is_its_id_and_the_device(row: Seq<char>, device: Seq<char>)
    ensures
        row_id(row, device) matches Some(id) ==> {
            &&& id.len() > 0
            &&& !white_space(id[0])
            &&& !id.contains(' ')
            &&& device.len() > 0
            &&& !white_space(device.last())
            &&& exists|left: Seq<char>, right: Seq<char>| #[trigger]
                blank(left) && #[trigger] blank(right) && row == left + id + seq![' '] + device
                    + right
        },
{
    if let Some(id) = row_id(row, device) {
        let trimmed = trim_end(trim_start(row));
        let (left, right) = law_trim_takes_blanks(row);
        lemma_split_at_space(trimmed);
        assert(trimmed == id + seq![' '] + device);
        if id.len() == 0 {
            assert(trimmed[0] == ' ');
        } else {
            assert(trimmed[0] == id[0]);
        }
        if device.len() == 0 {
            assert(trimmed.last() == ' ');
        } else {
            assert(trimmed.last() == device.last());
        }
        assert(row =~= left + id + seq![' '] + device + right);
        assert(blank(left) && blank(right));
    }
}

/// A row is about one device at most: where it gives an id for one, it gives
/// none for any other.
pub proof fn law_row_is_about_one_device(row: Seq<char>, device: Seq<char>, other: Seq<char>)
    requires
        row_id(row, device) is Some,
        other != device,
    ensures
        row_id(row, other) is None,
{
}

/// Whether a row of the listing goes from one place up to another.
pub open spec fn is_row(listing: Seq<char>, from: int, to: int) -> bool {
    &&& 0 <= from <= to <= listing.len()
    &&& from == 0 || listing[from - 1] == '\n'
    &&& to == listing.len() || listing[to] == '\n'
    &&& forall|i: int| from <= i < to ==> #[trigger] listing[i] != '\n'
}

proof fn lemma_first_row(listing: Seq<char>, to: int)
    ensures
        is_row(listing, 0, before_first(listing, '\n') as int),
        is_row(listing, 0, to) ==> to == before_first(listing, '\n'),
{
    let end = before_first(listing, '\n') as int;
    law_before_first_is_the_first(listing, '\n');
    assert forall|i: int| 0 <= i < end implies #[trigger] listing[i] != '\n' by {
        assert(listing.take(end)[i] == listing[i]);
        assert(listing.take(end).contains(listing.take(end)[i]));
    }
    if is_row(listing, 0, to) && to > end {
        assert(listing[end] == '\n');
    }
}

proof fn lemma_later_row(listing: Seq<char>, start: int, from: int, to: int)
    requires
        0 < start <= listing.len(),
        listing[start - 1] == '\n',
    ensures
        0 <= from && is_row(listing.skip(start), from, to) ==> is_row(
            listing,
            start + from,
            start + to,
        ),
        start <= from && is_row(listing, from, to) ==> is_row(
            listing.skip(start),
            from - start,
            to - start,
        ),
        0 <= from <= to <= listing.len() - start ==> listing.skip(start).subrange(from, to)
            == listing.subrange(start + from, start + to),
{
    let rest = listing.skip(start);
    if 0 <= from && is_row(rest, from, to) {
        assert forall|i: int| start + from <= i < start + to implies #[trigger] listing[i]
            != '\n' by {
            assert(rest[i - start] == listing[i]);
        }
        if from > 0 {
            assert(rest[from - 1] == listing[start + from - 1]);
        }
    }
    if start <= from && is_row(listing, from, to) {
        assert forall|i: int| from - start <= i < to - start implies #[trigger] rest[i] != '\n' by {
            assert(rest[i] == listing[start + i]);
        }
        if from > start {
            assert(rest[from - start - 1] == listing[from - 1]);
        }
    }
    if 0 <= from <= to <= listing.len() - start {
        assert(rest.subrange(from, to) =~= listing.subrange(start + from, start + to));
    }
}

/// The id found in a listing is that of a row about the device, and of the first
/// such row. None is found only where no row is about the device.
pub proof fn law_listing_gives_first_row_about_device(listing: Seq<char>, device: Seq<char>)
    ensures
        match listed_id(listing, device) {
            Some(id) => exists|from: int, to: int| #[trigger]
                is_row(listing, from, to) && row_id(listing.subrange(from, to), device) == Some(id)
                    && forall|f: int, t: int| #[trigger]
                    is_row(listing, f, t) && t < from ==> row_id(
                        listing.subrange(f, t),
                        device,
                    ) is None,
            None => forall|f: int, t: int| #[trigger]
                is_row(listing, f, t) ==> row_id(listing.subrange(f, t), device) is None,
        },
    decreases listing.len(),
{
    let end = before_first(listing, '\n') as int;
    let start = end + 1;
    lemma_first_row(listing, end);
    law_before_first_is_the_first(listing, '\n');
    assert(listing.take(end) =~= listing.subrange(0, end));
    if row_id(listing.take(end), device) is Some {
        assert(is_row(listing, 0, end));
    } else if end < listing.len() {
        let rest = listing.skip(start);
        law_listing_gives_first_row_about_device(rest, device);
        match listed_id(rest, device) {
            Some(id) => {
                let (from, to) = choose|from: int, to: int| #[trigger]
                    is_row(rest, from, to) && row_id(rest.subrange(from, to), device) == Some(id)
                        && forall|f: int, t: int| #[trigger]
                        is_row(rest, f, t) && t < from ==> row_id(
                            rest.subrange(f, t),
                            device,
                        ) is None;
                lemma_later_row(listing, start, from, to);
                assert(is_row(listing, start + from, start + to));
                assert forall|f: int, t: int| #[trigger]
                    is_row(listing, f, t) && t < start + from implies row_id(
                    listing.subrange(f, t),
                    device,
                ) is None by {
                    lemma_first_row(listing, t);
                    if f > 0 {
                        assert(f >= start) by {
                            if f - 1 < end {
                                assert(listing[f - 1] != '\n');
                            }
                        }
                        lemma_later_row(listing, start, f, t);
                        lemma_later_row(listing, start, f - start, t - start);
                        assert(is_row(rest, f - start, t - start));
                    }
                }
            },
            None => {
                assert forall|f: int, t: int| #[trigger] is_row(listing, f, t) implies row_id(
                    listing.subrange(f, t),
                    device,
                ) is None by {
                    lemma_first_row(listing, t);
                    if f > 0 {
                        assert(f >= start) by {
                            if f - 1 < end {
                                assert(listing[f - 1] != '\n');
                            }
                        }
                        lemma_later_row(listing, start, f, t);
                        lemma_later_row(listing, start, f - start, t - start);
                        assert(is_row(rest, f - start, t - start));
                    }
                }
            },
        }
    } else {
        assert forall|f: int, t: int| #[trigger] is_row(listing, f, t) implies row_id(
            listing.subrange(f, t),
            device,
        ) is None by {
            lemma_first_row(listing, t);
            if f > 0 {
                assert(listing[f - 1] == '\n');
                assert(listing.take(end)[f - 1] == listing[f - 1]);
                assert(listing.take(end).contains('\n'));
            }
        }
    }
}

/// An id is read from what `rfkill` printed as text, and none where it is no
/// text.
pub proof fn law_output_is_read_as_text(output: Seq<u8>, device: Seq<char>)
    ensures
        valid_utf8(output) ==> radio_id_in(output, device) == listed_id(
            decode_utf8(output),
            device,
        ),
        !valid_utf8(output) ==> radio_id_in(output, device) is None,
{
}

} // verus!
