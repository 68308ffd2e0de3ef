//! The processed document, line by line: each item of a document is
//! written as a run of whole lines, and read again, the run gives the item
//! back, with a placeholder now an ordinary line. So what the extraction
//! writes, it reads back unchanged: a processed document is a fixed point
//! of the processing.

use crate::markdown::special_blocks::{
    blocks_of, closing_line, fence_marker, fence_text, info_string, items, items_from,
    joined_lines, lemma_closing_line, lemma_closing_line_unique, lemma_rendered_first,
    placeholder_id, placeholder_markup, processed_markdown, rendered, reserved_kind,
    special_blocks, BlockKind, FenceMarker, Item, SpecialBlockView,
};
use crate::text::{
    decimal, drop_whitespace_back, is_whitespace, lemma_decimal_holds_digits,
    lemma_lines_first, lemma_lines_hold_no_feed, lemma_trim_ends, lemma_trim_holds_no, lines,
    no_line_feed, occurs_at, skip_whitespace, trim, trim_start,
};
use vstd::prelude::*;

verus! {

/// A line as the extraction writes lines out: without a line feed in it
/// and without a carriage return at its end.
pub open spec fn written_line(line: Seq<char>) -> bool {
    &&& no_line_feed(line)
    &&& line.len() > 0 ==> line.last() != '\r'
}

/// A tag as the extraction reads tags: without a line feed in it and
/// without white space at either end.
pub open spec fn written_tag(info: Seq<char>) -> bool {
    &&& no_line_feed(info)
    &&& info.len() > 0 ==> !is_whitespace(info[0]) && !is_whitespace(info.last())
}

/// The lines written out are the first line, its line feed, and the rest
/// written out.
pub proof fn lemma_joined_lines_first(body: Seq<Seq<char>>)
    requires
        body.len() > 0,
    ensures
        joined_lines(body) == body[0] + seq!['\n'] + joined_lines(body.drop_first()),
    decreases body.len(),
{
    if body.len() == 1 {
        assert(body.drop_last() =~= Seq::<Seq<char>>::empty());
        assert(body.drop_first() =~= Seq::<Seq<char>>::empty());
    } else {
        let front = body.drop_last();
        lemma_joined_lines_first(front);
        assert(front.drop_first() =~= body.drop_first().drop_last());
    }
}

/// Lines that are written out one after the other, each with its line
/// feed, are read back as they were.
pub proof fn lemma_lines_of_joined(body: Seq<Seq<char>>)
    requires
        forall|i: int| 0 <= i < body.len() ==> written_line(#[trigger] body[i]),
    ensures
        lines(joined_lines(body)) == body,
    decreases body.len(),
{
    if body.len() > 0 {
        let rest = body.drop_first();
        lemma_joined_lines_first(body);
        assert forall|i: int| 0 <= i < rest.len() implies written_line(#[trigger] rest[i]) by {
            assert(rest[i] == body[i + 1]);
        }
        lemma_lines_of_joined(rest);
        lemma_lines_first(body[0], joined_lines(rest));
        assert(seq![body[0]] + rest =~= body);
    }
}

/// A line that is written with a marker at its start is read as a fence
/// line of that marker, with what follows the marker as its tag.
pub proof fn lemma_marker_starts_line(marker: FenceMarker, rest: Seq<char>)
    ensures
        fence_marker(marker.text() + rest) == Some(marker),
        trim_start(marker.text() + rest).skip(3) == rest,
{
    reveal_strlit("```");
    reveal_strlit("~~~");
    let line = marker.text() + rest;
    assert(!is_whitespace(line[0]));
    assert(line.subrange(0, 0 + marker.text().len() as int) =~= marker.text());
    assert(line.skip(0).skip(3) =~= rest);
}

/// A tag without white space at its ends is its own trimmed form.
pub proof fn lemma_written_tag_is_trimmed(info: Seq<char>)
    requires
        written_tag(info),
    ensures
        trim(info) == info,
        written_line(info),
{
    if info.len() > 0 {
        assert(skip_whitespace(info, 0) == 0);
        assert(drop_whitespace_back(info, info.len() as int) == info.len());
        assert(info.subrange(0, info.len() as int) =~= info);
    }
}

/// Lines written out run by run are the runs written out one after the
/// other.
pub proof fn lemma_joined_lines_concat(first: Seq<Seq<char>>, second: Seq<Seq<char>>)
    ensures
        joined_lines(first + second) == joined_lines(first) + joined_lines(second),
    decreases second.len(),
{
    if second.len() == 0 {
        assert(first + second =~= first);
        assert(joined_lines(first) + joined_lines(second) =~= joined_lines(first));
    } else {
        let all = first + second;
        assert(all.drop_last() =~= first + second.drop_last());
        assert(all.last() == second.last());
        lemma_joined_lines_concat(first, second.drop_last());
        assert(joined_lines(all) =~= joined_lines(first) + joined_lines(second));
    }
}

/// The placeholder element without the line feed that ends it.
pub open spec fn placeholder_line(kind: BlockKind, index: nat) -> Seq<char> {
    "<div class=\"special-block "@ + kind.token() + "\" id=\""@ + placeholder_id(index)
        + "\" data-block-type=\""@ + kind.token() + "\"></div>"@
}

proof fn lemma_no_feed_concat(a: Seq<char>, b: Seq<char>)
    requires
        no_line_feed(a),
        no_line_feed(b),
    ensures
        no_line_feed(a + b),
{
    assert forall|j: int| 0 <= j < (a + b).len() implies #[trigger] (a + b)[j] != '\n' by {
        if j < a.len() {
            assert((a + b)[j] == a[j]);
        } else {
            assert((a + b)[j] == b[j - a.len()]);
        }
    }
}

/// A placeholder is one line: it is the placeholder line and a line feed,
/// and the line is read as an ordinary line, not as the start of a fence.
pub proof fn lemma_placeholder_line(kind: BlockKind, index: nat)
    ensures
        placeholder_markup(kind, index) == placeholder_line(kind, index) + seq!['\n'],
        written_line(placeholder_line(kind, index)),
        fence_marker(placeholder_line(kind, index)) is None,
{
    reveal_strlit("<div class=\"special-block ");
    reveal_strlit("\" id=\"");
    reveal_strlit("special-block-");
    reveal_strlit("\" data-block-type=\"");
    reveal_strlit("\"></div>");
    reveal_strlit("\"></div>\n");
    reveal_strlit("mermaid");
    reveal_strlit("chart");
    reveal_strlit("```");
    reveal_strlit("~~~");
    let line = placeholder_line(kind, index);
    let a = "<div class=\"special-block "@;
    let b = kind.token();
    let c = "\" id=\""@;
    let d = "special-block-"@;
    let e = decimal(index);
    let f = "\" data-block-type=\""@;
    let g = "\"></div>"@;
    assert("\"></div>\n"@ =~= g + seq!['\n']);
    assert(placeholder_markup(kind, index) =~= line + seq!['\n']);
    lemma_decimal_holds_digits(index);
    assert(no_line_feed(a));
    assert(no_line_feed(b));
    assert(no_line_feed(c));
    assert(no_line_feed(d));
    assert(no_line_feed(e));
    assert(no_line_feed(f));
    assert(no_line_feed(g));
    lemma_no_feed_concat(a, b);
    lemma_no_feed_concat(a + b, c);
    lemma_no_feed_concat(d, e);
    lemma_no_feed_concat(a + b + c, d + e);
    lemma_no_feed_concat(a + b + c + (d + e), f);
    lemma_no_feed_concat(a + b + c + (d + e) + f, b);
    lemma_no_feed_concat(a + b + c + (d + e) + f + b, g);
    assert(line =~= a + b + c + (d + e) + f + b + g);
    assert(line.last() == '>');
    assert(line[0] == '<');
    assert(!is_whitespace(line[0]));
    assert(skip_whitespace(line, 0) == 0);
    if occurs_at(line, 0, "```"@) {
        assert(line.subrange(0, 3)[0] == '`');
    }
    if occurs_at(line, 0, "~~~"@) {
        assert(line.subrange(0, 3)[0] == '~');
    }
}

/// The lines of an ordinary fence as it is written out: the opening line,
/// the body, and the closing line where the fence was closed.
pub open spec fn fence_lines(
    marker: FenceMarker,
    info: Seq<char>,
    body: Seq<Seq<char>>,
    closed: bool,
) -> Seq<Seq<char>> {
    if closed {
        seq![marker.text() + info] + body + seq![marker.text()]
    } else {
        seq![marker.text() + info] + body
    }
}

/// The lines that an item is written as, where `index` special blocks
/// stand before it.
pub open spec fn item_lines(item: Item, index: nat) -> Seq<Seq<char>> {
    match item {
        Item::Plain { line } => seq![line],
        Item::Fence { marker, info, body, closed } => match item.special_kind() {
            Some(kind) => seq![placeholder_line(kind, index)],
            None => fence_lines(marker, info, body, closed),
        },
    }
}

/// The lines that a run of items is written as.
pub open spec fn written_lines(items: Seq<Item>, index: nat) -> Seq<Seq<char>>
    decreases items.len(),
{
    if items.len() == 0 {
        Seq::empty()
    } else {
        item_lines(items[0], index) + written_lines(
            items.drop_first(),
            index + items[0].count(),
        )
    }
}

/// The text of an ordinary fence is its lines written out.
pub proof fn lemma_fence_text_lines(
    marker: FenceMarker,
    info: Seq<char>,
    body: Seq<Seq<char>>,
    closed: bool,
)
    ensures
        fence_text(marker, info, joined_lines(body), closed) == joined_lines(
            fence_lines(marker, info, body, closed),
        ),
{
    let opening = marker.text() + info;
    let front = seq![opening] + body;
    lemma_joined_lines_first(front);
    assert(front.drop_first() =~= body);
    assert(joined_lines(front) =~= fence_text(marker, info, joined_lines(body), false));
    if closed {
        let all = front + seq![marker.text()];
        assert(all.drop_last() =~= front);
        assert(joined_lines(all) =~= fence_text(marker, info, joined_lines(body), true));
    }
}

proof fn lemma_joined_single(line: Seq<char>)
    ensures
        joined_lines(seq![line]) == line + seq!['\n'],
{
    let one = seq![line];
    let none = Seq::<Seq<char>>::empty();
    assert(one.drop_last() =~= none);
    assert(joined_lines(none) =~= Seq::<char>::empty());
    assert(joined_lines(one) =~= line + seq!['\n']);
}

/// The text of an item is its lines written out.
pub proof fn lemma_item_rendering(item: Item, index: nat)
    ensures
        item.rendering(index) == joined_lines(item_lines(item, index)),
{
    match item {
        Item::Plain { line } => {
            lemma_joined_single(line);
        },
        Item::Fence { marker, info, body, closed } => match item.special_kind() {
            Some(kind) => {
                lemma_placeholder_line(kind, index);
                lemma_joined_single(placeholder_line(kind, index));
            },
            None => {
                lemma_fence_text_lines(marker, info, body, closed);
            },
        },
    }
}

/// The processed text of a run of items is its lines written out.
pub proof fn lemma_rendered_lines(items: Seq<Item>, index: nat)
    ensures
        rendered(items, index) == joined_lines(written_lines(items, index)),
    decreases items.len(),
{
    if items.len() > 0 {
        let rest = items.drop_first();
        let next = index + items[0].count();
        lemma_item_rendering(items[0], index);
        lemma_rendered_lines(rest, next);
        lemma_joined_lines_concat(item_lines(items[0], index), written_lines(rest, next));
    }
}

/// An item as the reading of well-formed lines yields it: its lines are
/// written lines, a line outside fences starts no fence, the tag of a fence
/// has no white space at its ends, and no line of its body closes it.
pub open spec fn readable(item: Item) -> bool {
    match item {
        Item::Plain { line } => written_line(line) && fence_marker(line) is None,
        Item::Fence { marker, info, body, closed } => {
            &&& written_tag(info)
            &&& forall|i: int| 0 <= i < body.len() ==> written_line(#[trigger] body[i])
            &&& forall|i: int|
                0 <= i < body.len() ==> fence_marker(#[trigger] body[i]) != Some(marker)
        },
    }
}

/// Whether an item is a fence that the input left open.
pub open spec fn open_ended(item: Item) -> bool {
    match item {
        Item::Plain { .. } => false,
        Item::Fence { closed, .. } => !closed,
    }
}

/// A run of readable items, in which only the last may be a fence that was
/// left open.
pub open spec fn readable_items(items: Seq<Item>) -> bool {
    forall|p: int|
        0 <= p < items.len() ==> readable(#[trigger] items[p]) && (open_ended(items[p]) ==> p
            == items.len() - 1)
}

proof fn lemma_readable_rest(items: Seq<Item>)
    requires
        readable_items(items),
        items.len() > 0,
    ensures
        readable_items(items.drop_first()),
{
    let rest = items.drop_first();
    assert forall|p: int| 0 <= p < rest.len() implies readable(#[trigger] rest[p]) && (open_ended(
        rest[p],
    ) ==> p == rest.len() - 1) by {
        assert(rest[p] == items[p + 1]);
    }
}

proof fn lemma_readable_first(item: Item, rest: Seq<Item>)
    requires
        readable(item),
        !open_ended(item),
        readable_items(rest),
    ensures
        readable_items(seq![item] + rest),
{
    let all = seq![item] + rest;
    assert forall|p: int| 0 <= p < all.len() implies readable(#[trigger] all[p]) && (open_ended(
        all[p],
    ) ==> p == all.len() - 1) by {
        if p > 0 {
            assert(all[p] == rest[p - 1]);
        }
    }
}

/// The tag of an opening line has no line feed in it and no white space at
/// its ends.
proof fn lemma_info_is_written(line: Seq<char>)
    requires
        written_line(line),
        fence_marker(line) is Some,
    ensures
        written_tag(info_string(line)),
{
    reveal_strlit("```");
    reveal_strlit("~~~");
    let start = skip_whitespace(line, 0);
    let tail = line.skip(start).skip(3);
    assert forall|k: int| 0 <= k < tail.len() implies #[trigger] tail[k] != '\n' by {
        assert(tail[k] == line[start + 3 + k]);
    }
    lemma_trim_holds_no(tail, '\n');
    lemma_trim_ends(tail);
}

/// The items of written lines are readable.
pub proof fn lemma_items_are_readable(lines: Seq<Seq<char>>, from: int)
    requires
        0 <= from <= lines.len(),
        forall|i: int| 0 <= i < lines.len() ==> written_line(#[trigger] lines[i]),
    ensures
        readable_items(items_from(lines, from)),
    decreases lines.len() - from,
{
    if from < lines.len() {
        match fence_marker(lines[from]) {
            None => {
                lemma_items_are_readable(lines, from + 1);
                lemma_readable_first(Item::Plain { line: lines[from] }, items_from(lines, from + 1));
            },
            Some(marker) => {
                let end = closing_line(lines, marker, from + 1);
                lemma_closing_line(lines, marker, from + 1);
                let body = lines.subrange(from + 1, end);
                let fence = Item::Fence {
                    marker,
                    info: info_string(lines[from]),
                    body,
                    closed: end < lines.len(),
                };
                lemma_info_is_written(lines[from]);
                assert forall|i: int| 0 <= i < body.len() implies written_line(
                    #[trigger] body[i],
                ) && fence_marker(body[i]) != Some(marker) by {
                    assert(body[i] == lines[from + 1 + i]);
                }
                assert(readable(fence));
                if end < lines.len() {
                    lemma_items_are_readable(lines, end + 1);
                    lemma_readable_first(fence, items_from(lines, end + 1));
                } else {
                    assert(items_from(lines, from) =~= seq![fence]);
                }
            },
        }
    }
}

/// Looking for a closing line in the second of two joined runs of lines
/// gives the same line as looking in that run alone.
proof fn lemma_closing_line_shift(
    first: Seq<Seq<char>>,
    second: Seq<Seq<char>>,
    marker: FenceMarker,
    from: int,
)
    requires
        0 <= from <= second.len(),
    ensures
        closing_line(first + second, marker, first.len() + from) == first.len() + closing_line(
            second,
            marker,
            from,
        ),
{
    let all = first + second;
    let k = closing_line(second, marker, from);
    lemma_closing_line(second, marker, from);
    assert forall|j: int| first.len() + from <= j < first.len() + k implies fence_marker(
        #[trigger] all[j],
    ) != Some(marker) by {
        assert(all[j] == second[j - first.len()]);
    }
    if k < second.len() {
        assert(all[first.len() + k] == second[k]);
    }
    lemma_closing_line_unique(all, marker, first.len() + from, first.len() + k);
}

/// The items of the second of two joined runs of lines are the items of
/// that run alone.
proof fn lemma_items_from_shift(first: Seq<Seq<char>>, second: Seq<Seq<char>>, from: int)
    requires
        0 <= from <= second.len(),
    ensures
        items_from(first + second, first.len() + from) == items_from(second, from),
    decreases second.len() - from,
{
    let all = first + second;
    if from < second.len() {
        assert(all[first.len() + from] == second[from]);
        match fence_marker(second[from]) {
            None => {
                lemma_items_from_shift(first, second, from + 1);
            },
            Some(marker) => {
                let end = closing_line(second, marker, from + 1);
                lemma_closing_line(second, marker, from + 1);
                lemma_closing_line_shift(first, second, marker, from + 1);
                assert(all.subrange(first.len() + from + 1, first.len() + end)
                    =~= second.subrange(from + 1, end));
                if end < second.len() {
                    lemma_items_from_shift(first, second, end + 1);
                }
            },
        }
    }
}

/// The opening line of a fence that is written out is a written line.
proof fn lemma_opening_line_is_written(marker: FenceMarker, info: Seq<char>)
    requires
        written_tag(info),
    ensures
        written_line(marker.text() + info),
        written_line(marker.text()),
{
    reveal_strlit("```");
    reveal_strlit("~~~");
    let opening = marker.text() + info;
    assert forall|j: int| 0 <= j < opening.len() implies #[trigger] opening[j] != '\n' by {
        if j >= 3 {
            assert(opening[j] == info[j - 3]);
        }
    }
    if info.len() > 0 {
        assert(opening.last() == info.last());
    }
}

/// The lines that a readable item is written as are written lines.
proof fn lemma_item_lines_are_written(item: Item, index: nat)
    requires
        readable(item),
    ensures
        forall|i: int|
            0 <= i < item_lines(item, index).len() ==> written_line(
                #[trigger] item_lines(item, index)[i],
            ),
{
    let these = item_lines(item, index);
    match item {
        Item::Plain { line } => {},
        Item::Fence { marker, info, body, closed } => match item.special_kind() {
            Some(kind) => {
                lemma_placeholder_line(kind, index);
            },
            None => {
                lemma_opening_line_is_written(marker, info);
                assert forall|i: int| 0 <= i < these.len() implies written_line(
                    #[trigger] these[i],
                ) by {
                    if 1 <= i <= body.len() {
                        assert(these[i] == body[i - 1]);
                    }
                }
            },
        },
    }
}

/// The lines that a run of readable items is written as are written lines.
pub proof fn lemma_written_lines_are_written(items: Seq<Item>, index: nat)
    requires
        readable_items(items),
    ensures
        forall|i: int|
            0 <= i < written_lines(items, index).len() ==> written_line(
                #[trigger] written_lines(items, index)[i],
            ),
    decreases items.len(),
{
    if items.len() > 0 {
        let these = item_lines(items[0], index);
        let rest = written_lines(items.drop_first(), index + items[0].count());
        lemma_readable_rest(items);
        lemma_item_lines_are_written(items[0], index);
        lemma_written_lines_are_written(items.drop_first(), index + items[0].count());
        let all = written_lines(items, index);
        assert forall|i: int| 0 <= i < all.len() implies written_line(#[trigger] all[i]) by {
            if i < these.len() {
                assert(all[i] == these[i]);
            } else {
                assert(all[i] == rest[i - these.len()]);
            }
        }
    }
}

/// An item as it is read back from its written lines: a special block has
/// become the line of its placeholder, any other item is itself.
pub open spec fn reread(item: Item, index: nat) -> Item {
    match item.special_kind() {
        Some(kind) => Item::Plain { line: placeholder_line(kind, index) },
        None => item,
    }
}

/// A run of items as it is read back from its written lines.
pub open spec fn reread_items(items: Seq<Item>, index: nat) -> Seq<Item>
    decreases items.len(),
{
    if items.len() == 0 {
        Seq::empty()
    } else {
        seq![reread(items[0], index)] + reread_items(
            items.drop_first(),
            index + items[0].count(),
        )
    }
}

/// A line that starts no fence, followed by further lines, is read as a
/// line outside fences, followed by the items of the further lines.
proof fn lemma_plain_line_reread(line: Seq<char>, further: Seq<Seq<char>>)
    requires
        fence_marker(line) is None,
    ensures
        items_from(seq![line] + further, 0) == seq![Item::Plain { line }] + items_from(
            further,
            0,
        ),
{
    let all = seq![line] + further;
    assert(all[0] == line);
    lemma_items_from_shift(seq![line], further, 0);
}

/// The lines of an ordinary fence, followed by further lines, are read as
/// that fence, followed by the items of the further lines. A fence that was
/// left open is followed by nothing.
proof fn lemma_fence_lines_reread(
    marker: FenceMarker,
    info: Seq<char>,
    body: Seq<Seq<char>>,
    closed: bool,
    further: Seq<Seq<char>>,
)
    requires
        written_tag(info),
        forall|i: int| 0 <= i < body.len() ==> fence_marker(#[trigger] body[i]) != Some(marker),
        !closed ==> further.len() == 0,
    ensures
        items_from(fence_lines(marker, info, body, closed) + further, 0) == seq![
            Item::Fence { marker, info, body, closed },
        ] + items_from(further, 0),
{
    let these = fence_lines(marker, info, body, closed);
    let all = these + further;
    let last = body.len() as int + 1;
    let fence = Item::Fence { marker, info, body, closed };
    lemma_marker_starts_line(marker, info);
    lemma_marker_starts_line(marker, Seq::<char>::empty());
    assert(marker.text() + Seq::<char>::empty() =~= marker.text());
    lemma_written_tag_is_trimmed(info);
    assert(all[0] == marker.text() + info);
    assert(info_string(all[0]) == info);
    assert forall|j: int| 1 <= j < last implies fence_marker(#[trigger] all[j]) != Some(
        marker,
    ) by {
        assert(all[j] == body[j - 1]);
    }
    if closed {
        assert(all[last] == marker.text());
        lemma_closing_line_unique(all, marker, 1, last);
        assert(all.subrange(1, last) =~= body);
        lemma_items_from_shift(these, further, 0);
        assert(items_from(all, 0) == seq![fence] + items_from(all, last + 1));
    } else {
        assert(all =~= these);
        lemma_closing_line_unique(all, marker, 1, last);
        assert(all.subrange(1, last) =~= body);
        assert(items_from(further, 0) =~= Seq::<Item>::empty());
        assert(items_from(all, 0) =~= seq![fence]);
    }
}

/// The lines of one readable item, followed by further lines, are read as
/// that item, followed by the items of the further lines.
proof fn lemma_item_lines_reread(item: Item, index: nat, further: Seq<Seq<char>>)
    requires
        readable(item),
        open_ended(item) ==> further.len() == 0,
    ensures
        items_from(item_lines(item, index) + further, 0) == seq![reread(item, index)]
            + items_from(further, 0),
{
    match item {
        Item::Plain { line } => {
            lemma_plain_line_reread(line, further);
        },
        Item::Fence { marker, info, body, closed } => match item.special_kind() {
            Some(kind) => {
                lemma_placeholder_line(kind, index);
                lemma_plain_line_reread(placeholder_line(kind, index), further);
            },
            None => {
                lemma_fence_lines_reread(marker, info, body, closed, further);
            },
        },
    }
}

/// The lines that a run of readable items is written as are read as those
/// items again, each special block as the line of its placeholder.
pub proof fn lemma_written_lines_reread(items: Seq<Item>, index: nat)
    requires
        readable_items(items),
    ensures
        items_from(written_lines(items, index), 0) == reread_items(items, index),
    decreases items.len(),
{
    if items.len() > 0 {
        let rest = items.drop_first();
        let next = index + items[0].count();
        let further = written_lines(rest, next);
        lemma_readable_rest(items);
        lemma_written_lines_reread(rest, next);
        if open_ended(items[0]) {
            assert(rest.len() == 0);
            assert(further =~= Seq::<Seq<char>>::empty());
        }
        lemma_item_lines_reread(items[0], index, further);
    }
}

/// Items that were read back are written as they were written before, and
/// hold no special block.
pub proof fn lemma_reread_renders_same(items: Seq<Item>, index: nat, count: nat)
    ensures
        rendered(reread_items(items, index), count) == rendered(items, index),
        blocks_of(reread_items(items, index), count) == Seq::<SpecialBlockView>::empty(),
    decreases items.len(),
{
    if items.len() > 0 {
        let rest = items.drop_first();
        let next = index + items[0].count();
        let first = reread(items[0], index);
        lemma_reread_renders_same(rest, next, count);
        lemma_rendered_first(first, reread_items(rest, next), count);
        if let Some(kind) = items[0].special_kind() {
            lemma_placeholder_line(kind, index);
        }
        assert(first.rendering(count) == items[0].rendering(index));
    }
}

/// An ordinary fence survives the round trip: the text that the extraction
/// writes for a closed fence whose tag is not reserved is read as that
/// fence again, with the same tag and the same lines, and comes out
/// unchanged, with no special block.
pub proof fn lemma_ordinary_fence_round_trip(
    marker: FenceMarker,
    info: Seq<char>,
    body: Seq<Seq<char>>,
)
    requires
        written_tag(info),
        reserved_kind(info) is None,
        forall|i: int| 0 <= i < body.len() ==> written_line(#[trigger] body[i]),
        forall|i: int| 0 <= i < body.len() ==> fence_marker(#[trigger] body[i]) != Some(marker),
    ensures
        items(fence_text(marker, info, joined_lines(body), true)) == seq![
            Item::Fence { marker, info, body, closed: true },
        ],
        processed_markdown(fence_text(marker, info, joined_lines(body), true)) == fence_text(
            marker,
            info,
            joined_lines(body),
            true,
        ),
        special_blocks(fence_text(marker, info, joined_lines(body), true))
            == Seq::<SpecialBlockView>::empty(),
{
    let fence = Item::Fence { marker, info, body, closed: true };
    let written = fence_lines(marker, info, body, true);
    let none = Seq::<Item>::empty();
    lemma_fence_text_lines(marker, info, body, true);
    lemma_item_lines_are_written(fence, 0);
    assert(item_lines(fence, 0) == written);
    lemma_lines_of_joined(written);
    lemma_item_lines_reread(fence, 0, Seq::<Seq<char>>::empty());
    assert(written + Seq::<Seq<char>>::empty() =~= written);
    assert(items_from(Seq::<Seq<char>>::empty(), 0) =~= none);
    assert(seq![fence] + none =~= seq![fence]);
    lemma_rendered_first(fence, none, 0);
}

/// The processed document is the lines of the document's items, written
/// one after the other, each with a line feed: for a special block the one
/// line of its placeholder, which carries the block's number; for every
/// other item its own lines. So a document with N special blocks has N
/// placeholders in its processed form, one for each block and in the order
/// of the blocks.
pub proof fn lemma_processed_document_lines(markdown: Seq<char>)
    ensures
        processed_markdown(markdown) == joined_lines(written_lines(items(markdown), 0)),
{
    lemma_rendered_lines(items(markdown), 0);
}

/// Whether no line of a document ends with a carriage return. A document
/// whose lines end with line feeds, or with a carriage return and a line
/// feed each, is of this kind.
pub open spec fn plain_line_endings(markdown: Seq<char>) -> bool {
    forall|i: int|
        0 <= i < lines(markdown).len() && (#[trigger] lines(markdown)[i]).len() > 0 ==> lines(
            markdown,
        )[i].last() != '\r'
}

/// The processing is stable: a processed document comes out of the
/// processing as it went in, and holds no special block. So every line
/// outside fences and every fence that is not lifted out is written in a
/// form that is read back as the same line and the same fence.
pub proof fn lemma_processing_is_stable(markdown: Seq<char>)
    requires
        plain_line_endings(markdown),
    ensures
        processed_markdown(processed_markdown(markdown)) == processed_markdown(markdown),
        special_blocks(processed_markdown(markdown)) == Seq::<SpecialBlockView>::empty(),
{
    let read = lines(markdown);
    let its = items(markdown);
    let out = processed_markdown(markdown);
    let written = written_lines(its, 0);
    lemma_lines_hold_no_feed(markdown, 0);
    assert forall|i: int| 0 <= i < read.len() implies written_line(#[trigger] read[i]) by {
        assert(no_line_feed(read[i]));
    }
    lemma_items_are_readable(read, 0);
    lemma_rendered_lines(its, 0);
    lemma_written_lines_are_written(its, 0);
    lemma_lines_of_joined(written);
    assert(lines(out) == written);
    lemma_written_lines_reread(its, 0);
    lemma_reread_renders_same(its, 0, 0);
}

} // verus!
