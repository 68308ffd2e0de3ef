//! Extraction of diagram and chart fences from raw Markdown.
//!
//! A document is read as a sequence of items: a line outside any fence, or a
//! fenced block, which runs from its opening line to the first later line
//! that starts with the same marker, or to the end of the input. A closed
//! fence whose tag is reserved becomes a `SpecialBlock` and leaves a
//! placeholder element behind; every other item is written out again.

use crate::text::{
    chars_of, contains, copy_range, decimal, lemma_decimal_injective, lemma_occurs_in_middle,
    lines, matches_at, occurs_at, push_chars, push_decimal, push_str, skip_whitespace,
    skip_whitespace_from, split_lines, string_of, trim, trim_start, trimmed, views,
};
use vstd::prelude::*;

verus! {

/// What a special block holds: a diagram description or chart data.
#[derive(Clone, Copy, Debug)]
pub enum BlockKind {
    Diagram,
    Chart,
}

impl BlockKind {
    /// The fence tag that marks a block of this kind, in lower case.
    pub open spec fn token(self) -> Seq<char> {
        match self {
            BlockKind::Diagram => "mermaid"@,
            BlockKind::Chart => "chart"@,
        }
    }

    /// The token as a string slice.
    pub fn as_str(&self) -> (r: &'static str)
        ensures
            r@ == self.token(),
    {
        match self {
            BlockKind::Diagram => "mermaid",
            BlockKind::Chart => "chart",
        }
    }

    /// The kind whose token a lower-cased tag spells, if any.
    pub fn from_lowered(lowered: &str) -> (r: Option<BlockKind>)
        ensures
            r == kind_of_lowered(lowered@),
    {
        let l = chars_of(lowered);
        if equals_str(&l, "mermaid") {
            Some(BlockKind::Diagram)
        } else if equals_str(&l, "chart") {
            Some(BlockKind::Chart)
        } else {
            None
        }
    }
}

/// A diagram or chart lifted out of the document.
#[derive(Clone, Debug)]
pub struct SpecialBlock {
    /// The kind's token: "mermaid" or "chart".
    pub block_type: String,
    /// The text inside the fence, trimmed.
    pub content: String,
    /// The id of the placeholder element that stands in the document.
    pub placeholder_id: String,
}

/// A special block as contracts see it.
pub struct SpecialBlockView {
    pub block_type: Seq<char>,
    pub content: Seq<char>,
    pub placeholder_id: Seq<char>,
}

impl View for SpecialBlock {
    type V = SpecialBlockView;

    open spec fn view(&self) -> SpecialBlockView {
        SpecialBlockView {
            block_type: self.block_type@,
            content: self.content@,
            placeholder_id: self.placeholder_id@,
        }
    }
}

impl SpecialBlock {
    /// A block names one of the two kinds by its token.
    pub open spec fn well_formed(&self) -> bool {
        self.block_type@ == BlockKind::Diagram.token() || self.block_type@
            == BlockKind::Chart.token()
    }
}

/// The views of a vector of special blocks.
pub open spec fn block_views(blocks: Seq<SpecialBlock>) -> Seq<SpecialBlockView> {
    Seq::new(blocks.len(), |i: int| blocks[i]@)
}

/// The two fence markers.
#[derive(Clone, Copy, Debug)]
pub enum FenceMarker {
    Backtick,
    Tilde,
}

impl FenceMarker {
    /// The three characters of the marker.
    pub open spec fn text(self) -> Seq<char> {
        match self {
            FenceMarker::Backtick => "```"@,
            FenceMarker::Tilde => "~~~"@,
        }
    }

    /// The marker as a string slice.
    pub fn as_str(&self) -> (r: &'static str)
        ensures
            r@ == self.text(),
    {
        match self {
            FenceMarker::Backtick => "```",
            FenceMarker::Tilde => "~~~",
        }
    }
}

/// The marker that a line starts with, leading white space aside.
pub open spec fn fence_marker(line: Seq<char>) -> Option<FenceMarker> {
    let start = skip_whitespace(line, 0);
    if occurs_at(line, start, FenceMarker::Backtick.text()) {
        Some(FenceMarker::Backtick)
    } else if occurs_at(line, start, FenceMarker::Tilde.text()) {
        Some(FenceMarker::Tilde)
    } else {
        None
    }
}

/// The tag of a fence's opening line: what follows the three marker
/// characters, trimmed.
pub open spec fn info_string(line: Seq<char>) -> Seq<char> {
    trim(trim_start(line).skip(3))
}

/// The lower-case form that `str::to_lowercase` gives a text.
pub uninterp spec fn lowercase(s: Seq<char>) -> Seq<char>;

/// Calls `str::to_lowercase`, the Unicode lower-casing of std. The result is
/// known to contracts only by its name, `lowercase`.
#[verifier::external_body]
fn to_lowercase(s: &str) -> (r: String)
    ensures
        r@ == lowercase(s@),
{
    s.to_lowercase()
}

/// The kind whose token a lower-cased tag spells, if any.
pub open spec fn kind_of_lowered(lowered: Seq<char>) -> Option<BlockKind> {
    if lowered == BlockKind::Diagram.token() {
        Some(BlockKind::Diagram)
    } else if lowered == BlockKind::Chart.token() {
        Some(BlockKind::Chart)
    } else {
        None
    }
}

/// The kind that a fence tag reserves, whatever the case of its letters.
pub open spec fn reserved_kind(tag: Seq<char>) -> Option<BlockKind> {
    kind_of_lowered(lowercase(tag))
}

fn equals_str(s: &Vec<char>, pattern: &str) -> (r: bool)
    ensures
        r == (s@ == pattern@),
{
    let n = pattern.unicode_len();
    if s.len() != n {
        return false;
    }
    let r = matches_at(s, 0, pattern);
    assert(s@.subrange(0, s@.len() as int) =~= s@);
    r
}

/// The kind that a fence tag reserves.
pub fn classify_tag(tag: &str) -> (r: Option<BlockKind>)
    ensures
        r == reserved_kind(tag@),
{
    let lowered = to_lowercase(tag);
    BlockKind::from_lowered(lowered.as_str())
}

/// One item of a document.
pub enum Item {
    /// A line outside any fence.
    Plain { line: Seq<char> },
    /// A fenced block: its marker, its tag, the lines between its opening
    /// line and its end, and whether a closing line ended it.
    Fence { marker: FenceMarker, info: Seq<char>, body: Seq<Seq<char>>, closed: bool },
}

/// The first line at or after `from` that closes a fence opened with
/// `marker`, or the number of lines when none does. A line that starts with
/// the other marker closes nothing.
pub open spec fn closing_line(lines: Seq<Seq<char>>, marker: FenceMarker, from: int) -> int
    decreases lines.len() - from,
{
    if from < 0 || from >= lines.len() {
        lines.len() as int
    } else if fence_marker(lines[from]) == Some(marker) {
        from
    } else {
        closing_line(lines, marker, from + 1)
    }
}

/// `closing_line` passes over lines that do not close the fence and stops
/// at the first that does.
pub proof fn lemma_closing_line(lines: Seq<Seq<char>>, marker: FenceMarker, from: int)
    requires
        0 <= from <= lines.len(),
    ensures
        from <= closing_line(lines, marker, from) <= lines.len(),
        forall|j: int|
            from <= j < closing_line(lines, marker, from) ==> fence_marker(#[trigger] lines[j])
                != Some(marker),
        closing_line(lines, marker, from) < lines.len() ==> fence_marker(
            lines[closing_line(lines, marker, from)],
        ) == Some(marker),
    decreases lines.len() - from,
{
    if from < lines.len() && fence_marker(lines[from]) != Some(marker) {
        lemma_closing_line(lines, marker, from + 1);
    }
}

/// The line that `closing_line` names is the only one before which no line
/// closes the fence and which closes it, or the lines end.
pub proof fn lemma_closing_line_unique(
    lines: Seq<Seq<char>>,
    marker: FenceMarker,
    from: int,
    k: int,
)
    requires
        0 <= from <= k <= lines.len(),
        forall|j: int| from <= j < k ==> fence_marker(#[trigger] lines[j]) != Some(marker),
        k < lines.len() ==> fence_marker(lines[k]) == Some(marker),
    ensures
        closing_line(lines, marker, from) == k,
    decreases k - from,
{
    if from < k {
        lemma_closing_line_unique(lines, marker, from + 1, k);
    }
}

/// The items of the lines from `from` on.
pub open spec fn items_from(lines: Seq<Seq<char>>, from: int) -> Seq<Item>
    decreases lines.len() - from,
{
    if from < 0 || from >= lines.len() {
        Seq::empty()
    } else {
        match fence_marker(lines[from]) {
            None => seq![Item::Plain { line: lines[from] }] + items_from(lines, from + 1),
            Some(marker) => {
                let end = closing_line(lines, marker, from + 1);
                let fence = Item::Fence {
                    marker,
                    info: info_string(lines[from]),
                    body: lines.subrange(from + 1, end),
                    closed: end < lines.len(),
                };
                if end < lines.len() {
                    proof {
                        lemma_closing_line(lines, marker, from + 1);
                    }
                    seq![fence] + items_from(lines, end + 1)
                } else {
                    seq![fence]
                }
            },
        }
    }
}

/// The items of a document.
pub open spec fn items(markdown: Seq<char>) -> Seq<Item> {
    items_from(lines(markdown), 0)
}

/// The lines of a fence's body, each followed by a line feed.
pub open spec fn joined_lines(body: Seq<Seq<char>>) -> Seq<char>
    decreases body.len(),
{
    if body.len() == 0 {
        Seq::empty()
    } else {
        joined_lines(body.drop_last()) + body.last() + seq!['\n']
    }
}

/// The id of the placeholder with the given number.
pub open spec fn placeholder_id(index: nat) -> Seq<char> {
    "special-block-"@ + decimal(index)
}

/// The element that stands in the document for a special block.
pub open spec fn placeholder_markup(kind: BlockKind, index: nat) -> Seq<char> {
    "<div class=\"special-block "@ + kind.token() + "\" id=\""@ + placeholder_id(index)
        + "\" data-block-type=\""@ + kind.token() + "\"></div>\n"@
}

/// An ordinary fence written out again: marker and tag, the content, and
/// the marker once more where the fence was closed.
pub open spec fn fence_text(
    marker: FenceMarker,
    info: Seq<char>,
    content: Seq<char>,
    closed: bool,
) -> Seq<char> {
    if closed {
        marker.text() + info + seq!['\n'] + content + marker.text() + seq!['\n']
    } else {
        marker.text() + info + seq!['\n'] + content
    }
}

impl Item {
    /// The kind of the special block that this item holds, if it holds one:
    /// only a closed fence with a reserved tag does.
    pub open spec fn special_kind(self) -> Option<BlockKind> {
        match self {
            Item::Plain { .. } => None,
            Item::Fence { info, closed, .. } => if closed {
                reserved_kind(info)
            } else {
                None
            },
        }
    }

    /// How many placeholder numbers the item uses up.
    pub open spec fn count(self) -> nat {
        if self.special_kind() is Some {
            1
        } else {
            0
        }
    }

    /// The text that the item leaves in the processed document, where
    /// `index` special blocks stand before it.
    pub open spec fn rendering(self, index: nat) -> Seq<char> {
        match self {
            Item::Plain { line } => line + seq!['\n'],
            Item::Fence { marker, info, body, closed } => match self.special_kind() {
                Some(kind) => placeholder_markup(kind, index),
                None => fence_text(marker, info, joined_lines(body), closed),
            },
        }
    }

    /// The special block that the item holds, where `index` special blocks
    /// stand before it.
    pub open spec fn block(self, index: nat) -> Option<SpecialBlockView> {
        match self {
            Item::Plain { .. } => None,
            Item::Fence { body, .. } => match self.special_kind() {
                Some(kind) => Some(
                    SpecialBlockView {
                        block_type: kind.token(),
                        content: trim(joined_lines(body)),
                        placeholder_id: placeholder_id(index),
                    },
                ),
                None => None,
            },
        }
    }
}

/// The processed text of a run of items, the first of which has `index`
/// special blocks before it.
pub open spec fn rendered(items: Seq<Item>, index: nat) -> Seq<char>
    decreases items.len(),
{
    if items.len() == 0 {
        Seq::empty()
    } else {
        items[0].rendering(index) + rendered(items.drop_first(), index + items[0].count())
    }
}

/// The special blocks of a run of items, in document order.
pub open spec fn blocks_of(items: Seq<Item>, index: nat) -> Seq<SpecialBlockView>
    decreases items.len(),
{
    if items.len() == 0 {
        Seq::empty()
    } else {
        match items[0].block(index) {
            Some(block) => seq![block] + blocks_of(items.drop_first(), index + 1),
            None => blocks_of(items.drop_first(), index),
        }
    }
}

/// The document with each special block replaced by its placeholder.
pub open spec fn processed_markdown(markdown: Seq<char>) -> Seq<char> {
    rendered(items(markdown), 0)
}

/// The special blocks of a document, in document order.
pub open spec fn special_blocks(markdown: Seq<char>) -> Seq<SpecialBlockView> {
    blocks_of(items(markdown), 0)
}

/// The processed text and the blocks of a run of items, by its first
/// item and the rest.
pub proof fn lemma_rendered_first(item: Item, rest: Seq<Item>, index: nat)
    ensures
        rendered(seq![item] + rest, index) == item.rendering(index) + rendered(
            rest,
            index + item.count(),
        ),
        blocks_of(seq![item] + rest, index) == match item.block(index) {
            Some(block) => seq![block] + blocks_of(rest, index + 1),
            None => blocks_of(rest, index),
        },
{
    let all = seq![item] + rest;
    assert(all.drop_first() =~= rest);
}

/// The marker that `line` starts with, leading white space aside.
pub fn marker_of(line: &Vec<char>) -> (r: Option<FenceMarker>)
    ensures
        r == fence_marker(line@),
{
    let start = skip_whitespace_from(line, 0);
    if matches_at(line, start, FenceMarker::Backtick.as_str()) {
        Some(FenceMarker::Backtick)
    } else if matches_at(line, start, FenceMarker::Tilde.as_str()) {
        Some(FenceMarker::Tilde)
    } else {
        None
    }
}

fn closes(line: &Vec<char>, marker: FenceMarker) -> (r: bool)
    ensures
        r == (fence_marker(line@) == Some(marker)),
{
    match (marker_of(line), marker) {
        (Some(FenceMarker::Backtick), FenceMarker::Backtick) => true,
        (Some(FenceMarker::Tilde), FenceMarker::Tilde) => true,
        _ => false,
    }
}

/// The tag of an opening line.
pub fn info_of(line: &Vec<char>) -> (r: Vec<char>)
    requires
        fence_marker(line@) is Some,
    ensures
        r@ == info_string(line@),
{
    let start = skip_whitespace_from(line, 0);
    proof {
        reveal_strlit("```");
        reveal_strlit("~~~");
        assert(line@.skip(start as int).skip(3) =~= line@.subrange(
            start + 3,
            line@.len() as int,
        ));
    }
    let rest = copy_range(line, start + 3, line.len());
    trimmed(&rest)
}

/// Writes out a fence that ended with the input, as it was read.
pub fn emit_open_fence(
    out: &mut Vec<char>,
    marker: FenceMarker,
    info: &Vec<char>,
    content: &Vec<char>,
)
    ensures
        final(out)@ == old(out)@ + fence_text(marker, info@, content@, false),
{
    push_str(out, marker.as_str());
    push_chars(out, info);
    out.push('\n');
    push_chars(out, content);
}

/// Handles a fence that a closing line ended, given its tag in lower case:
/// a reserved tag yields a special block and a placeholder, any other has
/// the fence written out again.
pub fn emit_closed_fence(
    out: &mut Vec<char>,
    blocks: &mut Vec<SpecialBlock>,
    marker: FenceMarker,
    info: &Vec<char>,
    lowered: &str,
    content: &Vec<char>,
)
    ensures
        match kind_of_lowered(lowered@) {
            Some(kind) => {
                &&& final(out)@ == old(out)@ + placeholder_markup(kind, old(blocks)@.len())
                &&& final(blocks)@.len() == old(blocks)@.len() + 1
                &&& final(blocks)@.take(old(blocks)@.len() as int) == old(blocks)@
                &&& final(blocks)@.last()@ == (SpecialBlockView {
                    block_type: kind.token(),
                    content: trim(content@),
                    placeholder_id: placeholder_id(old(blocks)@.len()),
                })
            },
            None => {
                &&& final(out)@ == old(out)@ + fence_text(marker, info@, content@, true)
                &&& final(blocks)@ == old(blocks)@
            },
        },
{
    match BlockKind::from_lowered(lowered) {
        Some(kind) => {
            let index = blocks.len();
            let mut id: Vec<char> = Vec::new();
            push_str(&mut id, "special-block-");
            push_decimal(&mut id, index as u128);
            push_str(out, "<div class=\"special-block ");
            push_str(out, kind.as_str());
            push_str(out, "\" id=\"");
            push_chars(out, &id);
            push_str(out, "\" data-block-type=\"");
            push_str(out, kind.as_str());
            push_str(out, "\"></div>\n");
            let block = SpecialBlock {
                block_type: kind.as_str().to_owned(),
                content: string_of(&trimmed(content)),
                placeholder_id: string_of(&id),
            };
            blocks.push(block);
        },
        None => {
            push_str(out, marker.as_str());
            push_chars(out, info);
            out.push('\n');
            push_chars(out, content);
            push_str(out, marker.as_str());
            out.push('\n');
        },
    }
}

/// Lifts the special blocks out of a document.
///
/// Returns the processed document, in which a placeholder element stands
/// for each special block, and the blocks in document order. Lines outside
/// fences and fences with other tags are written out again; a fence that
/// the input leaves open is written out as it was read.
pub fn extract_special_blocks(markdown: &str) -> (r: (String, Vec<SpecialBlock>))
    ensures
        r.0@ == processed_markdown(markdown@),
        block_views(r.1@) == special_blocks(markdown@),
        forall|i: int|
            0 <= i < r.1@.len() ==> (#[trigger] r.1@[i]).well_formed() && r.1@[i].placeholder_id@
                == placeholder_id(i as nat),
{
    let text = chars_of(markdown);
    let lines = split_lines(&text);
    let ghost ls = views(lines@);
    let mut out: Vec<char> = Vec::new();
    let mut blocks: Vec<SpecialBlock> = Vec::new();
    let mut i: usize = 0;
    while i < lines.len()
        invariant
            i <= lines.len(),
            ls == views(lines@),
            ls == crate::text::lines(markdown@),
            processed_markdown(markdown@) == out@ + rendered(
                items_from(ls, i as int),
                blocks@.len(),
            ),
            special_blocks(markdown@) == block_views(blocks@) + blocks_of(
                items_from(ls, i as int),
                blocks@.len(),
            ),
        decreases lines.len() - i,
    {
        let ghost index = blocks@.len();
        match marker_of(&lines[i]) {
            None => {
                let ghost item = Item::Plain { line: ls[i as int] };
                let ghost rest = items_from(ls, i + 1);
                proof {
                    lemma_rendered_first(item, rest, index);
                }
                push_chars(&mut out, &lines[i]);
                out.push('\n');
                i += 1;
            },
            Some(marker) => {
                let info = info_of(&lines[i]);
                let mut content: Vec<char> = Vec::new();
                let mut j: usize = i + 1;
                while j < lines.len() && !closes(&lines[j], marker)
                    invariant
                        i + 1 <= j <= lines.len(),
                        ls == views(lines@),
                        forall|k: int|
                            i + 1 <= k < j ==> fence_marker(#[trigger] ls[k]) != Some(marker),
                        content@ == joined_lines(ls.subrange(i + 1, j as int)),
                    decreases lines.len() - j,
                {
                    let ghost body = ls.subrange(i + 1, j + 1);
                    assert(body.drop_last() =~= ls.subrange(i + 1, j as int));
                    push_chars(&mut content, &lines[j]);
                    content.push('\n');
                    j += 1;
                }
                proof {
                    lemma_closing_line_unique(ls, marker, i + 1, j as int);
                }
                let closed = j < lines.len();
                let ghost item = Item::Fence {
                    marker,
                    info: info@,
                    body: ls.subrange(i + 1, j as int),
                    closed,
                };
                let ghost rest = items_from(ls, j + 1);
                proof {
                    lemma_rendered_first(item, rest, index);
                }
                if closed {
                    let tag = string_of(&info);
                    let lowered = to_lowercase(tag.as_str());
                    emit_closed_fence(
                        &mut out,
                        &mut blocks,
                        marker,
                        &info,
                        lowered.as_str(),
                        &content,
                    );
                    i = j + 1;
                } else {
                    emit_open_fence(&mut out, marker, &info, &content);
                    i = j;
                }
            },
        }
    }
    proof {
        lemma_blocks_numbered(items(markdown@), 0);
        assert forall|i: int| 0 <= i < blocks@.len() implies (#[trigger] blocks@[i]).well_formed()
            && blocks@[i].placeholder_id@ == placeholder_id(i as nat) by {
            assert(block_views(blocks@)[i] == blocks@[i]@);
        }
    }
    (string_of(&out), blocks)
}

/// The number of special blocks that a run of items holds.
pub open spec fn special_count(items: Seq<Item>) -> nat
    decreases items.len(),
{
    if items.len() == 0 {
        0
    } else {
        items[0].count() + special_count(items.drop_first())
    }
}

/// A run of items yields one block for each closed fence with a reserved
/// tag, and the blocks carry consecutive placeholder numbers.
pub proof fn lemma_blocks_numbered(items: Seq<Item>, index: nat)
    ensures
        blocks_of(items, index).len() == special_count(items),
        forall|i: int|
            0 <= i < blocks_of(items, index).len() ==> (#[trigger] blocks_of(
                items,
                index,
            )[i]).placeholder_id == placeholder_id((index + i) as nat),
        forall|i: int|
            0 <= i < blocks_of(items, index).len() ==> {
                let t = (#[trigger] blocks_of(items, index)[i]).block_type;
                t == BlockKind::Diagram.token() || t == BlockKind::Chart.token()
            },
    decreases items.len(),
{
    if items.len() > 0 {
        let rest = items.drop_first();
        match items[0].block(index) {
            Some(block) => {
                lemma_blocks_numbered(rest, index + 1);
                let tail = blocks_of(rest, index + 1);
                assert forall|i: int| 0 <= i < blocks_of(items, index).len() implies (
                #[trigger] blocks_of(items, index)[i]).placeholder_id == placeholder_id(
                    (index + i) as nat,
                ) by {
                    if i > 0 {
                        assert(blocks_of(items, index)[i] == tail[i - 1]);
                    }
                }
                assert forall|i: int| 0 <= i < blocks_of(items, index).len() implies {
                    let t = (#[trigger] blocks_of(items, index)[i]).block_type;
                    t == BlockKind::Diagram.token() || t == BlockKind::Chart.token()
                } by {
                    if i > 0 {
                        assert(blocks_of(items, index)[i] == tail[i - 1]);
                    }
                }
            },
            None => {
                lemma_blocks_numbered(rest, index);
            },
        }
    }
}

/// Placeholders with different numbers have different ids.
pub proof fn lemma_placeholder_ids_distinct(a: nat, b: nat)
    requires
        placeholder_id(a) == placeholder_id(b),
    ensures
        a == b,
{
    let prefix = "special-block-"@;
    assert(placeholder_id(a).skip(prefix.len() as int) =~= decimal(a));
    assert(placeholder_id(b).skip(prefix.len() as int) =~= decimal(b));
    lemma_decimal_injective(a, b);
}

/// The element that stands for a block holds the block's id.
pub proof fn lemma_markup_holds_id(kind: BlockKind, index: nat)
    ensures
        contains(placeholder_markup(kind, index), placeholder_id(index)),
{
    let before = "<div class=\"special-block "@ + kind.token() + "\" id=\""@;
    let after = "\" data-block-type=\""@ + kind.token() + "\"></div>\n"@;
    let id = placeholder_id(index);
    assert(id.subrange(0, id.len() as int) =~= id);
    lemma_occurs_in_middle(before, id, after, 0, id);
    assert(before + id + after =~= placeholder_markup(kind, index));
}

/// Each block's id stands in the processed text of the items that the
/// block comes from.
pub proof fn lemma_rendered_holds_ids(items: Seq<Item>, index: nat, i: int)
    requires
        0 <= i < blocks_of(items, index).len(),
    ensures
        contains(rendered(items, index), blocks_of(items, index)[i].placeholder_id),
    decreases items.len(),
{
    let rest = items.drop_first();
    let first = items[0].rendering(index);
    let empty = Seq::<char>::empty();
    match items[0].block(index) {
        Some(block) => {
            let tail = rendered(rest, index + 1);
            if i == 0 {
                let kind = items[0].special_kind().unwrap();
                lemma_markup_holds_id(kind, index);
                let at = choose|at: int| occurs_at(first, at, placeholder_id(index));
                lemma_occurs_in_middle(empty, first, tail, at, placeholder_id(index));
            } else {
                let id = blocks_of(rest, index + 1)[i - 1].placeholder_id;
                lemma_rendered_holds_ids(rest, index + 1, i - 1);
                let at = choose|at: int| occurs_at(tail, at, id);
                lemma_occurs_in_middle(first, tail, empty, at, id);
            }
        },
        None => {
            let tail = rendered(rest, index);
            let id = blocks_of(rest, index)[i].placeholder_id;
            lemma_rendered_holds_ids(rest, index, i);
            let at = choose|at: int| occurs_at(tail, at, id);
            lemma_occurs_in_middle(first, tail, empty, at, id);
        },
    }
}

/// A document with N closed fences that carry a reserved tag yields N
/// special blocks. Their ids are `special-block-0`, `special-block-1` and so
/// on in document order, no two alike, and each stands in the processed
/// document.
pub proof fn lemma_one_placeholder_per_block(markdown: Seq<char>)
    ensures
        special_blocks(markdown).len() == special_count(items(markdown)),
        forall|i: int|
            0 <= i < special_blocks(markdown).len() ==> (#[trigger] special_blocks(
                markdown,
            )[i]).placeholder_id == placeholder_id(i as nat),
        forall|i: int, j: int|
            0 <= i < j < special_blocks(markdown).len() ==> (#[trigger] special_blocks(
                markdown,
            )[i]).placeholder_id != (#[trigger] special_blocks(markdown)[j]).placeholder_id,
        forall|i: int|
            0 <= i < special_blocks(markdown).len() ==> contains(
                processed_markdown(markdown),
                (#[trigger] special_blocks(markdown)[i]).placeholder_id,
            ),
{
    let its = items(markdown);
    lemma_blocks_numbered(its, 0);
    assert forall|i: int, j: int| 0 <= i < j < special_blocks(markdown).len() implies (
    #[trigger] special_blocks(markdown)[i]).placeholder_id != (#[trigger] special_blocks(
        markdown,
    )[j]).placeholder_id by {
        if placeholder_id(i as nat) == placeholder_id(j as nat) {
            lemma_placeholder_ids_distinct(i as nat, j as nat);
        }
    }
    assert forall|i: int| 0 <= i < special_blocks(markdown).len() implies contains(
        processed_markdown(markdown),
        (#[trigger] special_blocks(markdown)[i]).placeholder_id,
    ) by {
        lemma_rendered_holds_ids(its, 0, i);
    }
}

/// Tags that differ only in the case of their letters reserve the same
/// kind: fences that carry them give the same block and the same placeholder.
pub proof fn lemma_tag_case_insensitive(
    marker: FenceMarker,
    first_tag: Seq<char>,
    second_tag: Seq<char>,
    body: Seq<Seq<char>>,
    closed: bool,
    index: nat,
)
    requires
        lowercase(first_tag) == lowercase(second_tag),
    ensures
        reserved_kind(first_tag) == reserved_kind(second_tag),
        (Item::Fence { marker, info: first_tag, body, closed }).block(index) == (Item::Fence {
            marker,
            info: second_tag,
            body,
            closed,
        }).block(index),
        closed && reserved_kind(first_tag) is Some ==> (Item::Fence {
            marker,
            info: first_tag,
            body,
            closed,
        }).rendering(index) == (Item::Fence { marker, info: second_tag, body, closed }).rendering(
            index,
        ),
{
}

/// A fence whose tag is not reserved comes out with its tag and its content
/// as they were read, between the markers that enclosed it; a line outside
/// any fence comes out as it was read.
pub proof fn lemma_ordinary_items_preserved(item: Item, index: nat)
    requires
        item.special_kind() is None,
    ensures
        item.block(index) is None,
        item matches Item::Plain { line } ==> item.rendering(index) == line + seq!['\n'],
        item matches Item::Fence { marker, info, body, closed } ==> item.rendering(index)
            == marker.text() + info + seq!['\n'] + joined_lines(body) + (if closed {
            marker.text() + seq!['\n']
        } else {
            Seq::empty()
        }),
{
    if let Item::Fence { marker, info, body, closed } = item {
        let open = marker.text() + info + seq!['\n'] + joined_lines(body);
        assert(open + Seq::<char>::empty() =~= open);
        assert(open + (marker.text() + seq!['\n']) =~= open + marker.text() + seq!['\n']);
    }
}

} // verus!
