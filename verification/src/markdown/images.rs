//! Resolution of image references to locations that the host can load.
//!
//! A target is classified by how it begins. Network, data and host-resolved
//! targets stay as they are; a local path is handed on behind a marker, so
//! that the host can map it to whatever scheme it serves files under.

use crate::text::{
    chars_of, contains, copy_range, find_char, find_char_from, is_whitespace, lemma_find_char,
    lemma_occurs_in_middle, lemma_skip_whitespace, matches_at, occurs_at, option_text, push_chars, push_range, push_str, skip_whitespace,
    skip_whitespace_from, string_of, trim, trimmed,
};
use vstd::prelude::*;

verus! {

/// How an image target is read, in the order in which the cases are tried.
#[derive(Clone, Copy, Debug)]
pub enum PathClass {
    /// Begins with `http://` or `https://`.
    Remote,
    /// Begins with `data:`.
    DataUri,
    /// Begins with `asset://`: the host has resolved it already.
    HostResolved,
    /// Begins with `file://`: what follows the scheme is an absolute path.
    FileUri,
    /// Begins with `/`.
    PosixAbsolute,
    /// Has `:` as its second character, as in `C:\images\a.png`.
    DriveAbsolute,
    /// Anything else: a path relative to the document.
    Relative,
}

/// Whether `s` begins with `prefix`.
pub open spec fn starts_with(s: Seq<char>, prefix: Seq<char>) -> bool {
    occurs_at(s, 0, prefix)
}

/// The class of a target: the first case, in the order of `PathClass`,
/// that holds of it.
pub open spec fn classify(src: Seq<char>) -> PathClass {
    if starts_with(src, "http://"@) || starts_with(src, "https://"@) {
        PathClass::Remote
    } else if starts_with(src, "data:"@) {
        PathClass::DataUri
    } else if starts_with(src, "asset://"@) {
        PathClass::HostResolved
    } else if starts_with(src, "file://"@) {
        PathClass::FileUri
    } else if src.len() >= 1 && src[0] == '/' {
        PathClass::PosixAbsolute
    } else if src.len() >= 2 && src[1] == ':' {
        PathClass::DriveAbsolute
    } else {
        PathClass::Relative
    }
}

/// The marker that stands before every local path in the output.
pub open spec fn local_marker() -> Seq<char> {
    "__LOCAL_FILE__:"@
}

/// `s` with each backslash turned into a slash.
pub open spec fn with_forward_slashes(s: Seq<char>) -> Seq<char> {
    Seq::new(
        s.len(),
        |i: int|
            if s[i] == '\\' {
                '/'
            } else {
                s[i]
            },
    )
}

/// What `std::path::Path::parent` gives for a path, on the platform that
/// the library is built for.
pub uninterp spec fn path_parent(path: Seq<char>) -> Option<Seq<char>>;

/// What `std::path::Path::join` gives for a directory and a path, on the
/// platform that the library is built for.
pub uninterp spec fn path_join(directory: Seq<char>, path: Seq<char>) -> Seq<char>;

/// The directory that holds the document at `base_path`: its parent, or
/// the path itself where it has none.
pub open spec fn base_directory(base_path: Seq<char>) -> Seq<char> {
    match path_parent(base_path) {
        Some(parent) => parent,
        None => base_path,
    }
}

/// The path that a relative target stands for: its canonical form where
/// one was found, else the target joined to the document's directory.
pub open spec fn relative_path(
    src: Seq<char>,
    base_path: Seq<char>,
    canonical: Option<Seq<char>>,
) -> Seq<char> {
    match canonical {
        Some(path) => path,
        None => path_join(base_directory(base_path), src),
    }
}

/// The resolved form of a target: the target itself where it passes
/// through, else the local-path marker and the path that the target names.
pub open spec fn resolved(
    src: Seq<char>,
    base_path: Seq<char>,
    canonical: Option<Seq<char>>,
) -> Seq<char> {
    match classify(src) {
        PathClass::Remote => src,
        PathClass::DataUri => src,
        PathClass::HostResolved => src,
        PathClass::FileUri => local_marker() + src.skip(7),
        PathClass::PosixAbsolute => local_marker() + src,
        PathClass::DriveAbsolute => local_marker() + with_forward_slashes(src),
        PathClass::Relative => local_marker() + relative_path(src, base_path, canonical),
    }
}

/// Calls `std::path::Path::parent` on the path that `path` spells and hands
/// back what it returns, as text. The result is known to contracts only by
/// its name, `path_parent`.
#[verifier::external_body]
fn parent_of(path: &str) -> (r: Option<String>)
    ensures
        r is Some <==> path_parent(path@) is Some,
        r matches Some(parent) ==> path_parent(path@) == Some(parent@),
{
    std::path::Path::new(path).parent().map(|p| p.display().to_string())
}

/// Calls `std::path::Path::join` and hands back the joined path as text.
/// The result is known to contracts only by its name, `path_join`.
#[verifier::external_body]
fn join_paths(directory: &str, path: &str) -> (r: String)
    ensures
        r@ == path_join(directory@, path@),
{
    std::path::Path::new(directory).join(path).display().to_string()
}

/// Calls `std::path::Path::canonicalize`, which asks the file system. What
/// comes back depends on what is on disk, so nothing is claimed of it.
#[verifier::external_body]
fn canonical_form(path: &str) -> (r: Option<String>)
{
    match std::path::Path::new(path).canonicalize() {
        Ok(p) => Some(p.display().to_string()),
        Err(_) => None,
    }
}

/// The text that an optional string slice holds.
pub open spec fn option_str_view(o: Option<&str>) -> Option<Seq<char>> {
    match o {
        Some(s) => Some(s@),
        None => None,
    }
}

/// Classifies a target.
pub fn classify_path(src: &Vec<char>) -> (r: PathClass)
    ensures
        r == classify(src@),
{
    if matches_at(src, 0, "http://") || matches_at(src, 0, "https://") {
        PathClass::Remote
    } else if matches_at(src, 0, "data:") {
        PathClass::DataUri
    } else if matches_at(src, 0, "asset://") {
        PathClass::HostResolved
    } else if matches_at(src, 0, "file://") {
        PathClass::FileUri
    } else if src.len() >= 1 && src[0] == '/' {
        PathClass::PosixAbsolute
    } else if src.len() >= 2 && src[1] == ':' {
        PathClass::DriveAbsolute
    } else {
        PathClass::Relative
    }
}

/// The directory that holds the document at `base_path`.
pub fn directory_of(base_path: &str) -> (r: String)
    ensures
        r@ == base_directory(base_path@),
{
    match parent_of(base_path) {
        Some(parent) => parent,
        None => base_path.to_owned(),
    }
}

/// The path that a relative target names before any canonical form is
/// looked for: the target joined to the document's directory.
pub fn joined_target(src: &str, base_path: &str) -> (r: String)
    ensures
        r@ == path_join(base_directory(base_path@), src@),
{
    let directory = directory_of(base_path);
    join_paths(directory.as_str(), src)
}

fn with_slashes(src: &Vec<char>) -> (r: Vec<char>)
    ensures
        r@ == with_forward_slashes(src@),
{
    let mut r: Vec<char> = Vec::new();
    let mut i: usize = 0;
    while i < src.len()
        invariant
            i <= src.len(),
            r@ == with_forward_slashes(src@).take(i as int),
        decreases src.len() - i,
    {
        let c = src[i];
        r.push(
            if c == '\\' {
                '/'
            } else {
                c
            },
        );
        i += 1;
    }
    r
}

/// Resolves a target, given the canonical form that was found for the
/// path it names, if one was.
pub fn resolve_single_path_with(src: &str, base_path: &str, canonical: Option<&str>) -> (r:
    String)
    ensures
        r@ == resolved(src@, base_path@, option_str_view(canonical)),
{
    let s = chars_of(src);
    match classify_path(&s) {
        PathClass::Remote => src.to_owned(),
        PathClass::DataUri => src.to_owned(),
        PathClass::HostResolved => src.to_owned(),
        PathClass::FileUri => {
            proof {
                reveal_strlit("file://");
            }
            let mut out: Vec<char> = Vec::new();
            push_str(&mut out, "__LOCAL_FILE__:");
            push_range(&mut out, &s, 7, s.len());
            string_of(&out)
        },
        PathClass::PosixAbsolute => {
            let mut out: Vec<char> = Vec::new();
            push_str(&mut out, "__LOCAL_FILE__:");
            push_chars(&mut out, &s);
            string_of(&out)
        },
        PathClass::DriveAbsolute => {
            let mut out: Vec<char> = Vec::new();
            push_str(&mut out, "__LOCAL_FILE__:");
            push_chars(&mut out, &with_slashes(&s));
            string_of(&out)
        },
        PathClass::Relative => {
            let path = match canonical {
                Some(path) => path.to_owned(),
                None => joined_target(src, base_path),
            };
            let mut out: Vec<char> = Vec::new();
            push_str(&mut out, "__LOCAL_FILE__:");
            push_str(&mut out, path.as_str());
            string_of(&out)
        },
    }
}

/// Resolves a target. A relative one is joined to the directory of
/// `base_path` and then given its canonical form, where the file system
/// yields one; where it yields none, the joined path stands.
pub fn resolve_single_path(src: &str, base_path: &str) -> (r: String)
    ensures
        exists|canonical: Option<Seq<char>>| r@ == resolved(src@, base_path@, canonical),
        !(classify(src@) is Relative) ==> r@ == resolved(src@, base_path@, None),
{
    let s = chars_of(src);
    let canonical = match classify_path(&s) {
        PathClass::Relative => {
            let joined = joined_target(src, base_path);
            canonical_form(joined.as_str())
        },
        _ => None,
    };
    match &canonical {
        Some(path) => resolve_single_path_with(src, base_path, Some(path.as_str())),
        None => resolve_single_path_with(src, base_path, None),
    }
}

/// The two notations in which a document names an image.
#[derive(Clone, Copy, Debug)]
pub enum ImageSyntax {
    /// An `<img ... src="..." ...>` tag.
    Html,
    /// A `![alt](src)` reference.
    Markdown,
}

/// Where an image reference stands in a text: where it starts, where what
/// is kept before the target starts (the attributes of a tag, the alt text
/// of a Markdown reference), where the target starts and ends, and the
/// position behind the reference.
pub struct ImageSpan {
    pub start: int,
    pub lead: int,
    pub src: int,
    pub src_end: int,
    pub end: int,
}

/// For a tag with `src="` at position `at`: the positions of the quote that
/// ends the target and of the `>` that ends the tag. The target is not
/// empty and runs to the next quote; the tag ends at the first `>` behind
/// that quote.
pub open spec fn html_tail(s: Seq<char>, at: int) -> Option<(int, int)> {
    if occurs_at(s, at, "src=\""@) {
        let quote = find_char(s, '"', at + 5);
        let close = find_char(s, '>', quote + 1);
        if at + 5 < quote && quote < s.len() && close < s.len() {
            Some((quote, close))
        } else {
            None
        }
    } else {
        None
    }
}

/// The first position at or after `at` where `src="` starts the rest of a
/// tag, with no `>` between `at` and that position.
pub open spec fn html_src_from(s: Seq<char>, at: int) -> Option<int>
    decreases s.len() - at,
{
    if at < 0 || at >= s.len() {
        None
    } else if html_tail(s, at) is Some {
        Some(at)
    } else if s[at] == '>' {
        None
    } else {
        html_src_from(s, at + 1)
    }
}

/// The image tag that starts at position `at`: `<img`, white space, then
/// attributes up to the first `src="` that a target, a quote and a `>`
/// follow.
pub open spec fn html_image_at(s: Seq<char>, at: int) -> Option<ImageSpan> {
    if occurs_at(s, at, "<img"@) {
        let lead = skip_whitespace(s, at + 4);
        if lead > at + 4 {
            match html_src_from(s, lead) {
                Some(src_at) => {
                    let (quote, close) = html_tail(s, src_at).unwrap();
                    Some(
                        ImageSpan {
                            start: at,
                            lead,
                            src: src_at + 5,
                            src_end: quote,
                            end: close + 1,
                        },
                    )
                },
                None => None,
            }
        } else {
            None
        }
    } else {
        None
    }
}

/// The Markdown image that starts at position `at`: `![`, the alt text up
/// to the next `]`, `(`, and a target that is not empty, up to the next `)`.
pub open spec fn markdown_image_at(s: Seq<char>, at: int) -> Option<ImageSpan> {
    if occurs_at(s, at, "!["@) {
        let bracket = find_char(s, ']', at + 2);
        let close = find_char(s, ')', bracket + 2);
        if bracket + 1 < s.len() && s[bracket + 1] == '(' && bracket + 2 < close && close
            < s.len() {
            Some(
                ImageSpan {
                    start: at,
                    lead: at + 2,
                    src: bracket + 2,
                    src_end: close,
                    end: close + 1,
                },
            )
        } else {
            None
        }
    } else {
        None
    }
}

/// The image reference of the given notation that starts at position `at`.
pub open spec fn image_at(syntax: ImageSyntax, s: Seq<char>, at: int) -> Option<ImageSpan> {
    match syntax {
        ImageSyntax::Html => html_image_at(s, at),
        ImageSyntax::Markdown => markdown_image_at(s, at),
    }
}

/// The first image reference that starts at or after `from`.
pub open spec fn next_image(syntax: ImageSyntax, s: Seq<char>, from: int) -> Option<ImageSpan>
    decreases s.len() - from,
{
    if from < 0 || from >= s.len() {
        None
    } else {
        match image_at(syntax, s, from) {
            Some(span) => Some(span),
            None => next_image(syntax, s, from + 1),
        }
    }
}

impl ImageSpan {
    /// The positions of a span lie in the text, in order, and the target
    /// is not empty.
    pub open spec fn fits(self, syntax: ImageSyntax, s: Seq<char>) -> bool {
        &&& 0 <= self.start <= self.lead
        &&& self.lead + self.gap(syntax) <= self.src < self.src_end
        &&& self.src_end + self.closing(syntax) <= self.end <= s.len()
    }

    /// The number of characters behind the target that belong to the
    /// reference at the least: the quote and `>` of a tag, the `)` of a
    /// Markdown reference.
    pub open spec fn closing(self, syntax: ImageSyntax) -> int {
        match syntax {
            ImageSyntax::Html => 2,
            ImageSyntax::Markdown => 1,
        }
    }

    /// The number of characters between what is kept before the target
    /// and the target: `src="` in a tag, `](` in a Markdown reference.
    pub open spec fn gap(self, syntax: ImageSyntax) -> int {
        match syntax {
            ImageSyntax::Html => 5,
            ImageSyntax::Markdown => 2,
        }
    }

    /// The target of the reference.
    pub open spec fn target(self, s: Seq<char>) -> Seq<char> {
        s.subrange(self.src, self.src_end)
    }
}

/// Where `html_src_from` finds `src="`, the rest of a tag follows; before
/// that place stands no `>` and no `src="` that the rest of a tag follows.
pub proof fn lemma_html_src_from(s: Seq<char>, at: int)
    requires
        0 <= at,
    ensures
        html_src_from(s, at) matches Some(p) ==> {
            &&& at <= p
            &&& html_tail(s, p) is Some
            &&& forall|j: int| at <= j < p ==> #[trigger] s[j] != '>'
            &&& forall|j: int| at <= j < p ==> html_tail(s, j) is None
        },
    decreases s.len() - at,
{
    if at < s.len() && html_tail(s, at) is None && s[at] != '>' {
        lemma_html_src_from(s, at + 1);
    }
}

/// An image reference that starts at `at` lies in the text.
pub proof fn lemma_image_at(syntax: ImageSyntax, s: Seq<char>, at: int)
    requires
        0 <= at,
    ensures
        image_at(syntax, s, at) matches Some(span) ==> span.start == at && span.fits(syntax, s),
{
    match syntax {
        ImageSyntax::Html => {
            if occurs_at(s, at, "<img"@) {
                reveal_strlit("<img");
                reveal_strlit("src=\"");
                let lead = skip_whitespace(s, at + 4);
                lemma_skip_whitespace(s, at + 4);
                lemma_html_src_from(s, lead);
                if let Some(p) = html_src_from(s, lead) {
                    let quote = find_char(s, '"', p + 5);
                    if quote < s.len() {
                        lemma_find_char(s, '>', quote + 1);
                    }
                }
            }
        },
        ImageSyntax::Markdown => {
            if occurs_at(s, at, "!["@) {
                reveal_strlit("![");
                lemma_find_char(s, ']', at + 2);
            }
        },
    }
}

/// The next image reference starts at or after `from` and lies in the
/// text.
pub proof fn lemma_next_image(syntax: ImageSyntax, s: Seq<char>, from: int)
    requires
        0 <= from,
    ensures
        next_image(syntax, s, from) matches Some(span) ==> from <= span.start && span.fits(
            syntax,
            s,
        ) && image_at(syntax, s, span.start) == Some(span),
    decreases s.len() - from,
{
    if from < s.len() {
        lemma_image_at(syntax, s, from);
        if image_at(syntax, s, from) is None {
            lemma_next_image(syntax, s, from + 1);
        }
    }
}

/// The end of the text before `to` once the slashes that end it are
/// dropped.
pub open spec fn drop_slashes_back(s: Seq<char>, to: int) -> int
    decreases to,
{
    if 0 < to <= s.len() && s[to - 1] == '/' {
        drop_slashes_back(s, to - 1)
    } else {
        to
    }
}

/// The attributes behind the target, without the slashes that end them and
/// without white space around them.
pub open spec fn clean_attributes(after: Seq<char>) -> Seq<char> {
    trim(after.take(drop_slashes_back(after, after.len() as int)))
}

/// What is written in place of an image reference whose target resolves to
/// `target`. A tag comes out in self-closing form, with its other
/// attributes as they were and one space before `/>`; a Markdown reference
/// keeps its alt text.
pub open spec fn replacement(
    syntax: ImageSyntax,
    s: Seq<char>,
    span: ImageSpan,
    target: Seq<char>,
) -> Seq<char> {
    match syntax {
        ImageSyntax::Html => {
            let before = s.subrange(span.lead, span.src - 5);
            let after = clean_attributes(s.subrange(span.src_end + 1, span.end - 1));
            if after.len() == 0 {
                "<img "@ + before + "src=\""@ + target + "\" />"@
            } else {
                "<img "@ + before + "src=\""@ + target + "\" "@ + after + " />"@
            }
        },
        ImageSyntax::Markdown => "!["@ + s.subrange(span.lead, span.src - 2) + "]("@ + target
            + ")"@,
    }
}

/// The canonical form found for the relative target with the given number,
/// if one was found.
pub open spec fn canonical_at(canonical: Seq<Option<Seq<char>>>, number: nat) -> Option<
    Seq<char>,
> {
    if number < canonical.len() {
        canonical[number as int]
    } else {
        None
    }
}

/// How many canonical forms a target uses up: one where it is relative.
pub open spec fn relative_count(src: Seq<char>) -> nat {
    if classify(src) is Relative {
        1
    } else {
        0
    }
}

/// The text from `from` on with each image reference rewritten, where
/// `used` relative targets stand before `from` and `canonical` holds, for
/// each relative target of the text in order, the canonical form that was
/// found for it.
pub open spec fn rewritten_from(
    syntax: ImageSyntax,
    s: Seq<char>,
    from: int,
    base_path: Seq<char>,
    canonical: Seq<Option<Seq<char>>>,
    used: nat,
) -> Seq<char>
    decreases s.len() - from,
{
    if from < 0 || from > s.len() {
        Seq::empty()
    } else {
        match next_image(syntax, s, from) {
            None => s.subrange(from, s.len() as int),
            Some(span) => {
                proof {
                    lemma_next_image(syntax, s, from);
                }
                let src = span.target(s);
                s.subrange(from, span.start) + replacement(
                    syntax,
                    s,
                    span,
                    resolved(src, base_path, canonical_at(canonical, used)),
                ) + rewritten_from(
                    syntax,
                    s,
                    span.end,
                    base_path,
                    canonical,
                    used + relative_count(src),
                )
            },
        }
    }
}

/// The text with each image reference rewritten.
pub open spec fn rewritten(
    syntax: ImageSyntax,
    s: Seq<char>,
    base_path: Seq<char>,
    canonical: Seq<Option<Seq<char>>>,
) -> Seq<char> {
    rewritten_from(syntax, s, 0, base_path, canonical, 0)
}

/// The paths that the relative targets from `from` on name, in order: each
/// target joined to the document's directory.
pub open spec fn relative_targets_from(
    syntax: ImageSyntax,
    s: Seq<char>,
    from: int,
    base_path: Seq<char>,
) -> Seq<Seq<char>>
    decreases s.len() - from,
{
    if from < 0 || from > s.len() {
        Seq::empty()
    } else {
        match next_image(syntax, s, from) {
            None => Seq::empty(),
            Some(span) => {
                proof {
                    lemma_next_image(syntax, s, from);
                }
                let src = span.target(s);
                let rest = relative_targets_from(syntax, s, span.end, base_path);
                if classify(src) is Relative {
                    seq![path_join(base_directory(base_path), src)] + rest
                } else {
                    rest
                }
            },
        }
    }
}

/// The paths that the relative targets of a text name, in order.
pub open spec fn relative_targets(
    syntax: ImageSyntax,
    s: Seq<char>,
    base_path: Seq<char>,
) -> Seq<Seq<char>> {
    relative_targets_from(syntax, s, 0, base_path)
}

/// Where an image reference stands in a text, by the indices of its parts.
#[derive(Clone, Copy, Debug)]
pub struct ImageRef {
    pub start: usize,
    pub lead: usize,
    pub src: usize,
    pub src_end: usize,
    pub end: usize,
}

impl View for ImageRef {
    type V = ImageSpan;

    open spec fn view(&self) -> ImageSpan {
        ImageSpan {
            start: self.start as int,
            lead: self.lead as int,
            src: self.src as int,
            src_end: self.src_end as int,
            end: self.end as int,
        }
    }
}

/// The span that a found reference stands for.
pub open spec fn span_of(found: Option<ImageRef>) -> Option<ImageSpan> {
    match found {
        Some(r) => Some(r@),
        None => None,
    }
}

fn html_tail_at(s: &Vec<char>, at: usize) -> (r: Option<(usize, usize)>)
    ensures
        match r {
            Some((quote, close)) => html_tail(s@, at as int) == Some((quote as int, close as int)),
            None => html_tail(s@, at as int) is None,
        },
{
    proof {
        reveal_strlit("src=\"");
    }
    if at >= s.len() || s[at] != 's' {
        assert(!occurs_at(s@, at as int, "src=\""@)) by {
            if occurs_at(s@, at as int, "src=\""@) {
                assert(s@.subrange(at as int, at + 5)[0] == 's');
            }
        }
        return None;
    }
    if !matches_at(s, at, "src=\"") {
        return None;
    }
    let quote = find_char_from(s, '"', at + 5);
    if quote <= at + 5 || quote >= s.len() {
        return None;
    }
    let close = find_char_from(s, '>', quote + 1);
    if close >= s.len() {
        return None;
    }
    Some((quote, close))
}

fn html_image_here(s: &Vec<char>, at: usize) -> (r: Option<ImageRef>)
    ensures
        span_of(r) == html_image_at(s@, at as int),
{
    proof {
        reveal_strlit("<img");
    }
    if at >= s.len() || s[at] != '<' {
        assert(!occurs_at(s@, at as int, "<img"@)) by {
            if occurs_at(s@, at as int, "<img"@) {
                assert(s@.subrange(at as int, at + 4)[0] == '<');
            }
        }
        return None;
    }
    if !matches_at(s, at, "<img") {
        return None;
    }
    let lead = skip_whitespace_from(s, at + 4);
    if lead <= at + 4 {
        return None;
    }
    let mut p: usize = lead;
    while p < s.len()
        invariant
            lead <= p <= s.len(),
            occurs_at(s@, at as int, "<img"@),
            lead == skip_whitespace(s@, at + 4),
            lead > at + 4,
            html_src_from(s@, lead as int) == html_src_from(s@, p as int),
        decreases s.len() - p,
    {
        match html_tail_at(s, p) {
            Some((quote, close)) => {
                return Some(
                    ImageRef { start: at, lead, src: p + 5, src_end: quote, end: close + 1 },
                );
            },
            None => {},
        }
        if s[p] == '>' {
            return None;
        }
        p += 1;
    }
    None
}

fn markdown_image_here(s: &Vec<char>, at: usize) -> (r: Option<ImageRef>)
    ensures
        span_of(r) == markdown_image_at(s@, at as int),
{
    proof {
        reveal_strlit("![");
    }
    if at >= s.len() || s[at] != '!' {
        assert(!occurs_at(s@, at as int, "!["@)) by {
            if occurs_at(s@, at as int, "!["@) {
                assert(s@.subrange(at as int, at + 2)[0] == '!');
            }
        }
        return None;
    }
    if !matches_at(s, at, "![") {
        return None;
    }
    let bracket = find_char_from(s, ']', at + 2);
    if bracket >= s.len() || bracket + 1 >= s.len() || s[bracket + 1] != '(' {
        return None;
    }
    let close = find_char_from(s, ')', bracket + 2);
    if close <= bracket + 2 || close >= s.len() {
        return None;
    }
    Some(ImageRef { start: at, lead: at + 2, src: bracket + 2, src_end: close, end: close + 1 })
}

/// Finds the first image reference that starts at or after `from`.
pub fn find_image(syntax: ImageSyntax, s: &Vec<char>, from: usize) -> (r: Option<ImageRef>)
    ensures
        span_of(r) == next_image(syntax, s@, from as int),
{
    let mut i: usize = from;
    while i < s.len()
        invariant
            from <= i,
            next_image(syntax, s@, from as int) == next_image(syntax, s@, i as int),
        decreases s.len() - i,
    {
        let found = match syntax {
            ImageSyntax::Html => html_image_here(s, i),
            ImageSyntax::Markdown => markdown_image_here(s, i),
        };
        if found.is_some() {
            return found;
        }
        i += 1;
    }
    None
}

fn drop_slashes_before(s: &Vec<char>, to: usize) -> (k: usize)
    requires
        to <= s.len(),
    ensures
        k == drop_slashes_back(s@, to as int),
        k <= to,
{
    let mut k: usize = to;
    while k > 0 && s[k - 1] == '/'
        invariant
            k <= to <= s.len(),
            drop_slashes_back(s@, to as int) == drop_slashes_back(s@, k as int),
        decreases k,
    {
        k -= 1;
    }
    k
}

/// Appends what replaces an image reference to `out`.
pub fn push_replacement(
    out: &mut Vec<char>,
    syntax: ImageSyntax,
    s: &Vec<char>,
    found: &ImageRef,
    target: &str,
)
    requires
        found@.fits(syntax, s@),
    ensures
        final(out)@ == old(out)@ + replacement(syntax, s@, found@, target@),
{
    match syntax {
        ImageSyntax::Html => {
            let attributes = copy_range(s, found.src_end + 1, found.end - 1);
            let stop = drop_slashes_before(&attributes, attributes.len());
            let kept = copy_range(&attributes, 0, stop);
            let after = trimmed(&kept);
            push_str(out, "<img ");
            push_range(out, s, found.lead, found.src - 5);
            push_str(out, "src=\"");
            push_str(out, target);
            if after.len() == 0 {
                push_str(out, "\" />");
            } else {
                push_str(out, "\" ");
                push_chars(out, &after);
                push_str(out, " />");
            }
        },
        ImageSyntax::Markdown => {
            push_str(out, "![");
            push_range(out, s, found.lead, found.src - 2);
            push_str(out, "](");
            push_str(out, target);
            push_str(out, ")");
        },
    }
}

/// The texts of the canonical forms.
pub open spec fn canonical_views(canonical: Seq<Option<String>>) -> Seq<Option<Seq<char>>> {
    Seq::new(canonical.len(), |i: int| option_text(canonical[i]))
}

/// The texts of a vector of strings.
pub open spec fn string_views(strings: Seq<String>) -> Seq<Seq<char>> {
    Seq::new(strings.len(), |i: int| strings[i]@)
}

fn is_relative(src: &Vec<char>) -> (r: bool)
    ensures
        r == (classify(src@) is Relative),
{
    match classify_path(src) {
        PathClass::Relative => true,
        _ => false,
    }
}

/// Resolves a target before which `used` relative targets stand.
fn resolve_numbered(
    src: &Vec<char>,
    base_path: &str,
    canonical: &Vec<Option<String>>,
    used: usize,
) -> (r: String)
    ensures
        r@ == resolved(src@, base_path@, canonical_at(canonical_views(canonical@), used as nat)),
{
    let text = string_of(src);
    if is_relative(src) && used < canonical.len() {
        match &canonical[used] {
            Some(path) => resolve_single_path_with(text.as_str(), base_path, Some(path.as_str())),
            None => resolve_single_path_with(text.as_str(), base_path, None),
        }
    } else {
        resolve_single_path_with(text.as_str(), base_path, None)
    }
}

/// How the rewriting of a text goes on at position `from`: with the rest
/// of the text, where no image reference follows; else with the text up to
/// the next reference, what replaces the reference, and the rewriting of
/// what stands behind it.
proof fn lemma_rewritten_step(
    syntax: ImageSyntax,
    s: Seq<char>,
    from: int,
    base_path: Seq<char>,
    canonical: Seq<Option<Seq<char>>>,
    used: nat,
)
    requires
        0 <= from <= s.len(),
    ensures
        match next_image(syntax, s, from) {
            None => rewritten_from(syntax, s, from, base_path, canonical, used) == s.subrange(
                from,
                s.len() as int,
            ),
            Some(span) => {
                &&& from <= span.start
                &&& span.fits(syntax, s)
                &&& rewritten_from(syntax, s, from, base_path, canonical, used) == s.subrange(
                    from,
                    span.start,
                ) + replacement(
                    syntax,
                    s,
                    span,
                    resolved(span.target(s), base_path, canonical_at(canonical, used)),
                ) + rewritten_from(
                    syntax,
                    s,
                    span.end,
                    base_path,
                    canonical,
                    used + relative_count(span.target(s)),
                )
            },
        },
{
    lemma_next_image(syntax, s, from);
}

/// Appends the text from `from` up to an image reference, and what
/// replaces the reference, to `out`. Returns the number of relative
/// targets up to and with this one.
fn push_rewritten(
    out: &mut Vec<char>,
    syntax: ImageSyntax,
    s: &Vec<char>,
    from: usize,
    found: &ImageRef,
    base_path: &str,
    canonical: &Vec<Option<String>>,
    used: usize,
) -> (next_used: usize)
    requires
        used <= from <= found.start,
        found@.fits(syntax, s@),
    ensures
        final(out)@ == old(out)@ + (s@.subrange(from as int, found.start as int) + replacement(
            syntax,
            s@,
            found@,
            resolved(
                found@.target(s@),
                base_path@,
                canonical_at(canonical_views(canonical@), used as nat),
            ),
        )),
        next_used == used + relative_count(found@.target(s@)),
        next_used <= found.end,
{
    let src_chars = copy_range(s, found.src, found.src_end);
    let target = resolve_numbered(&src_chars, base_path, canonical, used);
    push_range(out, s, from, found.start);
    push_replacement(out, syntax, s, found, target.as_str());
    if is_relative(&src_chars) {
        used + 1
    } else {
        used
    }
}

/// Rewrites every image reference of `text`, given for each relative
/// target, in order, the canonical form that was found for the path it
/// names. A relative target for which `canonical` holds no form, or no
/// entry, resolves to the path joined to the document's directory.
pub fn rewrite_images(
    syntax: ImageSyntax,
    text: &str,
    base_path: &str,
    canonical: &Vec<Option<String>>,
) -> (r: String)
    ensures
        r@ == rewritten(syntax, text@, base_path@, canonical_views(canonical@)),
{
    let s = chars_of(text);
    let ghost forms = canonical_views(canonical@);
    let mut out: Vec<char> = Vec::new();
    let mut pos: usize = 0;
    let mut used: usize = 0;
    let mut done = false;
    while !done
        invariant
            s@ == text@,
            forms == canonical_views(canonical@),
            used <= pos <= s.len(),
            !done ==> rewritten(syntax, s@, base_path@, forms) == out@ + rewritten_from(
                syntax,
                s@,
                pos as int,
                base_path@,
                forms,
                used as nat,
            ),
            done ==> rewritten(syntax, s@, base_path@, forms) == out@,
        decreases
                s.len() - pos + (if done {
                    0int
                } else {
                    1int
                }),
    {
        proof {
            lemma_rewritten_step(syntax, s@, pos as int, base_path@, forms, used as nat);
        }
        match find_image(syntax, &s, pos) {
            None => {
                push_range(&mut out, &s, pos, s.len());
                done = true;
            },
            Some(found) => {
                used = push_rewritten(&mut out, syntax, &s, pos, &found, base_path, canonical, used);
                pos = found.end;
            },
        }
    }
    string_of(&out)
}

/// The paths that the relative targets of `text` name, in order of
/// appearance: each target joined to the document's directory.
pub fn collect_relative_targets(syntax: ImageSyntax, text: &str, base_path: &str) -> (r: Vec<
    String,
>)
    ensures
        string_views(r@) == relative_targets(syntax, text@, base_path@),
{
    let s = chars_of(text);
    let mut targets: Vec<String> = Vec::new();
    let mut pos: usize = 0;
    let mut done = false;
    while !done
        invariant
            s@ == text@,
            pos <= s.len(),
            !done ==> relative_targets(syntax, s@, base_path@) == string_views(targets@)
                + relative_targets_from(syntax, s@, pos as int, base_path@),
            done ==> relative_targets(syntax, s@, base_path@) == string_views(targets@),
        decreases
                s.len() - pos + (if done {
                    0int
                } else {
                    1int
                }),
    {
        match find_image(syntax, &s, pos) {
            None => {
                done = true;
            },
            Some(found) => {
                proof {
                    lemma_next_image(syntax, s@, pos as int);
                }
                let src_chars = copy_range(&s, found.src, found.src_end);
                match classify_path(&src_chars) {
                    PathClass::Relative => {
                        let src = string_of(&src_chars);
                        let joined = joined_target(src.as_str(), base_path);
                        targets.push(joined);
                    },
                    _ => {},
                }
                pos = found.end;
            },
        }
    }
    targets
}

/// Asks the file system for the canonical form of each path.
pub fn canonical_forms(paths: &Vec<String>) -> (r: Vec<Option<String>>)
    ensures
        r@.len() == paths@.len(),
{
    let mut forms: Vec<Option<String>> = Vec::new();
    let mut i: usize = 0;
    while i < paths.len()
        invariant
            i <= paths.len(),
            forms@.len() == i,
        decreases paths.len() - i,
    {
        forms.push(canonical_form(paths[i].as_str()));
        i += 1;
    }
    forms
}

/// Rewrites every `<img ... src="..." ...>` tag of `html`, given the
/// canonical forms found for its relative targets.
pub fn resolve_image_paths_with(html: &str, base_path: &str, canonical: &Vec<Option<String>>) -> (r:
    String)
    ensures
        r@ == rewritten(ImageSyntax::Html, html@, base_path@, canonical_views(canonical@)),
{
    rewrite_images(ImageSyntax::Html, html, base_path, canonical)
}

/// Rewrites every `![alt](src)` reference of `markdown`, given the
/// canonical forms found for its relative targets.
pub fn resolve_markdown_image_paths_with(
    markdown: &str,
    base_path: &str,
    canonical: &Vec<Option<String>>,
) -> (r: String)
    ensures
        r@ == rewritten(
            ImageSyntax::Markdown,
            markdown@,
            base_path@,
            canonical_views(canonical@),
        ),
{
    rewrite_images(ImageSyntax::Markdown, markdown, base_path, canonical)
}

fn resolve_images(syntax: ImageSyntax, text: &str, base_path: &str) -> (r: String)
    ensures
        exists|canonical: Seq<Option<Seq<char>>>|
            canonical.len() == relative_targets(syntax, text@, base_path@).len() && r@
                == #[trigger] rewritten(syntax, text@, base_path@, canonical),
{
    let targets = collect_relative_targets(syntax, text, base_path);
    let forms = canonical_forms(&targets);
    let r = rewrite_images(syntax, text, base_path, &forms);
    r
}

/// Rewrites the target of every `<img ... src="..." ...>` tag of `html`
/// into a form that the host can load, and brings the tag into
/// self-closing form. `base_path` is the location of the document. Each
/// relative target is joined to the document's directory and given its
/// canonical form, where the file system yields one.
pub fn resolve_image_paths(html: &str, base_path: &str) -> (r: String)
    ensures
        exists|canonical: Seq<Option<Seq<char>>>|
            canonical.len() == relative_targets(ImageSyntax::Html, html@, base_path@).len() && r@
                == #[trigger] rewritten(ImageSyntax::Html, html@, base_path@, canonical),
{
    resolve_images(ImageSyntax::Html, html, base_path)
}

/// Rewrites the target of every `![alt](src)` reference of `markdown` into
/// a form that the host can load, keeping the alt text.
pub fn resolve_markdown_image_paths(markdown: &str, base_path: &str) -> (r: String)
    ensures
        exists|canonical: Seq<Option<Seq<char>>>|
            canonical.len() == relative_targets(
                ImageSyntax::Markdown,
                markdown@,
                base_path@,
            ).len() && r@ == #[trigger] rewritten(
                ImageSyntax::Markdown,
                markdown@,
                base_path@,
                canonical,
            ),
{
    resolve_images(ImageSyntax::Markdown, markdown, base_path)
}

/// Whether a target of this class comes out as it went in.
pub open spec fn passes_through(class: PathClass) -> bool {
    class is Remote || class is DataUri || class is HostResolved
}

/// A target that begins with `http://`, `https://` or `data:` resolves to
/// itself, whatever the document's location and whatever is on disk.
pub proof fn lemma_network_and_data_targets_unchanged(
    src: Seq<char>,
    base_path: Seq<char>,
    canonical: Option<Seq<char>>,
)
    requires
        starts_with(src, "http://"@) || starts_with(src, "https://"@) || starts_with(
            src,
            "data:"@,
        ),
    ensures
        passes_through(classify(src)),
        resolved(src, base_path, canonical) == src,
{
}

/// A relative target resolves to the local-path marker followed by the
/// path that it names.
pub proof fn lemma_relative_target_marked(
    src: Seq<char>,
    base_path: Seq<char>,
    canonical: Option<Seq<char>>,
)
    requires
        classify(src) is Relative,
    ensures
        starts_with(resolved(src, base_path, canonical), local_marker()),
        resolved(src, base_path, canonical).skip(local_marker().len() as int) == relative_path(
            src,
            base_path,
            canonical,
        ),
        canonical is None ==> resolved(src, base_path, canonical) == local_marker() + path_join(
            base_directory(base_path),
            src,
        ),
{
    let path = relative_path(src, base_path, canonical);
    let whole = local_marker() + path;
    assert(whole.subrange(0, 0 + local_marker().len() as int) =~= local_marker());
}

/// Every target either passes through as it is or comes out behind the
/// local-path marker.
pub proof fn lemma_target_passes_or_is_marked(
    src: Seq<char>,
    base_path: Seq<char>,
    canonical: Option<Seq<char>>,
)
    ensures
        passes_through(classify(src)) ==> resolved(src, base_path, canonical) == src,
        !passes_through(classify(src)) ==> starts_with(
            resolved(src, base_path, canonical),
            local_marker(),
        ),
{
    if !passes_through(classify(src)) {
        let whole = resolved(src, base_path, canonical);
        assert(whole.subrange(0, 0 + local_marker().len() as int) =~= local_marker());
    }
}

/// The targets of the image references from `from` on, in order.
pub open spec fn image_targets_from(syntax: ImageSyntax, s: Seq<char>, from: int) -> Seq<
    Seq<char>,
>
    decreases s.len() - from,
{
    if from < 0 || from > s.len() {
        Seq::empty()
    } else {
        match next_image(syntax, s, from) {
            None => Seq::empty(),
            Some(span) => {
                proof {
                    lemma_next_image(syntax, s, from);
                }
                seq![span.target(s)] + image_targets_from(syntax, s, span.end)
            },
        }
    }
}

/// The targets of the image references of a text, in order.
pub open spec fn image_targets(syntax: ImageSyntax, s: Seq<char>) -> Seq<Seq<char>> {
    image_targets_from(syntax, s, 0)
}

proof fn lemma_markdown_reference_text(s: Seq<char>, span: ImageSpan)
    requires
        0 <= span.start,
        markdown_image_at(s, span.start) == Some(span),
    ensures
        replacement(ImageSyntax::Markdown, s, span, span.target(s)) == s.subrange(
            span.start,
            span.end,
        ),
{
    reveal_strlit("![");
    reveal_strlit("](");
    reveal_strlit(")");
    let at = span.start;
    let bracket = find_char(s, ']', at + 2);
    lemma_find_char(s, ']', at + 2);
    lemma_find_char(s, ')', bracket + 2);
    let written = replacement(ImageSyntax::Markdown, s, span, span.target(s));
    let read = s.subrange(span.start, span.end);
    assert(written.len() == read.len());
    assert forall|i: int| 0 <= i < written.len() implies written[i] == read[i] by {}
    assert(written =~= read);
}

proof fn lemma_markdown_passthrough_from(
    s: Seq<char>,
    from: int,
    base_path: Seq<char>,
    canonical: Seq<Option<Seq<char>>>,
    used: nat,
)
    requires
        0 <= from <= s.len(),
        forall|i: int|
            0 <= i < image_targets_from(ImageSyntax::Markdown, s, from).len() ==> passes_through(
                classify(#[trigger] image_targets_from(ImageSyntax::Markdown, s, from)[i]),
            ),
    ensures
        rewritten_from(ImageSyntax::Markdown, s, from, base_path, canonical, used) == s.subrange(
            from,
            s.len() as int,
        ),
    decreases s.len() - from,
{
    let syntax = ImageSyntax::Markdown;
    match next_image(syntax, s, from) {
        None => {},
        Some(span) => {
            lemma_next_image(syntax, s, from);
            let src = span.target(s);
            let targets = image_targets_from(syntax, s, from);
            let later = image_targets_from(syntax, s, span.end);
            assert(targets[0] == src);
            assert forall|i: int| 0 <= i < later.len() implies passes_through(
                classify(#[trigger] later[i]),
            ) by {
                assert(targets[i + 1] == later[i]);
            }
            lemma_markdown_passthrough_from(s, span.end, base_path, canonical, used);
            lemma_markdown_reference_text(s, span);
            assert(s.subrange(from, span.start) + s.subrange(span.start, span.end) + s.subrange(
                span.end,
                s.len() as int,
            ) =~= s.subrange(from, s.len() as int));
        },
    }
}

/// A Markdown text all of whose image targets are network, data or
/// host-resolved targets comes out of the rewriting as it went in.
pub proof fn lemma_markdown_passthrough(
    markdown: Seq<char>,
    base_path: Seq<char>,
    canonical: Seq<Option<Seq<char>>>,
)
    requires
        forall|i: int|
            0 <= i < image_targets(ImageSyntax::Markdown, markdown).len() ==> passes_through(
                classify(#[trigger] image_targets(ImageSyntax::Markdown, markdown)[i]),
            ),
    ensures
        rewritten(ImageSyntax::Markdown, markdown, base_path, canonical) == markdown,
{
    let targets = image_targets(ImageSyntax::Markdown, markdown);
    assert(targets == image_targets_from(ImageSyntax::Markdown, markdown, 0));
    assert forall|i: int|
        0 <= i < image_targets_from(ImageSyntax::Markdown, markdown, 0).len() implies passes_through(
        classify(#[trigger] image_targets_from(ImageSyntax::Markdown, markdown, 0)[i]),
    ) by {
        assert(passes_through(classify(targets[i])));
    }
    lemma_markdown_passthrough_from(markdown, 0, base_path, canonical, 0);
    assert(markdown.subrange(0, markdown.len() as int) =~= markdown);
}

/// What an image tag is: `<img`, then white space, then attributes
/// without `>`, then `src="`, a target without a quote, the quote, more
/// attributes without `>`, and `>`. Where `src="` stands more than once
/// among the attributes, the target is the first that is not empty and that
/// a quote and a `>` follow.
pub proof fn lemma_html_image_shape(s: Seq<char>, at: int)
    requires
        0 <= at,
    ensures
        html_image_at(s, at) matches Some(span) ==> {
            &&& span.start == at
            &&& occurs_at(s, at, "<img"@)
            &&& at + 4 < span.lead
            &&& forall|j: int| at + 4 <= j < span.lead ==> is_whitespace(#[trigger] s[j])
            &&& !is_whitespace(s[span.lead])
            &&& forall|j: int| span.lead <= j < span.src - 5 ==> #[trigger] s[j] != '>'
            &&& forall|j: int| span.lead <= j < span.src - 5 ==> html_tail(s, j) is None
            &&& occurs_at(s, span.src - 5, "src=\""@)
            &&& span.src < span.src_end
            &&& forall|j: int| span.src <= j < span.src_end ==> #[trigger] s[j] != '"'
            &&& s[span.src_end] == '"'
            &&& forall|j: int| span.src_end < j < span.end - 1 ==> #[trigger] s[j] != '>'
            &&& s[span.end - 1] == '>'
            &&& span.end <= s.len()
        },
{
    if let Some(span) = html_image_at(s, at) {
        reveal_strlit("<img");
        reveal_strlit("src=\"");
        lemma_skip_whitespace(s, at + 4);
        lemma_html_src_from(s, span.lead);
        lemma_find_char(s, '"', span.src);
        lemma_find_char(s, '>', span.src_end + 1);
    }
}

/// What a Markdown image reference is: `![`, an alt text without `]`,
/// `](`, a target without `)` that is not empty, and `)`.
pub proof fn lemma_markdown_image_shape(s: Seq<char>, at: int)
    requires
        0 <= at,
    ensures
        markdown_image_at(s, at) matches Some(span) ==> {
            &&& span.start == at
            &&& occurs_at(s, at, "!["@)
            &&& span.lead == at + 2
            &&& forall|j: int| span.lead <= j < span.src - 2 ==> #[trigger] s[j] != ']'
            &&& occurs_at(s, span.src - 2, "]("@)
            &&& span.src < span.src_end
            &&& forall|j: int| span.src <= j < span.src_end ==> #[trigger] s[j] != ')'
            &&& s[span.src_end] == ')'
            &&& span.end == span.src_end + 1
            &&& span.end <= s.len()
        },
{
    if let Some(span) = markdown_image_at(s, at) {
        reveal_strlit("![");
        reveal_strlit("](");
        lemma_find_char(s, ']', at + 2);
        lemma_find_char(s, ')', span.src);
        assert(s.subrange(span.src - 2, span.src - 2 + 2) =~= "]("@);
    }
}

/// No image reference starts between `from` and the next one.
pub proof fn lemma_next_image_is_first(syntax: ImageSyntax, s: Seq<char>, from: int)
    requires
        0 <= from,
    ensures
        match next_image(syntax, s, from) {
            Some(span) => forall|j: int| from <= j < span.start ==> image_at(syntax, s, j) is None,
            None => forall|j: int| from <= j < s.len() ==> image_at(syntax, s, j) is None,
        },
    decreases s.len() - from,
{
    if from < s.len() {
        lemma_image_at(syntax, s, from);
        if image_at(syntax, s, from) is None {
            lemma_next_image_is_first(syntax, s, from + 1);
        }
    }
}

/// What replaces an image reference holds the resolved target. With the
/// laws above: a network or data target stands in the rewritten reference
/// as it stood in the text, and a relative one stands there behind the
/// local-path marker.
pub proof fn lemma_replacement_holds_target(
    syntax: ImageSyntax,
    s: Seq<char>,
    span: ImageSpan,
    target: Seq<char>,
)
    ensures
        contains(replacement(syntax, s, span, target), target),
{
    assert(target.subrange(0, target.len() as int) =~= target);
    match syntax {
        ImageSyntax::Html => {
            let before = "<img "@ + s.subrange(span.lead, span.src - 5) + "src=\""@;
            let after = clean_attributes(s.subrange(span.src_end + 1, span.end - 1));
            let tail = if after.len() == 0 {
                "\" />"@
            } else {
                "\" "@ + after + " />"@
            };
            lemma_occurs_in_middle(before, target, tail, 0, target);
            assert(before + target + tail =~= replacement(syntax, s, span, target));
        },
        ImageSyntax::Markdown => {
            let before = "!["@ + s.subrange(span.lead, span.src - 2) + "]("@;
            lemma_occurs_in_middle(before, target, ")"@, 0, target);
            assert(before + target + ")"@ =~= replacement(syntax, s, span, target));
        },
    }
}

} // verus!
