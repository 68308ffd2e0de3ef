//! The operations that a host calls: rendering a document, highlighting a
//! code block, and the rules by which a pasted image is decoded, named and
//! placed. Reading and writing files is the host's part.

use crate::markdown::highlighter::{
    classed_html, highlight_code, lines_with_endings, resolved_grammar, GrammarRegistry,
};
use crate::markdown::images::{
    base_directory, canonical_forms, canonical_views, collect_relative_targets, joined_target,
    path_join, resolve_image_paths_with, rewritten, ImageSyntax,
};
use crate::markdown::parser::render_markdown_html;
use crate::markdown::special_blocks::{
    block_views, extract_special_blocks, placeholder_id, special_blocks, SpecialBlock,
};
use crate::text::{
    chars_of, copy_range, decimal, option_text, push_decimal, push_str, string_of,
};
use base64::engine::general_purpose::STANDARD;
use base64::{DecodeError, Engine};
use comrak::Plugins;
use vstd::prelude::*;

verus! {

/// What a rendering yields: the HTML, in which a placeholder element stands
/// for each special block, and the special blocks that fill them.
#[derive(Debug)]
pub struct RenderResult {
    pub html: String,
    pub special_blocks: Vec<SpecialBlock>,
}

/// How a document is to be rendered.
#[derive(Debug)]
pub struct RenderOptions {
    /// "light" or "dark": the style sheet that the host applies. The
    /// markup carries class names only and is the same under both.
    pub theme: String,
    /// The location of the document. Image references are resolved against
    /// it; without it they are left as they are.
    pub base_path: Option<String>,
}

/// The message of a rendering that failed in the engine.
pub open spec fn engine_failure() -> Seq<char> {
    "Failed to render markdown"@
}

/// The HTML that a rendering hands out, given what the engine wrote: with
/// its image tags rewritten where the document's location is known, else
/// as the engine wrote it.
pub open spec fn final_html(
    engine_html: Seq<char>,
    base_path: Option<Seq<char>>,
    canonical: Seq<Option<Seq<char>>>,
) -> Seq<char> {
    match base_path {
        Some(base) => rewritten(ImageSyntax::Html, engine_html, base, canonical),
        None => engine_html,
    }
}

/// Puts the result of a rendering together, given what the engine wrote, or
/// `None` where it failed, and the canonical forms found for the relative
/// image targets of that HTML. The special blocks are handed on as they
/// came out of the extraction.
pub fn assemble_result(
    engine_html: Option<String>,
    special_blocks: Vec<SpecialBlock>,
    options: &RenderOptions,
    canonical: &Vec<Option<String>>,
) -> (r: Result<RenderResult, String>)
    ensures
        match engine_html {
            Some(html) => {
                &&& r matches Ok(result)
                &&& result.special_blocks == special_blocks
                &&& result.html@ == final_html(
                    html@,
                    option_text(options.base_path),
                    canonical_views(canonical@),
                )
            },
            None => r matches Err(message) && message@ == engine_failure(),
        },
{
    match engine_html {
        Some(html) => {
            let html = match &options.base_path {
                Some(base) => resolve_image_paths_with(html.as_str(), base.as_str(), canonical),
                None => html,
            };
            Ok(RenderResult { html, special_blocks })
        },
        None => Err("Failed to render markdown".to_owned()),
    }
}

/// Renders a document: lifts the special blocks out, runs the engine on
/// what is left, and resolves the image tags of the HTML where
/// `options.base_path` gives the document's location.
///
/// `plugins` is the engine's plug-in table, in which the host has set the
/// highlighter. The rendering fails only where a hook of that highlighter
/// reports a failure.
pub fn render_markdown(markdown: String, options: RenderOptions, plugins: &Plugins) -> (r: Result<
    RenderResult,
    String,
>)
    ensures
        r matches Ok(result) ==> {
            &&& block_views(result.special_blocks@) == special_blocks(markdown@)
            &&& forall|i: int|
                0 <= i < result.special_blocks@.len() ==> (
                #[trigger] result.special_blocks@[i]).well_formed()
                    && result.special_blocks@[i].placeholder_id@ == placeholder_id(i as nat)
            &&& exists|engine_html: Seq<char>, canonical: Seq<Option<Seq<char>>>|
                result.html@ == #[trigger] final_html(
                    engine_html,
                    option_text(options.base_path),
                    canonical,
                )
        },
        r matches Err(message) ==> message@ == engine_failure(),
{
    let (processed, blocks) = extract_special_blocks(markdown.as_str());
    let engine_html = render_markdown_html(processed.as_str(), plugins);
    let canonical = match (&engine_html, &options.base_path) {
        (Some(html), Some(base)) => canonical_forms(
            &collect_relative_targets(ImageSyntax::Html, html.as_str(), base.as_str()),
        ),
        _ => Vec::new(),
    };
    assemble_result(engine_html, blocks, &options, &canonical)
}

/// Highlights a code block; see `highlight_code`.
pub fn highlight_code_block(registry: &GrammarRegistry, code: String, lang: String) -> (html:
    String)
    ensures
        html@ == classed_html(resolved_grammar(lang@), lines_with_endings(code@)),
{
    highlight_code(registry, code.as_str(), lang.as_str())
}

/// Where the payload of pasted image data starts: behind its last comma,
/// which ends the prefix of a data URL, or at the start where it has none.
pub open spec fn payload_start(data: Seq<char>, to: int) -> int
    decreases to,
{
    if 0 < to <= data.len() && data[to - 1] != ',' {
        payload_start(data, to - 1)
    } else if to < 0 {
        0
    } else {
        to
    }
}

/// The base64 text of pasted image data, without the prefix of a data URL.
pub open spec fn payload(data: Seq<char>) -> Seq<char> {
    data.skip(payload_start(data, data.len() as int))
}

/// The base64 text of pasted image data.
pub fn base64_payload(data: &str) -> (r: String)
    ensures
        r@ == payload(data@),
{
    let s = chars_of(data);
    let mut k: usize = s.len();
    while k > 0 && s[k - 1] != ','
        invariant
            k <= s.len(),
            payload_start(s@, s@.len() as int) == payload_start(s@, k as int),
        decreases k,
    {
        k -= 1;
    }
    let rest = copy_range(&s, k, s.len());
    string_of(&rest)
}

/// `base64::DecodeError`: why a text is no base64.
#[verifier::external_type_specification]
#[verifier::external_body]
pub struct ExDecodeError(DecodeError);

/// The bytes that the standard base64 engine decodes a text to, where it
/// decodes it.
pub uninterp spec fn base64_decoded(text: Seq<char>) -> Option<Seq<u8>>;

/// Calls `Engine::decode` on `base64::engine::general_purpose::STANDARD`.
/// The bytes are known to contracts only by the name `base64_decoded`.
#[verifier::external_body]
fn decode_standard(text: &str) -> (r: Result<Vec<u8>, DecodeError>)
    ensures
        r is Ok <==> base64_decoded(text@) is Some,
        r matches Ok(bytes) ==> base64_decoded(text@) == Some(bytes@),
{
    STANDARD.decode(text)
}

/// Writes a `base64::DecodeError` out through its `Display`.
#[verifier::external_body]
fn describe(error: &DecodeError) -> (text: String) {
    format!("{}", error)
}

/// Whether a message reports a text that is no base64.
pub open spec fn is_decode_failure(message: Seq<char>) -> bool {
    crate::text::occurs_at(message, 0, "Failed to decode base64: "@)
}

/// Decodes pasted image data: base64, with or without the prefix of a data
/// URL. Text that is no base64 is reported with a message.
pub fn decode_pasted_image(data: &str) -> (r: Result<Vec<u8>, String>)
    ensures
        r is Ok <==> base64_decoded(payload(data@)) is Some,
        r matches Ok(bytes) ==> base64_decoded(payload(data@)) == Some(bytes@),
        r matches Err(message) ==> is_decode_failure(message@),
{
    let text = base64_payload(data);
    match decode_standard(text.as_str()) {
        Ok(bytes) => Ok(bytes),
        Err(error) => {
            let mut message: Vec<char> = Vec::new();
            push_str(&mut message, "Failed to decode base64: ");
            let ghost head = message@;
            push_str(&mut message, describe(&error).as_str());
            assert(message@.subrange(0, 0 + head.len() as int) =~= head);
            Err(string_of(&message))
        },
    }
}

/// The name under which a pasted image is saved: the name asked for, or
/// one made of the time of pasting, in milliseconds.
pub open spec fn image_name(filename: Option<Seq<char>>, timestamp_millis: nat) -> Seq<char> {
    match filename {
        Some(name) => name,
        None => "pasted-image-"@ + decimal(timestamp_millis) + ".png"@,
    }
}

/// The name under which a pasted image is saved.
pub fn pasted_image_name(filename: Option<String>, timestamp_millis: u128) -> (name: String)
    ensures
        name@ == image_name(option_text(filename), timestamp_millis as nat),
{
    match filename {
        Some(name) => name,
        None => {
            let mut out: Vec<char> = Vec::new();
            push_str(&mut out, "pasted-image-");
            push_decimal(&mut out, timestamp_millis);
            push_str(&mut out, ".png");
            string_of(&out)
        },
    }
}

/// The directory in which the pasted images of a document are saved:
/// `images`, beside the document.
pub fn images_directory(base_path: &str) -> (directory: String)
    ensures
        directory@ == path_join(base_directory(base_path@), "images"@),
{
    joined_target("images", base_path)
}

/// The path by which a document refers to a pasted image that was saved
/// under `file_name`.
pub fn saved_image_path(file_name: &str) -> (path: String)
    ensures
        path@ == "images/"@ + file_name@,
{
    let mut out: Vec<char> = Vec::new();
    push_str(&mut out, "images/");
    push_str(&mut out, file_name);
    string_of(&out)
}

} // verus!
