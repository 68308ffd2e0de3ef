//! The Markdown engine: how it is set up, the three hooks through which it
//! hands the rendering of code fences to the highlighter, and the call that
//! runs it.
//!
//! The engine calls the hooks through an interface of its own. A host
//! implements that interface by forwarding to `SyntectAdapter` and hands
//! the engine's plug-in table in.

use crate::markdown::highlighter::{
    classed_html, highlight_code, lines_with_endings, resolved_grammar, GrammarRegistry,
};
use crate::text::{option_text, push_str, string_of};
use comrak::{ExtensionOptions, Plugins};
use vstd::prelude::*;

verus! {

/// `comrak::ExtensionOptions`: which extensions of the syntax are read.
#[verifier::external_type_specification]
#[verifier::external_body]
pub struct ExExtensionOptions<'c>(ExtensionOptions<'c>);

/// `comrak::Plugins`: the engine's plug-in table, which holds the
/// code-fence highlighter that a host has set.
#[verifier::external_type_specification]
#[verifier::external_body]
pub struct ExPlugins<'p>(Plugins<'p>);

/// The engine's settings that this library decides on.
pub struct EngineOptions {
    /// `~~text~~` strikes text through.
    pub strikethrough: bool,
    /// Whether raw HTML tags are filtered out.
    pub tagfilter: bool,
    pub table: bool,
    pub autolink: bool,
    pub tasklist: bool,
    pub superscript: bool,
    /// The prefix of the ids that headings get, where they get ids.
    pub header_ids: Option<String>,
    pub footnotes: bool,
    pub description_lists: bool,
    /// The line that fences front matter off, where front matter is read.
    pub front_matter_delimiter: Option<String>,
    pub shortcodes: bool,
    /// Raw HTML in the document is passed on. The placeholders of special
    /// blocks reach the output only with this set.
    pub raw_html: bool,
    /// The language of a fence is written as an attribute of its `pre` tag.
    pub github_pre_lang: bool,
    /// What follows the language in a fence's tag is passed on too.
    pub full_info_string: bool,
}

/// The settings with which documents are rendered.
pub fn get_options() -> (options: EngineOptions)
    ensures
        options.strikethrough,
        !options.tagfilter,
        options.table,
        options.autolink,
        options.tasklist,
        options.superscript,
        option_text(options.header_ids) == Some("heading-"@),
        options.footnotes,
        options.description_lists,
        option_text(options.front_matter_delimiter) == Some("---"@),
        options.shortcodes,
        options.raw_html,
        options.github_pre_lang,
        options.full_info_string,
{
    EngineOptions {
        strikethrough: true,
        tagfilter: false,
        table: true,
        autolink: true,
        tasklist: true,
        superscript: true,
        header_ids: Some("heading-".to_owned()),
        footnotes: true,
        description_lists: true,
        front_matter_delimiter: Some("---".to_owned()),
        shortcodes: true,
        raw_html: true,
        github_pre_lang: true,
        full_info_string: true,
    }
}

/// One attribute of a tag, written ` name="value"`.
pub open spec fn attribute_text(name: Seq<char>, value: Seq<char>) -> Seq<char> {
    " "@ + name + "=\""@ + value + "\""@
}

/// The attributes of a tag, written one after the other in the order in
/// which they are given.
pub open spec fn attributes_text(attributes: Seq<(String, String)>) -> Seq<char>
    decreases attributes.len(),
{
    if attributes.len() == 0 {
        Seq::empty()
    } else {
        attributes_text(attributes.drop_last()) + attribute_text(
            attributes.last().0@,
            attributes.last().1@,
        )
    }
}

/// The opening tag of an element with the given attributes.
pub open spec fn opening_tag(element: Seq<char>, attributes: Seq<(String, String)>) -> Seq<char> {
    "<"@ + element + attributes_text(attributes) + ">"@
}

/// Writes the opening tag of an element.
pub fn write_opening_tag(element: &str, attributes: &Vec<(String, String)>) -> (tag: String)
    ensures
        tag@ == opening_tag(element@, attributes@),
{
    let mut out: Vec<char> = Vec::new();
    push_str(&mut out, "<");
    push_str(&mut out, element);
    let ghost head = out@;
    let mut i: usize = 0;
    while i < attributes.len()
        invariant
            i <= attributes.len(),
            out@ == head + attributes_text(attributes@.take(i as int)),
        decreases attributes.len() - i,
    {
        assert(attributes@.take(i + 1).drop_last() =~= attributes@.take(i as int));
        push_str(&mut out, " ");
        push_str(&mut out, attributes[i].0.as_str());
        push_str(&mut out, "=\"");
        push_str(&mut out, attributes[i].1.as_str());
        push_str(&mut out, "\"");
        i += 1;
    }
    assert(attributes@.take(attributes@.len() as int) =~= attributes@);
    push_str(&mut out, ">");
    assert(out@ =~= opening_tag(element@, attributes@));
    string_of(&out)
}

/// The language under which a fence without a tag is highlighted.
pub open spec fn fence_language(lang: Option<&str>) -> Seq<char> {
    match lang {
        Some(l) => l@,
        None => "text"@,
    }
}

/// The highlighter as the engine's code-fence plug-in.
pub struct SyntectAdapter<'r> {
    registry: &'r GrammarRegistry,
}

impl<'r> SyntectAdapter<'r> {
    /// The registry whose grammars the adapter highlights with.
    pub closed spec fn registry(&self) -> GrammarRegistry {
        *self.registry
    }

    /// An adapter that highlights with the grammars of `registry`.
    pub fn new(registry: &'r GrammarRegistry) -> (adapter: SyntectAdapter<'r>)
        ensures
            adapter.registry() == *registry,
    {
        SyntectAdapter { registry }
    }

    /// The markup for the code of a fence: the code highlighted under the
    /// fence's language, or as `text` where the fence names none.
    pub fn write_highlighted(&self, lang: Option<&str>, code: &str) -> (html: String)
        ensures
            html@ == classed_html(
                resolved_grammar(fence_language(lang)),
                lines_with_endings(code@),
            ),
    {
        let lang = match lang {
            Some(l) => l,
            None => "text",
        };
        highlight_code(self.registry, code, lang)
    }

    /// The opening `pre` tag of a fence.
    pub fn write_pre_tag(&self, attributes: &Vec<(String, String)>) -> (tag: String)
        ensures
            tag@ == opening_tag("pre"@, attributes@),
    {
        write_opening_tag("pre", attributes)
    }

    /// The opening `code` tag of a fence.
    pub fn write_code_tag(&self, attributes: &Vec<(String, String)>) -> (tag: String)
        ensures
            tag@ == opening_tag("code"@, attributes@),
    {
        write_opening_tag("code", attributes)
    }
}

/// Copies the settings for the extensions into a `comrak::ExtensionOptions`
/// that starts from comrak's defaults.
#[verifier::external_body]
fn extension_options(settings: &EngineOptions) -> (extension: ExtensionOptions<'static>) {
    let mut extension = ExtensionOptions::default();
    extension.strikethrough = settings.strikethrough;
    extension.tagfilter = settings.tagfilter;
    extension.table = settings.table;
    extension.autolink = settings.autolink;
    extension.tasklist = settings.tasklist;
    extension.superscript = settings.superscript;
    extension.header_ids = settings.header_ids.clone();
    extension.footnotes = settings.footnotes;
    extension.description_lists = settings.description_lists;
    extension.front_matter_delimiter = settings.front_matter_delimiter.clone();
    extension.shortcodes = settings.shortcodes;
    extension
}

/// Runs the engine with the given extensions and the settings for the
/// output: `comrak::parse_document`, then
/// `comrak::format_html_with_plugins` into a fresh string, the two steps of
/// `comrak::markdown_to_html_with_plugins`. Where that function aborts
/// because a hook of the plug-in table reported a failure, this one hands
/// back `None`. What the engine writes depends on the hooks, so nothing is
/// claimed of it.
#[verifier::external_body]
fn run_engine(
    markdown: &str,
    extension: ExtensionOptions<'static>,
    settings: &EngineOptions,
    plugins: &Plugins,
) -> (html: Option<String>) {
    let mut options = comrak::Options::default();
    options.extension = extension;
    options.render.unsafe_ = settings.raw_html;
    options.render.github_pre_lang = settings.github_pre_lang;
    options.render.full_info_string = settings.full_info_string;
    let arena = comrak::Arena::new();
    let root = comrak::parse_document(&arena, markdown, &options);
    let mut html = String::new();
    match comrak::format_html_with_plugins(root, &options, &mut html, plugins) {
        Ok(()) => Some(html),
        Err(_) => None,
    }
}

/// Renders Markdown to HTML with the settings of `get_options`, code
/// fences going through the highlighter that `plugins` holds. Returns
/// `None` where a hook of that highlighter reports a failure; the hooks of
/// `SyntectAdapter` report none.
pub fn render_markdown_html(markdown: &str, plugins: &Plugins) -> (html: Option<String>) {
    let settings = get_options();
    run_engine(markdown, extension_options(&settings), &settings, plugins)
}

} // verus!
