//! Syntax highlighting of code with class-annotated markup.
//!
//! The grammar for a language token is looked up in three steps: by the
//! token itself, by the token as a file extension, and last the plain-text
//! grammar, which marks nothing up. The code is then handed to the
//! generator line by line, each line with its line feed, so that line
//! breaks stand in the markup where they stood in the code.

use crate::text::{chars_of, copy_range, find_char, find_char_from, lemma_find_char, string_of};
use syntect::html::{ClassStyle, ClassedHTMLGenerator};
use syntect::parsing::{SyntaxReference, SyntaxSet};
use vstd::prelude::*;

verus! {

/// `syntect::parsing::SyntaxSet`: a set of grammars.
#[verifier::external_type_specification]
#[verifier::external_body]
pub struct ExSyntaxSet(SyntaxSet);

/// `syntect::parsing::SyntaxReference`: one grammar of a set.
#[verifier::external_type_specification]
#[verifier::external_body]
pub struct ExSyntaxReference(SyntaxReference);

/// `syntect::html::ClassedHTMLGenerator`: the state of one highlighting run.
#[verifier::external_type_specification]
#[verifier::external_body]
pub struct ExClassedHTMLGenerator<'a>(ClassedHTMLGenerator<'a>);

/// The grammars that highlighting draws on: the default grammars that
/// syntect ships, in the form that reads lines with their line feeds.
/// Loading them is costly; a host loads them once and shares the registry.
pub struct GrammarRegistry {
    syntaxes: SyntaxSet,
}

/// Whether a set holds the grammars that syntect ships, as
/// `SyntaxSet::load_defaults_newlines` unpacks them. The grammar named
/// "Plain Text" is among them.
pub uninterp spec fn holds_default_grammars(set: SyntaxSet) -> bool;

impl GrammarRegistry {
    /// Whether the registry holds the default grammars. Every lookup and
    /// every highlighting run rests on this: the grammars that contracts
    /// name are the default ones.
    pub closed spec fn is_default(&self) -> bool {
        holds_default_grammars(self.syntaxes)
    }

    #[verifier::type_invariant]
    spec fn loaded_from_defaults(&self) -> bool {
        self.is_default()
    }
}

/// A grammar of the registry, known to contracts by its name.
pub struct Grammar<'a> {
    name: String,
    syntax: &'a SyntaxReference,
}

impl<'a> View for Grammar<'a> {
    type V = Seq<char>;

    closed spec fn view(&self) -> Seq<char> {
        self.name@
    }
}

/// The name of the grammar that `SyntaxSet::find_syntax_by_token` finds in
/// the default grammars for a token, if it finds one.
pub uninterp spec fn grammar_for_token(token: Seq<char>) -> Option<Seq<char>>;

/// The name of the grammar that `SyntaxSet::find_syntax_by_extension` finds
/// in the default grammars for a file extension, if it finds one.
pub uninterp spec fn grammar_for_extension(extension: Seq<char>) -> Option<Seq<char>>;

/// The name of the grammar that a generator was made with.
pub uninterp spec fn generator_grammar(generator: ClassedHTMLGenerator) -> Seq<char>;

/// The lines that a generator was handed so far, in order.
pub uninterp spec fn fed_lines(generator: ClassedHTMLGenerator) -> Seq<Seq<char>>;

/// The markup that `ClassedHTMLGenerator::finalize` returns for a generator
/// that was made with the named grammar of the default grammars, with
/// space-separated class names, and was handed the given lines.
pub uninterp spec fn classed_html(grammar: Seq<char>, lines: Seq<Seq<char>>) -> Seq<char>;

/// The name of the grammar that marks nothing up.
pub open spec fn plain_text_name() -> Seq<char> {
    "Plain Text"@
}

/// The name of a grammar that a lookup found.
pub open spec fn grammar_name(found: Option<Grammar>) -> Option<Seq<char>> {
    match found {
        Some(grammar) => Some(grammar@),
        None => None,
    }
}

/// Calls `SyntaxSet::load_defaults_newlines`, which unpacks the grammars
/// that syntect ships. What it hands back is, by the meaning of the name,
/// a set that holds the default grammars.
#[verifier::external_body]
fn load_default_syntaxes() -> (set: SyntaxSet)
    ensures
        holds_default_grammars(set),
{
    SyntaxSet::load_defaults_newlines()
}

/// Calls `SyntaxSet::find_syntax_by_token` and hands back the grammar with
/// its name. Which grammar is found is known to contracts only by the name
/// `grammar_for_token`.
#[verifier::external_body]
fn find_by_token<'a>(registry: &'a GrammarRegistry, token: &str) -> (r: Option<Grammar<'a>>)
    requires
        registry.is_default(),
    ensures
        grammar_name(r) == grammar_for_token(token@),
{
    registry.syntaxes.find_syntax_by_token(token).map(
        |s| Grammar { name: s.name.clone(), syntax: s },
    )
}

/// Calls `SyntaxSet::find_syntax_by_extension` and hands back the grammar
/// with its name. Which grammar is found is known to contracts only by the
/// name `grammar_for_extension`.
#[verifier::external_body]
fn find_by_extension<'a>(registry: &'a GrammarRegistry, extension: &str) -> (r: Option<
    Grammar<'a>,
>)
    requires
        registry.is_default(),
    ensures
        grammar_name(r) == grammar_for_extension(extension@),
{
    registry.syntaxes.find_syntax_by_extension(extension).map(
        |s| Grammar { name: s.name.clone(), syntax: s },
    )
}

/// Calls `SyntaxSet::find_syntax_plain_text`, which looks the grammar named
/// "Plain Text" up and aborts where a set has none. The default grammars
/// hold it: the program that syntect builds them with adds it.
#[verifier::external_body]
fn find_plain_text<'a>(registry: &'a GrammarRegistry) -> (r: Grammar<'a>)
    requires
        registry.is_default(),
    ensures
        r@ == plain_text_name(),
{
    let s = registry.syntaxes.find_syntax_plain_text();
    Grammar { name: s.name.clone(), syntax: s }
}

/// Calls `ClassedHTMLGenerator::new_with_class_style` with the grammar and
/// `ClassStyle::Spaced`. The new generator has been handed no line.
#[verifier::external_body]
fn new_generator<'a>(registry: &'a GrammarRegistry, grammar: &Grammar<'a>) -> (generator:
    ClassedHTMLGenerator<'a>)
    requires
        registry.is_default(),
    ensures
        generator_grammar(generator) == grammar@,
        fed_lines(generator) == Seq::<Seq<char>>::empty(),
{
    ClassedHTMLGenerator::new_with_class_style(grammar.syntax, &registry.syntaxes, ClassStyle::Spaced)
}

/// Calls `ClassedHTMLGenerator::parse_html_for_line_which_includes_newline`
/// and drops what it reports: a line that the grammar cannot read leaves no
/// markup. The generator keeps its grammar and has one line more behind it.
#[verifier::external_body]
fn feed_line(generator: &mut ClassedHTMLGenerator, line: &str)
    ensures
        generator_grammar(*final(generator)) == generator_grammar(*old(generator)),
        fed_lines(*final(generator)) == fed_lines(*old(generator)).push(line@),
{
    let _ = generator.parse_html_for_line_which_includes_newline(line);
}

/// Calls `ClassedHTMLGenerator::finalize`, which closes the open elements
/// and hands the markup out. The markup is known to contracts only by the
/// name `classed_html`.
#[verifier::external_body]
fn finish(generator: ClassedHTMLGenerator) -> (html: String)
    ensures
        html@ == classed_html(generator_grammar(generator), fed_lines(generator)),
{
    generator.finalize()
}

impl GrammarRegistry {
    /// Loads the default grammars.
    pub fn load() -> (registry: GrammarRegistry)
        ensures
            registry.is_default(),
    {
        GrammarRegistry { syntaxes: load_default_syntaxes() }
    }
}

/// What a lookup in three steps yields: what the first step found, else
/// what the second found, else the fallback.
pub open spec fn first_found<T>(first: Option<T>, second: Option<T>, fallback: T) -> T {
    match first {
        Some(found) => found,
        None => match second {
            Some(found) => found,
            None => fallback,
        },
    }
}

/// Picks among the results of the three lookup steps.
pub fn choose_grammar<T>(by_token: Option<T>, by_extension: Option<T>, plain_text: T) -> (r: T)
    ensures
        r == first_found(by_token, by_extension, plain_text),
{
    match by_token {
        Some(found) => found,
        None => match by_extension {
            Some(found) => found,
            None => plain_text,
        },
    }
}

/// The name of the grammar that highlights code tagged with `lang`.
pub open spec fn resolved_grammar(lang: Seq<char>) -> Seq<char> {
    first_found(grammar_for_token(lang), grammar_for_extension(lang), plain_text_name())
}

/// Looks the grammar for a language token up.
pub fn resolve_grammar<'a>(registry: &'a GrammarRegistry, lang: &str) -> (r: Grammar<'a>)
    ensures
        r@ == resolved_grammar(lang@),
{
    proof {
        use_type_invariant(registry);
    }
    choose_grammar(
        find_by_token(registry, lang),
        find_by_extension(registry, lang),
        find_plain_text(registry),
    )
}

/// The end of the line that starts at `from`: the position behind its line
/// feed, or the end of the text where no line feed follows.
pub open spec fn line_end(s: Seq<char>, from: int) -> int {
    let feed = find_char(s, '\n', from);
    if feed < s.len() {
        feed + 1
    } else {
        s.len() as int
    }
}

/// The lines of `s` from `from` on, each with the line feed that ends it.
pub open spec fn lines_with_endings_from(s: Seq<char>, from: int) -> Seq<Seq<char>>
    decreases s.len() - from,
{
    if from < 0 || from >= s.len() {
        Seq::empty()
    } else {
        proof {
            lemma_find_char(s, '\n', from);
        }
        seq![s.subrange(from, line_end(s, from))] + lines_with_endings_from(s, line_end(s, from))
    }
}

/// The lines of a text, each with the line feed that ends it.
pub open spec fn lines_with_endings(s: Seq<char>) -> Seq<Seq<char>> {
    lines_with_endings_from(s, 0)
}

/// The lines in one piece.
pub open spec fn concatenated(lines: Seq<Seq<char>>) -> Seq<char>
    decreases lines.len(),
{
    if lines.len() == 0 {
        Seq::empty()
    } else {
        lines[0] + concatenated(lines.drop_first())
    }
}

proof fn lemma_lines_cover_from(s: Seq<char>, from: int)
    requires
        0 <= from <= s.len(),
    ensures
        concatenated(lines_with_endings_from(s, from)) == s.subrange(from, s.len() as int),
    decreases s.len() - from,
{
    if from < s.len() {
        lemma_find_char(s, '\n', from);
        let end = line_end(s, from);
        let all = lines_with_endings_from(s, from);
        let rest = lines_with_endings_from(s, end);
        assert(all.drop_first() =~= rest);
        lemma_lines_cover_from(s, end);
        assert(s.subrange(from, end) + s.subrange(end, s.len() as int) =~= s.subrange(
            from,
            s.len() as int,
        ));
    }
}

/// Splitting a text into lines with their endings loses nothing: the lines
/// in one piece are the text, with every line break in its place.
pub proof fn lemma_lines_cover_text(s: Seq<char>)
    ensures
        concatenated(lines_with_endings(s)) == s,
{
    lemma_lines_cover_from(s, 0);
}

/// Highlights `code` with the grammar for `lang`.
///
/// Returns markup in which each token stands in an element that carries
/// the classes of its category. An unknown `lang` is no error: the code is
/// then marked up as plain text.
pub fn highlight_code(registry: &GrammarRegistry, code: &str, lang: &str) -> (html: String)
    ensures
        html@ == classed_html(resolved_grammar(lang@), lines_with_endings(code@)),
{
    proof {
        use_type_invariant(registry);
    }
    let grammar = resolve_grammar(registry, lang);
    let mut generator = new_generator(registry, &grammar);
    let text = chars_of(code);
    let mut pos: usize = 0;
    while pos < text.len()
        invariant
            pos <= text.len(),
            generator_grammar(generator) == resolved_grammar(lang@),
            fed_lines(generator) + lines_with_endings_from(text@, pos as int) == lines_with_endings(
                text@,
            ),
        decreases text.len() - pos,
    {
        let feed = find_char_from(&text, '\n', pos);
        let end: usize = if feed < text.len() {
            feed + 1
        } else {
            text.len()
        };
        let line = string_of(&copy_range(&text, pos, end));
        feed_line(&mut generator, line.as_str());
        pos = end;
    }
    finish(generator)
}

/// The style sheet that colours the highlight classes on a light ground.
pub const HIGHLIGHT_CSS_LIGHT: &'static str = r#"
/* Syntect highlight classes - Light theme */
.hljs { color: #24292e; }
.hljs-keyword, .hljs-selector-tag, .hljs-type { color: #d73a49; }
.hljs-string, .hljs-attribute { color: #032f62; }
.hljs-comment, .hljs-quote { color: #6a737d; font-style: italic; }
.hljs-function, .hljs-title { color: #6f42c1; }
.hljs-number, .hljs-literal { color: #005cc5; }
.hljs-operator { color: #d73a49; }
.hljs-variable, .hljs-template-variable { color: #e36209; }
.hljs-built_in { color: #005cc5; }
.hljs-symbol { color: #6f42c1; }
.hljs-meta { color: #6a737d; }
.hljs-params { color: #24292e; }
.hljs-class .hljs-title { color: #6f42c1; }
.hljs-doctag { color: #d73a49; }
.hljs-regexp { color: #032f62; }
.hljs-section { color: #005cc5; font-weight: bold; }
.hljs-addition { color: #22863a; background: #f0fff4; }
.hljs-deletion { color: #b31d28; background: #ffeef0; }
"#;

/// The style sheet that colours the highlight classes on a dark ground.
pub const HIGHLIGHT_CSS_DARK: &'static str = r#"
/* Syntect highlight classes - Dark theme */
.dark .hljs { color: #e1e4e8; }
.dark .hljs-keyword, .dark .hljs-selector-tag, .dark .hljs-type { color: #ff7b72; }
.dark .hljs-string, .dark .hljs-attribute { color: #a5d6ff; }
.dark .hljs-comment, .dark .hljs-quote { color: #8b949e; font-style: italic; }
.dark .hljs-function, .dark .hljs-title { color: #d2a8ff; }
.dark .hljs-number, .dark .hljs-literal { color: #79c0ff; }
.dark .hljs-operator { color: #ff7b72; }
.dark .hljs-variable, .dark .hljs-template-variable { color: #ffa657; }
.dark .hljs-built_in { color: #79c0ff; }
.dark .hljs-symbol { color: #d2a8ff; }
.dark .hljs-meta { color: #8b949e; }
.dark .hljs-params { color: #e1e4e8; }
.dark .hljs-class .hljs-title { color: #d2a8ff; }
.dark .hljs-doctag { color: #ff7b72; }
.dark .hljs-regexp { color: #a5d6ff; }
.dark .hljs-section { color: #79c0ff; font-weight: bold; }
.dark .hljs-addition { color: #7ee787; background: rgba(46, 160, 67, 0.15); }
.dark .hljs-deletion { color: #ffa198; background: rgba(248, 81, 73, 0.15); }
"#;

/// The style sheet for the light theme.
pub fn get_highlight_css_light() -> (css: &'static str)
    ensures
        css@ == HIGHLIGHT_CSS_LIGHT@,
{
    HIGHLIGHT_CSS_LIGHT
}

/// The style sheet for the dark theme.
pub fn get_highlight_css_dark() -> (css: &'static str)
    ensures
        css@ == HIGHLIGHT_CSS_DARK@,
{
    HIGHLIGHT_CSS_DARK
}

} // verus!
