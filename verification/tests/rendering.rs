use comrak::adapters::SyntaxHighlighterAdapter;
use comrak::Plugins;
use markviewer::commands::{
    assemble_result, base64_payload, decode_pasted_image, highlight_code_block, images_directory,
    pasted_image_name, render_markdown, saved_image_path, RenderOptions,
};
use markviewer::markdown::highlighter::{highlight_code, GrammarRegistry};
use markviewer::markdown::parser::{
    get_options, render_markdown_html, write_opening_tag, SyntectAdapter,
};
use markviewer::markdown::special_blocks::SpecialBlock;
use std::collections::HashMap;
use std::fmt;

struct Hooks<'r> {
    adapter: SyntectAdapter<'r>,
}

fn pairs(attributes: HashMap<String, String>) -> Vec<(String, String)> {
    attributes.into_iter().collect()
}

impl<'r> SyntaxHighlighterAdapter for Hooks<'r> {
    fn write_highlighted(
        &self,
        output: &mut dyn fmt::Write,
        lang: Option<&str>,
        code: &str,
    ) -> fmt::Result {
        output.write_str(&self.adapter.write_highlighted(lang, code))
    }

    fn write_pre_tag(
        &self,
        output: &mut dyn fmt::Write,
        attributes: HashMap<String, String>,
    ) -> fmt::Result {
        output.write_str(&self.adapter.write_pre_tag(&pairs(attributes)))
    }

    fn write_code_tag(
        &self,
        output: &mut dyn fmt::Write,
        attributes: HashMap<String, String>,
    ) -> fmt::Result {
        output.write_str(&self.adapter.write_code_tag(&pairs(attributes)))
    }
}

struct FailingHooks;

impl SyntaxHighlighterAdapter for FailingHooks {
    fn write_highlighted(&self, _: &mut dyn fmt::Write, _: Option<&str>, _: &str) -> fmt::Result {
        Err(fmt::Error)
    }

    fn write_pre_tag(&self, _: &mut dyn fmt::Write, _: HashMap<String, String>) -> fmt::Result {
        Err(fmt::Error)
    }

    fn write_code_tag(&self, _: &mut dyn fmt::Write, _: HashMap<String, String>) -> fmt::Result {
        Err(fmt::Error)
    }
}

fn render_html(md: &str) -> String {
    let registry = GrammarRegistry::load();
    let hooks = Hooks { adapter: SyntectAdapter::new(&registry) };
    let mut plugins = Plugins::default();
    plugins.render.codefence_syntax_highlighter = Some(&hooks);
    render_markdown_html(md, &plugins).unwrap()
}

fn render(md: &str, base_path: Option<&str>) -> Result<markviewer::commands::RenderResult, String> {
    let registry = GrammarRegistry::load();
    let hooks = Hooks { adapter: SyntectAdapter::new(&registry) };
    let mut plugins = Plugins::default();
    plugins.render.codefence_syntax_highlighter = Some(&hooks);
    let options = RenderOptions {
        theme: "light".to_string(),
        base_path: base_path.map(|p| p.to_string()),
    };
    render_markdown(md.to_string(), options, &plugins)
}

#[test]
fn test_basic_markdown() {
    let md = "# Hello\n\nThis is **bold** and *italic*.";
    let html = render_html(md);
    assert!(html.contains("<h1"));
    assert!(html.contains("<strong>bold</strong>"));
    assert!(html.contains("<em>italic</em>"));
}

#[test]
fn test_table() {
    let md = "| A | B |\n|---|---|\n| 1 | 2 |";
    let html = render_html(md);
    assert!(html.contains("<table>"));
    assert!(html.contains("<th>"));
}

#[test]
fn test_tasklist() {
    let md = "- [ ] Todo\n- [x] Done";
    let html = render_html(md);
    assert!(html.contains("type=\"checkbox\""));
}

#[test]
fn test_code_block() {
    let md = "```rust\nfn main() {}\n```";
    let html = render_html(md);
    assert!(html.contains("<pre"));
    assert!(html.contains("<code"));
}

#[test]
fn test_render_markdown_basic() {
    let md = "# Hello\n\nThis is **bold**.";
    let result = render(md, None).unwrap();

    assert!(result.html.contains("<h1"));
    assert!(result.html.contains("<strong>bold</strong>"));
    assert!(result.special_blocks.is_empty());
}

#[test]
fn test_render_markdown_with_mermaid() {
    let md = "# Title\n\n```mermaid\ngraph TD\n    A --> B\n```";
    let result = render(md, None).unwrap();

    assert_eq!(result.special_blocks.len(), 1);
    assert_eq!(result.special_blocks[0].block_type, "mermaid");
    assert!(result.html.contains("special-block"));
}

#[test]
fn test_highlight_code_block() {
    let registry = GrammarRegistry::load();
    let code = "fn main() {}";
    let result = highlight_code_block(&registry, code.to_string(), "rust".to_string());

    assert!(result.contains("span"));
}

#[test]
fn mermaid_document_end_to_end() {
    let result = render("```mermaid\ngraph TD\n    A --> B\n```", None).unwrap();
    assert_eq!(result.special_blocks.len(), 1);
    assert_eq!(result.special_blocks[0].block_type, "mermaid");
    assert!(result.special_blocks[0].content.contains("graph TD"));
    assert_eq!(result.special_blocks[0].placeholder_id, "special-block-0");
    assert_eq!(
        result.html,
        "<div class=\"special-block mermaid\" id=\"special-block-0\" data-block-type=\"mermaid\"></div>\n"
    );
}

#[test]
fn every_placeholder_in_the_html_has_its_block() {
    let md = "a\n\n```chart\n{}\n```\n\nb\n\n```mermaid\npie\n```\n\n```rust\nlet a;\n```\n";
    let result = render(md, None).unwrap();
    assert_eq!(result.special_blocks.len(), 2);
    for block in &result.special_blocks {
        let element = format!(
            "<div class=\"special-block {}\" id=\"{}\" data-block-type=\"{}\"></div>",
            block.block_type, block.placeholder_id, block.block_type
        );
        assert_eq!(result.html.matches(&element).count(), 1);
    }
    assert_eq!(result.html.matches("class=\"special-block ").count(), 2);
}

#[test]
fn code_fence_goes_through_the_highlighter() {
    let registry = GrammarRegistry::load();
    let html = render_html("```rust\nfn main() {}\n```");
    let highlighted = highlight_code(&registry, "fn main() {}\n", "rust");
    assert_eq!(html, format!("<pre lang=\"rust\"><code>{}</code></pre>\n", highlighted));
}

#[test]
fn fence_without_language_is_highlighted_as_text() {
    let registry = GrammarRegistry::load();
    let adapter = SyntectAdapter::new(&registry);
    assert_eq!(
        adapter.write_highlighted(None, "a < b\n"),
        highlight_code(&registry, "a < b\n", "text")
    );
    assert_eq!(
        adapter.write_highlighted(Some("js"), "let a;\n"),
        highlight_code(&registry, "let a;\n", "js")
    );
    let html = render_html("```\na < b\n```");
    assert_eq!(
        html,
        format!("<pre><code>{}</code></pre>\n", highlight_code(&registry, "a < b\n", "text"))
    );
}

#[test]
fn opening_tags_list_their_attributes() {
    let registry = GrammarRegistry::load();
    let adapter = SyntectAdapter::new(&registry);
    let none: Vec<(String, String)> = vec![];
    let two = vec![
        ("lang".to_string(), "rust".to_string()),
        ("data-meta".to_string(), "title=\"a\"".to_string()),
    ];
    assert_eq!(adapter.write_pre_tag(&none), "<pre>");
    assert_eq!(adapter.write_code_tag(&none), "<code>");
    assert_eq!(adapter.write_pre_tag(&two), "<pre lang=\"rust\" data-meta=\"title=\"a\"\">");
    assert_eq!(adapter.write_code_tag(&two[..1].to_vec()), "<code lang=\"rust\">");
    assert_eq!(write_opening_tag("div", &two[..1].to_vec()), "<div lang=\"rust\">");
}

#[test]
fn engine_settings() {
    let options = get_options();
    assert!(options.strikethrough);
    assert!(!options.tagfilter);
    assert!(options.table);
    assert!(options.autolink);
    assert!(options.tasklist);
    assert!(options.superscript);
    assert_eq!(options.header_ids.as_deref(), Some("heading-"));
    assert!(options.footnotes);
    assert!(options.description_lists);
    assert_eq!(options.front_matter_delimiter.as_deref(), Some("---"));
    assert!(options.shortcodes);
    assert!(options.raw_html);
    assert!(options.github_pre_lang);
    assert!(options.full_info_string);
}

#[test]
fn engine_reads_the_extensions() {
    let html = render_html(
        "---\ntitle: x\n---\n\n# Head\n\n~~gone~~ 2^10^ :smile: www.example.com\n\nTerm\n\n: Details\n\nnote[^1]\n\n[^1]: foot\n\n<div id=\"raw\"></div>\n",
    );
    assert!(html.contains("id=\"heading-head\""));
    assert!(html.contains("<del>gone</del>"));
    assert!(html.contains("<sup>10</sup>"));
    assert!(html.contains("\u{1F604}"));
    assert!(html.contains("<a href=\"http://www.example.com\">"));
    assert!(html.contains("<dl>"));
    assert!(html.contains("footnote"));
    assert!(html.contains("<div id=\"raw\"></div>"));
    assert!(!html.contains("title: x"));
}

#[test]
fn image_tags_are_resolved_when_the_location_is_known() {
    let md = "![pic](img/a.png) ![web](https://x/y.png)";
    let with_base = render(md, Some("/no-such-dir/doc.md")).unwrap();
    assert!(with_base.html.contains("<img src=\"__LOCAL_FILE__:/no-such-dir/img/a.png\" alt=\"pic\" />"));
    assert!(with_base.html.contains("<img src=\"https://x/y.png\" alt=\"web\" />"));
    let without = render(md, None).unwrap();
    assert!(without.html.contains("<img src=\"img/a.png\" alt=\"pic\" />"));
    assert!(!without.html.contains("__LOCAL_FILE__"));
}

#[test]
fn failing_hook_fails_the_rendering() {
    let hooks = FailingHooks;
    let mut plugins = Plugins::default();
    plugins.render.codefence_syntax_highlighter = Some(&hooks);
    assert!(render_markdown_html("```rust\nx\n```", &plugins).is_none());
    assert_eq!(render_markdown_html("no fence", &plugins).as_deref(), Some("<p>no fence</p>\n"));
    let options = RenderOptions { theme: "dark".to_string(), base_path: None };
    let failed = render_markdown("```rust\nx\n```".to_string(), options, &plugins);
    assert_eq!(failed.err().as_deref(), Some("Failed to render markdown"));
}

#[test]
fn assembling_keeps_blocks_and_resolves_images() {
    let block = SpecialBlock {
        block_type: "chart".to_string(),
        content: "{}".to_string(),
        placeholder_id: "special-block-0".to_string(),
    };
    let options = RenderOptions { theme: "light".to_string(), base_path: Some("/d/f.md".to_string()) };
    let canonical = vec![Some("/real/a.png".to_string())];
    let result = assemble_result(
        Some("<img src=\"a.png\"><img src=\"b.png\">".to_string()),
        vec![block],
        &options,
        &canonical,
    )
    .unwrap();
    assert_eq!(
        result.html,
        "<img src=\"__LOCAL_FILE__:/real/a.png\" /><img src=\"__LOCAL_FILE__:/d/b.png\" />"
    );
    assert_eq!(result.special_blocks.len(), 1);
    assert_eq!(result.special_blocks[0].placeholder_id, "special-block-0");
    assert_eq!(result.special_blocks[0].content, "{}");

    let no_base = RenderOptions { theme: "light".to_string(), base_path: None };
    let plain = assemble_result(Some("<img src=\"a.png\">".to_string()), vec![], &no_base, &canonical);
    assert_eq!(plain.unwrap().html, "<img src=\"a.png\">");
    let failed = assemble_result(None, vec![], &no_base, &canonical);
    assert_eq!(failed.err().as_deref(), Some("Failed to render markdown"));
}

#[test]
fn pasted_image_payload_follows_the_last_comma() {
    assert_eq!(base64_payload("data:image/png;base64,aGVsbG8="), "aGVsbG8=");
    assert_eq!(base64_payload("aGVsbG8="), "aGVsbG8=");
    assert_eq!(base64_payload("a,b,c"), "c");
    assert_eq!(base64_payload("abc,"), "");
    assert_eq!(base64_payload(""), "");
    assert_eq!(base64_payload(","), "");
}

#[test]
fn pasted_image_is_decoded() {
    assert_eq!(decode_pasted_image("aGVsbG8=").unwrap(), b"hello".to_vec());
    assert_eq!(decode_pasted_image("data:image/png;base64,aGVsbG8=").unwrap(), b"hello".to_vec());
    assert_eq!(decode_pasted_image("").unwrap(), Vec::<u8>::new());
    assert_eq!(decode_pasted_image("AAEC/w==").unwrap(), vec![0u8, 1, 2, 255]);
}

#[test]
fn malformed_base64_is_reported() {
    assert_eq!(
        decode_pasted_image("data:image/png;base64,!!!!").err().as_deref(),
        Some("Failed to decode base64: Invalid symbol 33, offset 0.")
    );
    assert_eq!(
        decode_pasted_image("aGVsbG8").err().as_deref(),
        Some("Failed to decode base64: Invalid padding")
    );
    assert!(decode_pasted_image("a").err().unwrap().starts_with("Failed to decode base64: "));
}

#[test]
fn pasted_image_names_and_paths() {
    assert_eq!(pasted_image_name(Some("shot.png".to_string()), 5), "shot.png");
    assert_eq!(pasted_image_name(None, 1700000000123), "pasted-image-1700000000123.png");
    assert_eq!(pasted_image_name(None, 0), "pasted-image-0.png");
    assert_eq!(saved_image_path("shot.png"), "images/shot.png");
    assert_eq!(saved_image_path("pasted-image-7.png"), "images/pasted-image-7.png");
    assert_eq!(images_directory("/docs/notes/readme.md"), "/docs/notes/images");
    assert_eq!(images_directory("readme.md"), "images");
}
