use markviewer::markdown::images::{
    classify_path, collect_relative_targets, directory_of, joined_target, resolve_image_paths,
    resolve_image_paths_with, resolve_markdown_image_paths, resolve_markdown_image_paths_with,
    resolve_single_path, resolve_single_path_with, ImageSyntax, PathClass,
};
use markviewer::text::chars_of;
use regex::{Captures, Regex};

const MARKER: &str = "__LOCAL_FILE__:";

fn plain_resolve(src: &str, base_path: &str) -> String {
    resolve_single_path_with(src, base_path, None)
}

fn html_by_pattern(html: &str, base_path: &str) -> String {
    let pattern = Regex::new(r#"<img\s+([^>]*?)src="([^"]+)"([^>]*)>"#).unwrap();
    pattern
        .replace_all(html, |caps: &Captures| {
            let before = &caps[1];
            let resolved = plain_resolve(&caps[2], base_path);
            let after = caps[3].trim_end_matches('/').trim();
            if after.is_empty() {
                format!("<img {}src=\"{}\" />", before, resolved)
            } else {
                format!("<img {}src=\"{}\" {} />", before, resolved, after)
            }
        })
        .to_string()
}

fn markdown_by_pattern(markdown: &str, base_path: &str) -> String {
    let pattern = Regex::new(r"!\[([^\]]*)\]\(([^)]+)\)").unwrap();
    pattern
        .replace_all(markdown, |caps: &Captures| {
            format!("![{}]({})", &caps[1], plain_resolve(&caps[2], base_path))
        })
        .to_string()
}

#[test]
fn test_http_url_passthrough() {
    let html = r#"<img src="https://example.com/img.png">"#;
    let result = resolve_image_paths(html, "/some/path/file.md");
    assert!(result.contains("https://example.com/img.png"));
}

#[test]
fn test_data_uri_passthrough() {
    let html = r#"<img src="data:image/png;base64,ABC123">"#;
    let result = resolve_image_paths(html, "/some/path/file.md");
    assert!(result.contains("data:image/png;base64,ABC123"));
}

#[test]
fn test_preserves_alt_text() {
    let md = "![My Photo](photo.png)";
    let result = resolve_markdown_image_paths(md, "/path/file.md");
    assert!(result.contains("![My Photo]"));
}

#[test]
fn absolute_path_is_marked() {
    let html = r#"<img src="/Users/test/photo.png">"#;
    let result = resolve_image_paths(html, "/some/path/file.md");
    assert_eq!(result, "<img src=\"__LOCAL_FILE__:/Users/test/photo.png\" />");
}

#[test]
fn relative_path_is_joined_and_marked() {
    let html = r#"<img src="./images/photo.png">"#;
    let result = resolve_image_paths(html, "/some/path/file.md");
    assert!(result.contains(MARKER));
    assert!(result.contains("images/photo.png"));
    assert_eq!(
        resolve_image_paths_with(html, "/some/path/file.md", &vec![]),
        "<img src=\"__LOCAL_FILE__:/some/path/./images/photo.png\" />"
    );
}

#[test]
fn multiple_images_are_each_resolved() {
    let html = r#"<img src="a.png"><img src="b.png">"#;
    let result = resolve_image_paths(html, "/path/file.md");
    assert_eq!(result.matches(MARKER).count(), 2);
    assert_eq!(
        resolve_image_paths_with(html, "/path/file.md", &vec![]),
        "<img src=\"__LOCAL_FILE__:/path/a.png\" /><img src=\"__LOCAL_FILE__:/path/b.png\" />"
    );
}

#[test]
fn markdown_image_is_resolved() {
    let md = "![Alt text](./img/photo.png)";
    let result = resolve_markdown_image_paths(md, "/path/to/file.md");
    assert!(result.contains(MARKER));
    assert_eq!(
        resolve_markdown_image_paths_with(md, "/path/to/file.md", &vec![]),
        "![Alt text](__LOCAL_FILE__:/path/to/./img/photo.png)"
    );
}

#[test]
fn classification_follows_the_priority_order() {
    let class = |s: &str| classify_path(&chars_of(s));
    assert!(matches!(class("http://a/b.png"), PathClass::Remote));
    assert!(matches!(class("https://a/b.png"), PathClass::Remote));
    assert!(matches!(class("data:image/png;base64,AA"), PathClass::DataUri));
    assert!(matches!(class("asset://localhost/a.png"), PathClass::HostResolved));
    assert!(matches!(class("file:///a/b.png"), PathClass::FileUri));
    assert!(matches!(class("/a/b.png"), PathClass::PosixAbsolute));
    assert!(matches!(class("C:\\a\\b.png"), PathClass::DriveAbsolute));
    assert!(matches!(class("c:/a/b.png"), PathClass::DriveAbsolute));
    assert!(matches!(class("\u{e9}:x"), PathClass::DriveAbsolute));
    assert!(matches!(class("a.png"), PathClass::Relative));
    assert!(matches!(class("./a.png"), PathClass::Relative));
    assert!(matches!(class("HTTP://a/b.png"), PathClass::Relative));
    assert!(matches!(class("http:/a"), PathClass::Relative));
    assert!(matches!(class(""), PathClass::Relative));
    assert!(matches!(class("x"), PathClass::Relative));
    assert!(matches!(class("\u{e9}"), PathClass::Relative));
}

#[test]
fn single_paths_resolve_by_class() {
    let base = "/docs/notes/readme.md";
    assert_eq!(plain_resolve("http://a/b.png", base), "http://a/b.png");
    assert_eq!(plain_resolve("https://a/b.png?x=1", base), "https://a/b.png?x=1");
    assert_eq!(plain_resolve("data:image/png;base64,AA==", base), "data:image/png;base64,AA==");
    assert_eq!(plain_resolve("asset://localhost/a.png", base), "asset://localhost/a.png");
    assert_eq!(plain_resolve("file:///a/b.png", base), "__LOCAL_FILE__:/a/b.png");
    assert_eq!(plain_resolve("file://", base), "__LOCAL_FILE__:");
    assert_eq!(plain_resolve("/a/b.png", base), "__LOCAL_FILE__:/a/b.png");
    assert_eq!(plain_resolve("C:\\img\\b.png", base), "__LOCAL_FILE__:C:/img/b.png");
    assert_eq!(plain_resolve("img/b.png", base), "__LOCAL_FILE__:/docs/notes/img/b.png");
    assert_eq!(plain_resolve("../b.png", base), "__LOCAL_FILE__:/docs/notes/../b.png");
}

#[test]
fn canonical_form_replaces_the_joined_path() {
    let base = "/docs/notes/readme.md";
    assert_eq!(
        resolve_single_path_with("../b.png", base, Some("/docs/b.png")),
        "__LOCAL_FILE__:/docs/b.png"
    );
    assert_eq!(
        resolve_single_path_with("/abs.png", base, Some("/ignored")),
        "__LOCAL_FILE__:/abs.png"
    );
    assert_eq!(
        resolve_single_path_with("https://x/y", base, Some("/ignored")),
        "https://x/y"
    );
}

#[test]
fn canonical_forms_are_used_in_order() {
    let html = r#"<img src="a.png"><img src="https://x/y.png"><img src="b.png"><img src="c.png">"#;
    let canonical = vec![Some("/real/a.png".to_string()), None];
    assert_eq!(
        resolve_image_paths_with(html, "/d/f.md", &canonical),
        "<img src=\"__LOCAL_FILE__:/real/a.png\" /><img src=\"https://x/y.png\" /><img src=\"__LOCAL_FILE__:/d/b.png\" /><img src=\"__LOCAL_FILE__:/d/c.png\" />"
    );
    let targets = collect_relative_targets(ImageSyntax::Html, html, "/d/f.md");
    assert_eq!(targets, vec!["/d/a.png", "/d/b.png", "/d/c.png"]);
    let md = "![a](a.png) ![b](/b.png) ![c](c.png)";
    assert_eq!(
        collect_relative_targets(ImageSyntax::Markdown, md, "/d/f.md"),
        vec!["/d/a.png", "/d/c.png"]
    );
}

#[test]
fn missing_file_falls_back_to_the_joined_path() {
    assert_eq!(
        resolve_single_path("no/such/file.png", "/no/such/dir/doc.md"),
        "__LOCAL_FILE__:/no/such/dir/no/such/file.png"
    );
}

#[test]
fn existing_path_is_given_in_canonical_form() {
    let joined = joined_target("./", "/doc.md");
    assert_eq!(joined, "/./");
    let expected = match std::path::Path::new(&joined).canonicalize() {
        Ok(path) => path.display().to_string(),
        Err(_) => joined,
    };
    assert_eq!(expected, "/");
    assert_eq!(resolve_single_path("./", "/doc.md"), "__LOCAL_FILE__:/");
    assert_eq!(
        resolve_image_paths("<img src=\"./\" alt=\"root\">", "/doc.md"),
        "<img src=\"__LOCAL_FILE__:/\" alt=\"root\" />"
    );
    assert_eq!(resolve_markdown_image_paths("![r](./)", "/doc.md"), "![r](__LOCAL_FILE__:/)");
}

#[test]
fn directory_and_join_follow_std_paths() {
    assert_eq!(directory_of("/some/path/file.md"), "/some/path");
    assert_eq!(directory_of("file.md"), "");
    assert_eq!(directory_of("/"), "/");
    assert_eq!(directory_of(""), "");
    assert_eq!(joined_target("a.png", "/some/path/file.md"), "/some/path/a.png");
    assert_eq!(joined_target("a.png", "file.md"), "a.png");
    assert_eq!(joined_target("a.png", "/"), "/a.png");
}

#[test]
fn tag_is_normalised_to_self_closing_form() {
    let base = "/d/f.md";
    let cases = [
        ("<img src=\"/a.png\">", "<img src=\"__LOCAL_FILE__:/a.png\" />"),
        ("<img src=\"/a.png\"/>", "<img src=\"__LOCAL_FILE__:/a.png\" />"),
        ("<img src=\"/a.png\" />", "<img src=\"__LOCAL_FILE__:/a.png\" />"),
        ("<img src=\"/a.png\" alt=\"x\" />", "<img src=\"__LOCAL_FILE__:/a.png\" alt=\"x\" />"),
        ("<img src=\"/a.png\"   alt=\"x\"  //  >", "<img src=\"__LOCAL_FILE__:/a.png\" alt=\"x\"  // />"),
        ("<img alt=\"x\" src=\"/a.png\" width=\"3\">", "<img alt=\"x\" src=\"__LOCAL_FILE__:/a.png\" width=\"3\" />"),
        ("<img \n\t alt=\"x\" src=\"/a.png\">", "<img alt=\"x\" src=\"__LOCAL_FILE__:/a.png\" />"),
        ("<p>a</p><img src=\"/a.png\"><p>b</p>", "<p>a</p><img src=\"__LOCAL_FILE__:/a.png\" /><p>b</p>"),
    ];
    for (html, expected) in cases {
        assert_eq!(resolve_image_paths_with(html, base, &vec![]), expected, "{:?}", html);
    }
}

#[test]
fn text_without_image_tags_is_unchanged() {
    let cases = [
        "",
        "<p>no images</p>",
        "<img>",
        "<imgsrc=\"a.png\">",
        "<img src=\"\">",
        "<img src=\"a.png",
        "<img src=\"a.png\"",
        "<IMG src=\"a.png\">",
        "<img alt=\"x\">src=\"a.png\">",
        "<img src='a.png'>",
    ];
    for html in cases {
        assert_eq!(resolve_image_paths_with(html, "/d/f.md", &vec![]), html, "{:?}", html);
    }
}

#[test]
fn html_rewriting_agrees_with_the_pattern() {
    let cases = [
        "<img src=\"a.png\">",
        "<img  src=\"a.png\"  >",
        "<img\u{A0}src=\"a.png\">",
        "<img src=\"\" data-src=\"b.png\">",
        "<img src=\"a>b.png\" title=\"t\">",
        "<img src=\"a.png\"><img src=\"https://x/y.png\"/>",
        "<img <img src=\"a.png\">",
        "<img alt=\"1 > 0\" src=\"a.png\">",
        "<img alt='x' src=\"a.png\" /><img src=\"b.png\" //>",
        "<img src=\"a.png\" alt=\"q\"",
        "<img src=\"a.png\" alt=\"q\"> trailing <img src=",
        "<img data-src=\"lazy.png\" class=\"c\">",
        "<img xsrc=\"p.png\">",
        "<img src=\"one.png\nsrc=\"two.png\">",
        "x<img\nsrc=\"multi\nline.png\"\n/>y",
        "<img src=\"a.png\"/ / >",
        "<img src=\"/abs.png\" \u{3000}/>",
        "<img src=\"C:\\dir\\a.png\">",
        "<img src=\"file:///x/y.png\">",
        "<img src=\"data:image/png;base64,AA==\" alt=\"d\">",
        "<<img src=\"a.png\">>",
        "<img src=\"a.png\"\"><img src=\"b.png\">",
        "<img  >src=\"a.png\">",
        "<img src=\"\u{e9}t\u{e9}.png\" alt=\"\u{1F600}\">",
        "<img src=\"a.png\" src=\"b.png\">",
        "<img s src=\"a.png\">",
        "<img srcsrc=\"a.png\">",
        "<img src=\"a.png\" /><img src=\"unfinished",
    ];
    for html in cases {
        assert_eq!(
            resolve_image_paths_with(html, "/base/dir/doc.md", &vec![]),
            html_by_pattern(html, "/base/dir/doc.md"),
            "{:?}",
            html
        );
    }
}

#[test]
fn markdown_rewriting_agrees_with_the_pattern() {
    let cases = [
        "![a](b.png)",
        "![](b.png)",
        "![a]()",
        "![a] (b.png)",
        "![a](b.png",
        "![a](b.png) and ![c](https://x/y.png)",
        "![a[nested](b.png)",
        "![a](b(1).png)",
        "![a\nb](c\nd.png)",
        "!![a](b.png)",
        "![a]](b.png)",
        "![one](1.png)![two](2.png)",
        "[not image](b.png)",
        "![a](/abs/b.png \"title\")",
        "![\u{e9}](\u{e9}.png)",
        "![a](data:image/png;base64,AA==)",
        "![a](C:\\x\\y.png)",
        "![x](![y](z.png))",
        "text ![a",
        "![a]",
        "![",
        "!",
        "",
    ];
    for md in cases {
        assert_eq!(
            resolve_markdown_image_paths_with(md, "/base/dir/doc.md", &vec![]),
            markdown_by_pattern(md, "/base/dir/doc.md"),
            "{:?}",
            md
        );
    }
}

#[test]
fn markdown_with_network_targets_is_unchanged() {
    let md = "# T\n![a](https://x/a.png) text ![b](data:image/png;base64,AA==)\n![c](http://y/c.gif)";
    assert_eq!(resolve_markdown_image_paths(md, "/d/f.md"), md);
}

#[test]
fn alt_text_is_kept_verbatim() {
    assert_eq!(
        resolve_markdown_image_paths_with("![My *Photo* [1]](/p.png)", "/d/f.md", &vec![]),
        "![My *Photo* [1]](/p.png)"
    );
    assert_eq!(
        resolve_markdown_image_paths_with("![My Photo](/p.png)", "/d/f.md", &vec![]),
        "![My Photo](__LOCAL_FILE__:/p.png)"
    );
}

fn generated(seed: u64, alphabet: &[&str], pieces: usize) -> String {
    let mut state = seed.wrapping_mul(6364136223846793005).wrapping_add(1442695040888963407);
    let mut text = String::new();
    for _ in 0..pieces {
        state = state.wrapping_mul(6364136223846793005).wrapping_add(1442695040888963407);
        let pick = ((state >> 33) as usize) % alphabet.len();
        text.push_str(alphabet[pick]);
    }
    text
}

#[test]
fn html_rewriting_agrees_with_the_pattern_on_generated_texts() {
    let alphabet = [
        "<img", " ", "src=\"", "\"", ">", "/", "a.png", "https://x/y", "alt=\"t\"", "\n", "<",
        "s", "\u{A0}", "/abs", "data:x", "=", "<img ", "<img ", " src=\"a.png\"", "src=\"/b\" ",
        ">", " />", "\">", "=\"",
    ];
    let pattern = Regex::new(r#"<img\s+([^>]*?)src="([^"]+)"([^>]*)>"#).unwrap();
    let mut matched = 0;
    for seed in 0..6000u64 {
        let html = generated(seed, &alphabet, 4 + (seed as usize % 12));
        if pattern.is_match(&html) {
            matched += 1;
        }
        assert_eq!(
            resolve_image_paths_with(&html, "/b/d.md", &vec![]),
            html_by_pattern(&html, "/b/d.md"),
            "{:?}",
            html
        );
    }
    assert!(matched > 300, "{}", matched);
}

#[test]
fn markdown_rewriting_agrees_with_the_pattern_on_generated_texts() {
    let alphabet = [
        "![", "]", "(", ")", "!", "[", "alt", "a.png", "https://x/y", " ", "\n", "/abs", "](",
        "data:x", "C:\\p", "![a]", "(b.png)", "](c)", ")",
    ];
    let pattern = Regex::new(r"!\[([^\]]*)\]\(([^)]+)\)").unwrap();
    let mut matched = 0;
    for seed in 0..6000u64 {
        let md = generated(seed, &alphabet, 3 + (seed as usize % 10));
        if pattern.is_match(&md) {
            matched += 1;
        }
        assert_eq!(
            resolve_markdown_image_paths_with(&md, "/b/d.md", &vec![]),
            markdown_by_pattern(&md, "/b/d.md"),
            "{:?}",
            md
        );
    }
    assert!(matched > 300, "{}", matched);
}
