use markviewer::markdown::special_blocks::{
    classify_tag, extract_special_blocks, BlockKind,
};

#[test]
fn test_extract_mermaid() {
    let md = r#"# Title

Some text.

```mermaid
flowchart TD
    A --> B
```

More text.
"#;
    let (result, blocks) = extract_special_blocks(md);

    assert_eq!(blocks.len(), 1);
    assert_eq!(blocks[0].block_type, "mermaid");
    assert!(blocks[0].content.contains("flowchart TD"));
    assert!(result.contains("special-block-0"));
    assert!(result.contains("data-block-type=\"mermaid\""));
}

#[test]
fn test_extract_chart() {
    let md = r#"```chart
{"type": "bar", "data": {}}
```"#;
    let (_result, blocks) = extract_special_blocks(md);

    assert_eq!(blocks.len(), 1);
    assert_eq!(blocks[0].block_type, "chart");
    assert!(blocks[0].content.contains("type"));
}

#[test]
fn test_preserve_regular_code() {
    let md = r#"```rust
fn main() {}
```"#;
    let (result, blocks) = extract_special_blocks(md);

    assert_eq!(blocks.len(), 0);
    assert!(result.contains("```rust"));
    assert!(result.contains("fn main()"));
}

#[test]
fn test_multiple_special_blocks() {
    let md = r#"```mermaid
graph LR
```

```chart
{}
```

```mermaid
pie
```"#;
    let (_result, blocks) = extract_special_blocks(md);

    assert_eq!(blocks.len(), 3);
    assert_eq!(blocks[0].placeholder_id, "special-block-0");
    assert_eq!(blocks[1].placeholder_id, "special-block-1");
    assert_eq!(blocks[2].placeholder_id, "special-block-2");
}

#[test]
fn test_case_insensitive() {
    let md = r#"```MERMAID
graph
```

```Chart
{}
```"#;
    let (_, blocks) = extract_special_blocks(md);

    assert_eq!(blocks.len(), 2);
    assert_eq!(blocks[0].block_type, "mermaid");
    assert_eq!(blocks[1].block_type, "chart");
}

#[test]
fn placeholder_markup_is_exact() {
    let (result, blocks) = extract_special_blocks("```mermaid\ngraph TD\n    A --> B\n```");
    assert_eq!(
        result,
        "<div class=\"special-block mermaid\" id=\"special-block-0\" data-block-type=\"mermaid\"></div>\n"
    );
    assert_eq!(blocks.len(), 1);
    assert_eq!(blocks[0].block_type, "mermaid");
    assert_eq!(blocks[0].content, "graph TD\n    A --> B");
    assert_eq!(blocks[0].placeholder_id, "special-block-0");
}

#[test]
fn chart_placeholder_is_exact() {
    let (result, blocks) = extract_special_blocks("before\n~~~chart\n{}\n~~~\nafter");
    assert_eq!(
        result,
        "before\n<div class=\"special-block chart\" id=\"special-block-0\" data-block-type=\"chart\"></div>\nafter\n"
    );
    assert_eq!(blocks.len(), 1);
    assert_eq!(blocks[0].block_type, "chart");
    assert_eq!(blocks[0].content, "{}");
}

#[test]
fn empty_document() {
    let (result, blocks) = extract_special_blocks("");
    assert_eq!(result, "");
    assert!(blocks.is_empty());
}

#[test]
fn plain_lines_pass_with_newline_normalised() {
    let (result, blocks) = extract_special_blocks("one\r\ntwo\n\nthree");
    assert_eq!(result, "one\ntwo\n\nthree\n");
    assert!(blocks.is_empty());
}

#[test]
fn regular_fence_is_preserved_exactly() {
    let md = "```rust\nfn main() {}\n\n    let x = 1;\n```\n";
    let (result, blocks) = extract_special_blocks(md);
    assert_eq!(result, md);
    assert!(blocks.is_empty());
}

#[test]
fn regular_fence_round_trip_is_stable() {
    let md = "text\n~~~python title\nprint(1)\n```\nnot a close\n```\n~~~\nmore\n";
    let (once, _) = extract_special_blocks(md);
    assert_eq!(once, md);
    let (twice, blocks) = extract_special_blocks(&once);
    assert_eq!(twice, once);
    assert!(blocks.is_empty());
}

#[test]
fn other_marker_inside_a_fence_is_content() {
    let md = "```mermaid\ngraph\n~~~\ninner\n~~~\n```\n";
    let (result, blocks) = extract_special_blocks(md);
    assert_eq!(blocks.len(), 1);
    assert_eq!(blocks[0].content, "graph\n~~~\ninner\n~~~");
    assert!(result.contains("special-block-0"));
    assert!(!result.contains("inner"));
}

#[test]
fn unclosed_fence_is_flushed_as_ordinary_text() {
    let (result, blocks) = extract_special_blocks("intro\n```mermaid\ngraph TD\nA --> B");
    assert!(blocks.is_empty());
    assert_eq!(result, "intro\n```mermaid\ngraph TD\nA --> B\n");
}

#[test]
fn unclosed_regular_fence_is_flushed() {
    let (result, blocks) = extract_special_blocks("~~~js\nlet a;");
    assert!(blocks.is_empty());
    assert_eq!(result, "~~~js\nlet a;\n");
}

#[test]
fn indented_fence_and_padded_tag() {
    let (result, blocks) = extract_special_blocks("   ```  Mermaid  \npie\n  ``` trailing\n");
    assert_eq!(blocks.len(), 1);
    assert_eq!(blocks[0].block_type, "mermaid");
    assert_eq!(blocks[0].content, "pie");
    assert_eq!(
        result,
        "<div class=\"special-block mermaid\" id=\"special-block-0\" data-block-type=\"mermaid\"></div>\n"
    );
}

#[test]
fn indented_regular_fence_is_written_from_the_margin() {
    let (result, blocks) = extract_special_blocks("  ```rust  \n  code\n  ```\n");
    assert!(blocks.is_empty());
    assert_eq!(result, "```rust\n  code\n```\n");
}

#[test]
fn tag_with_more_words_is_not_reserved() {
    let (result, blocks) = extract_special_blocks("```mermaid extra\ngraph\n```\n");
    assert!(blocks.is_empty());
    assert_eq!(result, "```mermaid extra\ngraph\n```\n");
}

#[test]
fn four_backticks_keep_the_fourth_in_the_tag() {
    let (result, blocks) = extract_special_blocks("````mermaid\ngraph\n````\n");
    assert!(blocks.is_empty());
    assert_eq!(result, "````mermaid\ngraph\n```\n");
}

#[test]
fn special_block_content_is_trimmed() {
    let (_, blocks) = extract_special_blocks("```chart\n\n  {\"a\": 1}  \n\n```");
    assert_eq!(blocks.len(), 1);
    assert_eq!(blocks[0].content, "{\"a\": 1}");
}

#[test]
fn empty_special_block() {
    let (result, blocks) = extract_special_blocks("```mermaid\n```");
    assert_eq!(blocks.len(), 1);
    assert_eq!(blocks[0].content, "");
    assert!(result.contains("id=\"special-block-0\""));
}

#[test]
fn ids_count_past_nine() {
    let mut md = String::new();
    for i in 0..12 {
        md.push_str(&format!("```chart\n{}\n```\ntext\n```rust\nx\n```\n", i));
    }
    let (result, blocks) = extract_special_blocks(&md);
    assert_eq!(blocks.len(), 12);
    for (i, block) in blocks.iter().enumerate() {
        assert_eq!(block.placeholder_id, format!("special-block-{}", i));
        assert_eq!(block.content, format!("{}", i));
        assert!(result.contains(&format!("id=\"special-block-{}\"", i)));
    }
    assert_eq!(result.matches("<div class=\"special-block chart\"").count(), 12);
    assert_eq!(result.matches("```rust\nx\n```\n").count(), 12);
}

#[test]
fn mixed_case_tags_give_the_same_block_type() {
    let (_, upper) = extract_special_blocks("```MERMAID\ngraph\n```");
    let (_, lower) = extract_special_blocks("```mermaid\ngraph\n```");
    let (_, mixed) = extract_special_blocks("```MerMaiD\ngraph\n```");
    assert_eq!(upper[0].block_type, lower[0].block_type);
    assert_eq!(mixed[0].block_type, lower[0].block_type);
    assert_eq!(upper[0].content, lower[0].content);
}

#[test]
fn carriage_returns_leave_special_blocks_intact() {
    let (result, blocks) = extract_special_blocks("```mermaid\r\ngraph TD\r\n```\r\nend\r\n");
    assert_eq!(blocks.len(), 1);
    assert_eq!(blocks[0].content, "graph TD");
    assert!(result.ends_with("</div>\nend\n"));
}

#[test]
fn classify_tag_reads_reserved_tags_in_any_case() {
    assert!(matches!(classify_tag("mermaid"), Some(BlockKind::Diagram)));
    assert!(matches!(classify_tag("MERMAID"), Some(BlockKind::Diagram)));
    assert!(matches!(classify_tag("Chart"), Some(BlockKind::Chart)));
    assert!(classify_tag("rust").is_none());
    assert!(classify_tag("").is_none());
    assert!(classify_tag("mermaids").is_none());
    assert!(classify_tag("charts").is_none());
}

#[test]
fn from_lowered_reads_only_lower_case_tokens() {
    assert!(matches!(BlockKind::from_lowered("mermaid"), Some(BlockKind::Diagram)));
    assert!(matches!(BlockKind::from_lowered("chart"), Some(BlockKind::Chart)));
    assert!(BlockKind::from_lowered("MERMAID").is_none());
    assert!(BlockKind::from_lowered("Chart").is_none());
    assert!(BlockKind::from_lowered("").is_none());
    assert_eq!(BlockKind::Diagram.as_str(), "mermaid");
    assert_eq!(BlockKind::Chart.as_str(), "chart");
}

#[test]
fn processed_document_is_stable() {
    let md = "# T\n\n```mermaid\ngraph\n```\ntext\n  ~~~Rust extra\n  code\n```\n~~~ end\n\n```chart\n{}\n```\n```js\nopen";
    let (once, blocks) = extract_special_blocks(md);
    assert_eq!(blocks.len(), 2);
    let (twice, again) = extract_special_blocks(&once);
    assert_eq!(twice, once);
    assert!(again.is_empty());
}

#[test]
fn carriage_return_before_a_line_break_is_not_stable() {
    let (once, _) = extract_special_blocks("a\r\r\n");
    assert_eq!(once, "a\r\n");
    let (twice, _) = extract_special_blocks(&once);
    assert_eq!(twice, "a\n");
}

#[test]
fn literal_id_in_the_text_stands_beside_the_placeholder() {
    let (result, blocks) = extract_special_blocks("see special-block-0\n```mermaid\npie\n```\n");
    assert_eq!(blocks.len(), 1);
    assert_eq!(result.matches("special-block-0").count(), 2);
    assert_eq!(result.matches("id=\"special-block-0\"").count(), 1);
}

fn by_line_scan(markdown: &str) -> (String, Vec<(String, String, String)>) {
    let mut blocks = Vec::new();
    let mut result = String::new();
    let mut fence: Option<(String, String, String)> = None;
    for line in markdown.lines() {
        let trimmed = line.trim_start();
        let marker = if trimmed.starts_with("```") {
            Some("```")
        } else if trimmed.starts_with("~~~") {
            Some("~~~")
        } else {
            None
        };
        match (fence.take(), marker) {
            (Some((open, lang, content)), Some(m)) if m == open => {
                let lower = lang.to_lowercase();
                if lower == "mermaid" || lower == "chart" {
                    let id = format!("special-block-{}", blocks.len());
                    result.push_str(&format!(
                        "<div class=\"special-block {}\" id=\"{}\" data-block-type=\"{}\"></div>\n",
                        lower, id, lower
                    ));
                    blocks.push((lower, content.trim().to_string(), id));
                } else {
                    result.push_str(&format!("{}{}\n{}{}\n", open, lang, content, open));
                }
            }
            (Some((open, lang, mut content)), _) => {
                content.push_str(line);
                content.push('\n');
                fence = Some((open, lang, content));
            }
            (None, Some(m)) => {
                fence = Some((m.to_string(), trimmed[3..].trim().to_string(), String::new()));
            }
            (None, None) => {
                result.push_str(line);
                result.push('\n');
            }
        }
    }
    if let Some((open, lang, content)) = fence {
        result.push_str(&format!("{}{}\n{}", open, lang, content));
    }
    (result, blocks)
}

#[test]
fn extraction_agrees_with_a_line_scan_on_generated_documents() {
    let alphabet = [
        "```", "~~~", "\n", "\r\n", " ", "mermaid", "CHART", "rust", "text", "  ", "chart",
        "Mermaid", "x", "\t", "`", "~", "\n```mermaid\n", "\n```\n", "\n~~~Chart \n", "\n~~~\n",
        "\nbody\n", "\n", "\n",
    ];
    let mut with_blocks = 0;
    for seed in 0..4000u64 {
        let mut state = seed.wrapping_mul(6364136223846793005).wrapping_add(1442695040888963407);
        let mut md = String::new();
        for _ in 0..(4 + seed % 24) {
            state = state.wrapping_mul(6364136223846793005).wrapping_add(1442695040888963407);
            md.push_str(alphabet[((state >> 33) as usize) % alphabet.len()]);
        }
        let (result, blocks) = extract_special_blocks(&md);
        let (expected, expected_blocks) = by_line_scan(&md);
        assert_eq!(result, expected, "{:?}", md);
        assert_eq!(blocks.len(), expected_blocks.len(), "{:?}", md);
        for (block, (block_type, content, id)) in blocks.iter().zip(expected_blocks.iter()) {
            assert_eq!(&block.block_type, block_type);
            assert_eq!(&block.content, content);
            assert_eq!(&block.placeholder_id, id);
        }
        if !blocks.is_empty() {
            with_blocks += 1;
        }
    }
    assert!(with_blocks > 300, "{}", with_blocks);
}
