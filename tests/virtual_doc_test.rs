use literate_lsp::position::PositionMapper;
use literate_lsp::virtual_doc::{build_virtual_document, find_code_block_at_line, CodeBlock};

const FORTH_DOC: &str = r#"# Forth

In forth, we can add a new word to the dictionary by compiling it.
We start by entering compilation mode with the `:` word.

Let's define our `square` to square a number.

```forth
: square ( n -- n ) dup * ;    \ ok
```

Now, `square` can be used to consume one off of the stack, and add the answer back.

```forth
5 square .                     \ 25 ok
```
"#;

#[test]
fn test_build_virtual_document() {
    let markdown = "# Forth\n\n```forth\n: square ( n -- n ) dup * ;\n```\n\n```forth\n5 square .\n```\n";
    let vdoc = build_virtual_document(markdown, "forth");
    assert_eq!(vdoc.blocks.len(), 2);
    assert!(vdoc.content.contains("square"));
}

#[test]
fn virtual_doc_test_find_code_block_at_line() {
    let markdown = "# Forth\n\n```forth\n: square ( n -- n ) dup * ;\n```\n\nText\n\n```forth\n5 square .\n```\n";
    let result = find_code_block_at_line(markdown, 3);
    assert!(result.is_some());
    let (lang, _start, _end) = result.unwrap();
    assert_eq!(lang, "forth");
}

#[test]
fn test_virtual_document_extraction() {
    let vdoc = build_virtual_document(FORTH_DOC, "forth");
    assert_eq!(vdoc.blocks.len(), 2, "Should find 2 forth code blocks");
    assert_eq!(vdoc.blocks[0].markdown_start, 7, "First block should start at line 7");
    assert_eq!(vdoc.blocks[0].markdown_end, 9, "First block should end at line 9");
    assert_eq!(vdoc.blocks[0].virtual_start, 0, "First block virtual should start at 0");
    assert_eq!(vdoc.blocks[1].markdown_start, 13, "Second block should start at line 13");
    assert_eq!(vdoc.blocks[1].markdown_end, 15, "Second block should end at line 15");
    assert_eq!(
        vdoc.blocks[1].virtual_start, 2,
        "Second block virtual should start at 2 (after newline separator)"
    );
    assert!(vdoc.content.contains("square"), "Virtual document should contain 'square'");
    assert!(vdoc.content.contains("5 square"), "Virtual document should contain '5 square'");
}

#[test]
fn virtual_doc_test_test_find_code_block_at_line() {
    let markdown = r#"# Forth

```forth
: square ( n -- n ) dup * ;
```

Text between blocks

```forth
5 square .
```
"#;
    let result = find_code_block_at_line(markdown, 2);
    assert!(result.is_some(), "Should find code block at line 2");
    let (lang, _start, _end) = result.unwrap();
    assert_eq!(lang, "forth");

    let result = find_code_block_at_line(markdown, 8);
    assert!(result.is_some(), "Should find code block at line 8");
    let (lang, _start, _end) = result.unwrap();
    assert_eq!(lang, "forth");

    let result = find_code_block_at_line(markdown, 6);
    assert!(result.is_none(), "Should not find code block at line 6");
}

#[test]
fn test_position_mapping() {
    let blocks = vec![
        CodeBlock {
            lang: "forth".to_string(),
            markdown_start: 7,
            markdown_end: 9,
            content_start: 8,
            content_end: 8,
            virtual_start: 0,
            virtual_end: 1,
            content: ": square ( n -- n ) dup * ;    \\ ok\n".to_string(),
        },
        CodeBlock {
            lang: "forth".to_string(),
            markdown_start: 13,
            markdown_end: 15,
            content_start: 14,
            content_end: 14,
            virtual_start: 2,
            virtual_end: 3,
            content: "5 square .                     \\ 25 ok\n".to_string(),
        },
    ];

    let mapper = PositionMapper::new(blocks);

    let (vline, col) = mapper.markdown_to_virtual(8, 2).unwrap();
    assert_eq!(vline, 0, "Line 8 should map to virtual line 0");
    assert_eq!(col, 2);

    let (vline, col) = mapper.markdown_to_virtual(14, 2).unwrap();
    assert_eq!(vline, 2, "Line 14 should map to virtual line 2");
    assert_eq!(col, 2);

    let (mline, col) = mapper.virtual_to_markdown(0, 2).unwrap();
    assert_eq!(mline, 8, "Virtual line 0 should map to markdown line 8");
    assert_eq!(col, 2);

    let (mline, col) = mapper.virtual_to_markdown(2, 2).unwrap();
    assert_eq!(mline, 14, "Virtual line 2 should map to markdown line 14");
    assert_eq!(col, 2);
}

#[test]
fn virtual_content_has_one_separator_between_blocks() {
    let vdoc = build_virtual_document(FORTH_DOC, "forth");
    assert_eq!(
        vdoc.content,
        ": square ( n -- n ) dup * ;    \\ ok\n\n5 square .                     \\ 25 ok\n"
    );
    assert_eq!(vdoc.blocks[0].content_start, 8);
    assert_eq!(vdoc.blocks[0].content_end, 8);
    assert_eq!(vdoc.blocks[0].virtual_end, 1);
    assert_eq!(vdoc.blocks[1].virtual_end, 3);
    assert_eq!(vdoc.blocks[1].content, "5 square .                     \\ 25 ok\n");
}

#[test]
fn no_matching_fence_gives_empty_document() {
    let vdoc = build_virtual_document(FORTH_DOC, "python");
    assert!(vdoc.blocks.is_empty());
    assert_eq!(vdoc.content, "");
    let empty = build_virtual_document("", "forth");
    assert!(empty.blocks.is_empty());
}

#[test]
fn longer_fence_keeps_shorter_fences_as_content() {
    let doc = "````markdown\n```forth\n1 2 +\n```\n````\n```forth\nx\n```\n";
    let found = find_code_block_at_line(doc, 2).unwrap();
    assert_eq!(found, ("markdown".to_string(), 0, 4));
    let vdoc = build_virtual_document(doc, "markdown");
    assert_eq!(vdoc.blocks.len(), 1);
    assert_eq!(vdoc.content, "```forth\n1 2 +\n```\n");
    let forth = build_virtual_document(doc, "forth");
    assert_eq!(forth.blocks.len(), 1);
    assert_eq!(forth.blocks[0].markdown_start, 5);
}

#[test]
fn unterminated_fence_gives_no_block() {
    let doc = "```forth\n: a ;\n```\n\n```forth\n: b ;\n";
    let vdoc = build_virtual_document(doc, "forth");
    assert_eq!(vdoc.blocks.len(), 1);
    assert_eq!(vdoc.content, ": a ;\n");
    assert!(find_code_block_at_line(doc, 5).is_none());
}

#[test]
fn indented_fence_and_language_token() {
    let doc = "  ``` forth extra\nword\n  ```\r\n";
    let found = find_code_block_at_line(doc, 1).unwrap();
    assert_eq!(found, ("forth".to_string(), 0, 2));
}

#[test]
fn fence_lines_belong_to_the_block() {
    let found = find_code_block_at_line(FORTH_DOC, 9).unwrap();
    assert_eq!(found, ("forth".to_string(), 7, 9));
    let found = find_code_block_at_line(FORTH_DOC, 13).unwrap();
    assert_eq!(found, ("forth".to_string(), 13, 15));
}

#[test]
fn empty_block_keeps_separator() {
    let doc = "```forth\n```\n```forth\nb\n```\n";
    let vdoc = build_virtual_document(doc, "forth");
    assert_eq!(vdoc.blocks.len(), 2);
    assert_eq!(vdoc.blocks[0].virtual_start, 0);
    assert_eq!(vdoc.blocks[0].virtual_end, 0);
    assert_eq!(vdoc.blocks[1].virtual_start, 1);
    assert_eq!(vdoc.content, "\nb\n");
}
