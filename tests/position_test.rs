use literate_lsp::position::{Location, PositionMapper, TextPosition, TextRange};
use literate_lsp::virtual_doc::{build_virtual_document, CodeBlock};

fn forth_block(start: usize, end: usize, vstart: usize, vend: usize, content: &str) -> CodeBlock {
    CodeBlock {
        lang: "forth".to_string(),
        markdown_start: start,
        markdown_end: end,
        content_start: start + 1,
        content_end: end - 1,
        virtual_start: vstart,
        virtual_end: vend,
        content: content.to_string(),
    }
}

#[test]
fn test_markdown_to_virtual() {
    let blocks = vec![
        forth_block(2, 4, 0, 2, ": square ( n -- n ) dup * ;\n"),
        forth_block(7, 9, 2, 4, "5 square .\n"),
    ];
    let mapper = PositionMapper::new(blocks);
    let (vline, col) = mapper.markdown_to_virtual(3, 5).unwrap();
    assert_eq!(vline, 0);
    assert_eq!(col, 5);

    let (vline, col) = mapper.markdown_to_virtual(8, 2).unwrap();
    assert_eq!(vline, 2);
    assert_eq!(col, 2);
}

#[test]
fn test_virtual_to_markdown() {
    let blocks = vec![
        forth_block(2, 4, 0, 2, ": square ( n -- n ) dup * ;\n"),
        forth_block(7, 9, 2, 4, "5 square .\n"),
    ];
    let mapper = PositionMapper::new(blocks);
    let (mline, col) = mapper.virtual_to_markdown(0, 5).unwrap();
    assert_eq!(mline, 3);
    assert_eq!(col, 5);

    let (mline, col) = mapper.virtual_to_markdown(2, 2).unwrap();
    assert_eq!(mline, 8);
    assert_eq!(col, 2);
}

#[test]
fn round_trips_through_built_blocks() {
    let doc = "text\n```forth\na\nb\n```\nmore\n```forth\nc\n```\n";
    let vdoc = build_virtual_document(doc, "forth");
    let mapper = PositionMapper::new(vdoc.blocks);
    for line in [2u32, 3, 7] {
        let (v, c) = mapper.markdown_to_virtual(line, 4).unwrap();
        assert_eq!(mapper.virtual_to_markdown(v, c), Some((line, 4)));
    }
    for v in [0u32, 1, 3] {
        let (l, c) = mapper.virtual_to_markdown(v, 1).unwrap();
        assert_eq!(mapper.markdown_to_virtual(l, c), Some((v, 1)));
    }
    assert_eq!(mapper.markdown_to_virtual(7, 0), Some((3, 0)));
}

#[test]
fn separator_line_maps_nowhere() {
    let doc = "```forth\na\n```\n```forth\nb\n```\n";
    let vdoc = build_virtual_document(doc, "forth");
    assert_eq!(vdoc.blocks[0].virtual_end, 1);
    let mapper = PositionMapper::new(vdoc.blocks);
    assert_eq!(mapper.virtual_to_markdown(1, 0), None);
    assert_eq!(mapper.virtual_to_markdown(2, 0), Some((4, 0)));
}

#[test]
fn fence_and_prose_lines_map_nowhere() {
    let doc = "text\n```forth\na\n```\n";
    let vdoc = build_virtual_document(doc, "forth");
    let mapper = PositionMapper::new(vdoc.blocks);
    assert_eq!(mapper.markdown_to_virtual(0, 0), None);
    assert_eq!(mapper.markdown_to_virtual(1, 0), None);
    assert_eq!(mapper.markdown_to_virtual(3, 0), None);
    assert_eq!(mapper.virtual_to_markdown(5, 0), None);
}

#[test]
fn map_location_maps_both_ends() {
    let doc = "```forth\na\nb\n```\n";
    let mapper = PositionMapper::new(build_virtual_document(doc, "forth").blocks);
    let loc = Location {
        uri: "file:///x/virtual.forth".to_string(),
        range: TextRange {
            start: TextPosition { line: 0, character: 1 },
            end: TextPosition { line: 1, character: 0 },
        },
    };
    let mapped = mapper.map_location(&loc, "file:///x/a.md").unwrap();
    assert_eq!(mapped.uri, "file:///x/a.md");
    assert_eq!(mapped.range.start, TextPosition { line: 1, character: 1 });
    assert_eq!(mapped.range.end, TextPosition { line: 2, character: 0 });
    let outside = Location {
        uri: "file:///x/virtual.forth".to_string(),
        range: TextRange {
            start: TextPosition { line: 0, character: 1 },
            end: TextPosition { line: 5, character: 0 },
        },
    };
    assert!(mapper.map_location(&outside, "file:///x/a.md").is_none());
}

#[test]
fn lines_beyond_u32_map_nowhere() {
    let top = u32::MAX as usize;
    let mapper = PositionMapper::new(vec![
        forth_block(4, 6, top, top + 1, "x\n"),
        forth_block(7, 9, top + 1, top + 2, "y\n"),
    ]);
    assert_eq!(mapper.markdown_to_virtual(5, 3), Some((u32::MAX, 3)));
    assert_eq!(mapper.markdown_to_virtual(8, 3), None);
    assert_eq!(mapper.virtual_to_markdown(u32::MAX, 3), Some((5, 3)));
}
