use textkit::node::block::{BlockNode, MarkdownNode};
use textkit::node::code_block::{is_outdated, CodeBlock, HighlightStyle, Styles};
use textkit::node::element::{
    Element, FontWeight, ItemElement, ItemPrefix, Lead, NodeContext, NodeRenderOptions,
    TextViewStyle,
};
use textkit::node::highlight::Highlighters;
use textkit::node::inline::{ImageNode, InlineNode};
use textkit::node::marks::{Hsla, LinkMark, Span, TextMark};
use textkit::node::paint::{Background, InlineFlowItem, Piece, Rendering};
use textkit::node::paragraph::Paragraph;
use textkit::node::segments::{
    code_ranges, marks_in_range, split_paragraph_segments, ParagraphSegment,
};
use textkit::node::table::{AlignKind, ColumnumnAlign, Table, TableCell, TableRow};
use textkit::node::table_layout::CellWidth;
use textkit::selection::Selection;

#[derive(Debug, PartialEq)]
enum SegmentKind {
    Text(String),
    Code(String),
    Image,
}

fn segment_kinds(children: Vec<InlineNode>) -> Vec<SegmentKind> {
    split_paragraph_segments(&children)
        .into_iter()
        .map(|segment| match segment {
            ParagraphSegment::Text { text, .. } => SegmentKind::Text(text),
            ParagraphSegment::Code { text, .. } => SegmentKind::Code(text),
            ParagraphSegment::Image(_) => SegmentKind::Image,
        })
        .collect()
}

fn yellow() -> Hsla {
    Hsla {
        h: 0.15_f32.to_bits(),
        s: 1.0_f32.to_bits(),
        l: 0.5_f32.to_bits(),
        a: 1.0_f32.to_bits(),
    }
}

fn style() -> TextViewStyle {
    TextViewStyle {
        paragraph_gap: 1.0_f32.to_bits(),
        heading_base_font_size: 14.0_f32.to_bits(),
        scroll_tables: false,
    }
}

fn paragraph(text: &str) -> BlockNode {
    BlockNode::Paragraph(Paragraph::new(text))
}

fn item(children: Vec<BlockNode>, checked: Option<bool>) -> BlockNode {
    BlockNode::ListItem {
        children,
        spread: false,
        checked,
        span: None,
    }
}

fn list(children: Vec<BlockNode>, ordered: bool) -> BlockNode {
    BlockNode::List {
        children,
        ordered,
        span: None,
    }
}

fn row(cells: &[&str]) -> TableRow {
    TableRow {
        children: cells
            .iter()
            .map(|text| TableCell {
                children: Paragraph::new(text),
                width: None,
            })
            .collect(),
    }
}

fn table() -> Table {
    Table {
        children: vec![row(&["name", "size"]), row(&["a rather long name", "1"])],
        column_aligns: vec![ColumnumnAlign::Left, ColumnumnAlign::Right],
        span: Some(Span { start: 3, end: 40 }),
    }
}

#[test]
fn inline_code_is_split_out_as_its_own_segment() {
    let children = vec![
        InlineNode::new("see "),
        InlineNode::new("TaskStore").marks(vec![(0..9, TextMark::default().code())]),
        InlineNode::new(" and "),
        InlineNode::new("tasks.rs").marks(vec![(0..8, TextMark::default().code())]),
        InlineNode::new("."),
    ];

    assert_eq!(
        segment_kinds(children),
        vec![
            SegmentKind::Text("see ".into()),
            SegmentKind::Code("TaskStore".into()),
            SegmentKind::Text(" and ".into()),
            SegmentKind::Code("tasks.rs".into()),
            SegmentKind::Text(".".into()),
        ]
    );
}

#[test]
fn code_segment_keeps_source_text_without_padding_spaces() {
    let children = vec![InlineNode::new("OnceLock<RwLock<TaskFile>>")
        .marks(vec![(0..26, TextMark::default().code())])];

    match &split_paragraph_segments(&children)[0] {
        ParagraphSegment::Code { text, .. } => {
            assert_eq!(text, "OnceLock<RwLock<TaskFile>>");
            assert!(!text.starts_with(' '));
            assert!(!text.ends_with(' '));
        }
        other => panic!("expected code segment, got {other:?}"),
    }
}

#[test]
fn partial_code_mark_splits_a_single_node() {
    let children = vec![InlineNode::new("abXYcd").marks(vec![(2..4, TextMark::default().code())])];

    assert_eq!(
        segment_kinds(children),
        vec![
            SegmentKind::Text("ab".into()),
            SegmentKind::Code("XY".into()),
            SegmentKind::Text("cd".into()),
        ]
    );
}

#[test]
fn code_block_equality_includes_code_content() {
    let first = CodeBlock::new("let value = 1;", Some("rust".to_string()), None);
    let second = CodeBlock::new("let value = 2;", Some("rust".to_string()), None);

    assert_ne!(first, second);
    assert_eq!(first, first.clone());
    let elsewhere = CodeBlock::new(
        "let value = 1;",
        Some("rust".to_string()),
        Some(Span { start: 0, end: 9 }),
    );
    assert_ne!(first, elsewhere);
}

#[test]
fn segments_join_text_and_keep_images_apart() {
    let children = vec![
        InlineNode::new("a "),
        InlineNode::new("bold").marks(vec![(0..4, TextMark::default().bold())]),
        InlineNode::image(ImageNode::new("x.png")),
        InlineNode::new("tail"),
    ];
    let segments = split_paragraph_segments(&children);
    assert_eq!(segments.len(), 3);
    match &segments[0] {
        ParagraphSegment::Text { text, marks, state } => {
            assert_eq!(text, "a bold");
            assert_eq!(marks.len(), 1);
            assert_eq!(marks[0].0, 2..6);
            assert!(marks[0].1.bold);
            assert_eq!(*state, 0);
        }
        other => panic!("expected text, got {other:?}"),
    }
    match &segments[1] {
        ParagraphSegment::Image(image) => assert_eq!(image.url, "x.png"),
        other => panic!("expected an image, got {other:?}"),
    }
    match &segments[2] {
        ParagraphSegment::Text { text, state, .. } => {
            assert_eq!(text, "tail");
            assert_eq!(*state, 3);
        }
        other => panic!("expected text, got {other:?}"),
    }
}

#[test]
fn code_ranges_are_ordered_and_not_repeated() {
    let code = || TextMark::default().code();
    let node = InlineNode::new("0123456789").marks(vec![
        (6..8, code()),
        (1..3, code()),
        (0..10, TextMark::default().italic()),
        (6..8, code()),
    ]);
    assert_eq!(code_ranges(&node), vec![1..3, 6..8]);
    assert_eq!(
        segment_kinds(vec![node]),
        vec![
            SegmentKind::Text("0".into()),
            SegmentKind::Code("12".into()),
            SegmentKind::Text("345".into()),
            SegmentKind::Code("67".into()),
            SegmentKind::Text("89".into()),
        ]
    );
}

#[test]
fn styles_inside_of_code_are_kept() {
    let node = InlineNode::new("héllo wörld").marks(vec![
        (0..13, TextMark::default().code()),
        (7..13, TextMark::default().bold()),
    ]);
    match &split_paragraph_segments(&vec![node])[0] {
        ParagraphSegment::Code { text, marks, .. } => {
            assert_eq!(text, "héllo wörld");
            assert_eq!(marks.len(), 1);
            assert_eq!(marks[0].0, 7..13);
            assert!(!marks[0].1.code);
        }
        other => panic!("expected code, got {other:?}"),
    }
}

#[test]
fn marks_merge_what_is_set() {
    let mut mark = TextMark::default().bold().link(LinkMark::new("a"));
    mark.merge(TextMark::default().italic().highlight(yellow()));
    assert!(mark.bold && mark.italic && !mark.code);
    assert_eq!(mark.highlight, Some(yellow()));
    assert_eq!(mark.link.as_ref().map(|link| link.url.as_str()), Some("a"));
    mark.merge(TextMark::default().link(LinkMark::new("b")));
    assert_eq!(mark.link.map(|link| link.url), Some("b".to_string()));
}

#[test]
fn spans_and_images_are_named() {
    assert_eq!(Span { start: 10, end: 205 }.element_id(), "md-10:205");
    assert_eq!(Paragraph::new("x").element_id(), "md-0:0");
    let mut image = ImageNode::new("x.png");
    assert_eq!(image.title(), "");
    image.alt = Some("alt".to_string());
    assert_eq!(image.title(), "alt");
    image.title = Some("title".to_string());
    assert_eq!(image.title(), "title");
}

#[test]
fn paragraphs_collect_pieces() {
    let mut p = Paragraph::empty();
    assert!(p.is_empty());
    assert!(!p.is_image());
    p.push_str("añb");
    assert_eq!(p.children[0].marks[0].0, 0..4);
    p.push_image(ImageNode::new("x.png"));
    p.set_span(Span { start: 1, end: 2 });
    assert_eq!(p.text(), "añb");
    assert_eq!(p.text_len(), 4);
    assert!(!p.is_empty());
    assert!(p.should_render_inline_flow());
    let mut other = Paragraph::new("!");
    other.merge(p.take());
    assert_eq!(other.text(), "!añb");
    assert!(p.is_empty());
    assert_eq!(p, Paragraph::empty());
    assert_ne!(other, p);
}

#[test]
fn links_are_resolved_by_their_definitions() {
    let mut cx = NodeContext::new(style());
    cx.add_ref("home".to_string(), LinkMark::new("https://old.example"));
    cx.add_ref("home".to_string(), LinkMark::new("https://example.com"));
    let mut link = LinkMark::new("");
    link.identifier = Some("home".to_string());
    let mut p = Paragraph::empty();
    p.push(InlineNode::new("go home").marks(vec![(3..7, TextMark::default().link(link))]));
    let Rendering::Pieces(pieces) = p.render(&cx.link_refs) else {
        panic!("expected pieces");
    };
    assert_eq!(pieces.len(), 1);
    match &pieces[0] {
        Piece::Text {
            ix,
            state,
            text,
            links,
            highlights,
        } => {
            assert_eq!((*ix, *state), (1, None));
            assert_eq!(text, "go home");
            assert_eq!(links[0].0, 3..7);
            assert_eq!(links[0].1.url, "https://example.com");
            assert!(highlights[0][0].1.underline && highlights[0][0].1.link);
        }
        other => panic!("expected text, got {other:?}"),
    }
    assert_eq!(p.state.text, "go home");
    let same = NodeContext::new(style());
    assert_ne!(cx, same);
}

#[test]
fn paragraphs_without_text_next_to_images_are_shown_in_pieces() {
    let refs = NodeContext::new(style()).link_refs;
    let mut p = Paragraph::empty();
    p.push_image(ImageNode::new("a.png"));
    p.push_image(ImageNode::new("b.png"));
    let Rendering::Pieces(pieces) = p.render(&refs) else {
        panic!("expected pieces");
    };
    let urls: Vec<&str> = pieces
        .iter()
        .map(|piece| match piece {
            Piece::Image { image, .. } => image.url.as_str(),
            Piece::Text { .. } => "text",
        })
        .collect();
    assert_eq!(urls, vec!["a.png", "b.png"]);
}

#[test]
fn paragraphs_with_code_flow() {
    let refs = NodeContext::new(style()).link_refs;
    let mut p = Paragraph::empty();
    p.push(InlineNode::new("run "));
    p.push(InlineNode::new("ls").marks(vec![(
        0..2,
        TextMark::default().code().highlight(yellow()),
    )]));
    let Rendering::Flow(items) = p.render(&refs) else {
        panic!("expected items");
    };
    assert_eq!(items.len(), 2);
    match &items[1] {
        InlineFlowItem::Code {
            state,
            text,
            highlights,
            ..
        } => {
            assert_eq!(*state, 1);
            assert_eq!(text, "ls");
            assert!(highlights.is_empty());
        }
        other => panic!("expected code, got {other:?}"),
    }
    assert_eq!(p.children[0].state.text, "run ");
    assert_eq!(p.children[1].state.text, "ls");
    p.children[1].state.selection = Some(Selection { start: 1, end: 2 });
    assert_eq!(p.selected_text(), "s");
    p.clear_selection();
    assert_eq!(p.selected_text(), "");
}

#[test]
fn highlighted_text_has_its_color_behind_it() {
    let refs = NodeContext::new(style()).link_refs;
    let mut p = Paragraph::empty();
    p.push(InlineNode::new("x").marks(vec![(0..1, TextMark::default().highlight(yellow()))]));
    let Rendering::Pieces(pieces) = p.render(&refs) else {
        panic!("expected pieces");
    };
    match &pieces[0] {
        Piece::Text { highlights, .. } => {
            assert_eq!(highlights[0][0].1.background, Some(Background::Color(yellow())));
        }
        other => panic!("expected text, got {other:?}"),
    }
}

#[test]
fn text_of_blocks() {
    let root = BlockNode::Root {
        children: vec![
            BlockNode::Heading {
                level: 1,
                children: Paragraph::new("Title"),
                span: None,
            },
            list(vec![item(vec![paragraph("one")], None)], true),
            BlockNode::CodeBlock(CodeBlock::new("x = 1", None, None)),
            BlockNode::HorizontalRule { span: None },
            BlockNode::Custom(MarkdownNode {
                text: "custom".to_string(),
                markdown: ":::".to_string(),
                span: None,
            }),
        ],
        span: None,
    };
    assert_eq!(root.text(), "Title\none\nx = 1\ncustom\n\n");
    assert_eq!(root.selected_text(), "");
    assert_eq!(BlockNode::Table(table()).text(), "name size\na rather long name 1\n\n");
    // Each row of a table is a line, even where nothing of it is selected.
    assert_eq!(BlockNode::Table(table()).selected_text(), " \n \n\n");
    assert_eq!(BlockNode::Unknown.text(), "");
}

#[test]
fn clearing_the_selection_of_a_block() {
    let mut code = CodeBlock::new("let x", None, None);
    code.select(Selection { start: 0, end: 3 });
    let mut p = Paragraph::new("word");
    p.state.text = "word".to_string();
    p.state.selection = Some(Selection { start: 1, end: 3 });
    let mut quote = BlockNode::Blockquote {
        children: vec![BlockNode::Paragraph(p), BlockNode::CodeBlock(code)],
        span: None,
    };
    assert_eq!(quote.selected_text(), "or\nlet\n\n");
    let copy = quote.clone();
    quote.clear_selection();
    assert_eq!(quote.selected_text(), "");
    assert_eq!(quote.text(), "word\nlet x\n\n");
    assert_eq!(quote, copy);
}

#[test]
fn blocks_know_their_spans_and_compact() {
    let span = Some(Span { start: 2, end: 5 });
    let rule = BlockNode::HorizontalRule { span };
    assert_eq!(rule.span(), span);
    assert_eq!(BlockNode::Unknown.span(), None);
    assert!(item(vec![], None).is_list_item());
    assert!(!rule.is_list_item());
    let nested = BlockNode::Root {
        children: vec![BlockNode::Root {
            children: vec![rule.clone()],
            span: None,
        }],
        span: None,
    };
    assert_eq!(nested.compact(), rule);
    let two = BlockNode::Root {
        children: vec![rule.clone(), rule.clone()],
        span: None,
    };
    assert_eq!(two.clone().compact(), two);
}

#[test]
fn blocks_as_markdown() {
    let heading = BlockNode::Heading {
        level: 2,
        children: Paragraph::new("Title"),
        span: None,
    };
    assert_eq!(heading.to_markdown(), "## Title");
    let mut p = Paragraph::empty();
    p.push(InlineNode::new("bold").marks(vec![(0..4, TextMark::default().bold())]));
    p.push(InlineNode::new(" "));
    p.push(InlineNode::new("it").marks(vec![(0..2, TextMark::default().italic())]));
    p.push(InlineNode::new("gone").marks(vec![(0..4, TextMark::default().strikethrough())]));
    p.push(InlineNode::new("ls").marks(vec![(0..2, TextMark::default().code())]));
    p.push(InlineNode::new("hi").marks(vec![(0..2, TextMark::default().highlight(yellow()))]));
    p.push(
        InlineNode::new("site").marks(vec![(0..4, TextMark::default().link(LinkMark::new("u")))]),
    );
    let mut image = ImageNode::new("x.png");
    image.alt = Some("alt".to_string());
    image.title = Some("t".to_string());
    p.push_image(image);
    let text = "**bold** *it*~~gone~~`ls`==hi==[site](u)![alt](x.png \"t\")";
    assert_eq!(p.to_markdown(), format!("{text}\n\n"));
    assert_eq!(BlockNode::Paragraph(p).to_markdown(), text);

    let tasks = list(
        vec![
            item(vec![paragraph("done")], Some(true)),
            item(vec![paragraph("open")], Some(false)),
        ],
        true,
    );
    assert_eq!(tasks.to_markdown(), "1. [x] done\n2. [ ] open");
    let bullets = list(vec![item(vec![paragraph("a")], None)], false);
    assert_eq!(bullets.to_markdown(), "- a");
    let quote = BlockNode::Blockquote {
        children: vec![paragraph("a"), paragraph("b\r\nc")],
        span: None,
    };
    assert_eq!(quote.to_markdown(), "> a\n> \n> b\n> c");
    let code = BlockNode::CodeBlock(CodeBlock::new("x = 1", Some("py".to_string()), None));
    assert_eq!(code.to_markdown(), "```py\nx = 1\n```");
    let definition = BlockNode::Definition {
        identifier: "id".to_string(),
        url: "u".to_string(),
        title: Some("t".to_string()),
        span: None,
    };
    assert_eq!(definition.to_markdown(), "[id]: u \"t\"");
    let breaks = BlockNode::Break {
        html: true,
        span: None,
    };
    assert_eq!(breaks.to_markdown(), "<br>");
    assert_eq!(BlockNode::HorizontalRule { span: None }.to_markdown(), "---");
    let root = BlockNode::Root {
        children: vec![heading, bullets],
        span: None,
    };
    assert_eq!(root.to_markdown(), "## Title\n\n- a");
    assert_eq!(
        BlockNode::Table(table()).to_markdown(),
        "name\n\n | size\n\n\n:-- | --:\na rather long name\n\n | 1"
    );
}

#[test]
fn columns_are_aligned() {
    assert_eq!(ColumnumnAlign::from(AlignKind::Unsaid), ColumnumnAlign::Left);
    assert_eq!(ColumnumnAlign::from(AlignKind::Center), ColumnumnAlign::Center);
    assert_eq!(table().column_align(1), ColumnumnAlign::Right);
    assert_eq!(table().column_align(2), ColumnumnAlign::Left);
}

#[test]
fn tables_are_laid_out_by_the_lengths_of_their_texts() {
    assert_eq!(table().column_lengths(), vec![18, 5]);
    let mut cx = NodeContext::new(style());
    let mut node = BlockNode::Table(table());
    let options = NodeRenderOptions {
        ix: 7,
        ..NodeRenderOptions::default()
    };
    let Element::Table(element) = node.render_block(options, "view", &cx) else {
        panic!("expected a table");
    };
    assert_eq!(element.scroll_key, None);
    assert_eq!(element.columns, 2);
    assert!(element.rows[0].border && !element.rows[1].border);
    let cells = &element.rows[1].cells;
    assert!(cells[0].border && !cells[1].border);
    assert_eq!(cells[1].align, ColumnumnAlign::Right);
    assert!(matches!(cells[0].width, CellWidth::Share(18)));

    cx.style.scroll_tables = true;
    let Element::Table(element) = node.render_block(options, "view", &cx) else {
        panic!("expected a table");
    };
    assert_eq!(element.scroll_key.as_deref(), Some("view-table-scroll-3:40"));
    match &element.rows[1].cells[0].width {
        CellWidth::Measured(lines) => assert_eq!(lines, &vec!["a rather long name".to_string()]),
        other => panic!("expected lines, got {other:?}"),
    }
    let mut long = BlockNode::Table(Table {
        children: vec![row(&[&"x".repeat(400), " a \n\n b\r\n"])],
        column_aligns: vec![],
        span: None,
    });
    let Element::Table(element) = long.render_block(options, "v", &cx) else {
        panic!("expected a table");
    };
    assert_eq!(element.scroll_key.as_deref(), Some("v-table-scroll-7"));
    match &element.rows[0].cells[1].width {
        CellWidth::Measured(lines) => assert_eq!(lines, &vec!["a".to_string(), "b".to_string()]),
        other => panic!("expected lines, got {other:?}"),
    }
    cx.style.scroll_tables = false;
    let Element::Table(element) = long.render_block(options, "v", &cx) else {
        panic!("expected a table");
    };
    assert!(matches!(element.rows[0].cells[0].width, CellWidth::Share(150)));
}

#[test]
fn headings_get_smaller() {
    let cx = NodeContext::new(style());
    let look = |level: u8| {
        let mut heading = BlockNode::Heading {
            level,
            children: Paragraph::new("x"),
            span: None,
        };
        match heading.render_block(NodeRenderOptions::default(), "v", &cx) {
            Element::Heading {
                id, size, weight, ..
            } => (id, size, weight),
            other => panic!("expected a heading, got {other:?}"),
        }
    };
    assert_eq!(look(1), ("h1-0".to_string(), 2000, FontWeight::Bold));
    assert_eq!(look(4), ("h4-0".to_string(), 1125, FontWeight::Semibold));
    assert_eq!(look(6), ("h6-0".to_string(), 1000, FontWeight::Medium));
    assert_eq!(look(7), ("h7-0".to_string(), 1000, FontWeight::Normal));
}

#[test]
fn items_of_lists_are_numbered_and_stacked() {
    let cx = NodeContext::new(style());
    let mut node = list(
        vec![
            item(
                vec![
                    paragraph("first"),
                    paragraph("below"),
                    list(vec![], false),
                    paragraph("after the list"),
                    BlockNode::HorizontalRule { span: None },
                    BlockNode::Break {
                        html: false,
                        span: None,
                    },
                ],
                None,
            ),
            paragraph("not an item"),
            item(vec![paragraph("todo")], Some(true)),
            item(vec![BlockNode::HorizontalRule { span: None }], None),
        ],
        true,
    );
    let Element::List {
        ordered, gap, items, ..
    } = node.render_block(NodeRenderOptions::default(), "v", &cx)
    else {
        panic!("expected a list");
    };
    assert!(ordered && gap);
    assert_eq!(items.len(), 4);
    let leads = |item: &ItemElement| -> Vec<(Lead, usize)> {
        match item {
            ItemElement::Item { rows, .. } => {
                rows.iter().map(|row| (row.lead, row.below.len())).collect()
            }
            ItemElement::Nothing => vec![],
        }
    };
    let marker = |ix: usize| Lead::Marker {
        prefix: Some(ItemPrefix {
            ix,
            ordered: true,
            depth: 0,
        }),
        checked: None,
    };
    assert_eq!(
        leads(&items[0]),
        vec![
            (marker(0), 1),
            (Lead::NestedList, 0),
            (marker(0), 0),
            (Lead::Continued, 0),
        ]
    );
    assert!(matches!(items[1], ItemElement::Nothing));
    assert_eq!(
        leads(&items[2]),
        vec![(
            Lead::Marker {
                prefix: None,
                checked: Some(true),
            },
            0
        )]
    );
    assert_eq!(leads(&items[3]), vec![(marker(2), 0)]);
}

#[test]
fn only_inner_blocks_have_gaps() {
    let cx = NodeContext::new(style());
    let mut quote = BlockNode::Blockquote {
        children: vec![paragraph("a"), paragraph("b")],
        span: None,
    };
    let Element::Blockquote { gap, children, .. } =
        quote.render_block(NodeRenderOptions::default().is_last(true), "v", &cx)
    else {
        panic!("expected a quote");
    };
    assert!(!gap);
    let gaps: Vec<bool> = children
        .iter()
        .map(|child| match child {
            Element::Paragraph { gap, .. } => *gap,
            other => panic!("expected a paragraph, got {other:?}"),
        })
        .collect();
    assert_eq!(gaps, vec![true, false]);
    let mut root = BlockNode::Root {
        children: vec![paragraph("a"), BlockNode::Unknown],
        span: None,
    };
    let Element::Group { children, .. } =
        root.render_block(NodeRenderOptions::default(), "v", &cx)
    else {
        panic!("expected a group");
    };
    assert!(matches!(children[0], Element::Paragraph { ix: 0, gap: true, .. }));
    assert!(matches!(children[1], Element::Nothing));
}

#[test]
fn code_is_highlighted_once() {
    let plain = CodeBlock::new("x", None, None);
    assert!(matches!(plain.styles(), Styles::Ready(styles) if styles.is_empty()));
    let mut code = CodeBlock::new("a\nbc", Some("rust".to_string()), None);
    assert!(matches!(code.styles(), Styles::Wanted(lang) if lang == "rust"));
    let edit = code.highlight_edit("é\n");
    assert_eq!((edit.start_byte, edit.old_end_byte, edit.new_end_byte), (0, 3, 4));
    assert_eq!((edit.old_end_position.row, edit.old_end_position.column), (1, 0));
    assert_eq!((edit.new_end_position.row, edit.new_end_position.column), (1, 2));
    let style = HighlightStyle {
        color: Some(yellow()),
        background_color: None,
        font_weight: None,
        italic: Some(true),
        underline: false,
        strikethrough: false,
        fade_out: None,
    };
    code.set_styles(vec![(0..1, style)]);
    match code.styles() {
        Styles::Ready(styles) => assert_eq!(styles, vec![(0..1, style)]),
        other => panic!("expected styles, got {other:?}"),
    }
    assert!(!is_outdated("text", &None));
    assert!(is_outdated("text", &Some("json".to_string())));
    assert!(!is_outdated("json", &Some("json".to_string())));
}

#[test]
fn marks_of_a_part_hold_code_where_asked() {
    let bold = TextMark::default().bold();
    let code = TextMark::default().code();
    let node = InlineNode::new("abcdef").marks(vec![(1..4, bold.clone()), (2..6, code.clone())]);
    assert_eq!(
        marks_in_range(&node, &(2..5), false),
        vec![(0..2, bold.clone())]
    );
    assert_eq!(
        marks_in_range(&node, &(2..5), true),
        vec![(0..2, bold), (0..3, code)]
    );
}

#[test]
fn segments_keep_images_in_order_and_texts_apart() {
    let bold = TextMark::default().bold();
    let children = vec![
        InlineNode::new("ab"),
        InlineNode::image(ImageNode::new("1.png")),
        InlineNode::image(ImageNode::new("2.png")),
        InlineNode::new("cd").marks(vec![(0..2, bold)]),
        InlineNode::new("ef").marks(vec![(1..2, TextMark::default().code())]),
    ];
    let segments = split_paragraph_segments(&children);
    let images: Vec<&str> = segments
        .iter()
        .filter_map(|segment| match segment {
            ParagraphSegment::Image(image) => Some(image.url.as_str()),
            _ => None,
        })
        .collect();
    assert_eq!(images, vec!["1.png", "2.png"]);
    for pair in segments.windows(2) {
        assert!(!matches!(
            pair,
            [
                ParagraphSegment::Text { .. },
                ParagraphSegment::Text { .. }
            ]
        ));
    }
    match &segments[3] {
        ParagraphSegment::Text { text, marks, .. } => {
            assert_eq!(text, "cde");
            assert_eq!(marks[0].0, 0..2);
        }
        other => panic!("expected text, got {other:?}"),
    }
}

fn italic() -> HighlightStyle {
    HighlightStyle {
        color: None,
        background_color: None,
        font_weight: None,
        italic: Some(true),
        underline: false,
        strikethrough: false,
        fade_out: None,
    }
}

fn styled_code() -> CodeBlock {
    let mut code = CodeBlock::new("let x", Some("rust".to_string()), None);
    code.set_styles(vec![(0..3, italic())]);
    code.select(Selection { start: 0, end: 3 });
    code
}

fn assert_styled(code: &CodeBlock, selected: &str) {
    assert!(matches!(code.styles(), Styles::Ready(styles) if styles == vec![(0..3, italic())]));
    assert_eq!(code.selected_text(), selected);
}

#[test]
fn code_is_shown_with_its_styles_and_its_selection() {
    let cx = NodeContext::new(style());
    let mut node = BlockNode::CodeBlock(styled_code());
    let Element::Code { block, gap, .. } =
        node.render_block(NodeRenderOptions::default(), "v", &cx)
    else {
        panic!("expected code");
    };
    assert!(gap);
    assert_styled(&block, "let");
    let mut nested = list(vec![item(vec![BlockNode::CodeBlock(styled_code())], None)], false);
    let Element::List { items, .. } =
        nested.render_block(NodeRenderOptions::default(), "v", &cx)
    else {
        panic!("expected a list");
    };
    let ItemElement::Item { rows, .. } = &items[0] else {
        panic!("expected an item");
    };
    let Element::Code { block, .. } = &rows[0].content else {
        panic!("expected code");
    };
    assert_styled(block, "let");
}

#[test]
fn blocks_keep_the_styles_of_their_code() {
    let mut root = BlockNode::Root {
        children: vec![BlockNode::Blockquote {
            children: vec![BlockNode::CodeBlock(styled_code())],
            span: None,
        }],
        span: None,
    };
    let inner = |node: &BlockNode, selected: &str| {
        let BlockNode::Blockquote { children, .. } = node else {
            panic!("expected a quote");
        };
        let BlockNode::CodeBlock(code) = &children[0] else {
            panic!("expected code");
        };
        assert_styled(code, selected);
    };
    inner(&root.clone().compact(), "let");
    root.clear_selection();
    inner(&root.compact(), "");
}

#[test]
fn texts_of_blocks_end_with_lines() {
    let custom = |text: &str| {
        BlockNode::Custom(MarkdownNode {
            text: text.to_string(),
            markdown: "chart".to_string(),
            span: None,
        })
    };
    assert_eq!(custom("data").text(), "data\n");
    assert_eq!(custom("").text(), "");
    assert_eq!(custom("data").selected_text(), "");
    let silent = vec![
        BlockNode::HorizontalRule { span: None },
        BlockNode::Break { html: false, span: None },
        BlockNode::Unknown,
        BlockNode::Definition {
            identifier: "a".to_string(),
            url: "b".to_string(),
            title: None,
            span: None,
        },
    ];
    for node in &silent {
        assert_eq!(node.text(), "");
        assert_eq!(node.selected_text(), "");
    }
    let nested = list(vec![item(vec![paragraph("one"), paragraph("two")], None)], false);
    assert_eq!(nested.text(), "one\ntwo\n");
    assert_eq!(list(silent, false).text(), "");
}

#[test]
fn segments_of_code_are_the_ranges_of_code() {
    let code = TextMark::default().code();
    let bold = TextMark::default().bold();
    let children = vec![
        InlineNode::new("plain"),
        InlineNode::new("a code b more").marks(vec![
            (9..99, code.clone()),
            (2..6, code.clone()),
            (4..11, bold.clone()),
            (13..13, code),
        ]),
    ];
    let codes: Vec<_> = split_paragraph_segments(&children)
        .into_iter()
        .filter_map(|segment| match segment {
            ParagraphSegment::Code { text, marks, state } => Some((text, marks, state)),
            _ => None,
        })
        .collect();
    assert_eq!(
        codes,
        vec![
            ("code".to_string(), vec![(2..4, bold.clone())], 1),
            ("more".to_string(), vec![(0..2, bold)], 1),
        ]
    );
}

#[test]
fn code_block_highlighter_cache_refreshes_after_language_registration() {
    let lang = "json-cache-test";
    let mut highlighters = Highlighters::new();
    assert_eq!(highlighters.language(lang), None);

    let unknown_block = CodeBlock::new("{\"value\": 1}", Some(lang.to_string()), None);
    assert!(highlighters.wants(lang, &None));
    assert!(highlighters.tell(&unknown_block).is_none());
    highlighters.made(lang, "text");
    assert!(!highlighters.wants(lang, &None));
    let edit = highlighters.tell(&unknown_block).unwrap();
    assert_eq!((edit.old_end_byte, edit.new_end_byte), (0, 12));

    let cached_language = highlighters.language(lang);
    assert_eq!(cached_language.as_deref(), Some("text"));

    let registered = Some(lang.to_string());
    let registered_block = CodeBlock::new("{\"value\": 2}", Some(lang.to_string()), None);
    assert!(highlighters.wants(lang, &registered));
    highlighters.made(lang, lang);
    assert!(!highlighters.wants(lang, &registered));
    let edit = highlighters.tell(&registered_block).unwrap();
    assert_eq!((edit.old_end_byte, edit.new_end_byte), (0, 12));

    let cached_language = highlighters.language(lang);
    assert_eq!(cached_language.as_deref(), Some(lang));

    let next = CodeBlock::new("[\n1]", Some(lang.to_string()), None);
    let edit = highlighters.tell(&next).unwrap();
    assert_eq!((edit.start_byte, edit.old_end_byte, edit.new_end_byte), (0, 12, 4));
    assert_eq!((edit.new_end_position.row, edit.new_end_position.column), (1, 2));
    assert!(highlighters.tell(&CodeBlock::new("x", None, None)).is_none());
}
