use secure_note::markdown::{
    heading_level, leading_spaces, line_block, ordered_item, parse_blocks, parse_inline,
    strip_bullet, Block, Seg,
};

fn v(s: &str) -> Vec<char> {
    s.chars().collect()
}

fn st(c: &[char]) -> String {
    c.iter().collect()
}

/// (text, bold, italic, code, link) of each segment.
fn shape(segs: &[Seg]) -> Vec<(String, bool, bool, bool, Option<String>)> {
    segs.iter()
        .map(|s| (s.text.clone(), s.bold, s.italic, s.code, s.link.clone()))
        .collect()
}

fn plain(t: &str) -> (String, bool, bool, bool, Option<String>) {
    (t.to_string(), false, false, false, None)
}

#[test]
fn inline_plain_text_is_one_segment() {
    assert_eq!(shape(&parse_inline(&v("just text"))), vec![plain("just text")]);
    assert!(parse_inline(&v("")).is_empty());
}

#[test]
fn inline_bold_and_italic() {
    let segs = parse_inline(&v("a **b** _c_ d"));
    assert_eq!(
        shape(&segs),
        vec![
            plain("a "),
            ("b".to_string(), true, false, false, None),
            plain(" "),
            ("c".to_string(), false, true, false, None),
            plain(" d"),
        ]
    );
}

#[test]
fn inline_code_span_is_verbatim() {
    let segs = parse_inline(&v("x `*y*` z"));
    assert_eq!(
        shape(&segs),
        vec![plain("x "), ("*y*".to_string(), false, false, true, None), plain(" z")]
    );
}

#[test]
fn inline_unclosed_backtick_is_text() {
    assert_eq!(shape(&parse_inline(&v("a`b"))), vec![plain("a`b")]);
}

#[test]
fn inline_link() {
    let segs = parse_inline(&v("see [docs](http://x.y) now"));
    assert_eq!(
        shape(&segs),
        vec![
            plain("see "),
            ("docs".to_string(), false, false, false, Some("http://x.y".to_string())),
            plain(" now"),
        ]
    );
}

#[test]
fn inline_link_keeps_emphasis() {
    let segs = parse_inline(&v("**[a](b)**"));
    assert_eq!(shape(&segs), vec![("a".to_string(), true, false, false, Some("b".to_string()))]);
}

#[test]
fn inline_bracket_without_target_is_text() {
    assert_eq!(shape(&parse_inline(&v("[a] (b)"))), vec![plain("[a] (b)")]);
}

#[test]
fn headings() {
    assert_eq!(heading_level(&v("# Title")), Some(1));
    assert_eq!(heading_level(&v("###### six")), Some(6));
    assert_eq!(heading_level(&v("####### seven")), None);
    assert_eq!(heading_level(&v("#nospace")), None);
    assert_eq!(heading_level(&v("text")), None);
}

#[test]
fn bullets() {
    assert_eq!(strip_bullet(&v("- item")).map(|c| st(&c)), Some("item".to_string()));
    assert_eq!(strip_bullet(&v("* item")).map(|c| st(&c)), Some("item".to_string()));
    assert_eq!(strip_bullet(&v("+ item")).map(|c| st(&c)), Some("item".to_string()));
    assert_eq!(strip_bullet(&v("-item")), None);
}

#[test]
fn ordered_items() {
    let (n, rest) = ordered_item(&v("12. twelve")).unwrap();
    assert_eq!((st(&n), st(&rest)), ("12".to_string(), "twelve".to_string()));
    assert!(ordered_item(&v("1.x")).is_none());
    assert!(ordered_item(&v(". x")).is_none());
}

#[test]
fn leading_indent() {
    assert_eq!(leading_spaces(&v("  \t- x")), 3);
    assert_eq!(leading_spaces(&v("x")), 0);
}

#[test]
fn line_blocks() {
    assert!(matches!(line_block(&v("   ")), Block::Blank));
    assert!(matches!(line_block(&v("  ---")), Block::Rule));
    assert!(matches!(line_block(&v("***")), Block::Rule));
    match line_block(&v("## Hi *there*")) {
        Block::Heading { level, segs } => {
            assert_eq!(level, 2);
            assert_eq!(
                shape(&segs),
                vec![plain("Hi "), ("there".to_string(), false, true, false, None)]
            );
        }
        _ => panic!("expected a heading"),
    }
    match line_block(&v("> quoted")) {
        Block::Quote(segs) => assert_eq!(shape(&segs), vec![plain("quoted")]),
        _ => panic!("expected a quote"),
    }
    match line_block(&v("    - sub")) {
        Block::Bullet { indent, segs } => {
            assert_eq!(indent, 4);
            assert_eq!(shape(&segs), vec![plain("sub")]);
        }
        _ => panic!("expected a bullet"),
    }
    match line_block(&v(" 3. third")) {
        Block::Ordered { indent, number, segs } => {
            assert_eq!(indent, 1);
            assert_eq!(number, "3");
            assert_eq!(shape(&segs), vec![plain("third")]);
        }
        _ => panic!("expected an ordered item"),
    }
    match line_block(&v("  hello")) {
        Block::Paragraph(segs) => assert_eq!(shape(&segs), vec![plain("  hello")]),
        _ => panic!("expected a paragraph"),
    }
}

#[test]
fn fenced_code_is_verbatim() {
    let blocks = parse_blocks(&v("```\n# not a heading\n**x**\n```\nafter"));
    assert_eq!(blocks.len(), 2);
    match &blocks[0] {
        Block::Code(lines) => {
            assert_eq!(lines, &vec!["# not a heading".to_string(), "**x**".to_string()])
        }
        _ => panic!("expected code"),
    }
    assert!(matches!(&blocks[1], Block::Paragraph(_)));
}

#[test]
fn unclosed_fence_runs_to_the_end() {
    let blocks = parse_blocks(&v("text\n  ```rust\nlet x = 1;"));
    assert_eq!(blocks.len(), 2);
    match &blocks[1] {
        Block::Code(lines) => assert_eq!(lines, &vec!["let x = 1;".to_string()]),
        _ => panic!("expected code"),
    }
}

#[test]
fn one_block_per_line() {
    let blocks = parse_blocks(&v("# T\n\n- a\n1. b\n---"));
    assert_eq!(blocks.len(), 5);
    assert!(matches!(&blocks[0], Block::Heading { level: 1, .. }));
    assert!(matches!(&blocks[1], Block::Blank));
    assert!(matches!(&blocks[2], Block::Bullet { indent: 0, .. }));
    assert!(matches!(&blocks[3], Block::Ordered { indent: 0, .. }));
    assert!(matches!(&blocks[4], Block::Rule));
}

#[test]
fn empty_text_is_one_blank_line() {
    let blocks = parse_blocks(&v(""));
    assert_eq!(blocks.len(), 1);
    assert!(matches!(&blocks[0], Block::Blank));
}
