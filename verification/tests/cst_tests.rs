use crow_config::cst::{CstNode, SourceSpan, Span, SyntaxKind};

fn line() -> CstNode {
    CstNode::rule(
        SyntaxKind::Line,
        vec![
            CstNode::token(SyntaxKind::Whitespace, "  ", Span::new(0, 2)),
            CstNode::token(SyntaxKind::IpAddress, "127.0.0.1", Span::new(2, 11)),
            CstNode::token(SyntaxKind::Whitespace, "\t", Span::new(11, 12)),
            CstNode::token(SyntaxKind::Hostname, "localhost", Span::new(12, 21)),
            CstNode::token(SyntaxKind::Whitespace, " ", Span::new(21, 22)),
            CstNode::token(SyntaxKind::Comment, "# local  ", Span::new(22, 31)),
            CstNode::token(SyntaxKind::Newline, "\n", Span::new(31, 32)),
        ],
        Span::new(0, 32),
    )
}

#[test]
fn test_cst_lossless_roundtrip_simple() {
    let text = "  127.0.0.1\tlocalhost # local  \n";
    let cst = line();
    assert_eq!(cst.to_string_lossless(), text);
}

#[test]
fn replacing_a_token_changes_only_that_token() {
    let mut cst = line();
    assert!(cst.replace_first_token_text(&SyntaxKind::IpAddress, "10.0.0.1"));
    assert_eq!(cst.to_string_lossless(), "  10.0.0.1\tlocalhost # local  \n");
    match &cst.children()[1] {
        CstNode::Token { span, .. } => assert_eq!(*span, Span::new(2, 10)),
        CstNode::Rule { .. } => panic!("expected a token"),
    }
    assert!(!cst.replace_first_token_text(&SyntaxKind::Key, "x"));
    assert_eq!(cst.to_string_lossless(), "  10.0.0.1\tlocalhost # local  \n");
}

#[test]
fn token_texts_are_collected_in_order() {
    let doc = CstNode::rule(SyntaxKind::Document, vec![line(), line()], Span::new(0, 64));
    assert_eq!(doc.collect_token_texts(&SyntaxKind::Hostname), vec!["localhost".to_string(), "localhost".to_string()]);
    assert!(doc.collect_token_texts(&SyntaxKind::Key).is_empty());
    assert_eq!(doc.to_string_lossless(), "  127.0.0.1\tlocalhost # local  \n".repeat(2));
}

#[test]
fn spans_measure_and_merge() {
    let a = Span::new(2, 11);
    assert_eq!(a.len(), 9);
    assert!(!a.is_empty());
    assert_eq!(Span::new(5, 3).len(), 0);
    assert!(Span::new(4, 4).is_empty());
    assert_eq!(a.merge(&Span::new(0, 5)), Span::new(0, 11));
    assert_eq!(Span::default(), Span::new(0, 0));
    assert_eq!(SourceSpan::single_line(4), SourceSpan::new(4, 4));
}

#[test]
fn kinds_name_themselves() {
    assert_eq!(SyntaxKind::IpAddress.as_str(), "ip_address");
    assert_eq!(SyntaxKind::BlankLine.as_str(), "blank_line");
    assert_eq!(SyntaxKind::custom("method").as_str(), "method");
    assert_eq!(SyntaxKind::custom("method"), SyntaxKind::Custom("method".to_string()));
}

#[test]
fn tokens_have_no_children_and_rules_do() {
    let mut t = CstNode::token(SyntaxKind::Value, "x", Span::new(0, 1));
    assert!(t.children().is_empty());
    assert!(t.children_mut().is_none());
    assert_eq!(*t.kind(), SyntaxKind::Value);
    let mut r = line();
    assert_eq!(r.children().len(), 7);
    r.children_mut().unwrap().pop();
    assert_eq!(r.to_string_lossless(), "  127.0.0.1\tlocalhost # local  ");
    assert_eq!(r.span(), Span::new(0, 32));
}
