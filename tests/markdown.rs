use ibis::markdown::{ArticleLink, MathEquation};

#[test]
fn article_link_is_read_with_title_and_domain() {
    let (link, taken) = ArticleLink::scan("[[Title@example.com]] and more").unwrap();
    assert_eq!(link.title, "Title");
    assert_eq!(link.domain, "example.com");
    assert_eq!(taken, 21);
    assert_eq!(link.href(), "/article/Title@example.com");
}

#[test]
fn article_link_needs_an_at_sign() {
    assert!(ArticleLink::scan("[[Title]] and more").is_none());
}

#[test]
fn article_link_needs_closing_brackets() {
    assert!(ArticleLink::scan("[[Title@example.com and more").is_none());
    assert!(ArticleLink::scan("[Title@example.com]]").is_none());
}

#[test]
fn article_link_splits_at_first_at_sign() {
    let (link, taken) = ArticleLink::scan("[[a@b@c]]").unwrap();
    assert_eq!(link.title, "a");
    assert_eq!(link.domain, "b@c");
    assert_eq!(taken, 9);
}

#[test]
fn article_link_counts_characters_not_bytes() {
    let (link, taken) = ArticleLink::scan("[[Zürich@example.com]]").unwrap();
    assert_eq!(link.title, "Zürich");
    assert_eq!(taken, 22);
}

#[test]
fn math_equation_inline() {
    let (eq, taken) = MathEquation::scan("$$E=mc^2$$. Pretty cool, right?").unwrap();
    assert_eq!(eq.equation, "E=mc^2");
    assert!(!eq.display_mode);
    assert_eq!(taken, 10);
}

#[test]
fn math_equation_display_mode() {
    let (eq, taken) = MathEquation::scan("$$ x+1 $$ rest").unwrap();
    assert_eq!(eq.equation, " x+1 ");
    assert!(eq.display_mode);
    assert_eq!(taken, 9);
    let (eq, _) = MathEquation::scan("$$\nx\n$$").unwrap();
    assert!(eq.display_mode);
}

#[test]
fn math_equation_rejects_empty_and_unclosed() {
    assert!(MathEquation::scan("$$$").is_none());
    assert!(MathEquation::scan("$$$$").is_none());
    assert!(MathEquation::scan("$$E=mc^2").is_none());
    assert!(MathEquation::scan("$E$").is_none());
}
