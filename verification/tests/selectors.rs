use heathen::selectors::{Attribute, Ident, Link, Op, Rule, Selector, Xid};

#[test]
fn ident_reads_a_name() {
    assert_eq!(Ident::parse("abc_1.x", (0, 7)), (Some(Ident((0, 5))), (5, 7)));
    assert_eq!(Ident::parse("_a", (0, 2)), (Some(Ident((0, 2))), (2, 2)));
    assert_eq!(Ident::parse("a", (0, 1)), (Some(Ident((0, 1))), (1, 1)));
    assert_eq!(Ident::parse("1a", (0, 2)), (None, (0, 2)));
    assert_eq!(Ident::parse("", (0, 0)), (None, (0, 0)));
    assert_eq!(Ident::parse("ab cd", (3, 5)), (Some(Ident((3, 5))), (5, 5)));
    // Letters of any script count.
    assert_eq!(Ident::parse("größe!", (0, 6)), (Some(Ident((0, 5))), (5, 6)));
}

#[test]
fn xid_reads_percent_and_digits() {
    assert_eq!(Xid::parse("%12>", (0, 4)), (Some(Xid((1, 3))), (3, 4)));
    assert_eq!(Xid::parse("%7", (0, 2)), (Some(Xid((1, 2))), (2, 2)));
    assert_eq!(Xid::parse("%", (0, 1)), (None, (0, 1)));
    assert_eq!(Xid::parse("%a", (0, 2)), (None, (0, 2)));
    assert_eq!(Xid::parse("12", (0, 2)), (None, (0, 2)));
}

#[test]
fn attribute_reads_every_operator() {
    let name = Ident((1, 2));
    let cases = [
        ("[a]", Op::Exists, None, 3),
        ("[a=v]", Op::Equals, Some((3, 4)), 5),
        ("[a!=v]", Op::NotEquals, Some((4, 5)), 6),
        ("[a^=v]", Op::StartsWith, Some((4, 5)), 6),
        ("[a*=v]", Op::Contains, Some((4, 5)), 6),
        ("[a$=vw]", Op::EndsWith, Some((4, 6)), 7),
    ];
    for (text, op, value, end) in cases {
        let len = text.chars().count();
        assert_eq!(Attribute::parse(text, (0, len)), (Some(Attribute { name, op, value }), (end, len)));
    }
}

#[test]
fn attribute_rejects_what_is_malformed() {
    for text in ["a", "[", "[]", "[1]", "[a", "[a=]", "[a=v", "[a?=v]", "[a!v]", "[a!]", "[a=", "[a^"] {
        let len = text.chars().count();
        assert_eq!(Attribute::parse(text, (0, len)), (None, (0, len)), "{text}");
    }
}

#[test]
fn link_reads_every_combinator() {
    let cases = [
        ("<a", Link::Parent, 1),
        ("<<a", Link::Ancestors, 2),
        (">a", Link::Children, 1),
        (">>a", Link::Descendants, 2),
        ("+a", Link::NextSibling, 1),
        ("++a", Link::NextSiblings, 2),
        ("~a", Link::PrevSibling, 1),
        ("~~a", Link::PrevSiblings, 2),
        ("~+a", Link::Siblings, 2),
        ("  >  a", Link::Children, 5),
        ("\t>>\n a", Link::Descendants, 5),
    ];
    for (text, link, next) in cases {
        let len = text.chars().count();
        assert_eq!(Link::parse(text, (0, len)), (Some(link), (next, len)), "{text}");
    }
}

#[test]
fn link_needs_a_token_and_something_after_it() {
    for text in ["", "  ", "a", " a", ">", "> ", "  >>  ", "="] {
        let len = text.chars().count();
        assert_eq!(Link::parse(text, (0, len)), (None, (0, len)), "{text}");
    }
}

#[test]
fn rule_reads_all_parts() {
    let text = "div%12#main.x.y[a=1][b]";
    let len = text.chars().count();
    let (rule, rest) = Rule::parse(text, (0, len));
    let rule = rule.unwrap();
    assert_eq!(rest, (len, len));
    assert_eq!(rule.tag, Some(Ident((0, 3))));
    assert_eq!(rule.xid, Some(Xid((4, 6))));
    assert_eq!(rule.id, Some(Ident((7, 11))));
    assert_eq!(rule.classes, vec![Ident((12, 13)), Ident((14, 15))]);
    assert_eq!(
        rule.attributes,
        vec![
            Attribute { name: Ident((16, 17)), op: Op::Equals, value: Some((18, 19)) },
            Attribute { name: Ident((21, 22)), op: Op::Exists, value: None },
        ]
    );
}

#[test]
fn rule_may_be_empty_and_stops_at_what_it_cannot_read() {
    let (rule, rest) = Rule::parse("", (0, 0));
    let rule = rule.unwrap();
    assert_eq!(rest, (0, 0));
    assert!(rule.tag.is_none() && rule.xid.is_none() && rule.id.is_none());
    assert!(rule.classes.is_empty() && rule.attributes.is_empty());
    let (rule, rest) = Rule::parse("a > b", (0, 5));
    assert_eq!(rule.unwrap().tag, Some(Ident((0, 1))));
    assert_eq!(rest, (1, 5));
    let (rule, rest) = Rule::parse("a[b", (0, 3));
    assert!(rule.unwrap().attributes.is_empty());
    assert_eq!(rest, (1, 3));
}

#[test]
fn rule_rejects_a_hash_or_dot_without_a_name() {
    for text in ["a#", "a#1", "a.", "a.b.", ".", "#", "a..b"] {
        let len = text.chars().count();
        let (rule, rest) = Rule::parse(text, (0, len));
        assert!(rule.is_none(), "{text}");
        assert_eq!(rest, (0, len));
    }
}

#[test]
fn selector_reads_steps() {
    let s = Selector::parse("h3 > h4").unwrap();
    assert_eq!(s.src, "h3 > h4");
    assert_eq!(s.rules.len(), 2);
    assert_eq!(s.rules[0].rule.tag, Some(Ident((0, 2))));
    assert_eq!(s.rules[0].link, Some(Link::Children));
    assert_eq!(s.rules[1].rule.tag, Some(Ident((5, 7))));
    assert_eq!(s.rules[1].link, None);
    assert_eq!(s.get((5, 7)), "h4");
    assert_eq!(s.get((0, 0)), "");

    let s = Selector::parse("a~+b<<c").unwrap();
    let links: Vec<Option<Link>> = s.rules.iter().map(|r| r.link).collect();
    assert_eq!(links, vec![Some(Link::Siblings), Some(Link::Ancestors), None]);

    let s = Selector::parse("> a").unwrap();
    assert_eq!(s.rules.len(), 2);
    assert!(s.rules[0].rule.tag.is_none());

    let s = Selector::parse("").unwrap();
    assert_eq!(s.rules.len(), 1);
}

#[test]
fn selector_must_fill_its_text() {
    for text in ["h1 garbage", "h1 ", " h1", "h1 >", "a#", "a b", "a[b", "a > .", "a,b", "%", "a]"] {
        assert!(Selector::parse(text).is_none(), "{text}");
    }
}
