//! The selector grammar.
//!
//! A selector is one or more rules separated by combinators. A rule is
//! `tag? ('%' xid)? ('#' id)? ('.' class)* ('[' name (op value)? ']')*`.
//! The combinators are `<` parent, `<<` ancestors, `>` children, `>>`
//! descendants, `+` next sibling, `++` next siblings, `~` previous sibling,
//! `~~` previous siblings and `~+` siblings, each with optional white space
//! around it. The operators are `=`, `!=`, `^=`, `*=` and `$=`.
//!
//! Every parsed piece is a pair of character positions in the selector's
//! text, first position included, last excluded.

use vstd::prelude::*;
use crate::chars::{has_at, is_at, run_end, scan, CharClass};

verus! {

/// A span of text: the position of its first character and the position
/// after its last.
pub type Span = (usize, usize);

/// The digits of an element id, after its `%`.
#[derive(Clone, Copy, PartialEq, Eq, Debug)]
pub struct Xid(pub (usize, usize));

/// A name: a letter or `_`, then letters, digits and `_`.
#[derive(Clone, Copy, PartialEq, Eq, Debug)]
pub struct Ident(pub (usize, usize));

/// How an attribute's value is compared.
#[derive(Clone, Copy, PartialEq, Eq, Debug)]
pub enum Op {
    Exists,
    Equals,
    NotEquals,
    StartsWith,
    Contains,
    EndsWith,
}

/// One attribute test of a rule.
#[derive(Clone, Copy, PartialEq, Eq, Debug)]
pub struct Attribute {
    pub name: Ident,
    pub op: Op,
    /// The text to compare with; `None` exactly for `Op::Exists`.
    pub value: Option<(usize, usize)>,
}

/// A relation that leads from matched elements to others.
#[derive(Clone, Copy, PartialEq, Eq, Debug)]
pub enum Link {
    Ancestors,
    Descendants,
    Parent,
    Children,
    NextSibling,
    NextSiblings,
    PrevSibling,
    PrevSiblings,
    Siblings,
}

/// The tests that one element has to pass.
#[derive(Debug)]
pub struct Rule {
    pub tag: Option<Ident>,
    pub xid: Option<Xid>,
    pub id: Option<Ident>,
    pub classes: Vec<Ident>,
    pub attributes: Vec<Attribute>,
}

/// What a rule is to the contracts of this library.
pub struct RuleView {
    pub tag: Option<Ident>,
    pub xid: Option<Xid>,
    pub id: Option<Ident>,
    pub classes: Seq<Ident>,
    pub attributes: Seq<Attribute>,
}

impl View for Rule {
    type V = RuleView;

    open spec fn view(&self) -> RuleView {
        RuleView {
            tag: self.tag,
            xid: self.xid,
            id: self.id,
            classes: self.classes@,
            attributes: self.attributes@,
        }
    }
}

/// One step of a selector: a rule, and the relation to follow after it.
#[derive(Debug)]
pub struct Step {
    pub rule: Rule,
    pub link: Option<Link>,
}

impl View for Step {
    type V = (RuleView, Option<Link>);

    open spec fn view(&self) -> (RuleView, Option<Link>) {
        (self.rule@, self.link)
    }
}

/// A parsed selector, with the text that its spans point into.
#[derive(Debug)]
pub struct Selector {
    pub rules: Vec<Step>,
    pub src: String,
}

/// Whether a span lies in a text of `len` characters.
pub open spec fn span_ok(span: (usize, usize), len: int) -> bool {
    span.0 <= span.1 <= len
}

impl Attribute {
    /// Whether the spans of the test lie in a text of `len` characters, and
    /// it has a value to compare with unless it asks only for existence.
    pub open spec fn fits(self, len: int) -> bool {
        &&& span_ok(self.name.0, len)
        &&& match self.value {
            Some(v) => span_ok(v, len),
            None => self.op == Op::Exists,
        }
    }
}

impl RuleView {
    /// Whether the spans of the rule lie in a text of `len` characters.
    pub open spec fn fits(self, len: int) -> bool {
        &&& match self.tag {
            Some(t) => span_ok(t.0, len),
            None => true,
        }
        &&& match self.xid {
            Some(x) => span_ok(x.0, len),
            None => true,
        }
        &&& match self.id {
            Some(i) => span_ok(i.0, len),
            None => true,
        }
        &&& forall|k: int| 0 <= k < self.classes.len() ==> span_ok((#[trigger] self.classes[k]).0, len)
        &&& forall|k: int| 0 <= k < self.attributes.len() ==> (#[trigger] self.attributes[k]).fits(len)
    }
}

/// Whether the spans of all steps lie in a text of `len` characters.
pub open spec fn steps_fit(steps: Seq<(RuleView, Option<Link>)>, len: int) -> bool {
    forall|k: int| 0 <= k < steps.len() ==> (#[trigger] steps[k]).0.fits(len)
}

/// The steps of a selector, as rules and links.
pub open spec fn steps_of(rules: Seq<Step>) -> Seq<(RuleView, Option<Link>)> {
    rules.map_values(|s: Step| s@)
}

/// Where the name that starts at `lo` ends; `None` where no name starts.
pub open spec fn name_end(s: Seq<char>, lo: int, hi: int) -> Option<int> {
    if lo < hi && CharClass::NameStart.holds(s[lo]) {
        Some(run_end(s, lo + 1, hi, CharClass::NamePart))
    } else {
        None
    }
}

/// Where the element id that starts at `lo` with `%` ends; `None` where
/// there is no `%` or no digit after it.
pub open spec fn xid_end(s: Seq<char>, lo: int, hi: int) -> Option<int> {
    if is_at(s, lo, hi, '%') && run_end(s, lo + 1, hi, CharClass::Digit) > lo + 1 {
        Some(run_end(s, lo + 1, hi, CharClass::Digit))
    } else {
        None
    }
}

/// The operator that starts at `at`, and its length.
pub open spec fn op_at(s: Seq<char>, at: int, hi: int) -> Option<(Op, int)> {
    if is_at(s, at, hi, '=') {
        Some((Op::Equals, 1))
    } else if at < hi && is_at(s, at + 1, hi, '=') {
        if s[at] == '!' {
            Some((Op::NotEquals, 2))
        } else if s[at] == '^' {
            Some((Op::StartsWith, 2))
        } else if s[at] == '*' {
            Some((Op::Contains, 2))
        } else if s[at] == '$' {
            Some((Op::EndsWith, 2))
        } else {
            None
        }
    } else {
        None
    }
}

/// The attribute test that starts at `lo` with `[`, and where it ends.
pub open spec fn attribute_at(s: Seq<char>, lo: int, hi: int) -> Option<(Attribute, int)> {
    if !is_at(s, lo, hi, '[') {
        None
    } else {
        match name_end(s, lo + 1, hi) {
            None => None,
            Some(e) => {
                let name = Ident(((lo + 1) as usize, e as usize));
                if is_at(s, e, hi, ']') {
                    Some((Attribute { name, op: Op::Exists, value: None }, e + 1))
                } else {
                    match op_at(s, e, hi) {
                        None => None,
                        Some((op, len)) => {
                            let from = e + len;
                            let to = run_end(s, from, hi, CharClass::NotBracket);
                            if from < to < hi {
                                Some((Attribute { name, op, value: Some((from as usize, to as usize)) }, to + 1))
                            } else {
                                None
                            }
                        },
                    }
                }
            },
        }
    }
}

/// The classes that start at `lo`, each a `.` and a name, and where they
/// end; `None` where a `.` has no name after it.
pub open spec fn classes_at(s: Seq<char>, lo: int, hi: int) -> Option<(Seq<Ident>, int)>
    decreases hi - lo,
{
    if is_at(s, lo, hi, '.') {
        match name_end(s, lo + 1, hi) {
            Some(e) => if lo < e <= hi {
                match classes_at(s, e, hi) {
                    Some((rest, end)) => Some((seq![Ident(((lo + 1) as usize, e as usize))] + rest, end)),
                    None => None,
                }
            } else {
                None
            },
            None => None,
        }
    } else {
        Some((Seq::empty(), lo))
    }
}

/// The attribute tests that start at `lo`, and where they end.
pub open spec fn attributes_at(s: Seq<char>, lo: int, hi: int) -> (Seq<Attribute>, int)
    decreases hi - lo,
{
    match attribute_at(s, lo, hi) {
        Some((a, e)) => if lo < e <= hi {
            let (rest, end) = attributes_at(s, e, hi);
            (seq![a] + rest, end)
        } else {
            (Seq::empty(), lo)
        },
        None => (Seq::empty(), lo),
    }
}

/// The rule that starts at `lo`, and where it ends. Every part may be
/// missing, so a rule may be empty; `None` where a `#` or a `.` has no name
/// after it.
pub open spec fn rule_at(s: Seq<char>, lo: int, hi: int) -> Option<(RuleView, int)> {
    let (tag, a) = match name_end(s, lo, hi) {
        Some(e) => (Some(Ident((lo as usize, e as usize))), e),
        None => (None, lo),
    };
    let (xid, b) = match xid_end(s, a, hi) {
        Some(e) => (Some(Xid(((a + 1) as usize, e as usize))), e),
        None => (None, a),
    };
    if is_at(s, b, hi, '#') && name_end(s, b + 1, hi) is None {
        None
    } else {
        let (id, c) = if is_at(s, b, hi, '#') {
            (Some(Ident(((b + 1) as usize, name_end(s, b + 1, hi)->0 as usize))), name_end(s, b + 1, hi)->0)
        } else {
            (None, b)
        };
        match classes_at(s, c, hi) {
            None => None,
            Some((classes, d)) => {
                let (attributes, e) = attributes_at(s, d, hi);
                Some((RuleView { tag, xid, id, classes, attributes }, e))
            },
        }
    }
}

/// The combinator that starts at `at`, and its length.
pub open spec fn token_at(s: Seq<char>, at: int, hi: int) -> Option<(Link, int)> {
    if at >= hi {
        None
    } else if s[at] == '<' {
        if is_at(s, at + 1, hi, '<') {
            Some((Link::Ancestors, 2))
        } else {
            Some((Link::Parent, 1))
        }
    } else if s[at] == '>' {
        if is_at(s, at + 1, hi, '>') {
            Some((Link::Descendants, 2))
        } else {
            Some((Link::Children, 1))
        }
    } else if s[at] == '+' {
        if is_at(s, at + 1, hi, '+') {
            Some((Link::NextSiblings, 2))
        } else {
            Some((Link::NextSibling, 1))
        }
    } else if s[at] == '~' {
        if is_at(s, at + 1, hi, '~') {
            Some((Link::PrevSiblings, 2))
        } else if is_at(s, at + 1, hi, '+') {
            Some((Link::Siblings, 2))
        } else {
            Some((Link::PrevSibling, 1))
        }
    } else {
        None
    }
}

/// The combinator that follows at `lo`, white space around it included, and
/// where the text after it starts. A combinator needs something after it.
pub open spec fn link_at(s: Seq<char>, lo: int, hi: int) -> Option<(Link, int)> {
    let at = run_end(s, lo, hi, CharClass::Space);
    match token_at(s, at, hi) {
        None => None,
        Some((link, len)) => {
            let next = run_end(s, at + len, hi, CharClass::Space);
            if next < hi {
                Some((link, next))
            } else {
                None
            }
        },
    }
}

/// The steps of the selector that fills the text from `lo` to `hi`; `None`
/// where the text is not a selector.
pub open spec fn selector_at(s: Seq<char>, lo: int, hi: int) -> Option<Seq<(RuleView, Option<Link>)>>
    decreases hi - lo,
{
    match rule_at(s, lo, hi) {
        None => None,
        Some((rule, e)) => match link_at(s, e, hi) {
            Some((link, next)) => if lo < next <= hi {
                match selector_at(s, next, hi) {
                    Some(rest) => Some(seq![(rule, Some(link))] + rest),
                    None => None,
                }
            } else {
                None
            },
            None => if e == hi {
                Some(seq![(rule, None)])
            } else {
                None
            },
        },
    }
}

impl Ident {
    /// What `parse` returns: the name at the start of `range` and the rest
    /// of the range, or `None` and the range as it was.
    pub open spec fn parsed(s: Seq<char>, range: (usize, usize)) -> (Option<Ident>, (usize, usize)) {
        match name_end(s, range.0 as int, range.1 as int) {
            Some(e) => (Some(Ident((range.0, e as usize))), (e as usize, range.1)),
            None => (None, range),
        }
    }

    /// Reads a name at the start of `range`.
    pub fn parse(src: &str, range: (usize, usize)) -> (found: (Option<Ident>, (usize, usize)))
        requires
            range.0 <= range.1 <= src@.len(),
        ensures
            found == Ident::parsed(src@, range),
            found.1.0 <= found.1.1 == range.1,
            found.0 is Some ==> range.0 < found.1.0,
            found.0 is None ==> found.1 == range,
            name_end(src@, range.0 as int, range.1 as int) is Some ==> found.1.0 == name_end(
                src@,
                range.0 as int,
                range.1 as int,
            )->0,
            match found.0 {
                Some(name) => span_ok(name.0, range.1 as int),
                None => true,
            },
    {
        if range.0 < range.1 && CharClass::NameStart.test(src.get_char(range.0)) {
            let end: usize = scan(src, range.0 + 1, range.1, CharClass::NamePart);
            (Some(Ident((range.0, end))), (end, range.1))
        } else {
            (None, range)
        }
    }
}

impl Xid {
    /// What `parse` returns: the digits after a `%` at the start of `range`
    /// and the rest of the range, or `None` and the range as it was.
    pub open spec fn parsed(s: Seq<char>, range: (usize, usize)) -> (Option<Xid>, (usize, usize)) {
        match xid_end(s, range.0 as int, range.1 as int) {
            Some(e) => (Some(Xid(((range.0 + 1) as usize, e as usize))), (e as usize, range.1)),
            None => (None, range),
        }
    }

    /// Reads `%` and digits at the start of `range`.
    pub fn parse(src: &str, range: (usize, usize)) -> (found: (Option<Xid>, (usize, usize)))
        requires
            range.0 <= range.1 <= src@.len(),
        ensures
            found == Xid::parsed(src@, range),
            found.1.0 <= found.1.1 == range.1,
            range.0 <= found.1.0,
            xid_end(src@, range.0 as int, range.1 as int) is Some ==> found.1.0 == xid_end(
                src@,
                range.0 as int,
                range.1 as int,
            )->0,
            match found.0 {
                Some(xid) => span_ok(xid.0, range.1 as int),
                None => true,
            },
    {
        if has_at(src, range.0, range.1, '%') {
            let end: usize = scan(src, range.0 + 1, range.1, CharClass::Digit);
            if end > range.0 + 1 {
                return (Some(Xid((range.0 + 1, end))), (end, range.1));
            }
        }
        (None, range)
    }
}

/// Reads an operator at `at`.
fn parse_op(src: &str, at: usize, hi: usize) -> (found: Option<(Op, usize)>)
    requires
        at <= hi <= src@.len(),
    ensures
        match op_at(src@, at as int, hi as int) {
            Some((op, len)) => found == Some((op, len as usize)) && at + len <= hi,
            None => found is None,
        },
{
    if has_at(src, at, hi, '=') {
        Some((Op::Equals, 1))
    } else if at < hi && has_at(src, at + 1, hi, '=') {
        let c = src.get_char(at);
        if c == '!' {
            Some((Op::NotEquals, 2))
        } else if c == '^' {
            Some((Op::StartsWith, 2))
        } else if c == '*' {
            Some((Op::Contains, 2))
        } else if c == '$' {
            Some((Op::EndsWith, 2))
        } else {
            None
        }
    } else {
        None
    }
}

impl Attribute {
    /// What `parse` returns: the attribute test at the start of `range` and
    /// the rest of the range, or `None` and the range as it was.
    pub open spec fn parsed(s: Seq<char>, range: (usize, usize)) -> (Option<Attribute>, (usize, usize)) {
        match attribute_at(s, range.0 as int, range.1 as int) {
            Some((a, e)) => (Some(a), (e as usize, range.1)),
            None => (None, range),
        }
    }

    /// Reads an attribute test, from `[` to `]`, at the start of `range`.
    pub fn parse(src: &str, range: (usize, usize)) -> (found: (Option<Attribute>, (usize, usize)))
        requires
            range.0 <= range.1 <= src@.len(),
        ensures
            found == Attribute::parsed(src@, range),
            found.1.0 <= found.1.1 == range.1,
            found.0 is Some ==> range.0 < found.1.0,
            found.0 is None ==> found.1 == range,
            match attribute_at(src@, range.0 as int, range.1 as int) {
                Some((_, end)) => found.1.0 == end,
                None => true,
            },
            match found.0 {
                Some(attribute) => attribute.fits(range.1 as int),
                None => true,
            },
    {
        if !has_at(src, range.0, range.1, '[') {
            return (None, range);
        }
        let (name, rest) = Ident::parse(src, (range.0 + 1, range.1));
        let name = match name {
            Some(name) => name,
            None => {
                return (None, range);
            },
        };
        if has_at(src, rest.0, rest.1, ']') {
            return (Some(Attribute { name, op: Op::Exists, value: None }), (rest.0 + 1, rest.1));
        }
        let (op, len) = match parse_op(src, rest.0, rest.1) {
            Some(found) => found,
            None => {
                return (None, range);
            },
        };
        let from: usize = rest.0 + len;
        let to: usize = scan(src, from, rest.1, CharClass::NotBracket);
        if from < to && to < rest.1 {
            (Some(Attribute { name, op, value: Some((from, to)) }), (to + 1, rest.1))
        } else {
            (None, range)
        }
    }
}

/// A list of parsed items and what follows it, with `front` put before.
pub open spec fn with_front<A>(front: Seq<A>, rest: Option<(Seq<A>, int)>) -> Option<(Seq<A>, int)> {
    match rest {
        Some((items, end)) => Some((front + items, end)),
        None => None,
    }
}

/// Reads the classes at `at`, each a `.` and a name.
fn parse_classes(src: &str, from: usize, hi: usize) -> (found: Option<(Vec<Ident>, usize)>)
    requires
        from <= hi <= src@.len(),
    ensures
        match found {
            Some((classes, end)) => classes_at(src@, from as int, hi as int) == Some((classes@, end as int))
                && from <= end <= hi && forall|k: int|
                0 <= k < classes@.len() ==> span_ok((#[trigger] classes@[k]).0, hi as int),
            None => classes_at(src@, from as int, hi as int) is None,
        },
{
    let ghost s = src@;
    let ghost lo = from as int;
    let mut classes: Vec<Ident> = Vec::new();
    let mut at: usize = from;
    while has_at(src, at, hi, '.')
        invariant
            hi <= src@.len(),
            s == src@,
            lo == from,
            lo <= at <= hi,
            forall|k: int| 0 <= k < classes@.len() ==> span_ok((#[trigger] classes@[k]).0, hi as int),
            classes_at(s, lo, hi as int) == with_front(classes@, classes_at(s, at as int, hi as int)),
        decreases hi - at,
    {
        match Ident::parse(src, (at + 1, hi)) {
            (Some(class), rest) => {
                classes.push(class);
                at = rest.0;
            },
            (None, _) => {
                return None;
            },
        }
    }
    Some((classes, at))
}

/// Reads the attribute tests at `at`.
fn parse_attributes(src: &str, from: usize, hi: usize) -> (found: (Vec<Attribute>, usize))
    requires
        from <= hi <= src@.len(),
    ensures
        attributes_at(src@, from as int, hi as int) == (found.0@, found.1 as int),
        from <= found.1 <= hi,
        forall|k: int| 0 <= k < found.0@.len() ==> (#[trigger] found.0@[k]).fits(hi as int),
{
    let ghost s = src@;
    let ghost lo = from as int;
    let mut attributes: Vec<Attribute> = Vec::new();
    let mut at: usize = from;
    loop
        invariant
            hi <= src@.len(),
            s == src@,
            lo == from,
            lo <= at <= hi,
            forall|k: int| 0 <= k < attributes@.len() ==> (#[trigger] attributes@[k]).fits(hi as int),
            attributes_at(s, lo, hi as int) == (
                attributes@ + attributes_at(s, at as int, hi as int).0,
                attributes_at(s, at as int, hi as int).1,
            ),
        decreases hi - at,
    {
        match Attribute::parse(src, (at, hi)) {
            (Some(attribute), rest) => {
                attributes.push(attribute);
                at = rest.0;
            },
            (None, _) => {
                return (attributes, at);
            },
        }
    }
}

impl Rule {
    /// What `parse` returns: the rule at the start of `range` and the rest
    /// of the range, or `None` and the range as it was.
    pub open spec fn parsed(s: Seq<char>, range: (usize, usize)) -> (Option<RuleView>, (usize, usize)) {
        match rule_at(s, range.0 as int, range.1 as int) {
            Some((rule, e)) => (Some(rule), (e as usize, range.1)),
            None => (None, range),
        }
    }

    /// Reads a rule at the start of `range`.
    pub fn parse(src: &str, range: (usize, usize)) -> (found: (Option<Rule>, (usize, usize)))
        requires
            range.0 <= range.1 <= src@.len(),
        ensures
            match found.0 {
                Some(rule) => Rule::parsed(src@, range) == (Some(rule@), found.1),
                None => Rule::parsed(src@, range) == (None::<RuleView>, found.1),
            },
            range.0 <= found.1.0 <= found.1.1 == range.1,
            found.0 is None ==> found.1 == range,
            match rule_at(src@, range.0 as int, range.1 as int) {
                Some((_, end)) => found.1.0 == end,
                None => true,
            },
            match found.0 {
                Some(rule) => rule@.fits(range.1 as int),
                None => true,
            },
    {
        let (tag, rest) = Ident::parse(src, range);
        let (xid, rest) = Xid::parse(src, rest);
        let (id, rest) = if has_at(src, rest.0, rest.1, '#') {
            match Ident::parse(src, (rest.0 + 1, rest.1)) {
                (Some(id), rest) => (Some(id), rest),
                (None, _) => {
                    return (None, range);
                },
            }
        } else {
            (None, rest)
        };
        let (classes, at) = match parse_classes(src, rest.0, range.1) {
            Some(found) => found,
            None => {
                return (None, range);
            },
        };
        let (attributes, at) = parse_attributes(src, at, range.1);
        (Some(Rule { tag, xid, id, classes, attributes }), (at, range.1))
    }
}

/// Reads a combinator at `at`.
fn parse_token(src: &str, at: usize, hi: usize) -> (found: Option<(Link, usize)>)
    requires
        at <= hi <= src@.len(),
    ensures
        match token_at(src@, at as int, hi as int) {
            Some((link, len)) => found == Some((link, len as usize)) && at + len <= hi,
            None => found is None,
        },
{
    if at >= hi {
        return None;
    }
    let c = src.get_char(at);
    if c == '<' {
        if has_at(src, at + 1, hi, '<') {
            Some((Link::Ancestors, 2))
        } else {
            Some((Link::Parent, 1))
        }
    } else if c == '>' {
        if has_at(src, at + 1, hi, '>') {
            Some((Link::Descendants, 2))
        } else {
            Some((Link::Children, 1))
        }
    } else if c == '+' {
        if has_at(src, at + 1, hi, '+') {
            Some((Link::NextSiblings, 2))
        } else {
            Some((Link::NextSibling, 1))
        }
    } else if c == '~' {
        if has_at(src, at + 1, hi, '~') {
            Some((Link::PrevSiblings, 2))
        } else if has_at(src, at + 1, hi, '+') {
            Some((Link::Siblings, 2))
        } else {
            Some((Link::PrevSibling, 1))
        }
    } else {
        None
    }
}

impl Link {
    /// What `parse` returns: the combinator at the start of `range` and the
    /// range after it, or `None` and the range as it was.
    pub open spec fn parsed(s: Seq<char>, range: (usize, usize)) -> (Option<Link>, (usize, usize)) {
        match link_at(s, range.0 as int, range.1 as int) {
            Some((link, next)) => (Some(link), (next as usize, range.1)),
            None => (None, range),
        }
    }

    /// Reads a combinator, with the white space around it, at the start of
    /// `range`.
    pub fn parse(src: &str, range: (usize, usize)) -> (found: (Option<Link>, (usize, usize)))
        requires
            range.0 <= range.1 <= src@.len(),
        ensures
            found == Link::parsed(src@, range),
            found.1.0 <= found.1.1 == range.1,
            found.0 is Some ==> range.0 < found.1.0 < range.1,
            found.0 is None ==> found.1 == range,
            match link_at(src@, range.0 as int, range.1 as int) {
                Some((_, end)) => found.1.0 == end,
                None => true,
            },
    {
        let at: usize = scan(src, range.0, range.1, CharClass::Space);
        match parse_token(src, at, range.1) {
            None => (None, range),
            Some((link, len)) => {
                let next: usize = scan(src, at + len, range.1, CharClass::Space);
                if next < range.1 {
                    (Some(link), (next, range.1))
                } else {
                    (None, range)
                }
            },
        }
    }
}

/// Reads the steps of a selector that fills the text from `lo` to `hi`.
pub fn parse_steps(src: &str, lo: usize, hi: usize) -> (found: Option<Vec<Step>>)
    requires
        lo <= hi <= src@.len(),
    ensures
        match found {
            Some(steps) => selector_at(src@, lo as int, hi as int) == Some(steps_of(steps@)) && steps_fit(
                steps_of(steps@),
                hi as int,
            ),
            None => selector_at(src@, lo as int, hi as int) is None,
        },
{
    let ghost s = src@;
    let mut rules: Vec<Step> = Vec::new();
    let mut at: usize = lo;
    loop
        invariant
            lo <= at <= hi <= src@.len(),
            s == src@,
            steps_fit(steps_of(rules@), hi as int),
            selector_at(s, lo as int, hi as int) == (match selector_at(s, at as int, hi as int) {
                Some(rest) => Some(steps_of(rules@) + rest),
                None => None,
            }),
        decreases hi - at,
    {
        let (rule, rest) = Rule::parse(src, (at, hi));
        let rule = match rule {
            Some(rule) => rule,
            None => {
                return None;
            },
        };
        match Link::parse(src, rest) {
            (Some(link), next) => {
                let ghost before = rules@;
                rules.push(Step { rule, link: Some(link) });
                proof {
                    assert forall|k: int| 0 <= k < steps_of(rules@).len() implies
                        (#[trigger] steps_of(rules@)[k]).0.fits(
                        hi as int,
                    ) by {
                        if k < before.len() {
                            assert(steps_of(rules@)[k] == steps_of(before)[k]);
                        }
                    }
                }
                at = next.0;
            },
            (None, _) => {
                if rest.0 != hi {
                    return None;
                }
                rules.push(Step { rule, link: None });
                return Some(rules);
            },
        }
    }
}

impl Selector {
    /// The steps of the selector, as rules and links.
    pub open spec fn steps(&self) -> Seq<(RuleView, Option<Link>)> {
        steps_of(self.rules@)
    }

    /// Every span of the selector lies in its text.
    pub open spec fn wf(&self) -> bool {
        steps_fit(self.steps(), self.src@.len() as int)
    }

    /// Reads a selector that fills `src`. A text that is not a selector from
    /// its first to its last character gives `None`.
    pub fn parse(src: &str) -> (found: Option<Selector>)
        ensures
            match found {
                Some(selector) => selector.wf() && selector.src@ == src@ && selector_at(
                    src@,
                    0,
                    src@.len() as int,
                ) == Some(selector.steps()),
                None => selector_at(src@, 0, src@.len() as int) is None,
            },
    {
        match parse_steps(src, 0, src.unicode_len()) {
            Some(rules) => Some(Selector { rules, src: src.to_owned() }),
            None => None,
        }
    }

    /// The text that `range` spans.
    pub fn get(&self, range: (usize, usize)) -> (text: &str)
        requires
            span_ok(range, self.src@.len() as int),
        ensures
            text@ == self.src@.subrange(range.0 as int, range.1 as int),
    {
        self.src.as_str().substring_char(range.0, range.1)
    }
}

} // verus!
