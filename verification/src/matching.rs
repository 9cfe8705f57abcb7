//! Matching selectors against the element tree.
//!
//! Each comma-separated selector starts from all elements. Every step keeps
//! the elements that pass its rule and, where a combinator follows, goes on
//! from them to the elements the combinator leads to. What the selectors
//! find is put together, each element once. A text that is not a selector
//! finds nothing.

use vstd::prelude::*;
use crate::chars::{run_end, scan, CharClass};
use crate::forest::is_within;
use crate::json::{json_text, rendering};
use crate::node::{attr_names, Attr, NodeView};
use crate::queries::{children_in, next_in, nth_sibling_in, parent_in, prev_in, push_all};
use crate::selectors::{
    parse_steps, selector_at, span_ok, steps_fit, steps_of, Attribute, Link, Op, Rule, RuleView, Step,
};
use crate::textops::{
    contains_run, decimal, decimal_of, ends_with, find_run, found_at, same_chars, starts_with, strip,
    to_chars, without,
};
use crate::tree::Tree;

verus! {

/// The text that a span covers.
pub open spec fn span(s: Seq<char>, r: (usize, usize)) -> Seq<char> {
    s.subrange(r.0 as int, r.1 as int)
}

/// Whether the text `have` stands to the text `want` as `op` asks.
pub open spec fn compare(op: Op, have: Seq<char>, want: Seq<char>) -> bool {
    match op {
        Op::Exists => true,
        Op::Equals => have == want,
        Op::NotEquals => have != want,
        Op::StartsWith => starts_with(have, want),
        Op::Contains => contains_run(have, want),
        Op::EndsWith => ends_with(have, want),
    }
}

/// The text that a value is compared as: its compact JSON text without any
/// double quote.
pub open spec fn shown(v: serde_json::Value) -> Option<Seq<char>> {
    match rendering(v) {
        Some(text) => Some(without(text, '"')),
        None => None,
    }
}

/// Whether a list of attributes passes one attribute test: the attribute is
/// there, and its value compares as the test asks.
pub open spec fn attribute_holds(attrs: Seq<(Seq<char>, serde_json::Value)>, a: Attribute, s: Seq<char>) -> bool {
    match attr_names(attrs).index_of_first(span(s, a.name.0)) {
        None => false,
        Some(i) => a.op == Op::Exists || (a.value is Some && shown(attrs[i].1) is Some && compare(
            a.op,
            shown(attrs[i].1)->0,
            span(s, a.value->0),
        )),
    }
}

/// Whether the element `x` passes every test of the rule `r`, whose spans
/// point into `s`.
pub open spec fn passes(m: Map<u64, NodeView>, x: u64, r: RuleView, s: Seq<char>) -> bool {
    &&& m.dom().contains(x)
    &&& match r.tag {
        Some(t) => m[x].tag == span(s, t.0),
        None => true,
    }
    &&& match r.xid {
        Some(d) => decimal(x as nat) == span(s, d.0),
        None => true,
    }
    &&& match r.id {
        Some(i) => m[x].id == Some(span(s, i.0)),
        None => true,
    }
    &&& forall|k: int| 0 <= k < r.classes.len() ==> m[x].classes.contains(span(s, (#[trigger] r.classes[k]).0))
    &&& forall|k: int| 0 <= k < r.attributes.len() ==> attribute_holds(m[x].attributes, #[trigger] r.attributes[k], s)
}

/// Whether the combinator `link` leads from `x` to `y`.
pub open spec fn related(m: Map<u64, NodeView>, link: Link, x: u64, y: u64) -> bool {
    match link {
        Link::Parent => parent_in(m, x) == Some(y),
        Link::Ancestors => y != x && is_within(m, x, y),
        Link::Children => children_in(m, x).contains(y),
        Link::Descendants => y != x && is_within(m, y, x),
        Link::NextSibling => nth_sibling_in(m, x, 0) == Some(y),
        Link::NextSiblings => next_in(m, x).contains(y),
        Link::PrevSibling => nth_sibling_in(m, x, -1) == Some(y),
        Link::PrevSiblings => prev_in(m, x).contains(y),
        Link::Siblings => prev_in(m, x).contains(y) || next_in(m, x).contains(y),
    }
}

/// The elements that one step leads to from the elements `from`.
pub open spec fn after_step(m: Map<u64, NodeView>, s: Seq<char>, from: Set<u64>, step: (RuleView, Option<Link>)) -> Set<
    u64,
> {
    match step.1 {
        None => Set::new(|y: u64| from.contains(y) && passes(m, y, step.0, s)),
        Some(link) => Set::new(
            |y: u64| exists|x: u64| from.contains(x) && passes(m, x, step.0, s) && related(m, link, x, y),
        ),
    }
}

/// The elements that the steps lead to, one after the other, from the
/// elements `from`.
pub open spec fn after_steps(
    m: Map<u64, NodeView>,
    s: Seq<char>,
    from: Set<u64>,
    steps: Seq<(RuleView, Option<Link>)>,
) -> Set<u64>
    decreases steps.len(),
{
    if steps.len() == 0 {
        from
    } else {
        after_step(m, s, after_steps(m, s, from, steps.drop_last()), steps.last())
    }
}

/// What the selector that fills `s` from `lo` to `hi` finds; nothing where
/// that text is not a selector.
pub open spec fn selected_one(m: Map<u64, NodeView>, s: Seq<char>, lo: int, hi: int) -> Set<u64> {
    match selector_at(s, lo, hi) {
        Some(steps) => after_steps(m, s, m.dom(), steps),
        None => Set::empty(),
    }
}

/// What the comma-separated selectors of `s` from `lo` on find together.
pub open spec fn selected_from(m: Map<u64, NodeView>, s: Seq<char>, lo: int) -> Set<u64>
    decreases s.len() - lo,
{
    let hi = run_end(s, lo, s.len() as int, CharClass::NotComma);
    if lo <= hi < s.len() {
        selected_one(m, s, lo, hi) + selected_from(m, s, hi + 1)
    } else {
        selected_one(m, s, lo, hi)
    }
}

/// What the comma-separated selectors of `s` find together.
pub open spec fn selected(m: Map<u64, NodeView>, s: Seq<char>) -> Set<u64> {
    selected_from(m, s, 0)
}

/// Whether `have` stands to `want` as `op` asks.
pub fn compare_chars(op: Op, have: &Vec<char>, want: &Vec<char>) -> (b: bool)
    ensures
        b == compare(op, have@, want@),
{
    match op {
        Op::Exists => true,
        Op::Equals => same_chars(have, want),
        Op::NotEquals => !same_chars(have, want),
        Op::StartsWith => found_at(have, want, 0),
        Op::Contains => find_run(have, want),
        Op::EndsWith => want.len() <= have.len() && found_at(have, want, have.len() - want.len()),
    }
}

/// Whether a value with the JSON text `rendered` stands to `wanted` as `op`
/// asks. Double quotes in `rendered` do not count.
pub fn value_matches(op: Op, rendered: &str, wanted: &str) -> (b: bool)
    ensures
        b == compare(op, without(rendered@, '"'), wanted@),
{
    let have = strip(&to_chars(rendered), '"');
    let want = to_chars(wanted);
    compare_chars(op, &have, &want)
}

/// A copy of the text that a span covers.
pub fn cut(text: &Vec<char>, r: (usize, usize)) -> (part: Vec<char>)
    requires
        span_ok(r, text@.len() as int),
    ensures
        part@ == span(text@, r),
{
    let mut part: Vec<char> = Vec::new();
    let mut i: usize = r.0;
    while i < r.1
        invariant
            r.0 <= i <= r.1 <= text@.len(),
            part@ == text@.subrange(r.0 as int, i as int),
        decreases r.1 - i,
    {
        part.push(text[i]);
        i += 1;
    }
    part
}

/// Whether one of `classes` is `name`.
pub fn has_class(classes: &Vec<String>, name: &Vec<char>) -> (b: bool)
    ensures
        b == classes@.map_values(|s: String| s@).contains(name@),
{
    let ghost names = classes@.map_values(|s: String| s@);
    let mut i: usize = 0;
    while i < classes.len()
        invariant
            i <= classes@.len(),
            names == classes@.map_values(|s: String| s@),
            forall|j: int| 0 <= j < i ==> names[j] != name@,
        decreases classes@.len() - i,
    {
        let have = to_chars(classes[i].as_str());
        if same_chars(&have, name) {
            assert(names[i as int] == name@);
            return true;
        }
        i += 1;
    }
    false
}

/// The place of the first attribute called `name`.
pub fn find_attribute(attrs: &Vec<Attr>, name: &Vec<char>) -> (at: Option<usize>)
    ensures
        match at {
            Some(i) => i < attrs@.len() && attr_names(attrs@.map_values(|a: Attr| a@)).index_of_first(name@)
                == Some(i as int),
            None => attr_names(attrs@.map_values(|a: Attr| a@)).index_of_first(name@) is None,
        },
{
    let ghost names = attr_names(attrs@.map_values(|a: Attr| a@));
    proof {
        names.index_of_first_ensures(name@);
    }
    let mut i: usize = 0;
    while i < attrs.len()
        invariant
            i <= attrs@.len(),
            names == attr_names(attrs@.map_values(|a: Attr| a@)),
            forall|j: int| 0 <= j < i ==> names[j] != name@,
        decreases attrs@.len() - i,
    {
        let have = to_chars(attrs[i].name.as_str());
        if same_chars(&have, name) {
            proof {
                assert(names[i as int] == name@);
                names.index_of_first_ensures(name@);
            }
            return Some(i);
        }
        i += 1;
    }
    None
}

/// Whether a list of attributes passes one attribute test.
pub fn attribute_passes(attrs: &Vec<Attr>, a: &Attribute, text: &Vec<char>) -> (b: bool)
    requires
        a.fits(text@.len() as int),
    ensures
        b == attribute_holds(attrs@.map_values(|a: Attr| a@), *a, text@),
{
    let name = cut(text, a.name.0);
    match find_attribute(attrs, &name) {
        None => false,
        Some(i) => {
            let wanted = match a.value {
                Some(v) => v,
                None => {
                    return true;
                },
            };
            match a.op {
                Op::Exists => {
                    return true;
                },
                _ => {},
            }
            match json_text(&attrs[i].value) {
                None => false,
                Some(rendered) => {
                    let have = strip(&to_chars(rendered.as_str()), '"');
                    let want = cut(text, wanted);
                    compare_chars(a.op, &have, &want)
                },
            }
        },
    }
}

impl Tree {
    /// Whether the element `x` passes every test of `rule`, whose spans
    /// point into `text`.
    pub fn passes(&self, x: u64, rule: &Rule, text: &Vec<char>) -> (b: bool)
        requires
            rule@.fits(text@.len() as int),
        ensures
            b == passes(self@, x, rule@, text@),
    {
        let node = match self.node(x) {
            Some(node) => node,
            None => {
                return false;
            },
        };
        if let Some(t) = rule.tag {
            if !same_chars(&to_chars(node.tag.as_str()), &cut(text, t.0)) {
                return false;
            }
        }
        if let Some(d) = rule.xid {
            if !same_chars(&decimal_of(x), &cut(text, d.0)) {
                return false;
            }
        }
        if let Some(i) = rule.id {
            match &node.id {
                Some(id) => {
                    if !same_chars(&to_chars(id.as_str()), &cut(text, i.0)) {
                        return false;
                    }
                },
                None => {
                    return false;
                },
            }
        }
        let mut k: usize = 0;
        while k < rule.classes.len()
            invariant
                k <= rule.classes@.len(),
                rule@.fits(text@.len() as int),
                node@ == self@[x],
                forall|j: int| 0 <= j < k ==> self@[x].classes.contains(span(text@, (#[trigger] rule.classes@[j]).0)),
            decreases rule.classes@.len() - k,
        {
            assert(span_ok(rule@.classes[k as int].0, text@.len() as int));
            if !has_class(&node.classes, &cut(text, rule.classes[k].0)) {
                return false;
            }
            k += 1;
        }
        let mut k: usize = 0;
        while k < rule.attributes.len()
            invariant
                k <= rule.attributes@.len(),
                rule@.fits(text@.len() as int),
                node@ == self@[x],
                forall|j: int| 0 <= j < k
                    ==> attribute_holds(self@[x].attributes, #[trigger] rule.attributes@[j], text@),
            decreases rule.attributes@.len() - k,
        {
            assert(rule@.attributes[k as int].fits(text@.len() as int));
            if !attribute_passes(&node.attributes, &rule.attributes[k], text) {
                return false;
            }
            k += 1;
        }
        true
    }

    /// The elements that `link` leads to from `x`.
    pub fn follow(&self, link: Link, x: u64) -> (to: Vec<u64>)
        requires
            self.wf(),
        ensures
            forall|y: u64| #[trigger] to@.contains(y) <==> related(self@, link, x, y),
    {
        match link {
            Link::Parent => one_or_none(self.parent(x)),
            Link::Ancestors => self.ancestors(x),
            Link::Children => self.children(x),
            Link::Descendants => self.descendants(x),
            Link::NextSibling => one_or_none(self.next_sibling(x)),
            Link::NextSiblings => self.next_siblings(x),
            Link::PrevSibling => one_or_none(self.prev_sibling(x)),
            Link::PrevSiblings => self.prev_siblings(x),
            Link::Siblings => {
                let before = self.prev_siblings(x);
                let after = self.next_siblings(x);
                let mut all = self.siblings(x);
                proof {
                    assert forall|y: u64| #[trigger] all@.contains(y) <==> (before@.contains(y) || after@.contains(
                        y,
                    )) by {
                        lemma_in_either(before@, after@, y);
                    }
                }
                all
            },
        }
    }

    /// The elements that `step` leads to from the elements `from`.
    pub fn advance(&self, from: &Vec<u64>, step: &Step, text: &Vec<char>) -> (to: Vec<u64>)
        requires
            self.wf(),
            step.rule@.fits(text@.len() as int),
        ensures
            to@.to_set() == after_step(self@, text@, from@.to_set(), step@),
    {
        let mut to: Vec<u64> = Vec::new();
        let mut i: usize = 0;
        while i < from.len()
            invariant
                self.wf(),
                step.rule@.fits(text@.len() as int),
                i <= from@.len(),
                forall|y: u64| #[trigger]
                    to@.contains(y) <==> exists|j: int|
                        0 <= j < i && reached(self@, text@, step@, #[trigger] from@[j], y),
            decreases from@.len() - i,
        {
            let x: u64 = from[i];
            let ghost before = to@;
            if self.passes(x, &step.rule, text) {
                match step.link {
                    None => {
                        to.push(x);
                        proof {
                            assert forall|y: u64| #[trigger] to@.contains(y) <==> (before.contains(y) || y == x) by {
                                lemma_in_either(before, seq![x], y);
                                assert(to@ =~= before + seq![x]);
                                assert(seq![x][0] == x);
                            }
                        }
                    },
                    Some(link) => {
                        let more = self.follow(link, x);
                        push_all(&mut to, &more);
                        proof {
                            assert forall|y: u64| #[trigger] to@.contains(y) <==> (before.contains(y)
                                || more@.contains(y)) by {
                                lemma_in_either(before, more@, y);
                            }
                        }
                    },
                }
            }
            i += 1;
        }
        proof {
            let goal = after_step(self@, text@, from@.to_set(), step@);
            assert forall|y: u64| to@.to_set().contains(y) <==> goal.contains(y) by {
                if to@.contains(y) {
                    let j = choose|j: int| 0 <= j < from@.len() && reached(self@, text@, step@, #[trigger] from@[j], y);
                    match step.link {
                        None => {},
                        Some(link) => {
                            assert(from@.to_set().contains(from@[j]) && passes(self@, from@[j], step.rule@, text@)
                                && related(self@, link, from@[j], y));
                        },
                    }
                }
            }
        }
        to
    }

    /// The elements that the selectors of `text` find, each once. Selectors
    /// are separated by commas; one that does not parse finds nothing.
    pub fn select(&self, text: &str) -> (found: Vec<u64>)
        requires
            self.wf(),
        ensures
            found@.no_duplicates(),
            found@.to_set() == selected(self@, text@),
    {
        let chars = to_chars(text);
        let len: usize = chars.len();
        let all = self.ids();
        let mut found: Vec<u64> = Vec::new();
        let mut lo: usize = 0;
        loop
            invariant
                self.wf(),
                chars@ == text@,
                len == text@.len(),
                lo <= len,
                all@.to_set() == self@.dom(),
                found@.no_duplicates(),
                selected(self@, text@) == found@.to_set() + selected_from(self@, text@, lo as int),
            decreases len - lo,
        {
            let hi: usize = scan(text, lo, len, CharClass::NotComma);
            match parse_steps(text, lo, hi) {
                None => {},
                Some(steps) => {
                    let matching = self.run(&steps, &chars, &all);
                    merge(&mut found, &matching);
                },
            }
            if hi >= len {
                return found;
            }
            lo = hi + 1;
        }
    }

    /// The elements that `steps` lead to, one after the other, from the
    /// elements `from`.
    pub fn run(&self, steps: &Vec<Step>, text: &Vec<char>, from: &Vec<u64>) -> (to: Vec<u64>)
        requires
            self.wf(),
            steps_fit(steps_of(steps@), text@.len() as int),
        ensures
            to@.to_set() == after_steps(self@, text@, from@.to_set(), steps_of(steps@)),
    {
        let mut to: Vec<u64> = crate::tree::copy_ids(from);
        let mut k: usize = 0;
        while k < steps.len()
            invariant
                self.wf(),
                steps_fit(steps_of(steps@), text@.len() as int),
                k <= steps@.len(),
                to@.to_set() == after_steps(self@, text@, from@.to_set(), steps_of(steps@).take(k as int)),
            decreases steps@.len() - k,
        {
            proof {
                assert(steps_of(steps@)[k as int] == steps@[k as int]@);
                assert(steps_of(steps@).take(k + 1).drop_last() =~= steps_of(steps@).take(k as int));
            }
            to = self.advance(&to, &steps[k], text);
            k += 1;
        }
        proof {
            assert(steps_of(steps@).take(steps@.len() as int) =~= steps_of(steps@));
        }
        to
    }
}

/// The first element of `path` that `set` holds.
pub open spec fn first_in(path: Seq<u64>, set: Set<u64>) -> Option<u64>
    decreases path.len(),
{
    if path.len() == 0 {
        None
    } else if set.contains(path[0]) {
        Some(path[0])
    } else {
        first_in(path.drop_first(), set)
    }
}

impl Tree {
    /// Whether the selectors of `text` find `x`.
    pub fn matches(&self, x: u64, text: &str) -> (b: bool)
        requires
            self.wf(),
        ensures
            b == selected(self@, text@).contains(x),
    {
        let found = self.select(text);
        crate::tree::index_in(&found, x).is_some()
    }

    /// The nearest ancestor of `x` that the selectors of `text` find.
    pub fn closest_ancestor(&self, x: u64, text: &str) -> (found: Option<u64>)
        requires
            self.wf(),
        ensures
            exists|path: Seq<u64>|
                crate::queries::is_root_path(self@, x, path) && found == first_in(path, selected(self@, text@)),
    {
        let all = self.select(text);
        let path = self.ancestors(x);
        let found = first_of(&path, &all);
        found
    }
}

/// The first element of `path` that `all` holds.
pub fn first_of(path: &Vec<u64>, all: &Vec<u64>) -> (found: Option<u64>)
    ensures
        found == first_in(path@, all@.to_set()),
{
    let mut i: usize = 0;
    proof {
        assert(path@.skip(0) =~= path@);
    }
    while i < path.len()
        invariant
            i <= path@.len(),
            first_in(path@, all@.to_set()) == first_in(path@.skip(i as int), all@.to_set()),
        decreases path@.len() - i,
    {
        proof {
            assert(path@.skip(i as int).drop_first() =~= path@.skip(i + 1));
        }
        if crate::tree::index_in(all, path[i]).is_some() {
            return Some(path[i]);
        }
        i += 1;
    }
    None
}

/// Whether `step` leads from the element `x` to `y`.
pub open spec fn reached(m: Map<u64, NodeView>, s: Seq<char>, step: (RuleView, Option<Link>), x: u64, y: u64) -> bool {
    passes(m, x, step.0, s) && match step.1 {
        None => y == x,
        Some(link) => related(m, link, x, y),
    }
}

/// A list of two parts holds what either part holds.
pub proof fn lemma_in_either(a: Seq<u64>, b: Seq<u64>, y: u64)
    ensures
        (a + b).contains(y) <==> (a.contains(y) || b.contains(y)),
{
    if a.contains(y) {
        let i = choose|i: int| 0 <= i < a.len() && a[i] == y;
        assert((a + b)[i] == y);
    }
    if b.contains(y) {
        let i = choose|i: int| 0 <= i < b.len() && b[i] == y;
        assert((a + b)[a.len() + i] == y);
    }
}

/// A list of the one id, or of none.
pub fn one_or_none(x: Option<u64>) -> (v: Vec<u64>)
    ensures
        forall|y: u64| #[trigger] v@.contains(y) <==> x == Some(y),
{
    let mut v: Vec<u64> = Vec::new();
    if let Some(x) = x {
        v.push(x);
        assert(v@[0] == x);
    }
    v
}

/// Adds to `into` the ids of `more` that it does not hold yet.
pub fn merge(into: &mut Vec<u64>, more: &Vec<u64>)
    requires
        old(into)@.no_duplicates(),
    ensures
        final(into)@.no_duplicates(),
        final(into)@.to_set() == old(into)@.to_set() + more@.to_set(),
{
    let mut i: usize = 0;
    while i < more.len()
        invariant
            i <= more@.len(),
            into@.no_duplicates(),
            forall|y: u64| #[trigger] into@.contains(y) <==> (old(into)@.contains(y)
                || more@.take(i as int).contains(y)),
        decreases more@.len() - i,
    {
        let x: u64 = more[i];
        let ghost before = into@;
        proof {
            assert(more@.take(i + 1) =~= more@.take(i as int) + seq![x]);
        }
        if crate::tree::index_in(into, x).is_none() {
            into.push(x);
            assert(into@ =~= before + seq![x]);
        }
        proof {
            assert forall|y: u64| #[trigger] into@.contains(y) <==> (old(into)@.contains(y) || more@.take(
                i + 1,
            ).contains(y)) by {
                lemma_in_either(more@.take(i as int), seq![x], y);
                lemma_in_either(before, seq![x], y);
            }
        }
        i += 1;
    }
    proof {
        assert(more@.take(more@.len() as int) =~= more@);
    }
}

/// In a tree without elements no selector finds anything.
pub proof fn lemma_nothing_in_nothing(s: Seq<char>)
    ensures
        forall|x: u64| !selected(Map::<u64, NodeView>::empty(), s).contains(x),
{
    lemma_none_from(Map::<u64, NodeView>::empty(), s, 0);
}

/// In a tree without elements the selectors from `lo` on find nothing.
proof fn lemma_none_from(m: Map<u64, NodeView>, s: Seq<char>, lo: int)
    requires
        m.dom() =~= Set::<u64>::empty(),
    ensures
        forall|x: u64| !selected_from(m, s, lo).contains(x),
    decreases s.len() - lo,
{
    let hi = run_end(s, lo, s.len() as int, CharClass::NotComma);
    if lo <= hi < s.len() {
        lemma_none_from(m, s, hi + 1);
        assert forall|x: u64| !selected_from(m, s, lo).contains(x) by {
            assert(!selected_from(m, s, hi + 1).contains(x));
        }
    }
}

} // verus!
