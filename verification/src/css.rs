//! Style rules: selectors, declarations and values, and the matching of
//! selectors against elements.
use vstd::prelude::*;
use crate::node::{ElementData, ElementModel};

verus! {

/// An ordered list of rules.
pub struct Stylesheet {
    pub rules: Vec<Rule>,
}

/// Selectors, and the declarations that apply where one of them matches.
pub struct Rule {
    pub selectors: Vec<Selector>,
    pub declarations: Vec<Declaration>,
}

/// What a rule is matched by; the one kind of selector is the simple one.
pub enum Selector {
    Simple(SimpleSelector),
}

/// Whether an id is named, how many classes, whether a tag is named; a
/// greater triple, in lexicographic order, takes precedence.
pub type Specificity = (usize, usize, usize);

/// A tag name, an id and class names, each of which may be left out.
pub struct SimpleSelector {
    pub tag_name: Option<String>,
    pub id: Option<String>,
    pub class: Vec<String>,
}

/// A property name with the value that a rule gives it.
#[derive(Debug)]
pub struct Declaration {
    pub name: String,
    pub value: Value,
}

/// The value of a property.
#[derive(Debug)]
pub enum Value {
    Keyword(String),
    /// A length, counted in thousandths of its unit.
    Length(i64, Unit),
    Color(Color),
}

/// The unit of a length; pixels are the one unit.
#[derive(Debug, Clone, Copy, PartialEq, Eq, Structural)]
pub enum Unit {
    Px,
}

/// A colour by its red, green, blue and alpha parts.
#[derive(Debug, Clone, Copy, PartialEq, Eq, Structural)]
pub struct Color {
    pub r: u8,
    pub g: u8,
    pub b: u8,
    pub a: u8,
}

/// The mathematical value of a [`SimpleSelector`].
pub struct SimpleSelectorModel {
    pub tag_name: Option<Seq<char>>,
    pub id: Option<Seq<char>>,
    pub class: Seq<Seq<char>>,
}

/// The mathematical value of a [`Selector`].
pub enum SelectorModel {
    Simple(SimpleSelectorModel),
}

/// The mathematical value of a [`Value`].
pub enum ValueModel {
    Keyword(Seq<char>),
    Length(i64, Unit),
    Color(Color),
}

/// The mathematical value of a [`Declaration`].
pub struct DeclarationModel {
    pub name: Seq<char>,
    pub value: ValueModel,
}

/// The mathematical value of a [`Rule`].
pub struct RuleModel {
    pub selectors: Seq<SelectorModel>,
    pub declarations: Seq<DeclarationModel>,
}

/// The mathematical value of a [`Stylesheet`].
pub struct StylesheetModel {
    pub rules: Seq<RuleModel>,
}

/// A specificity as a triple of natural numbers.
pub type Rank = (nat, nat, nat);

/// A rule that matched, with the specificity of the selector that did.
pub type MatchedRule<'a> = (Specificity, &'a Rule);

/// The mathematical value of a [`MatchedRule`].
pub type MatchedModel = (Rank, RuleModel);

impl View for SimpleSelector {
    type V = SimpleSelectorModel;

    open spec fn view(&self) -> SimpleSelectorModel {
        SimpleSelectorModel {
            tag_name: match self.tag_name {
                Some(s) => Some(s@),
                None => None,
            },
            id: match self.id {
                Some(s) => Some(s@),
                None => None,
            },
            class: self.class@.map_values(|s: String| s@),
        }
    }
}

impl View for Selector {
    type V = SelectorModel;

    open spec fn view(&self) -> SelectorModel {
        match self {
            Selector::Simple(s) => SelectorModel::Simple(s@),
        }
    }
}

impl View for Value {
    type V = ValueModel;

    open spec fn view(&self) -> ValueModel {
        match self {
            Value::Keyword(s) => ValueModel::Keyword(s@),
            Value::Length(n, u) => ValueModel::Length(*n, *u),
            Value::Color(c) => ValueModel::Color(*c),
        }
    }
}

impl View for Declaration {
    type V = DeclarationModel;

    open spec fn view(&self) -> DeclarationModel {
        DeclarationModel { name: self.name@, value: self.value@ }
    }
}

impl View for Rule {
    type V = RuleModel;

    open spec fn view(&self) -> RuleModel {
        RuleModel {
            selectors: self.selectors@.map_values(|s: Selector| s@),
            declarations: self.declarations@.map_values(|d: Declaration| d@),
        }
    }
}

impl View for Stylesheet {
    type V = StylesheetModel;

    open spec fn view(&self) -> StylesheetModel {
        StylesheetModel { rules: self.rules@.map_values(|r: Rule| r@) }
    }
}

/// The value of a specificity.
pub open spec fn rank_of(s: Specificity) -> Rank {
    (s.0 as nat, s.1 as nat, s.2 as nat)
}

/// The value of a matched rule.
pub open spec fn matched_model(m: MatchedRule) -> MatchedModel {
    (rank_of(m.0), m.1@)
}

/// Lexicographic order on specificities: `a` comes before `b`.
pub open spec fn rank_lt(a: Rank, b: Rank) -> bool {
    a.0 < b.0 || (a.0 == b.0 && (a.1 < b.1 || (a.1 == b.1 && a.2 < b.2)))
}

impl SimpleSelectorModel {
    /// One for an id, the number of classes, one for a tag name.
    pub open spec fn specificity(self) -> Rank {
        (
            if self.id is Some {
                1nat
            } else {
                0nat
            },
            self.class.len(),
            if self.tag_name is Some {
                1nat
            } else {
                0nat
            },
        )
    }

    /// Whether the selector matches the element: each part that the selector
    /// names agrees with the element.
    pub open spec fn matches_element(self, elem: ElementModel) -> bool {
        &&& self.tag_name matches Some(t) ==> elem.tag_name == t
        &&& self.id matches Some(i) ==> elem.id() == Some(i)
        &&& forall|k: int| 0 <= k < self.class.len() ==> elem.has_class(#[trigger] self.class[k])
    }
}

impl SelectorModel {
    /// The specificity of the selector.
    pub open spec fn specificity(self) -> Rank {
        match self {
            SelectorModel::Simple(s) => s.specificity(),
        }
    }

    /// Whether the selector matches the element.
    pub open spec fn matches_element(self, elem: ElementModel) -> bool {
        match self {
            SelectorModel::Simple(s) => s.matches_element(elem),
        }
    }
}

/// The index of the first selector at or after `from` that matches `elem`.
pub open spec fn first_match(elem: ElementModel, selectors: Seq<SelectorModel>, from: int) -> Option<
    int,
>
    decreases selectors.len() - from,
{
    if from < 0 || from >= selectors.len() {
        None
    } else if selectors[from].matches_element(elem) {
        Some(from)
    } else {
        first_match(elem, selectors, from + 1)
    }
}

impl RuleModel {
    /// The specificity of the first selector of the rule that matches `elem`,
    /// if any does.
    pub open spec fn match_rank(self, elem: ElementModel) -> Option<Rank> {
        match first_match(elem, self.selectors, 0) {
            Some(i) => Some(self.selectors[i].specificity()),
            None => None,
        }
    }
}

/// The rules that match `elem`, in the order of the stylesheet, each with the
/// specificity of its first matching selector.
pub open spec fn matched_rules(elem: ElementModel, rules: Seq<RuleModel>) -> Seq<MatchedModel>
    decreases rules.len(),
{
    if rules.len() == 0 {
        Seq::empty()
    } else {
        let before = matched_rules(elem, rules.drop_last());
        match rules.last().match_rank(elem) {
            Some(r) => before.push((r, rules.last())),
            None => before,
        }
    }
}

/// The first selector that matches is found at a place inside the list,
/// and none before it matches.
pub proof fn lemma_first_match(elem: ElementModel, selectors: Seq<SelectorModel>, from: int)
    requires
        0 <= from,
    ensures
        match first_match(elem, selectors, from) {
            Some(i) => from <= i < selectors.len() && selectors[i].matches_element(elem)
                && forall|j: int| from <= j < i ==> !(#[trigger] selectors[j]).matches_element(elem),
            None => forall|j: int|
                from <= j < selectors.len() ==> !(#[trigger] selectors[j]).matches_element(elem),
        },
    decreases selectors.len() - from,
{
    if from < selectors.len() && !selectors[from].matches_element(elem) {
        lemma_first_match(elem, selectors, from + 1);
    }
}

/// Where no selector of a rule comes before a more specific one, the rule
/// matches with the greatest specificity among its selectors that match.
pub proof fn lemma_match_rank_is_greatest(rule: RuleModel, elem: ElementModel, j: int)
    requires
        forall|a: int, b: int|
            0 <= a < b < rule.selectors.len() ==> !rank_lt(
                (#[trigger] rule.selectors[a]).specificity(),
                (#[trigger] rule.selectors[b]).specificity(),
            ),
        0 <= j < rule.selectors.len(),
        rule.selectors[j].matches_element(elem),
    ensures
        rule.match_rank(elem) is Some,
        !rank_lt(rule.match_rank(elem)->0, rule.selectors[j].specificity()),
{
    lemma_first_match(elem, rule.selectors, 0);
}

/// A rule stands among the matched rules if and only if one of its
/// selectors matches, and the matched rules keep the order of the
/// stylesheet: `places[k]` is the place in `rules` of the `k`-th matched rule.
pub proof fn lemma_matched_rules(elem: ElementModel, rules: Seq<RuleModel>) -> (places: Seq<int>)
    ensures
        places.len() == matched_rules(elem, rules).len(),
        forall|k: int|
            0 <= k < places.len() ==> 0 <= #[trigger] places[k] < rules.len() && matched_rules(
                elem,
                rules,
            )[k] == (rules[places[k]].match_rank(elem)->0, rules[places[k]])
                && rules[places[k]].match_rank(elem) is Some,
        forall|a: int, b: int| 0 <= a < b < places.len() ==> places[a] < places[b],
        forall|i: int|
            0 <= i < rules.len() && (#[trigger] rules[i]).match_rank(elem) is Some
                ==> places.contains(i),
    decreases rules.len(),
{
    if rules.len() == 0 {
        Seq::empty()
    } else {
        let rest = rules.drop_last();
        let before = lemma_matched_rules(elem, rest);
        let last = rules.len() - 1;
        assert forall|k: int| 0 <= k < before.len() implies rest[#[trigger] before[k]]
            == rules[before[k]] by {}
        if rules.last().match_rank(elem) is Some {
            let places = before.push(last);
            assert forall|i: int|
                0 <= i < rules.len() && (#[trigger] rules[i]).match_rank(
                    elem,
                ) is Some implies places.contains(i) by {
                if i < last {
                    assert(rest[i] == rules[i]);
                    assert(before.contains(i));
                    let k = choose|k: int| 0 <= k < before.len() && before[k] == i;
                    assert(places[k] == i);
                } else {
                    assert(places[before.len() as int] == i);
                }
            }
            places
        } else {
            assert forall|i: int|
                0 <= i < rules.len() && (#[trigger] rules[i]).match_rank(
                    elem,
                ) is Some implies before.contains(i) by {
                assert(rest[i] == rules[i]);
            }
            before
        }
    }
}

impl Clone for Value {
    fn clone(&self) -> (r: Value)
        ensures
            r == *self,
    {
        match self {
            Value::Keyword(s) => Value::Keyword(s.clone()),
            Value::Length(n, u) => Value::Length(*n, *u),
            Value::Color(c) => Value::Color(*c),
        }
    }
}

impl Clone for Declaration {
    fn clone(&self) -> (r: Declaration)
        ensures
            r == *self,
    {
        Declaration { name: self.name.clone(), value: self.value.clone() }
    }
}

impl Stylesheet {
    /// A stylesheet without rules.
    pub fn new() -> (s: Stylesheet)
        ensures
            s@.rules == Seq::<RuleModel>::empty(),
    {
        let s = Stylesheet { rules: Vec::new() };
        assert(s@.rules =~= Seq::<RuleModel>::empty());
        s
    }
}

impl Rule {
    /// A rule without selectors or declarations.
    pub fn new() -> (r: Rule)
        ensures
            r@.selectors == Seq::<SelectorModel>::empty(),
            r@.declarations == Seq::<DeclarationModel>::empty(),
    {
        let r = Rule { selectors: Vec::new(), declarations: Vec::new() };
        assert(r@.selectors =~= Seq::<SelectorModel>::empty());
        assert(r@.declarations =~= Seq::<DeclarationModel>::empty());
        r
    }
}

impl Selector {
    /// The specificity of the selector.
    pub fn specificity(&self) -> (r: Specificity)
        ensures
            rank_of(r) == self@.specificity(),
    {
        match self {
            Selector::Simple(simple) => {
                let a: usize = if simple.id.is_some() {
                    1
                } else {
                    0
                };
                let b: usize = simple.class.len();
                let c: usize = if simple.tag_name.is_some() {
                    1
                } else {
                    0
                };
                (a, b, c)
            },
        }
    }
}

/// Whether `selector` matches `elem`.
pub fn matches(elem: &ElementData, selector: &Selector) -> (r: bool)
    ensures
        r == selector@.matches_element(elem@),
{
    match selector {
        Selector::Simple(simple_selector) => matches_simple_selector(elem, simple_selector),
    }
}

/// Whether `selector` matches `elem`: the tag name, the id and every class
/// that the selector names are those of the element.
pub fn matches_simple_selector(elem: &ElementData, selector: &SimpleSelector) -> (r: bool)
    ensures
        r == selector@.matches_element(elem@),
{
    match &selector.tag_name {
        Some(name) => {
            if elem.tag_name != *name {
                return false;
            }
        },
        None => {},
    }
    match &selector.id {
        Some(id) => {
            match elem.id() {
                Some(own) => {
                    if *own != *id {
                        return false;
                    }
                },
                None => {
                    return false;
                },
            }
        },
        None => {},
    }
    let n = selector.class.len();
    let mut k: usize = 0;
    while k < n
        invariant
            n == selector.class@.len(),
            k <= n,
            forall|j: int| 0 <= j < k ==> elem@.has_class(#[trigger] selector@.class[j]),
        decreases n - k,
    {
        if !elem.has_class(selector.class[k].as_str()) {
            assert(!elem@.has_class(selector@.class[k as int]));
            return false;
        }
        k = k + 1;
    }
    true
}

/// The first selector of `rule` that matches `elem`, as a specificity paired
/// with the rule; `None` if no selector matches.
pub fn match_rule<'a>(elem: &ElementData, rule: &'a Rule) -> (r: Option<MatchedRule<'a>>)
    ensures
        match rule@.match_rank(elem@) {
            Some(rank) => r is Some && matched_model(r->0) == (rank, rule@),
            None => r is None,
        },
{
    let n = rule.selectors.len();
    let mut i: usize = 0;
    while i < n
        invariant
            n == rule.selectors@.len(),
            i <= n,
            first_match(elem@, rule@.selectors, 0) == first_match(elem@, rule@.selectors, i as int),
        decreases n - i,
    {
        if matches(elem, &rule.selectors[i]) {
            return Some((rule.selectors[i].specificity(), rule));
        }
        i = i + 1;
    }
    None
}

/// The rules of `stylesheet` that match `elem`, in the order of the
/// stylesheet, each with the specificity of its first matching selector.
pub fn matching_rules<'a>(elem: &ElementData, stylesheet: &'a Stylesheet) -> (r: Vec<
    MatchedRule<'a>,
>)
    ensures
        r@.map_values(|m: MatchedRule| matched_model(m)) == matched_rules(
            elem@,
            stylesheet@.rules,
        ),
{
    let mut found: Vec<MatchedRule<'a>> = Vec::new();
    let n = stylesheet.rules.len();
    let mut i: usize = 0;
    while i < n
        invariant
            n == stylesheet.rules@.len(),
            i <= n,
            found@.map_values(|m: MatchedRule| matched_model(m)) == matched_rules(
                elem@,
                stylesheet@.rules.take(i as int),
            ),
        decreases n - i,
    {
        let ghost before = found@;
        let m = match_rule(elem, &stylesheet.rules[i]);
        proof {
            let rules = stylesheet@.rules;
            assert(rules.take(i + 1).drop_last() =~= rules.take(i as int));
            assert(rules.take(i + 1).last() == stylesheet.rules@[i as int]@);
        }
        match m {
            Some(pair) => {
                found.push(pair);
                assert(found@.map_values(|m: MatchedRule| matched_model(m)) =~= before.map_values(
                    |m: MatchedRule| matched_model(m),
                ).push(matched_model(pair)));
            },
            None => {},
        }
        i = i + 1;
    }
    assert(stylesheet@.rules.take(n as int) =~= stylesheet@.rules);
    found
}

} // verus!
