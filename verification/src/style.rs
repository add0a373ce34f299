//! The cascade: which declared value applies to an element, and the tree of
//! styled nodes that pairs each document node with its values.
use vstd::prelude::*;
use vstd::hash_map::StringHashMap;
use crate::css::{
    DeclarationModel, MatchedModel, MatchedRule, Rule, Specificity, Stylesheet,
    StylesheetModel, Value, ValueModel, matched_model, matched_rules, matching_rules, rank_lt,
    rank_of,
};
use crate::node::{ElementData, ElementModel, Node, NodeKind, NodeModel, NodeType, lemma_node_view};
use crate::text::same_text;

verus! {

/// The values that apply to one element, by property name.
pub type PropertyMap = StringHashMap<Value>;

/// The mathematical value of a [`PropertyMap`].
pub type PropertyModel = Map<Seq<char>, ValueModel>;

/// The property map as a map from names to values.
pub open spec fn property_model(m: PropertyMap) -> PropertyModel {
    m@.map_values(|v: Value| v@)
}

/// Whether declaration `k` of matched rule `m` sets the property `name`.
pub open spec fn declares(ms: Seq<MatchedModel>, m: int, k: int, name: Seq<char>) -> bool {
    &&& 0 <= m < ms.len()
    &&& 0 <= k < ms[m].1.declarations.len()
    &&& ms[m].1.declarations[k].name == name
}

/// Whether declaration `(m2, k2)` gives way to declaration `(m, k)`: its rule
/// is less specific, or as specific and not later in the stylesheet; within
/// one rule the later declaration stands.
pub open spec fn yields_to(ms: Seq<MatchedModel>, m2: int, k2: int, m: int, k: int) -> bool {
    rank_lt(ms[m2].0, ms[m].0) || (ms[m2].0 == ms[m].0 && (m2 < m || (m2 == m && k2 <= k)))
}

/// Whether declaration `(m, k)` sets `name` and every declaration that sets
/// `name` gives way to it.
pub open spec fn wins(ms: Seq<MatchedModel>, m: int, k: int, name: Seq<char>) -> bool {
    &&& declares(ms, m, k, name)
    &&& forall|m2: int, k2: int| #[trigger]
        declares(ms, m2, k2, name) ==> yields_to(ms, m2, k2, m, k)
}

/// The cascade over the matched rules `ms`: a property has a value where some
/// matched rule declares it, and the value is that of the declaration to
/// which all others give way.
pub open spec fn cascade(ms: Seq<MatchedModel>) -> PropertyModel {
    Map::new(
        |name: Seq<char>| exists|m: int, k: int| declares(ms, m, k, name),
        |name: Seq<char>|
            {
                let (m, k) = choose|m: int, k: int| wins(ms, m, k, name);
                ms[m].1.declarations[k].value
            },
    )
}

/// The values that the stylesheet gives to an element.
pub open spec fn specified_model(elem: ElementModel, sheet: StylesheetModel) -> PropertyModel {
    cascade(matched_rules(elem, sheet.rules))
}

/// The declaration to which all others give way decides the value.
pub proof fn lemma_cascade_winner(ms: Seq<MatchedModel>, m: int, k: int, name: Seq<char>)
    requires
        wins(ms, m, k, name),
    ensures
        cascade(ms).contains_key(name),
        cascade(ms)[name] == ms[m].1.declarations[k].value,
{
    let (m1, k1) = choose|m1: int, k1: int| wins(ms, m1, k1, name);
    assert(wins(ms, m1, k1, name));
    assert(declares(ms, m, k, name));
    assert(declares(ms, m1, k1, name));
    assert(yields_to(ms, m, k, m1, k1));
    assert(yields_to(ms, m1, k1, m, k));
    assert(m1 == m && k1 == k);
}

/// The more specific rule takes precedence: a declaration whose rule is more
/// specific than every other rule that sets the property, and which is the
/// last for that property in its rule, decides the value, wherever the rule
/// stands in the stylesheet.
pub proof fn lemma_most_specific_wins(ms: Seq<MatchedModel>, m: int, k: int, name: Seq<char>)
    requires
        declares(ms, m, k, name),
        forall|m2: int, k2: int| #[trigger]
            declares(ms, m2, k2, name) && m2 != m ==> rank_lt(ms[m2].0, ms[m].0),
        forall|k2: int| #[trigger] declares(ms, m, k2, name) ==> k2 <= k,
    ensures
        cascade(ms).contains_key(name),
        cascade(ms)[name] == ms[m].1.declarations[k].value,
{
    lemma_cascade_winner(ms, m, k, name);
}

/// Among rules that are equally specific the later one takes precedence:
/// where no rule that sets the property is more specific than rule `m`, and
/// none that is as specific comes after it, the last declaration for the
/// property in rule `m` decides the value.
pub proof fn lemma_later_rule_wins_tie(ms: Seq<MatchedModel>, m: int, k: int, name: Seq<char>)
    requires
        declares(ms, m, k, name),
        forall|m2: int, k2: int| #[trigger]
            declares(ms, m2, k2, name) ==> !rank_lt(ms[m].0, ms[m2].0),
        forall|m2: int, k2: int| #[trigger]
            declares(ms, m2, k2, name) && ms[m2].0 == ms[m].0 ==> m2 <= m,
        forall|k2: int| #[trigger] declares(ms, m, k2, name) ==> k2 <= k,
    ensures
        cascade(ms).contains_key(name),
        cascade(ms)[name] == ms[m].1.declarations[k].value,
{
    assert forall|m2: int, k2: int| #[trigger] declares(ms, m2, k2, name) implies yields_to(
        ms,
        m2,
        k2,
        m,
        k,
    ) by {
        assert(!rank_lt(ms[m].0, ms[m2].0));
        if ms[m2].0 == ms[m].0 {
            assert(m2 <= m);
            if m2 == m {
                assert(declares(ms, m, k2, name));
            }
        }
    }
    lemma_cascade_winner(ms, m, k, name);
}

/// Whether the first of two specificities comes before the second.
pub fn specificity_lt(a: Specificity, b: Specificity) -> (r: bool)
    ensures
        r == rank_lt(rank_of(a), rank_of(b)),
{
    a.0 < b.0 || (a.0 == b.0 && (a.1 < b.1 || (a.1 == b.1 && a.2 < b.2)))
}

/// Whether `out` holds the entries of `input` in ascending order of
/// specificity, entries of equal specificity in their order in `input`;
/// `origin[j]` is the place in `input` of the entry at place `j` of `out`.
spec fn stable_sorted(
    input: Seq<MatchedRule>,
    out: Seq<MatchedRule>,
    origin: Seq<int>,
) -> bool {
    &&& out.len() == input.len()
    &&& origin.len() == input.len()
    &&& forall|j: int|
        0 <= j < out.len() ==> 0 <= #[trigger] origin[j] < input.len() && out[j] == input[origin[j]]
    &&& forall|a: int, b: int|
        0 <= a < b < out.len() ==> rank_lt(rank_of(#[trigger] out[a].0), rank_of(#[trigger] out[b].0))
            || (out[a].0 == out[b].0 && origin[a] < origin[b])
    &&& forall|t: int| 0 <= t < input.len() ==> #[trigger] origin.contains(t)
}

/// Sorts matched rules by ascending specificity, keeping rules of equal
/// specificity in their order.
fn sort_by_specificity<'a>(rules: &Vec<MatchedRule<'a>>) -> (r: (
    Vec<MatchedRule<'a>>,
    Ghost<Seq<int>>,
))
    ensures
        stable_sorted(rules@, r.0@, r.1@),
{
    let mut sorted: Vec<MatchedRule<'a>> = Vec::new();
    let ghost mut origin: Seq<int> = Seq::empty();
    let n = rules.len();
    let mut i: usize = 0;
    while i < n
        invariant
            n == rules@.len(),
            i <= n,
            stable_sorted(rules@.take(i as int), sorted@, origin),
        decreases n - i,
    {
        let x = rules[i];
        let mut q: usize = i;
        while q > 0 && specificity_lt(x.0, sorted[q - 1].0)
            invariant
                q <= i,
                i == sorted@.len(),
                forall|j: int|
                    q <= j < i ==> rank_lt(rank_of(x.0), rank_of(#[trigger] sorted@[j].0)),
            decreases q,
        {
            q = q - 1;
        }
        let ghost old_sorted = sorted@;
        let ghost old_origin = origin;
        sorted.insert(q, x);
        proof {
            origin = old_origin.insert(q as int, i as int);
            old_sorted.insert_ensures(q as int, x);
            old_origin.insert_ensures(q as int, i as int);
            let input = rules@.take(i as int);
            let input2 = rules@.take(i + 1);
            assert forall|j: int| 0 <= j < sorted@.len() implies 0 <= #[trigger] origin[j]
                < input2.len() && sorted@[j] == input2[origin[j]] by {
                if j < q {
                    assert(origin[j] == old_origin[j]);
                } else if j > q {
                    assert(origin[j] == old_origin[j - 1]);
                }
            }
            assert forall|a: int, b: int| 0 <= a < b < sorted@.len() implies rank_lt(
                rank_of(#[trigger] sorted@[a].0),
                rank_of(#[trigger] sorted@[b].0),
            ) || (sorted@[a].0 == sorted@[b].0 && origin[a] < origin[b]) by {
                if b < q {
                    assert(sorted@[a] == old_sorted[a] && sorted@[b] == old_sorted[b]);
                } else if b == q {
                    assert(sorted@[a] == old_sorted[a]);
                    assert(origin[a] == old_origin[a]);
                    if q >= 1 {
                        assert(!rank_lt(rank_of(x.0), rank_of(old_sorted[q - 1].0)));
                        if a < q - 1 {
                            assert(rank_lt(rank_of(old_sorted[a].0), rank_of(old_sorted[q - 1].0))
                                || old_sorted[a].0 == old_sorted[q - 1].0);
                        }
                    }
                } else if a == q {
                    assert(sorted@[b] == old_sorted[b - 1]);
                } else if a < q {
                    assert(sorted@[a] == old_sorted[a]);
                    assert(sorted@[b] == old_sorted[b - 1]);
                    assert(origin[b] == old_origin[b - 1]);
                } else {
                    assert(sorted@[a] == old_sorted[a - 1]);
                    assert(sorted@[b] == old_sorted[b - 1]);
                    assert(origin[a] == old_origin[a - 1]);
                    assert(origin[b] == old_origin[b - 1]);
                }
            }
            assert forall|t: int| 0 <= t < input2.len() implies #[trigger] origin.contains(t) by {
                if t == i {
                    assert(origin[q as int] == t);
                } else {
                    assert(old_origin.contains(t));
                    let j = choose|j: int| 0 <= j < old_origin.len() && old_origin[j] == t;
                    if j < q {
                        assert(origin[j] == t);
                    } else {
                        assert(origin[j + 1] == t);
                    }
                }
            }
        }
        i = i + 1;
    }
    assert(rules@.take(n as int) =~= rules@);
    (sorted, Ghost(origin))
}

/// The map after the declarations `decls` were written into `pm` in order.
spec fn apply_decls(pm: PropertyModel, decls: Seq<DeclarationModel>) -> PropertyModel
    decreases decls.len(),
{
    if decls.len() == 0 {
        pm
    } else {
        apply_decls(pm, decls.drop_last()).insert(decls.last().name, decls.last().value)
    }
}

/// The map after the declarations of the rules `ss` were written into an
/// empty map, rule by rule.
spec fn apply_rules(ss: Seq<MatchedModel>) -> PropertyModel
    decreases ss.len(),
{
    if ss.len() == 0 {
        Map::empty()
    } else {
        apply_decls(apply_rules(ss.drop_last()), ss.last().1.declarations)
    }
}

/// The place of the last declaration among `decls` that sets `name`.
spec fn last_in_rule(decls: Seq<DeclarationModel>, name: Seq<char>) -> Option<int>
    decreases decls.len(),
{
    if decls.len() == 0 {
        None
    } else if decls.last().name == name {
        Some(decls.len() - 1)
    } else {
        last_in_rule(decls.drop_last(), name)
    }
}

/// The place of the last declaration in `ss` that sets `name`.
spec fn last_decl(ss: Seq<MatchedModel>, name: Seq<char>) -> Option<(int, int)>
    decreases ss.len(),
{
    if ss.len() == 0 {
        None
    } else {
        match last_in_rule(ss.last().1.declarations, name) {
            Some(k) => Some((ss.len() - 1, k)),
            None => last_decl(ss.drop_last(), name),
        }
    }
}

proof fn lemma_last_in_rule(decls: Seq<DeclarationModel>, name: Seq<char>)
    ensures
        match last_in_rule(decls, name) {
            Some(k) => 0 <= k < decls.len() && decls[k].name == name && forall|k2: int|
                k < k2 < decls.len() ==> (#[trigger] decls[k2]).name != name,
            None => forall|k2: int| 0 <= k2 < decls.len() ==> (#[trigger] decls[k2]).name != name,
        },
    decreases decls.len(),
{
    if decls.len() > 0 && decls.last().name != name {
        lemma_last_in_rule(decls.drop_last(), name);
        assert forall|k2: int| 0 <= k2 < decls.len() - 1 implies decls[k2]
            == decls.drop_last()[k2] by {}
    }
}

proof fn lemma_apply_decls(pm: PropertyModel, decls: Seq<DeclarationModel>, name: Seq<char>)
    ensures
        match last_in_rule(decls, name) {
            Some(k) => apply_decls(pm, decls).contains_key(name) && apply_decls(pm, decls)[name]
                == decls[k].value,
            None => apply_decls(pm, decls).contains_key(name) == pm.contains_key(name) && (
            pm.contains_key(name) ==> apply_decls(pm, decls)[name] == pm[name]),
        },
    decreases decls.len(),
{
    if decls.len() > 0 {
        lemma_apply_decls(pm, decls.drop_last(), name);
        lemma_last_in_rule(decls.drop_last(), name);
        if let Some(k) = last_in_rule(decls.drop_last(), name) {
            assert(decls.drop_last()[k] == decls[k]);
        }
    }
}

proof fn lemma_last_decl(ss: Seq<MatchedModel>, name: Seq<char>)
    ensures
        match last_decl(ss, name) {
            Some((j, k)) => {
                &&& declares(ss, j, k, name)
                &&& apply_rules(ss).contains_key(name)
                &&& apply_rules(ss)[name] == ss[j].1.declarations[k].value
                &&& forall|j2: int, k2: int| #[trigger]
                    declares(ss, j2, k2, name) ==> j2 < j || (j2 == j && k2 <= k)
            },
            None => {
                &&& !apply_rules(ss).contains_key(name)
                &&& forall|j2: int, k2: int| !#[trigger] declares(ss, j2, k2, name)
            },
        },
    decreases ss.len(),
{
    if ss.len() > 0 {
        let rest = ss.drop_last();
        let decls = ss.last().1.declarations;
        lemma_last_decl(rest, name);
        lemma_last_in_rule(decls, name);
        lemma_apply_decls(apply_rules(rest), decls, name);
        assert forall|j2: int, k2: int| #[trigger] declares(ss, j2, k2, name) && j2 < ss.len()
            - 1 implies declares(rest, j2, k2, name) by {
            assert(rest[j2] == ss[j2]);
        }
        match last_in_rule(decls, name) {
            Some(k) => {
                assert forall|j2: int, k2: int| #[trigger]
                    declares(ss, j2, k2, name) implies j2 < ss.len() - 1 || (j2 == ss.len() - 1
                    && k2 <= k) by {
                    if j2 == ss.len() - 1 && k2 > k {
                        assert(decls[k2].name != name);
                    }
                }
            },
            None => {
                match last_decl(rest, name) {
                    Some((j, k)) => {
                        assert(rest[j] == ss[j]);
                        assert forall|j2: int, k2: int| #[trigger]
                            declares(ss, j2, k2, name) implies j2 < j || (j2 == j && k2 <= k) by {
                            if j2 == ss.len() - 1 {
                                assert(decls[k2].name != name);
                            } else {
                                assert(declares(rest, j2, k2, name));
                            }
                        }
                    },
                    None => {
                        assert forall|j2: int, k2: int| !#[trigger] declares(ss, j2, k2, name) by {
                            if declares(ss, j2, k2, name) {
                                if j2 == ss.len() - 1 {
                                    assert(decls[k2].name != name);
                                } else {
                                    assert(declares(rest, j2, k2, name));
                                }
                            }
                        }
                    },
                }
            },
        }
    }
}

/// Among the first `n` matched rules, the declaration of `name` to which
/// all others among them give way.
spec fn strongest(ms: Seq<MatchedModel>, name: Seq<char>, n: int) -> Option<(int, int)>
    decreases n,
{
    if n <= 0 || n > ms.len() {
        None
    } else {
        let earlier = strongest(ms, name, n - 1);
        match last_in_rule(ms[n - 1].1.declarations, name) {
            None => earlier,
            Some(k) => match earlier {
                Some((m, k0)) if rank_lt(ms[n - 1].0, ms[m].0) => Some((m, k0)),
                _ => Some((n - 1, k)),
            },
        }
    }
}

proof fn lemma_strongest(ms: Seq<MatchedModel>, name: Seq<char>, n: int)
    requires
        0 <= n <= ms.len(),
    ensures
        match strongest(ms, name, n) {
            Some((m, k)) => {
                &&& m < n
                &&& declares(ms, m, k, name)
                &&& forall|m2: int, k2: int| #[trigger]
                    declares(ms, m2, k2, name) && m2 < n ==> yields_to(ms, m2, k2, m, k)
            },
            None => forall|m2: int, k2: int| #[trigger] declares(ms, m2, k2, name) ==> m2 >= n,
        },
    decreases n,
{
    if n > 0 {
        lemma_strongest(ms, name, n - 1);
        lemma_last_in_rule(ms[n - 1].1.declarations, name);
        let earlier = strongest(ms, name, n - 1);
        match last_in_rule(ms[n - 1].1.declarations, name) {
            None => {
                match earlier {
                    Some((m, k)) => {
                        assert forall|m2: int, k2: int| #[trigger]
                            declares(ms, m2, k2, name) && m2 < n implies yields_to(
                            ms,
                            m2,
                            k2,
                            m,
                            k,
                        ) by {
                            if m2 == n - 1 {
                                assert(ms[n - 1].1.declarations[k2].name != name);
                            }
                        }
                    },
                    None => {
                        assert forall|m2: int, k2: int| #[trigger]
                            declares(ms, m2, k2, name) implies m2 >= n by {
                            if m2 == n - 1 {
                                assert(ms[n - 1].1.declarations[k2].name != name);
                            }
                        }
                    },
                }
            },
            Some(k) => {
                let (m, kw) = strongest(ms, name, n)->0;
                assert forall|m2: int, k2: int| #[trigger]
                    declares(ms, m2, k2, name) && m2 < n implies yields_to(ms, m2, k2, m, kw) by {
                    if m2 == n - 1 {
                        if k2 > k {
                            assert(ms[n - 1].1.declarations[k2].name != name);
                        }
                    } else if let Some((m0, k0)) = earlier {
                        assert(yields_to(ms, m2, k2, m0, k0));
                    }
                }
            },
        }
    }
}

/// Every value of the cascade comes from a declaration: the one to which
/// all other declarations of the property give way.
pub proof fn lemma_cascade_source(ms: Seq<MatchedModel>, name: Seq<char>) -> (source: (int, int))
    requires
        cascade(ms).contains_key(name),
    ensures
        wins(ms, source.0, source.1, name),
        cascade(ms)[name] == ms[source.0].1.declarations[source.1].value,
{
    lemma_strongest(ms, name, ms.len() as int);
    let (m0, k0) = choose|m: int, k: int| declares(ms, m, k, name);
    assert(declares(ms, m0, k0, name));
    let source = strongest(ms, name, ms.len() as int)->0;
    assert(wins(ms, source.0, source.1, name));
    lemma_cascade_winner(ms, source.0, source.1, name);
    source
}

/// Writing the declarations of stably sorted rules into a map, rule by rule,
/// gives the cascade of the rules.
proof fn lemma_sorted_fold_is_cascade(
    input: Seq<MatchedRule>,
    out: Seq<MatchedRule>,
    origin: Seq<int>,
)
    requires
        stable_sorted(input, out, origin),
    ensures
        apply_rules(out.map_values(|m: MatchedRule| matched_model(m))) == cascade(
            input.map_values(|m: MatchedRule| matched_model(m)),
        ),
{
    let ms = input.map_values(|m: MatchedRule| matched_model(m));
    let ss = out.map_values(|m: MatchedRule| matched_model(m));
    let folded = apply_rules(ss);
    assert forall|name: Seq<char>|
        folded.contains_key(name) == #[trigger] cascade(ms).contains_key(name) && (
        folded.contains_key(name) ==> folded[name] == cascade(ms)[name]) by {
        lemma_last_decl(ss, name);
        assert forall|m2: int, k2: int| #[trigger] declares(ms, m2, k2, name) implies exists|
            j2: int,
        |
            0 <= j2 < out.len() && origin[j2] == m2 && declares(ss, j2, k2, name) by {
            assert(origin.contains(m2));
            let j2 = choose|j2: int| 0 <= j2 < origin.len() && origin[j2] == m2;
            assert(ss[j2] == ms[m2]);
            assert(declares(ss, j2, k2, name));
        }
        match last_decl(ss, name) {
            Some((j, k)) => {
                let m = origin[j];
                assert(ss[j] == ms[m]);
                assert(declares(ms, m, k, name));
                assert forall|m2: int, k2: int| #[trigger]
                    declares(ms, m2, k2, name) implies yields_to(ms, m2, k2, m, k) by {
                    let j2 = choose|j2: int|
                        0 <= j2 < out.len() && origin[j2] == m2 && declares(ss, j2, k2, name);
                    assert(j2 < j || (j2 == j && k2 <= k));
                    assert(ss[j2] == ms[m2]);
                    if j2 < j {
                        assert(rank_lt(rank_of(out[j2].0), rank_of(out[j].0)) || (out[j2].0
                            == out[j].0 && origin[j2] < origin[j]));
                    }
                }
                lemma_cascade_winner(ms, m, k, name);
            },
            None => {
                if cascade(ms).contains_key(name) {
                    let (m2, k2) = choose|m2: int, k2: int| declares(ms, m2, k2, name);
                    assert(declares(ms, m2, k2, name));
                }
            },
        }
    }
    assert(folded =~= cascade(ms));
}

/// The values that `stylesheet` gives to `elem`: of the declarations of the
/// rules that match, the one from the most specific rule decides each
/// property, and among equally specific rules the later one.
pub fn specified_values(elem: &ElementData, stylesheet: &Stylesheet) -> (values: PropertyMap)
    ensures
        property_model(values) == specified_model(elem@, stylesheet@),
{
    let mut values: PropertyMap = StringHashMap::new();
    let rules = matching_rules(elem, stylesheet);
    let (sorted, Ghost(origin)) = sort_by_specificity(&rules);
    let ghost ss = sorted@.map_values(|m: MatchedRule| matched_model(m));
    let n = sorted.len();
    let mut j: usize = 0;
    assert(property_model(values) =~= apply_rules(ss.take(0)));
    while j < n
        invariant
            n == sorted@.len(),
            j <= n,
            ss == sorted@.map_values(|m: MatchedRule| matched_model(m)),
            property_model(values) == apply_rules(ss.take(j as int)),
        decreases n - j,
    {
        let rule: &Rule = sorted[j].1;
        let ghost decls = rule@.declarations;
        let ghost base = property_model(values);
        let count = rule.declarations.len();
        let mut k: usize = 0;
        assert(decls.take(0) =~= Seq::empty());
        while k < count
            invariant
                count == rule.declarations@.len(),
                k <= count,
                decls == rule@.declarations,
                property_model(values) == apply_decls(base, decls.take(k as int)),
            decreases count - k,
        {
            let declaration = &rule.declarations[k];
            let ghost before = values@;
            values.insert(declaration.name.clone(), declaration.value.clone());
            proof {
                assert(decls.take(k + 1).drop_last() =~= decls.take(k as int));
                assert(decls.take(k + 1).last() == declaration@);
                assert(property_model(values) =~= before.map_values(|v: Value| v@).insert(
                    declaration@.name,
                    declaration@.value,
                ));
            }
            k = k + 1;
        }
        proof {
            assert(decls.take(count as int) =~= decls);
            assert(ss.take(j + 1).drop_last() =~= ss.take(j as int));
            assert(ss.take(j + 1).last() == ss[j as int]);
        }
        j = j + 1;
    }
    proof {
        assert(ss.take(n as int) =~= ss);
        lemma_sorted_fold_is_cascade(rules@, sorted@, origin);
    }
    values
}

/// How an element takes part in layout.
#[derive(Debug, Clone, Copy, PartialEq, Eq, Structural)]
pub enum Display {
    Inline,
    Block,
    /// The keyword `none`: the element and its descendants make no box.
    Hidden,
}

/// A document node with the values that the stylesheet gives it, and its
/// children styled in the same way.
pub struct StyledNode<'a> {
    pub node: &'a Node,
    pub specified_values: PropertyMap,
    pub children: Vec<StyledNode<'a>>,
}

/// The mathematical value of a [`StyledNode`].
pub struct StyledModel {
    pub node: NodeModel,
    pub specified_values: PropertyModel,
    pub children: Seq<StyledModel>,
}

impl<'a> StyledNode<'a> {
    /// The value of the styled node: the node, its values, and the values of
    /// its children.
    pub open spec fn model(&self) -> StyledModel
        decreases self,
    {
        StyledModel {
            node: self.node@,
            specified_values: property_model(self.specified_values),
            children: Seq::new(
                self.children@.len(),
                |i: int|
                    if 0 <= i < self.children@.len() {
                        self.children@[i].model()
                    } else {
                        arbitrary()
                    },
            ),
        }
    }
}

impl<'a> View for StyledNode<'a> {
    type V = StyledModel;

    open spec fn view(&self) -> StyledModel {
        self.model()
    }
}

/// The values of a sequence of styled nodes, in order.
pub open spec fn styled_models(nodes: Seq<StyledNode>) -> Seq<StyledModel> {
    Seq::new(nodes.len(), |i: int| nodes[i]@)
}

/// A styled node's children are viewed one by one.
pub proof fn lemma_styled_view(n: StyledNode)
    ensures
        n@.node == n.node@,
        n@.specified_values == property_model(n.specified_values),
        n@.children == styled_models(n.children@),
{
    assert(n@.children.len() == n.children@.len());
    assert forall|i: int| 0 <= i < n.children@.len() implies n@.children[i] == n.children@[i]@ by {}
    assert(n@.children =~= styled_models(n.children@));
}

/// The length that a value stands for: its number if it is a length in
/// pixels, zero otherwise.
pub open spec fn px_of(v: ValueModel) -> int {
    match v {
        ValueModel::Length(n, _) => n as int,
        _ => 0,
    }
}

/// Whether the value is the keyword `word`.
pub open spec fn is_keyword(v: ValueModel, word: Seq<char>) -> bool {
    v == ValueModel::Keyword(word)
}

/// The value of `name`; where it has none, that of `fallback_name`; where
/// that has none either, `default`.
pub open spec fn lookup_model(
    pm: PropertyModel,
    name: Seq<char>,
    fallback_name: Seq<char>,
    default: ValueModel,
) -> ValueModel {
    if pm.contains_key(name) {
        pm[name]
    } else if pm.contains_key(fallback_name) {
        pm[fallback_name]
    } else {
        default
    }
}

/// What the property `display` says: `inline` and `none` where it is that
/// keyword, `block` for any other value and where it is not set.
pub open spec fn display_model(pm: PropertyModel) -> Display {
    if pm.contains_key("display"@) && is_keyword(pm["display"@], "inline"@) {
        Display::Inline
    } else if pm.contains_key("display"@) && is_keyword(pm["display"@], "none"@) {
        Display::Hidden
    } else {
        Display::Block
    }
}

/// The styled tree of a document under a stylesheet: each element with its
/// specified values, each text node without values, children in order.
pub open spec fn style_model(node: NodeModel, sheet: StylesheetModel) -> StyledModel
    decreases node,
{
    StyledModel {
        node,
        specified_values: match node.kind {
            NodeKind::Element(e) => specified_model(e, sheet),
            NodeKind::Text(_) => Map::empty(),
        },
        children: Seq::new(
            node.children.len(),
            |i: int|
                if 0 <= i < node.children.len() {
                    style_model(node.children[i], sheet)
                } else {
                    arbitrary()
                },
        ),
    }
}

impl Value {
    /// The length that the value stands for: its number if it is a length
    /// in pixels, zero otherwise.
    pub fn to_px(&self) -> (r: i64)
        ensures
            r == px_of(self@),
    {
        match self {
            Value::Length(n, _) => *n,
            _ => 0,
        }
    }

    /// Whether the value is the keyword `word`.
    pub fn is_keyword(&self, word: &str) -> (r: bool)
        ensures
            r == is_keyword(self@, word@),
    {
        match self {
            Value::Keyword(s) => same_text(s.as_str(), word),
            _ => false,
        }
    }
}

impl<'a> StyledNode<'a> {
    /// The value of the property `name`, if it is set.
    pub fn value(&self, name: &str) -> (r: Option<Value>)
        ensures
            match r {
                Some(v) => self@.specified_values.contains_key(name@) && v@
                    == self@.specified_values[name@],
                None => !self@.specified_values.contains_key(name@),
            },
    {
        match self.specified_values.get(name) {
            Some(v) => Some(v.clone()),
            None => None,
        }
    }

    /// The value of `name`; where it has none, that of `fallback_name`;
    /// where that has none either, `default`.
    pub fn lookup(&self, name: &str, fallback_name: &str, default: &Value) -> (r: Value)
        ensures
            r@ == lookup_model(self@.specified_values, name@, fallback_name@, default@),
    {
        match self.value(name) {
            Some(v) => v,
            None => match self.value(fallback_name) {
                Some(v) => v,
                None => default.clone(),
            },
        }
    }

    /// What the property `display` says of the node.
    pub fn display(&self) -> (r: Display)
        ensures
            r == display_model(self@.specified_values),
    {
        match self.specified_values.get("display") {
            Some(v) => {
                if v.is_keyword("inline") {
                    Display::Inline
                } else if v.is_keyword("none") {
                    Display::Hidden
                } else {
                    Display::Block
                }
            },
            None => Display::Block,
        }
    }
}

/// Styles a document tree: one styled node for each node, in the same shape
/// and order.
pub fn style_tree<'a>(root: &'a Node, stylesheet: &'a Stylesheet) -> (styled: StyledNode<'a>)
    ensures
        styled@ == style_model(root@, stylesheet@),
    decreases root,
{
    let specified_values = match &root.node_type {
        NodeType::Element(elem) => specified_values(elem, stylesheet),
        NodeType::Text(_) => StringHashMap::new(),
    };
    proof {
        lemma_node_view(*root);
        if root.node_type is Text {
            assert(property_model(specified_values) =~= Map::empty());
        }
    }
    let mut children: Vec<StyledNode<'a>> = Vec::new();
    let n = root.children.len();
    let mut i: usize = 0;
    while i < n
        invariant
            n == root.children@.len(),
            i <= n,
            children@.len() == i,
            forall|j: int|
                0 <= j < i ==> (#[trigger] children@[j])@ == style_model(
                    root.children@[j]@,
                    stylesheet@,
                ),
        decreases n - i,
    {
        let child = style_tree(&root.children[i], stylesheet);
        children.push(child);
        i = i + 1;
    }
    let styled = StyledNode { node: root, specified_values, children };
    proof {
        lemma_styled_view(styled);
        assert(styled@.children =~= style_model(root@, stylesheet@).children);
    }
    styled
}

} // verus!
