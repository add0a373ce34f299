//! The two grammars that the parser reads, as functions on a sequence of
//! characters and a position in it. Each gives the value that is read and
//! the position behind it, or `None` where the text does not fit.
use vstd::prelude::*;
use crate::css::{
    Color, DeclarationModel, RuleModel, SelectorModel, SimpleSelectorModel, Unit, ValueModel,
    rank_lt,
};
use crate::node::{ElementModel, NodeKind, NodeModel};
use crate::text::{
    digit_value, hex_value, identifier_char, is_digit, is_hex_digit, unicode_alphanumeric,
    unicode_lowercase, unicode_whitespace,
};

verus! {

/// A set of characters that a run is made of.
#[derive(Debug, Clone, Copy, PartialEq, Eq, Structural)]
pub enum CharClass {
    /// White space.
    Whitespace,
    /// Letters and numbers.
    Alphanumeric,
    /// Letters, numbers, `-` and `_`.
    Identifier,
    /// The ten decimal digits.
    Digit,
    /// Every character but this one.
    Except(char),
}

/// Whether `c` belongs to `class`.
pub open spec fn in_class(class: CharClass, c: char) -> bool {
    match class {
        CharClass::Whitespace => unicode_whitespace(c),
        CharClass::Alphanumeric => unicode_alphanumeric(c),
        CharClass::Identifier => identifier_char(c),
        CharClass::Digit => is_digit(c),
        CharClass::Except(x) => c != x,
    }
}

/// The end of the longest run of characters of `class` that starts at `pos`.
pub open spec fn run_end(s: Seq<char>, pos: int, class: CharClass) -> int
    decreases s.len() - pos,
{
    if 0 <= pos < s.len() && in_class(class, s[pos]) {
        run_end(s, pos + 1, class)
    } else {
        pos
    }
}

/// A run ends where the text ends or a character of another kind stands.
pub proof fn lemma_run_end(s: Seq<char>, pos: int, class: CharClass)
    requires
        0 <= pos <= s.len(),
    ensures
        pos <= run_end(s, pos, class) <= s.len(),
        forall|i: int| pos <= i < run_end(s, pos, class) ==> in_class(class, #[trigger] s[i]),
        run_end(s, pos, class) < s.len() ==> !in_class(class, s[run_end(s, pos, class)]),
        pos < s.len() && in_class(class, s[pos]) ==> run_end(s, pos, class) > pos,
    decreases s.len() - pos,
{
    if pos < s.len() && in_class(class, s[pos]) {
        lemma_run_end(s, pos + 1, class);
    }
}

/// The position behind the white space at `pos`.
pub open spec fn skip_whitespace(s: Seq<char>, pos: int) -> int {
    run_end(s, pos, CharClass::Whitespace)
}

/// Whether the text at `pos` begins with `prefix`.
pub open spec fn starts_with(s: Seq<char>, pos: int, prefix: Seq<char>) -> bool {
    0 <= pos && pos + prefix.len() <= s.len() && s.subrange(pos, pos + prefix.len()) == prefix
}

/// Whether the character `c` stands at `pos`.
pub open spec fn char_at(s: Seq<char>, pos: int, c: char) -> bool {
    0 <= pos < s.len() && s[pos] == c
}

// ---------------------------------------------------------------------
// Style sheets
// ---------------------------------------------------------------------
/// The selector that names nothing and so matches every element.
pub open spec fn universal_selector() -> SimpleSelectorModel {
    SimpleSelectorModel { tag_name: None, id: None, class: Seq::empty() }
}

/// A simple selector that goes on at `pos`, where `acc` was read so far:
/// `#` and an id, `.` and a class, `*`, or a tag name, in any number and
/// order; a later id or tag name replaces an earlier one.
pub open spec fn simple_selector_from(s: Seq<char>, pos: int, acc: SimpleSelectorModel) -> (
    SimpleSelectorModel,
    int,
)
    decreases s.len() - pos,
{
    if pos < 0 || pos >= s.len() {
        (acc, pos)
    } else if s[pos] == '#' {
        let end = run_end(s, pos + 1, CharClass::Identifier);
        proof {
            lemma_run_end(s, pos + 1, CharClass::Identifier);
        }
        simple_selector_from(
            s,
            end,
            SimpleSelectorModel { id: Some(s.subrange(pos + 1, end)), ..acc },
        )
    } else if s[pos] == '.' {
        let end = run_end(s, pos + 1, CharClass::Identifier);
        proof {
            lemma_run_end(s, pos + 1, CharClass::Identifier);
        }
        simple_selector_from(
            s,
            end,
            SimpleSelectorModel { class: acc.class.push(s.subrange(pos + 1, end)), ..acc },
        )
    } else if s[pos] == '*' {
        simple_selector_from(s, pos + 1, acc)
    } else if identifier_char(s[pos]) {
        let end = run_end(s, pos, CharClass::Identifier);
        proof {
            lemma_run_end(s, pos, CharClass::Identifier);
        }
        simple_selector_from(
            s,
            end,
            SimpleSelectorModel { tag_name: Some(s.subrange(pos, end)), ..acc },
        )
    } else {
        (acc, pos)
    }
}

/// The simple selector at `pos`.
pub open spec fn simple_selector(s: Seq<char>, pos: int) -> (SimpleSelectorModel, int) {
    simple_selector_from(s, pos, universal_selector())
}

pub proof fn lemma_simple_selector_from(s: Seq<char>, pos: int, acc: SimpleSelectorModel)
    requires
        0 <= pos <= s.len(),
    ensures
        pos <= simple_selector_from(s, pos, acc).1 <= s.len(),
    decreases s.len() - pos,
{
    if pos < s.len() {
        if s[pos] == '#' {
            let end = run_end(s, pos + 1, CharClass::Identifier);
            lemma_run_end(s, pos + 1, CharClass::Identifier);
            lemma_simple_selector_from(
                s,
                end,
                SimpleSelectorModel { id: Some(s.subrange(pos + 1, end)), ..acc },
            );
        } else if s[pos] == '.' {
            let end = run_end(s, pos + 1, CharClass::Identifier);
            lemma_run_end(s, pos + 1, CharClass::Identifier);
            lemma_simple_selector_from(
                s,
                end,
                SimpleSelectorModel { class: acc.class.push(s.subrange(pos + 1, end)), ..acc },
            );
        } else if s[pos] == '*' {
            lemma_simple_selector_from(s, pos + 1, acc);
        } else if identifier_char(s[pos]) {
            let end = run_end(s, pos, CharClass::Identifier);
            lemma_run_end(s, pos, CharClass::Identifier);
            lemma_simple_selector_from(
                s,
                end,
                SimpleSelectorModel { tag_name: Some(s.subrange(pos, end)), ..acc },
            );
        }
    }
}

/// The place at or after `from` where `x` goes into `sorted`: before the
/// first selector that is less specific than `x`.
pub open spec fn insert_place(sorted: Seq<SelectorModel>, x: SelectorModel, from: int) -> int
    decreases sorted.len() - from,
{
    if 0 <= from < sorted.len() && !rank_lt(sorted[from].specificity(), x.specificity()) {
        insert_place(sorted, x, from + 1)
    } else {
        from
    }
}

/// The selectors in descending order of specificity, those of equal
/// specificity in the order in which they were written.
pub open spec fn by_descending_rank(selectors: Seq<SelectorModel>) -> Seq<SelectorModel>
    decreases selectors.len(),
{
    if selectors.len() == 0 {
        Seq::empty()
    } else {
        let sorted = by_descending_rank(selectors.drop_last());
        sorted.insert(insert_place(sorted, selectors.last(), 0), selectors.last())
    }
}

/// Whether no selector comes before a more specific one.
pub open spec fn descending(selectors: Seq<SelectorModel>) -> bool {
    forall|i: int, j: int|
        0 <= i < j < selectors.len() ==> !rank_lt(
            (#[trigger] selectors[i]).specificity(),
            (#[trigger] selectors[j]).specificity(),
        )
}

/// Where a selector is put, those before it are as specific as it or more,
/// and the one behind it is less specific.
pub proof fn lemma_insert_place(sorted: Seq<SelectorModel>, x: SelectorModel, from: int)
    requires
        0 <= from <= sorted.len(),
    ensures
        from <= insert_place(sorted, x, from) <= sorted.len(),
        forall|i: int|
            from <= i < insert_place(sorted, x, from) ==> !rank_lt(
                (#[trigger] sorted[i]).specificity(),
                x.specificity(),
            ),
        insert_place(sorted, x, from) < sorted.len() ==> rank_lt(
            sorted[insert_place(sorted, x, from)].specificity(),
            x.specificity(),
        ),
    decreases sorted.len() - from,
{
    if from < sorted.len() && !rank_lt(sorted[from].specificity(), x.specificity()) {
        lemma_insert_place(sorted, x, from + 1);
    }
}

/// The selectors of a rule are its written selectors, each as often as it
/// was written, and none comes before a more specific one.
pub proof fn lemma_by_descending_rank(selectors: Seq<SelectorModel>)
    ensures
        descending(by_descending_rank(selectors)),
        by_descending_rank(selectors).to_multiset() == selectors.to_multiset(),
        by_descending_rank(selectors).len() == selectors.len(),
    decreases selectors.len(),
{
    if selectors.len() == 0 {
        assert(selectors =~= Seq::empty());
    } else {
        let rest = selectors.drop_last();
        let x = selectors.last();
        let sorted = by_descending_rank(rest);
        let place = insert_place(sorted, x, 0);
        let out = sorted.insert(place, x);
        lemma_by_descending_rank(rest);
        lemma_insert_place(sorted, x, 0);
        sorted.insert_ensures(place, x);
        vstd::seq_lib::to_multiset_insert(sorted, place, x);
        vstd::seq_lib::to_multiset_build(rest, x);
        assert(rest.push(x) =~= selectors);
        assert forall|i: int, j: int| 0 <= i < j < out.len() implies !rank_lt(
            (#[trigger] out[i]).specificity(),
            (#[trigger] out[j]).specificity(),
        ) by {
            if j < place {
                assert(out[i] == sorted[i] && out[j] == sorted[j]);
            } else if j == place {
                assert(out[i] == sorted[i]);
            } else if i == place {
                assert(out[j] == sorted[j - 1]);
                if j - 1 > place {
                    assert(!rank_lt(sorted[place].specificity(), sorted[j - 1].specificity()));
                }
            } else if i < place {
                assert(out[i] == sorted[i] && out[j] == sorted[j - 1]);
            } else {
                assert(out[i] == sorted[i - 1] && out[j] == sorted[j - 1]);
            }
        }
    }
}

/// The selectors of a rule from `pos` on, after `acc`, as they are written:
/// simple selectors with commas between them, up to the `{` that opens the
/// declarations, which is not read.
pub open spec fn selector_list(s: Seq<char>, pos: int, acc: Seq<SelectorModel>) -> Option<
    (Seq<SelectorModel>, int),
>
    decreases s.len() - pos,
{
    if pos < 0 || pos > s.len() {
        None
    } else {
        let (selector, at1) = simple_selector(s, pos);
        let at2 = skip_whitespace(s, at1);
        let acc1 = acc.push(SelectorModel::Simple(selector));
        proof {
            lemma_simple_selector_from(s, pos, universal_selector());
            lemma_run_end(s, at1, CharClass::Whitespace);
        }
        if char_at(s, at2, ',') {
            proof {
                lemma_run_end(s, at2 + 1, CharClass::Whitespace);
            }
            selector_list(s, skip_whitespace(s, at2 + 1), acc1)
        } else if char_at(s, at2, '{') {
            Some((acc1, at2))
        } else {
            None
        }
    }
}

/// The selectors of the rule at `pos`, the most specific first.
pub open spec fn selectors(s: Seq<char>, pos: int) -> Option<(Seq<SelectorModel>, int)> {
    match selector_list(s, pos, Seq::empty()) {
        Some((list, p)) => Some((by_descending_rank(list), p)),
        None => None,
    }
}

/// The number that the decimal digits `digits` write.
pub open spec fn digits_value(digits: Seq<char>) -> nat
    decreases digits.len(),
{
    if digits.len() == 0 {
        0
    } else {
        (digits_value(digits.drop_last()) * 10 + digit_value(digits.last())) as nat
    }
}

/// The thousandths that the digits behind a decimal point write: the first
/// three count, the others are cut off.
pub open spec fn thousandths(digits: Seq<char>) -> nat {
    ((if digits.len() > 0 {
        digit_value(digits[0]) * 100
    } else {
        0
    }) + (if digits.len() > 1 {
        digit_value(digits[1]) * 10
    } else {
        0
    }) + (if digits.len() > 2 {
        digit_value(digits[2])
    } else {
        0
    })) as nat
}

/// The length, in thousandths, that a whole part and the digits behind the
/// decimal point write; the greatest length where it would be greater.
pub open spec fn decimal_units(whole: Seq<char>, fraction: Seq<char>) -> i64 {
    let units = digits_value(whole) * 1000 + thousandths(fraction);
    if units > i64::MAX {
        i64::MAX
    } else {
        units as i64
    }
}

/// The number at `pos`: digits with at most one decimal point among them,
/// before or behind or between them, and at least one digit.
pub open spec fn number(s: Seq<char>, pos: int) -> Option<(i64, int)> {
    let whole_end = run_end(s, pos, CharClass::Digit);
    if char_at(s, whole_end, '.') {
        let end = run_end(s, whole_end + 1, CharClass::Digit);
        if char_at(s, end, '.') || end - pos < 2 {
            None
        } else {
            Some(
                (decimal_units(s.subrange(pos, whole_end), s.subrange(whole_end + 1, end)), end),
            )
        }
    } else if whole_end > pos {
        Some((decimal_units(s.subrange(pos, whole_end), Seq::empty()), whole_end))
    } else {
        None
    }
}

/// The unit at `pos`: an identifier that reads `px` in lower case.
pub open spec fn unit(s: Seq<char>, pos: int) -> Option<(Unit, int)> {
    let end = run_end(s, pos, CharClass::Identifier);
    if unicode_lowercase(s.subrange(pos, end)) == "px"@ {
        Some((Unit::Px, end))
    } else {
        None
    }
}

/// The length at `pos`: a number and a unit.
pub open spec fn length(s: Seq<char>, pos: int) -> Option<(ValueModel, int)> {
    match number(s, pos) {
        Some((n, at1)) => match unit(s, at1) {
            Some((u, at2)) => Some((ValueModel::Length(n, u), at2)),
            None => None,
        },
        None => None,
    }
}

/// The byte that the two hexadecimal digits at `pos` write.
pub open spec fn hex_pair(s: Seq<char>, pos: int) -> Option<(u8, int)> {
    if 0 <= pos && pos + 2 <= s.len() && is_hex_digit(s[pos]) && is_hex_digit(s[pos + 1]) {
        Some(((hex_value(s[pos]) * 16 + hex_value(s[pos + 1])) as u8, pos + 2))
    } else {
        None
    }
}

/// The colour at `pos`: `#` and six hexadecimal digits for red, green and
/// blue; the colour is opaque.
pub open spec fn color(s: Seq<char>, pos: int) -> Option<(ValueModel, int)> {
    if !char_at(s, pos, '#') {
        None
    } else {
        match hex_pair(s, pos + 1) {
            Some((r, at1)) => match hex_pair(s, at1) {
                Some((g, at2)) => match hex_pair(s, at2) {
                    Some((b, at3)) => Some((ValueModel::Color(Color { r, g, b, a: 255 }), at3)),
                    None => None,
                },
                None => None,
            },
            None => None,
        }
    }
}

/// The value at `pos`: a length where a digit stands, a colour where `#`
/// stands, and otherwise the identifier there as a keyword.
pub open spec fn value(s: Seq<char>, pos: int) -> Option<(ValueModel, int)> {
    if pos < 0 || pos >= s.len() {
        None
    } else if is_digit(s[pos]) {
        length(s, pos)
    } else if s[pos] == '#' {
        color(s, pos)
    } else {
        let end = run_end(s, pos, CharClass::Identifier);
        Some((ValueModel::Keyword(s.subrange(pos, end)), end))
    }
}

/// The declaration at `pos`: a name, `:`, a value and `;`, with white space
/// between them as one likes.
pub open spec fn declaration(s: Seq<char>, pos: int) -> Option<(DeclarationModel, int)> {
    let name_end = run_end(s, pos, CharClass::Identifier);
    let colon = skip_whitespace(s, name_end);
    if !char_at(s, colon, ':') {
        None
    } else {
        match value(s, skip_whitespace(s, colon + 1)) {
            Some((v, p)) => {
                let semicolon = skip_whitespace(s, p);
                if char_at(s, semicolon, ';') {
                    Some(
                        (
                            DeclarationModel { name: s.subrange(pos, name_end), value: v },
                            semicolon + 1,
                        ),
                    )
                } else {
                    None
                }
            },
            None => None,
        }
    }
}

/// The declarations from `pos` on, after `acc`, up to and with the `}` that
/// closes them.
pub open spec fn declaration_list(s: Seq<char>, pos: int, acc: Seq<DeclarationModel>) -> Option<
    (Seq<DeclarationModel>, int),
>
    decreases s.len() - pos,
{
    if pos < 0 || pos > s.len() {
        None
    } else {
        let p = skip_whitespace(s, pos);
        if p >= s.len() {
            None
        } else if s[p] == '}' {
            Some((acc, p + 1))
        } else {
            match declaration(s, p) {
                Some((d, at1)) => {
                    proof {
                        lemma_run_end(s, pos, CharClass::Whitespace);
                        lemma_declaration(s, p);
                    }
                    declaration_list(s, at1, acc.push(d))
                },
                None => None,
            }
        }
    }
}

/// The block of declarations at `pos`: `{`, declarations, `}`.
pub open spec fn declarations(s: Seq<char>, pos: int) -> Option<(Seq<DeclarationModel>, int)> {
    if char_at(s, pos, '{') {
        declaration_list(s, pos + 1, Seq::empty())
    } else {
        None
    }
}

/// The rule at `pos`: selectors and a block of declarations.
pub open spec fn rule(s: Seq<char>, pos: int) -> Option<(RuleModel, int)> {
    match selectors(s, pos) {
        Some((sels, at1)) => match declarations(s, at1) {
            Some((decls, at2)) => Some((RuleModel { selectors: sels, declarations: decls }, at2)),
            None => None,
        },
        None => None,
    }
}

/// The rules from `pos` to the end of the text, after `acc`.
pub open spec fn rule_list(s: Seq<char>, pos: int, acc: Seq<RuleModel>) -> Option<Seq<RuleModel>>
    decreases s.len() - pos,
{
    if pos < 0 || pos > s.len() {
        None
    } else {
        let p = skip_whitespace(s, pos);
        if p >= s.len() {
            Some(acc)
        } else {
            match rule(s, p) {
                Some((r, at1)) => {
                    proof {
                        lemma_run_end(s, pos, CharClass::Whitespace);
                        lemma_rule(s, p);
                    }
                    rule_list(s, at1, acc.push(r))
                },
                None => None,
            }
        }
    }
}

/// The rules of a style sheet: all of the text is read.
pub open spec fn rules(s: Seq<char>) -> Option<Seq<RuleModel>> {
    rule_list(s, 0, Seq::empty())
}

pub proof fn lemma_number(s: Seq<char>, pos: int)
    requires
        0 <= pos <= s.len(),
    ensures
        number(s, pos) matches Some((_, p)) ==> pos < p <= s.len(),
{
    lemma_run_end(s, pos, CharClass::Digit);
    let whole_end = run_end(s, pos, CharClass::Digit);
    if char_at(s, whole_end, '.') {
        lemma_run_end(s, whole_end + 1, CharClass::Digit);
    }
}

pub proof fn lemma_value(s: Seq<char>, pos: int)
    requires
        0 <= pos <= s.len(),
    ensures
        value(s, pos) matches Some((_, p)) ==> pos <= p <= s.len(),
{
    if pos < s.len() {
        if is_digit(s[pos]) {
            lemma_number(s, pos);
            if let Some((n, at1)) = number(s, pos) {
                lemma_run_end(s, at1, CharClass::Identifier);
            }
        } else if s[pos] == '#' {
        } else {
            lemma_run_end(s, pos, CharClass::Identifier);
        }
    }
}

/// A declaration takes up at least its colon and semicolon.
pub proof fn lemma_declaration(s: Seq<char>, pos: int)
    requires
        0 <= pos <= s.len(),
    ensures
        declaration(s, pos) matches Some((_, p)) ==> pos + 2 <= p <= s.len(),
{
    lemma_run_end(s, pos, CharClass::Identifier);
    let name_end = run_end(s, pos, CharClass::Identifier);
    lemma_run_end(s, name_end, CharClass::Whitespace);
    let colon = skip_whitespace(s, name_end);
    if char_at(s, colon, ':') {
        lemma_run_end(s, colon + 1, CharClass::Whitespace);
        let start = skip_whitespace(s, colon + 1);
        lemma_value(s, start);
        if let Some((v, p)) = value(s, start) {
            lemma_run_end(s, p, CharClass::Whitespace);
        }
    }
}

pub proof fn lemma_selector_list(s: Seq<char>, pos: int, acc: Seq<SelectorModel>)
    requires
        0 <= pos <= s.len(),
    ensures
        selector_list(s, pos, acc) matches Some((list, p)) ==> pos <= p < s.len() && s[p] == '{'
            && list.len() > acc.len(),
    decreases s.len() - pos,
{
    let (selector, at1) = simple_selector(s, pos);
    lemma_simple_selector_from(s, pos, universal_selector());
    lemma_run_end(s, at1, CharClass::Whitespace);
    let at2 = skip_whitespace(s, at1);
    if char_at(s, at2, ',') {
        lemma_run_end(s, at2 + 1, CharClass::Whitespace);
        lemma_selector_list(
            s,
            skip_whitespace(s, at2 + 1),
            acc.push(SelectorModel::Simple(selector)),
        );
    }
}

pub proof fn lemma_declaration_list(s: Seq<char>, pos: int, acc: Seq<DeclarationModel>)
    requires
        0 <= pos <= s.len(),
    ensures
        declaration_list(s, pos, acc) matches Some((_, p)) ==> pos < p <= s.len(),
    decreases s.len() - pos,
{
    lemma_run_end(s, pos, CharClass::Whitespace);
    let p = skip_whitespace(s, pos);
    if p < s.len() && s[p] != '}' {
        lemma_declaration(s, p);
        if let Some((d, at1)) = declaration(s, p) {
            lemma_declaration_list(s, at1, acc.push(d));
        }
    }
}

/// A rule takes up at least its two braces.
pub proof fn lemma_rule(s: Seq<char>, pos: int)
    requires
        0 <= pos <= s.len(),
    ensures
        rule(s, pos) matches Some((_, p)) ==> pos + 2 <= p <= s.len(),
{
    lemma_selector_list(s, pos, Seq::empty());
    if let Some((sels, at1)) = selectors(s, pos) {
        lemma_declaration_list(s, at1 + 1, Seq::empty());
    }
}

// ---------------------------------------------------------------------
// Documents
// ---------------------------------------------------------------------
/// The attribute value at `pos`: text between two quotes of one kind,
/// single or double.
pub open spec fn attr_value(s: Seq<char>, pos: int) -> Option<(Seq<char>, int)> {
    if char_at(s, pos, '"') || char_at(s, pos, '\'') {
        let end = run_end(s, pos + 1, CharClass::Except(s[pos]));
        if end < s.len() {
            Some((s.subrange(pos + 1, end), end + 1))
        } else {
            None
        }
    } else {
        None
    }
}

/// The attribute at `pos`: a name, `=` and a quoted value.
pub open spec fn attr(s: Seq<char>, pos: int) -> Option<((Seq<char>, Seq<char>), int)> {
    let name_end = run_end(s, pos, CharClass::Alphanumeric);
    if char_at(s, name_end, '=') {
        match attr_value(s, name_end + 1) {
            Some((v, p)) => Some(((s.subrange(pos, name_end), v), p)),
            None => None,
        }
    } else {
        None
    }
}

/// An attribute takes up at least `=` and two quotes.
pub proof fn lemma_attr(s: Seq<char>, pos: int)
    requires
        0 <= pos <= s.len(),
    ensures
        attr(s, pos) matches Some((_, p)) ==> pos + 3 <= p <= s.len(),
{
    lemma_run_end(s, pos, CharClass::Alphanumeric);
    let name_end = run_end(s, pos, CharClass::Alphanumeric);
    if char_at(s, name_end, '=') && name_end + 1 < s.len() {
        lemma_run_end(s, name_end + 2, CharClass::Except(s[name_end + 1]));
    }
}

/// The attributes from `pos` on, after `acc`, up to the `>` that closes the
/// tag, which is not read. Of two attributes of one name the later stands.
pub open spec fn attrs(s: Seq<char>, pos: int, acc: Map<Seq<char>, Seq<char>>) -> Option<
    (Map<Seq<char>, Seq<char>>, int),
>
    decreases s.len() - pos,
{
    if pos < 0 || pos > s.len() {
        None
    } else {
        let p = skip_whitespace(s, pos);
        if p >= s.len() {
            None
        } else if s[p] == '>' {
            Some((acc, p))
        } else {
            match attr(s, p) {
                Some(((name, v), at1)) => {
                    proof {
                        lemma_run_end(s, pos, CharClass::Whitespace);
                        lemma_attr(s, p);
                    }
                    attrs(s, at1, acc.insert(name, v))
                },
                None => None,
            }
        }
    }
}

pub proof fn lemma_attrs(s: Seq<char>, pos: int, acc: Map<Seq<char>, Seq<char>>)
    requires
        0 <= pos <= s.len(),
    ensures
        attrs(s, pos, acc) matches Some((_, p)) ==> pos <= p < s.len() && s[p] == '>',
    decreases s.len() - pos,
{
    lemma_run_end(s, pos, CharClass::Whitespace);
    let p = skip_whitespace(s, pos);
    if p < s.len() && s[p] != '>' {
        lemma_attr(s, p);
        if let Some(((name, v), at1)) = attr(s, p) {
            lemma_attrs(s, at1, acc.insert(name, v));
        }
    }
}

/// The text node at `pos`: all up to the next `<`.
pub open spec fn text_node(s: Seq<char>, pos: int) -> (NodeModel, int) {
    let end = run_end(s, pos, CharClass::Except('<'));
    (NodeModel { children: Seq::empty(), kind: NodeKind::Text(s.subrange(pos, end)) }, end)
}

/// The nodes from `pos` on, after `acc`, up to the end of the text or to a
/// closing tag, which is not read. White space before a node is skipped.
pub open spec fn nodes(s: Seq<char>, pos: int, acc: Seq<NodeModel>) -> Option<
    (Seq<NodeModel>, int),
>
    decreases s.len() - pos, 2nat,
{
    if pos < 0 || pos > s.len() {
        None
    } else {
        let p = skip_whitespace(s, pos);
        proof {
            lemma_run_end(s, pos, CharClass::Whitespace);
        }
        if p >= s.len() || starts_with(s, p, "</"@) {
            Some((acc, p))
        } else {
            match node(s, p) {
                // A node is never empty and ends inside the text, so the
                // condition holds.
                Some((n, at1)) => if p < at1 <= s.len() {
                    nodes(s, at1, acc.push(n))
                } else {
                    None
                },
                None => None,
            }
        }
    }
}

/// The node at `pos`: an element where `<` stands, text otherwise.
pub open spec fn node(s: Seq<char>, pos: int) -> Option<(NodeModel, int)>
    decreases s.len() - pos, 1nat,
{
    if pos < 0 || pos >= s.len() {
        None
    } else if s[pos] == '<' {
        element(s, pos)
    } else {
        Some(text_node(s, pos))
    }
}

/// The element at `pos`: an opening tag with attributes, the nodes inside,
/// and the closing tag of the same name.
pub open spec fn element(s: Seq<char>, pos: int) -> Option<(NodeModel, int)>
    decreases s.len() - pos, 0nat,
{
    if !char_at(s, pos, '<') {
        None
    } else {
        let name_end = run_end(s, pos + 1, CharClass::Alphanumeric);
        let tag_name = s.subrange(pos + 1, name_end);
        match attrs(s, name_end, Map::empty()) {
            Some((attributes, at1)) => {
                proof {
                    lemma_run_end(s, pos + 1, CharClass::Alphanumeric);
                    lemma_attrs(s, name_end, Map::empty());
                }
                match nodes(s, at1 + 1, Seq::empty()) {
                    Some((children, at2)) => {
                        let close_end = run_end(s, at2 + 2, CharClass::Alphanumeric);
                        if char_at(s, at2, '<') && char_at(s, at2 + 1, '/') && s.subrange(
                            at2 + 2,
                            close_end,
                        ) == tag_name && char_at(s, close_end, '>') {
                            Some(
                                (
                                    NodeModel {
                                        children,
                                        kind: NodeKind::Element(
                                            ElementModel { tag_name, attributes },
                                        ),
                                    },
                                    close_end + 1,
                                ),
                            )
                        } else {
                            None
                        }
                    },
                    None => None,
                }
            },
            None => None,
        }
    }
}

/// The document that the text `s` writes: the node that it holds, where it
/// holds just one, and otherwise an element `html` around its nodes.
pub open spec fn document(s: Seq<char>) -> Option<NodeModel> {
    match nodes(s, 0, Seq::empty()) {
        Some((list, _)) => if list.len() == 1 {
            Some(list[0])
        } else {
            Some(
                NodeModel {
                    children: list,
                    kind: NodeKind::Element(
                        ElementModel { tag_name: "html"@, attributes: Map::empty() },
                    ),
                },
            )
        },
        None => None,
    }
}

/// A node takes up at least one character.
pub proof fn lemma_node(s: Seq<char>, pos: int)
    requires
        0 <= pos <= s.len(),
    ensures
        node(s, pos) matches Some((_, p)) ==> pos < p <= s.len(),
    decreases s.len() - pos, 1nat,
{
    if pos < s.len() {
        if s[pos] == '<' {
            lemma_element(s, pos);
        } else {
            lemma_run_end(s, pos, CharClass::Except('<'));
        }
    }
}

/// The nodes end inside the text.
pub proof fn lemma_nodes(s: Seq<char>, pos: int, acc: Seq<NodeModel>)
    requires
        0 <= pos <= s.len(),
    ensures
        nodes(s, pos, acc) matches Some((_, p)) ==> pos <= p <= s.len(),
    decreases s.len() - pos, 2nat,
{
    lemma_run_end(s, pos, CharClass::Whitespace);
    let p = skip_whitespace(s, pos);
    if !(p >= s.len() || starts_with(s, p, "</"@)) {
        lemma_node(s, p);
        if let Some((n, at1)) = node(s, p) {
            lemma_nodes(s, at1, acc.push(n));
        }
    }
}

/// An element takes up at least its two tags.
pub proof fn lemma_element(s: Seq<char>, pos: int)
    requires
        0 <= pos <= s.len(),
    ensures
        element(s, pos) matches Some((_, p)) ==> pos < p <= s.len(),
    decreases s.len() - pos, 0nat,
{
    if char_at(s, pos, '<') {
        lemma_run_end(s, pos + 1, CharClass::Alphanumeric);
        let name_end = run_end(s, pos + 1, CharClass::Alphanumeric);
        lemma_attrs(s, name_end, Map::empty());
        if let Some((attributes, at1)) = attrs(s, name_end, Map::empty()) {
            lemma_nodes(s, at1 + 1, Seq::empty());
            if let Some((children, at2)) = nodes(s, at1 + 1, Seq::empty()) {
                if at2 + 2 <= s.len() {
                    lemma_run_end(s, at2 + 2, CharClass::Alphanumeric);
                }
            }
        }
    }
}

} // verus!
