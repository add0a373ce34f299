//! A parser for documents and style sheets. It reads its text from the
//! front; each function reads what the grammar of the same name describes
//! and gives `None` where the text does not fit.
use vstd::prelude::*;
use crate::css::{
    Color, Declaration, DeclarationModel, Rule, RuleModel, Selector, SelectorModel,
    SimpleSelector, Unit, Value,
};
use crate::grammar;
use crate::grammar::{CharClass, in_class, lemma_run_end, run_end};
use crate::node::{AttrMap, Node, attr_model, node_models};
use crate::style::specificity_lt;
use crate::text::{char_is_digit, copy_range, hex_digit, same_text, valid_identifier_char};

verus! {

/// A text and the position up to which it was read.
pub struct Parser {
    pos: usize,
    len: usize,
    input: String,
}

/// Whether `c` belongs to `class`.
pub fn class_contains(class: CharClass, c: char) -> (r: bool)
    ensures
        r == in_class(class, c),
{
    match class {
        CharClass::Whitespace => c.is_whitespace(),
        CharClass::Alphanumeric => c.is_alphanumeric(),
        CharClass::Identifier => valid_identifier_char(c),
        CharClass::Digit => char_is_digit(c),
        CharClass::Except(x) => c != x,
    }
}

impl Parser {
    #[verifier::type_invariant]
    spec fn well_formed(self) -> bool {
        self.len == self.input@.len() && self.pos <= self.len
    }

    /// The text that is read.
    pub closed spec fn source(&self) -> Seq<char> {
        self.input@
    }

    /// How many characters of the text were read.
    pub closed spec fn position(&self) -> int {
        self.pos as int
    }

    /// A parser at the start of `input`.
    pub fn new(input: String) -> (p: Parser)
        ensures
            p.source() == input@,
            p.position() == 0,
    {
        let len = input.as_str().unicode_len();
        Parser { pos: 0, len, input }
    }

    /// Whether all of the text was read.
    pub fn eof(&self) -> (r: bool)
        ensures
            r == (self.position() >= self.source().len()),
            0 <= self.position() <= self.source().len(),
    {
        proof {
            use_type_invariant(self);
        }
        self.pos >= self.len
    }

    /// The next character, which is not read.
    pub fn next_char(&self) -> (c: char)
        requires
            self.position() < self.source().len(),
        ensures
            c == self.source()[self.position()],
    {
        self.input.as_str().get_char(self.pos)
    }

    /// Whether the text that was not read yet begins with `s`.
    pub fn starts_with(&self, s: &str) -> (r: bool)
        ensures
            r == grammar::starts_with(self.source(), self.position(), s@),
    {
        proof {
            use_type_invariant(self);
        }
        let n = s.unicode_len();
        if n > self.len - self.pos {
            return false;
        }
        let mut i: usize = 0;
        while i < n
            invariant
                n == s@.len(),
                i <= n,
                self.len == self.input@.len(),
                self.pos + n <= self.len,
                forall|j: int| 0 <= j < i ==> self.input@[self.pos + j] == s@[j],
            decreases n - i,
        {
            if self.input.as_str().get_char(self.pos + i) != s.get_char(i) {
                assert(self.input@.subrange(self.pos as int, self.pos + n)[i as int] != s@[i as int]);
                return false;
            }
            i = i + 1;
        }
        assert(self.input@.subrange(self.pos as int, self.pos + n) =~= s@);
        true
    }

    /// Reads one character.
    pub fn consume_char(&mut self) -> (c: char)
        requires
            old(self).position() < old(self).source().len(),
        ensures
            c == old(self).source()[old(self).position()],
            final(self).source() == old(self).source(),
            final(self).position() == old(self).position() + 1,
    {
        proof {
            use_type_invariant(&*self);
        }
        let c = self.input.as_str().get_char(self.pos);
        self.pos = self.pos + 1;
        c
    }

    /// Reads `c` if it is the next character, and says whether it was.
    pub fn expect(&mut self, c: char) -> (r: bool)
        ensures
            r == grammar::char_at(old(self).source(), old(self).position(), c),
            final(self).source() == old(self).source(),
            final(self).position() == old(self).position() + if r {
                1int
            } else {
                0int
            },
    {
        if !self.eof() && self.next_char() == c {
            self.consume_char();
            true
        } else {
            false
        }
    }

    /// Reads the longest run of characters of `class` and gives it back.
    pub fn consume_while(&mut self, class: CharClass) -> (run: String)
        ensures
            final(self).source() == old(self).source(),
            final(self).position() == run_end(old(self).source(), old(self).position(), class),
            run@ == old(self).source().subrange(old(self).position(), final(self).position()),
            old(self).position() <= final(self).position() <= old(self).source().len(),
    {
        let start = self.pos;
        self.skip_while(class);
        proof {
            use_type_invariant(&*self);
        }
        copy_range(self.input.as_str(), start, self.pos)
    }

    /// Reads past the longest run of characters of `class`.
    pub fn skip_while(&mut self, class: CharClass)
        ensures
            final(self).source() == old(self).source(),
            final(self).position() == run_end(old(self).source(), old(self).position(), class),
            old(self).position() <= final(self).position() <= old(self).source().len(),
    {
        proof {
            use_type_invariant(&*self);
            lemma_run_end(self.input@, self.pos as int, class);
        }
        while !self.eof() && class_contains(class, self.next_char())
            invariant
                self.source() == old(self).source(),
                old(self).position() <= self.position() <= self.source().len(),
                run_end(self.source(), self.position(), class) == run_end(
                    old(self).source(),
                    old(self).position(),
                    class,
                ),
            decreases self.source().len() - self.position(),
        {
            self.consume_char();
        }
    }

    /// Reads past white space.
    pub fn consume_whitespace(&mut self)
        ensures
            final(self).source() == old(self).source(),
            final(self).position() == grammar::skip_whitespace(
                old(self).source(),
                old(self).position(),
            ),
            old(self).position() <= final(self).position() <= old(self).source().len(),
    {
        self.skip_while(CharClass::Whitespace);
    }

    /// Reads an identifier, which may be empty.
    pub fn parse_identifier(&mut self) -> (name: String)
        ensures
            final(self).source() == old(self).source(),
            final(self).position() == run_end(
                old(self).source(),
                old(self).position(),
                CharClass::Identifier,
            ),
            name@ == old(self).source().subrange(old(self).position(), final(self).position()),
            old(self).position() <= final(self).position() <= old(self).source().len(),
    {
        self.consume_while(CharClass::Identifier)
    }

    /// Reads a tag or attribute name, which may be empty.
    pub fn parse_tag_name(&mut self) -> (name: String)
        ensures
            final(self).source() == old(self).source(),
            final(self).position() == run_end(
                old(self).source(),
                old(self).position(),
                CharClass::Alphanumeric,
            ),
            name@ == old(self).source().subrange(old(self).position(), final(self).position()),
            old(self).position() <= final(self).position() <= old(self).source().len(),
    {
        self.consume_while(CharClass::Alphanumeric)
    }
}

/// The values of a sequence of selectors, in order.
pub open spec fn selector_models(selectors: Seq<Selector>) -> Seq<SelectorModel> {
    selectors.map_values(|x: Selector| x@)
}

/// The values of a sequence of declarations, in order.
pub open spec fn declaration_models(declarations: Seq<Declaration>) -> Seq<DeclarationModel> {
    declarations.map_values(|d: Declaration| d@)
}

/// The values of a sequence of rules, in order.
pub open spec fn rule_models(rules: Seq<Rule>) -> Seq<RuleModel> {
    rules.map_values(|r: Rule| r@)
}

/// Ten times `n` and `digit`, or the greatest number where that is greater.
fn push_digit(n: i64, digit: i64) -> (r: i64)
    requires
        0 <= n,
        0 <= digit <= 9,
    ensures
        r == if n * 10 + digit > i64::MAX {
            i64::MAX as int
        } else {
            n * 10 + digit
        },
{
    match n.checked_mul(10) {
        Some(v) => match v.checked_add(digit) {
            Some(w) => w,
            None => i64::MAX,
        },
        None => i64::MAX,
    }
}

/// The value of the decimal digit `c`.
fn digit_of(c: char) -> (r: i64)
    requires
        crate::text::is_digit(c),
    ensures
        r == crate::text::digit_value(c),
        0 <= r <= 9,
{
    let n: u32 = c as u32;
    (n - 48) as i64
}

/// Puts `selector` into `sorted` before the first selector that is less
/// specific.
fn insert_selector(sorted: &mut Vec<Selector>, selector: Selector)
    ensures
        selector_models(final(sorted)@) == selector_models(old(sorted)@).insert(
            grammar::insert_place(selector_models(old(sorted)@), selector@, 0),
            selector@,
        ),
{
    let ghost models = selector_models(sorted@);
    let rank = selector.specificity();
    let n = sorted.len();
    let mut i: usize = 0;
    while i < n && !specificity_lt(sorted[i].specificity(), rank)
        invariant
            n == sorted@.len(),
            i <= n,
            sorted == old(sorted),
            models == selector_models(sorted@),
            crate::css::rank_of(rank) == selector@.specificity(),
            grammar::insert_place(models, selector@, 0) == grammar::insert_place(
                models,
                selector@,
                i as int,
            ),
        decreases n - i,
    {
        i = i + 1;
    }
    let ghost x = selector@;
    let ghost before = sorted@;
    let ghost s = selector;
    sorted.insert(i, selector);
    proof {
        before.insert_ensures(i as int, s);
        models.insert_ensures(i as int, x);
        assert(selector_models(sorted@) =~= models.insert(i as int, x));
    }
}

impl Parser {
    /// Reads a simple selector: `#` and an id, `.` and a class, `*`, or a
    /// tag name, in any number and order.
    pub fn parse_simple_selector(&mut self) -> (selector: SimpleSelector)
        ensures
            final(self).source() == old(self).source(),
            (selector@, final(self).position()) == grammar::simple_selector(
                old(self).source(),
                old(self).position(),
            ),
            old(self).position() <= final(self).position() <= old(self).source().len(),
    {
        let mut selector = SimpleSelector { tag_name: None, id: None, class: Vec::new() };
        proof {
            use_type_invariant(&*self);
            assert(selector@.class =~= Seq::empty());
        }
        while !self.eof()
            invariant
                self.source() == old(self).source(),
                old(self).position() <= self.position() <= self.source().len(),
                grammar::simple_selector(old(self).source(), old(self).position())
                    == grammar::simple_selector_from(self.source(), self.position(), selector@),
            decreases self.source().len() - self.position(),
        {
            let c = self.next_char();
            if c == '#' {
                self.consume_char();
                selector.id = Some(self.parse_identifier());
            } else if c == '.' {
                self.consume_char();
                let ghost before = selector@.class;
                let name = self.parse_identifier();
                selector.class.push(name);
                assert(selector@.class =~= before.push(name@));
            } else if c == '*' {
                self.consume_char();
            } else if valid_identifier_char(c) {
                proof {
                    lemma_run_end(self.source(), self.position(), CharClass::Identifier);
                }
                selector.tag_name = Some(self.parse_identifier());
            } else {
                return selector;
            }
        }
        selector
    }

    /// Reads the selectors of a rule, with commas between them, up to the
    /// `{` that follows, and gives them back with the most specific first.
    pub fn parse_selectors(&mut self) -> (r: Option<Vec<Selector>>)
        ensures
            final(self).source() == old(self).source(),
            match grammar::selectors(old(self).source(), old(self).position()) {
                Some((list, p)) => r matches Some(v) && selector_models(v@) == list
                    && final(self).position() == p,
                None => r is None,
            },
    {
        let mut selectors: Vec<Selector> = Vec::new();
        let ghost mut written: Seq<SelectorModel> = Seq::empty();
        proof {
            use_type_invariant(&*self);
            assert(selector_models(selectors@) =~= grammar::by_descending_rank(written));
        }
        loop
            invariant
                self.source() == old(self).source(),
                0 <= self.position() <= self.source().len(),
                selector_models(selectors@) == grammar::by_descending_rank(written),
                grammar::selector_list(old(self).source(), old(self).position(), Seq::empty())
                    == grammar::selector_list(self.source(), self.position(), written),
            decreases self.source().len() - self.position(),
        {
            let selector = Selector::Simple(self.parse_simple_selector());
            proof {
                assert(written.push(selector@).drop_last() =~= written);
                written = written.push(selector@);
            }
            insert_selector(&mut selectors, selector);
            self.consume_whitespace();
            if self.expect(',') {
                self.consume_whitespace();
            } else if !self.eof() && self.next_char() == '{' {
                return Some(selectors);
            } else {
                return None;
            }
        }
    }

    /// Reads a number: digits with at most one decimal point, and gives the
    /// length that it writes in thousandths, the greatest length where it
    /// would be greater.
    pub fn parse_number(&mut self) -> (r: Option<i64>)
        ensures
            final(self).source() == old(self).source(),
            match grammar::number(old(self).source(), old(self).position()) {
                Some((n, p)) => r == Some(n) && final(self).position() == p,
                None => r is None,
            },
    {
        let ghost s = self.source();
        let ghost start = self.position();
        let mut whole: i64 = 0;
        let mut any_digit = false;
        proof {
            use_type_invariant(&*self);
            lemma_run_end(s, start, CharClass::Digit);
            assert(s.subrange(start, start) =~= Seq::empty());
        }
        while !self.eof() && char_is_digit(self.next_char())
            invariant
                self.source() == s,
                0 <= start <= self.position() <= s.len(),
                run_end(s, self.position(), CharClass::Digit) == run_end(s, start, CharClass::Digit),
                any_digit == (self.position() > start),
                0 <= whole,
                whole == if grammar::digits_value(s.subrange(start, self.position())) > i64::MAX {
                    i64::MAX as int
                } else {
                    grammar::digits_value(s.subrange(start, self.position())) as int
                },
            decreases s.len() - self.position(),
        {
            let ghost p = self.position();
            let c = self.consume_char();
            proof {
                assert(s.subrange(start, p + 1).drop_last() =~= s.subrange(start, p));
            }
            whole = push_digit(whole, digit_of(c));
            any_digit = true;
        }
        let ghost whole_end = self.position();
        let mut fraction: i64 = 0;
        if self.expect('.') {
            let mut count: usize = 0;
            let ghost had_digit = any_digit;
            proof {
                use_type_invariant(&*self);
                lemma_run_end(s, whole_end + 1, CharClass::Digit);
                assert(s.subrange(whole_end + 1, whole_end + 1) =~= Seq::empty());
            }
            while !self.eof() && char_is_digit(self.next_char())
                invariant
                    self.source() == s,
                    s.len() <= usize::MAX,
                    0 <= whole_end,
                    whole_end + 1 <= self.position() <= s.len(),
                    run_end(s, self.position(), CharClass::Digit) == run_end(
                        s,
                        whole_end + 1,
                        CharClass::Digit,
                    ),
                    count == self.position() - (whole_end + 1),
                    any_digit == (had_digit || self.position() > whole_end + 1),
                    forall|i: int|
                        whole_end + 1 <= i < self.position() ==> crate::text::is_digit(
                            #[trigger] s[i],
                        ),
                    0 <= fraction <= 999,
                    fraction == grammar::thousandths(s.subrange(whole_end + 1, self.position())),
                decreases s.len() - self.position(),
            {
                let ghost p = self.position();
                let c = self.consume_char();
                let d = digit_of(c);
                proof {
                    let before = s.subrange(whole_end + 1, p);
                    let after = s.subrange(whole_end + 1, p + 1);
                    assert(after.len() == count + 1);
                    assert(after[count as int] == c);
                    assert(before.len() == count);
                    if count > 0 {
                        assert(before[0] == after[0]);
                    }
                    if count > 1 {
                        assert(before[1] == after[1]);
                    }
                    if count > 2 {
                        assert(before[2] == after[2]);
                    }
                }
                if count == 0 {
                    fraction = d * 100;
                } else if count == 1 {
                    fraction = fraction + d * 10;
                } else if count == 2 {
                    fraction = fraction + d;
                }
                count = count + 1;
                any_digit = true;
            }
            if !any_digit {
                return None;
            }
            if !self.eof() && self.next_char() == '.' {
                return None;
            }
        } else if !any_digit {
            return None;
        }
        let units = match whole.checked_mul(1000) {
            Some(v) => match v.checked_add(fraction) {
                Some(w) => w,
                None => i64::MAX,
            },
            None => i64::MAX,
        };
        Some(units)
    }

    /// Reads a unit: an identifier that reads `px` in lower case.
    pub fn parse_unit(&mut self) -> (r: Option<Unit>)
        ensures
            final(self).source() == old(self).source(),
            match grammar::unit(old(self).source(), old(self).position()) {
                Some((u, p)) => r == Some(u) && final(self).position() == p,
                None => r is None,
            },
    {
        let name = self.parse_identifier();
        let lower = name.as_str().to_lowercase();
        if same_text(lower.as_str(), "px") {
            Some(Unit::Px)
        } else {
            None
        }
    }

    /// Reads a length: a number and a unit.
    pub fn parse_length(&mut self) -> (r: Option<Value>)
        ensures
            final(self).source() == old(self).source(),
            match grammar::length(old(self).source(), old(self).position()) {
                Some((v, p)) => r matches Some(x) && x@ == v && final(self).position() == p,
                None => r is None,
            },
    {
        let n = match self.parse_number() {
            Some(n) => n,
            None => {
                return None;
            },
        };
        let unit = match self.parse_unit() {
            Some(u) => u,
            None => {
                return None;
            },
        };
        Some(Value::Length(n, unit))
    }

    /// Reads two hexadecimal digits as one byte.
    pub fn parse_hex_pair(&mut self) -> (r: Option<u8>)
        ensures
            final(self).source() == old(self).source(),
            match grammar::hex_pair(old(self).source(), old(self).position()) {
                Some((b, p)) => r == Some(b) && final(self).position() == p,
                None => r is None,
            },
    {
        if self.eof() {
            return None;
        }
        let high = match hex_digit(self.consume_char()) {
            Some(h) => h,
            None => {
                return None;
            },
        };
        if self.eof() {
            return None;
        }
        let low = match hex_digit(self.consume_char()) {
            Some(l) => l,
            None => {
                return None;
            },
        };
        Some(high * 16 + low)
    }

    /// Reads a colour: `#` and six hexadecimal digits.
    pub fn parse_color(&mut self) -> (r: Option<Value>)
        ensures
            final(self).source() == old(self).source(),
            match grammar::color(old(self).source(), old(self).position()) {
                Some((v, p)) => r matches Some(x) && x@ == v && final(self).position() == p,
                None => r is None,
            },
    {
        if !self.expect('#') {
            return None;
        }
        let r = match self.parse_hex_pair() {
            Some(b) => b,
            None => {
                return None;
            },
        };
        let g = match self.parse_hex_pair() {
            Some(b) => b,
            None => {
                return None;
            },
        };
        let b = match self.parse_hex_pair() {
            Some(b) => b,
            None => {
                return None;
            },
        };
        Some(Value::Color(Color { r, g, b, a: 255 }))
    }

    /// Reads a value: a length, a colour or a keyword.
    pub fn parse_value(&mut self) -> (r: Option<Value>)
        ensures
            final(self).source() == old(self).source(),
            match grammar::value(old(self).source(), old(self).position()) {
                Some((v, p)) => r matches Some(x) && x@ == v && final(self).position() == p,
                None => r is None,
            },
    {
        if self.eof() {
            return None;
        }
        let c = self.next_char();
        if char_is_digit(c) {
            self.parse_length()
        } else if c == '#' {
            self.parse_color()
        } else {
            Some(Value::Keyword(self.parse_identifier()))
        }
    }

    /// Reads a declaration: a name, `:`, a value and `;`.
    pub fn parse_declaration(&mut self) -> (r: Option<Declaration>)
        ensures
            final(self).source() == old(self).source(),
            match grammar::declaration(old(self).source(), old(self).position()) {
                Some((d, p)) => r matches Some(x) && x@ == d && final(self).position() == p,
                None => r is None,
            },
    {
        let property_name = self.parse_identifier();
        self.consume_whitespace();
        if !self.expect(':') {
            return None;
        }
        self.consume_whitespace();
        let value = match self.parse_value() {
            Some(v) => v,
            None => {
                return None;
            },
        };
        self.consume_whitespace();
        if !self.expect(';') {
            return None;
        }
        Some(Declaration { name: property_name, value })
    }

    /// Reads a block of declarations: `{`, declarations, `}`.
    pub fn parse_declarations(&mut self) -> (r: Option<Vec<Declaration>>)
        ensures
            final(self).source() == old(self).source(),
            match grammar::declarations(old(self).source(), old(self).position()) {
                Some((list, p)) => r matches Some(v) && declaration_models(v@) == list
                    && final(self).position() == p,
                None => r is None,
            },
    {
        if !self.expect('{') {
            return None;
        }
        let mut declarations: Vec<Declaration> = Vec::new();
        let ghost start = self.position();
        proof {
            use_type_invariant(&*self);
            assert(declaration_models(declarations@) =~= Seq::empty());
        }
        loop
            invariant
                self.source() == old(self).source(),
                0 <= self.position() <= self.source().len(),
                start == old(self).position() + 1,
                grammar::char_at(old(self).source(), old(self).position(), '{'),
                grammar::declaration_list(old(self).source(), start, Seq::empty())
                    == grammar::declaration_list(
                    self.source(),
                    self.position(),
                    declaration_models(declarations@),
                ),
            decreases self.source().len() - self.position(),
        {
            self.consume_whitespace();
            if self.eof() {
                return None;
            }
            if self.next_char() == '}' {
                self.consume_char();
                return Some(declarations);
            }
            proof {
                grammar::lemma_declaration(self.source(), self.position());
            }
            let ghost before = declaration_models(declarations@);
            match self.parse_declaration() {
                Some(d) => {
                    declarations.push(d);
                    assert(declaration_models(declarations@) =~= before.push(d@));
                },
                None => {
                    return None;
                },
            }
        }
    }

    /// Reads a rule: selectors and a block of declarations.
    pub fn parse_rule(&mut self) -> (r: Option<Rule>)
        ensures
            final(self).source() == old(self).source(),
            match grammar::rule(old(self).source(), old(self).position()) {
                Some((m, p)) => r matches Some(x) && x@ == m && final(self).position() == p,
                None => r is None,
            },
    {
        let selectors = match self.parse_selectors() {
            Some(v) => v,
            None => {
                return None;
            },
        };
        let declarations = match self.parse_declarations() {
            Some(v) => v,
            None => {
                return None;
            },
        };
        Some(Rule { selectors, declarations })
    }

    /// Reads rules to the end of the text.
    pub fn parse_rules(&mut self) -> (r: Option<Vec<Rule>>)
        ensures
            final(self).source() == old(self).source(),
            match grammar::rule_list(old(self).source(), old(self).position(), Seq::empty()) {
                Some(list) => r matches Some(v) && rule_models(v@) == list
                    && final(self).position() == old(self).source().len(),
                None => r is None,
            },
    {
        let mut rules: Vec<Rule> = Vec::new();
        proof {
            use_type_invariant(&*self);
            assert(rule_models(rules@) =~= Seq::empty());
        }
        loop
            invariant
                self.source() == old(self).source(),
                0 <= self.position() <= self.source().len(),
                grammar::rule_list(old(self).source(), old(self).position(), Seq::empty())
                    == grammar::rule_list(self.source(), self.position(), rule_models(rules@)),
            decreases self.source().len() - self.position(),
        {
            self.consume_whitespace();
            if self.eof() {
                return Some(rules);
            }
            proof {
                grammar::lemma_rule(self.source(), self.position());
            }
            let ghost before = rule_models(rules@);
            match self.parse_rule() {
                Some(rule) => {
                    rules.push(rule);
                    assert(rule_models(rules@) =~= before.push(rule@));
                },
                None => {
                    return None;
                },
            }
        }
    }
}

impl Parser {
    /// Reads a quoted attribute value.
    pub fn parse_attr_value(&mut self) -> (r: Option<String>)
        ensures
            final(self).source() == old(self).source(),
            match grammar::attr_value(old(self).source(), old(self).position()) {
                Some((v, p)) => r matches Some(x) && x@ == v && final(self).position() == p,
                None => r is None,
            },
    {
        if self.eof() {
            return None;
        }
        let open_quote = self.consume_char();
        if !(open_quote == '"' || open_quote == '\'') {
            return None;
        }
        let value = self.consume_while(CharClass::Except(open_quote));
        if !self.expect(open_quote) {
            proof {
                lemma_run_end(
                    old(self).source(),
                    old(self).position() + 1,
                    CharClass::Except(open_quote),
                );
            }
            return None;
        }
        Some(value)
    }

    /// Reads an attribute: a name, `=` and a quoted value.
    pub fn parse_attr(&mut self) -> (r: Option<(String, String)>)
        ensures
            final(self).source() == old(self).source(),
            match grammar::attr(old(self).source(), old(self).position()) {
                Some(((name, v), p)) => r matches Some(x) && x.0@ == name && x.1@ == v
                    && final(self).position() == p,
                None => r is None,
            },
    {
        let name = self.parse_tag_name();
        if !self.expect('=') {
            return None;
        }
        let value = match self.parse_attr_value() {
            Some(v) => v,
            None => {
                return None;
            },
        };
        Some((name, value))
    }

    /// Reads the attributes of a tag, up to the `>` that closes it.
    pub fn parse_attrs(&mut self) -> (r: Option<AttrMap>)
        ensures
            final(self).source() == old(self).source(),
            match grammar::attrs(old(self).source(), old(self).position(), Map::empty()) {
                Some((m, p)) => r matches Some(x) && attr_model(x) == m && final(self).position()
                    == p,
                None => r is None,
            },
    {
        let mut attrs = AttrMap::new();
        proof {
            use_type_invariant(&*self);
            assert(attr_model(attrs) =~= Map::empty());
        }
        loop
            invariant
                self.source() == old(self).source(),
                0 <= self.position() <= self.source().len(),
                grammar::attrs(old(self).source(), old(self).position(), Map::empty())
                    == grammar::attrs(self.source(), self.position(), attr_model(attrs)),
            decreases self.source().len() - self.position(),
        {
            self.consume_whitespace();
            if self.eof() {
                return None;
            }
            if self.next_char() == '>' {
                return Some(attrs);
            }
            proof {
                grammar::lemma_attr(self.source(), self.position());
            }
            let ghost before = attr_model(attrs);
            match self.parse_attr() {
                Some((name, value)) => {
                    let ghost k = name@;
                    let ghost v = value@;
                    attrs.insert(name, value);
                    assert(attr_model(attrs) =~= before.insert(k, v));
                },
                None => {
                    return None;
                },
            }
        }
    }

    /// Reads text up to the next `<`.
    pub fn parse_text(&mut self) -> (node: Node)
        ensures
            final(self).source() == old(self).source(),
            (node@, final(self).position()) == grammar::text_node(
                old(self).source(),
                old(self).position(),
            ),
    {
        crate::node::text(self.consume_while(CharClass::Except('<')))
    }

    /// Reads one node: an element where `<` stands, text otherwise.
    pub fn parse_node(&mut self) -> (r: Option<Node>)
        ensures
            final(self).source() == old(self).source(),
            match grammar::node(old(self).source(), old(self).position()) {
                Some((m, p)) => r matches Some(x) && x@ == m && final(self).position() == p,
                None => r is None,
            },
        decreases old(self).source().len() - old(self).position(), 1nat,
    {
        if self.eof() {
            return None;
        }
        if self.next_char() == '<' {
            self.parse_element()
        } else {
            Some(self.parse_text())
        }
    }

    /// Reads an element: its opening tag with attributes, the nodes inside,
    /// and its closing tag, which has to name the same tag.
    pub fn parse_element(&mut self) -> (r: Option<Node>)
        ensures
            final(self).source() == old(self).source(),
            match grammar::element(old(self).source(), old(self).position()) {
                Some((m, p)) => r matches Some(x) && x@ == m && final(self).position() == p,
                None => r is None,
            },
        decreases old(self).source().len() - old(self).position(), 0nat,
    {
        if !self.expect('<') {
            return None;
        }
        let tag_name = self.parse_tag_name();
        proof {
            grammar::lemma_attrs(self.source(), self.position(), Map::empty());
        }
        let attrs = match self.parse_attrs() {
            Some(a) => a,
            None => {
                return None;
            },
        };
        self.expect('>');

        let children = match self.parse_nodes() {
            Some(c) => c,
            None => {
                return None;
            },
        };

        if !self.expect('<') {
            return None;
        }
        if !self.expect('/') {
            return None;
        }
        let closing = self.parse_tag_name();
        if closing != tag_name {
            return None;
        }
        if !self.expect('>') {
            return None;
        }
        Some(crate::node::elem(tag_name, attrs, children))
    }

    /// Reads nodes up to the end of the text or to a closing tag.
    pub fn parse_nodes(&mut self) -> (r: Option<Vec<Node>>)
        ensures
            final(self).source() == old(self).source(),
            match grammar::nodes(old(self).source(), old(self).position(), Seq::empty()) {
                Some((list, p)) => r matches Some(v) && node_models(v@) == list
                    && final(self).position() == p,
                None => r is None,
            },
        decreases old(self).source().len() - old(self).position(), 2nat,
    {
        let mut nodes: Vec<Node> = Vec::new();
        proof {
            use_type_invariant(&*self);
            assert(node_models(nodes@) =~= Seq::empty());
        }
        loop
            invariant
                self.source() == old(self).source(),
                old(self).position() <= self.position() <= self.source().len(),
                grammar::nodes(old(self).source(), old(self).position(), Seq::empty())
                    == grammar::nodes(self.source(), self.position(), node_models(nodes@)),
            decreases self.source().len() - self.position(),
        {
            self.consume_whitespace();
            if self.eof() || self.starts_with("</") {
                return Some(nodes);
            }
            proof {
                grammar::lemma_node(self.source(), self.position());
            }
            let ghost before = node_models(nodes@);
            match self.parse_node() {
                Some(node) => {
                    nodes.push(node);
                    assert(node_models(nodes@) =~= before.push(node@));
                },
                None => {
                    return None;
                },
            }
        }
    }
}

/// Reads a document. Where the text holds just one node, that is the
/// document; otherwise the document is an element `html` around its nodes.
/// `None` where the text is not well formed.
pub fn parse_document(input: String) -> (r: Option<Node>)
    ensures
        match grammar::document(input@) {
            Some(m) => r matches Some(x) && x@ == m,
            None => r is None,
        },
{
    let mut parser = Parser::new(input);
    let mut nodes = match parser.parse_nodes() {
        Some(n) => n,
        None => {
            return None;
        },
    };
    if nodes.len() == 1 {
        Some(nodes.swap_remove(0))
    } else {
        let attrs = AttrMap::new();
        assert(attr_model(attrs) =~= Map::empty());
        Some(crate::node::elem("html".to_owned(), attrs, nodes))
    }
}

/// Reads a document from text that is well formed.
pub fn parse(input: String) -> (node: Node)
    requires
        grammar::document(input@) is Some,
    ensures
        Some(node@) == grammar::document(input@),
{
    match parse_document(input) {
        Some(node) => node,
        None => vstd::pervasive::unreached(),
    }
}

} // verus!
