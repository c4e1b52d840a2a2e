//! The grammar of the source language, and the parser that follows it.
//!
//! ```text
//! file        = { module? declaration* EOI }
//! module      = { "module" Name tuple ";" }
//! tuple       = { "(" (name ("," name)*)? ")" }
//! declaration = { name "=" expression ";" }
//! expression  = { integer | name }
//! Name        = upper (letter | digit | "_")*
//! name        = lower (letter | digit | "_")*
//! integer     = ("+" | "-")? digit+        that fits in 32 bits
//! ```
//!
//! Blanks, tabs and line ends may stand between the parts of a rule written
//! in braces, and before and after the items of a file. Choices are ordered
//! and repetitions take all that they can, so that a text has one parse at
//! most.

use vstd::prelude::*;
use vstd::string::{is_ascii_spec_bytes, StrSliceExecFns, StringExecFns};
use crate::ast::{decl_shape, expr_shape, file_shape, header_shape, top_shape};
use crate::parser::{
    lemma_node_of, literal_value, node_of, nodes_of, parse_i32, Node, Pair, Rule,
};

verus! {

/// The classes of characters that the grammar tells apart.
#[derive(Clone, Copy, Debug, PartialEq, Eq, Structural)]
pub enum Class {
    /// A blank, a tab or a line end.
    Space,
    /// A lower-case letter.
    Lower,
    /// An upper-case letter.
    Upper,
    /// A decimal digit.
    Digit,
    /// A letter, a digit or an underscore: what an identifier goes on with.
    Ident,
}

impl Class {
    /// Whether `c` belongs to the class.
    pub open spec fn holds(self, c: char) -> bool {
        match self {
            Class::Space => c == ' ' || c == '\t' || c == '\n' || c == '\r',
            Class::Lower => 'a' <= c <= 'z',
            Class::Upper => 'A' <= c <= 'Z',
            Class::Digit => '0' <= c <= '9',
            Class::Ident => ('a' <= c <= 'z') || ('A' <= c <= 'Z') || ('0' <= c <= '9') || c
                == '_',
        }
    }

    /// Whether the character with the code point `code` belongs to the
    /// class.
    pub open spec fn holds_code(self, code: u32) -> bool {
        match self {
            Class::Space => code == 32 || code == 9 || code == 10 || code == 13,
            Class::Lower => 97 <= code <= 122,
            Class::Upper => 65 <= code <= 90,
            Class::Digit => 48 <= code <= 57,
            Class::Ident => (97 <= code <= 122) || (65 <= code <= 90) || (48 <= code <= 57)
                || code == 95,
        }
    }

    /// A character belongs to a class exactly where its code point does.
    pub proof fn lemma_holds(self, c: char)
        ensures
            self.holds(c) == self.holds_code(c as u32),
    {
    }

    /// Whether the character with the code point `code` belongs to the
    /// class.
    pub fn test(self, code: u32) -> (b: bool)
        ensures
            b == self.holds_code(code),
    {
        match self {
            Class::Space => code == 32 || code == 9 || code == 10 || code == 13,
            Class::Lower => 97 <= code && code <= 122,
            Class::Upper => 65 <= code && code <= 90,
            Class::Digit => 48 <= code && code <= 57,
            Class::Ident => (97 <= code && code <= 122) || (65 <= code && code <= 90) || (48
                <= code && code <= 57) || code == 95,
        }
    }
}

/// The first position at or after `i` whose character is not of the class
/// `class`: the end of the text where there is none.
pub open spec fn skip(s: Seq<char>, i: int, class: Class) -> int
    decreases s.len() - i,
{
    if 0 <= i < s.len() && class.holds(s[i]) {
        skip(s, i + 1, class)
    } else {
        i
    }
}

/// Whether the character `c` stands at `i`.
pub open spec fn char_at(s: Seq<char>, i: int, c: char) -> bool {
    0 <= i < s.len() && s[i] == c
}

/// Whether the word `module` stands at `i`.
pub open spec fn keyword_at(s: Seq<char>, i: int) -> bool {
    &&& 0 <= i
    &&& i + 6 <= s.len()
    &&& s[i] == 'm'
    &&& s[i + 1] == 'o'
    &&& s[i + 2] == 'd'
    &&& s[i + 3] == 'u'
    &&& s[i + 4] == 'l'
    &&& s[i + 5] == 'e'
}

/// The end of the identifier at `i` that starts with a character of the
/// class `first`, if there is one.
pub open spec fn ident_end(s: Seq<char>, i: int, first: Class) -> Option<int> {
    if 0 <= i < s.len() && first.holds(s[i]) {
        Some(skip(s, i + 1, Class::Ident))
    } else {
        None
    }
}

/// The end of the integer literal at `i`, if there is one: an optional
/// sign and all the digits that follow, which stand for a number that fits
/// in 32 bits.
pub open spec fn integer_end(s: Seq<char>, i: int) -> Option<int> {
    let digits = if char_at(s, i, '+') || char_at(s, i, '-') {
        i + 1
    } else {
        i
    };
    let end = skip(s, digits, Class::Digit);
    if 0 <= i && digits < end <= s.len() && literal_value(s.subrange(i, end)) is Some {
        Some(end)
    } else {
        None
    }
}

/// A node without nodes inside: the rule and the text from `from` to `to`.
pub open spec fn leaf(s: Seq<char>, rule: Rule, from: int, to: int) -> Node {
    Node { rule, text: s.subrange(from, to), inner: Seq::empty() }
}

/// `expression = { integer | name }` at `i`: the node and the position
/// after it, or the position at which neither an integer nor a name starts.
pub open spec fn parse_expression(s: Seq<char>, i: int) -> Result<(Node, int), int> {
    match integer_end(s, i) {
        Some(end) => Ok(
            (
                Node {
                    rule: Rule::expression,
                    text: s.subrange(i, end),
                    inner: seq![leaf(s, Rule::integer, i, end)],
                },
                end,
            ),
        ),
        None => match ident_end(s, i, Class::Lower) {
            Some(end) => Ok(
                (
                    Node {
                        rule: Rule::expression,
                        text: s.subrange(i, end),
                        inner: seq![leaf(s, Rule::name, i, end)],
                    },
                    end,
                ),
            ),
            None => Err(i),
        },
    }
}

/// `declaration = { name "=" expression ";" }` at `i`: the node and the
/// position after it, or the position at which the next part is missing.
pub open spec fn parse_declaration(s: Seq<char>, i: int) -> Result<(Node, int), int> {
    match ident_end(s, i, Class::Lower) {
        None => Err(i),
        Some(name_end) => {
            let equals = skip(s, name_end, Class::Space);
            if !char_at(s, equals, '=') {
                Err(equals)
            } else {
                match parse_expression(s, skip(s, equals + 1, Class::Space)) {
                    Err(at) => Err(at),
                    Ok((expression, expression_end)) => {
                        let semicolon = skip(s, expression_end, Class::Space);
                        if !char_at(s, semicolon, ';') {
                            Err(semicolon)
                        } else {
                            Ok(
                                (
                                    Node {
                                        rule: Rule::declaration,
                                        text: s.subrange(i, semicolon + 1),
                                        inner: seq![leaf(s, Rule::name, i, name_end), expression],
                                    },
                                    semicolon + 1,
                                ),
                            )
                        }
                    },
                }
            }
        },
    }
}

/// `("," name)*` after a name that ends at `i`, with the names before it in
/// `names`: all the names and the position of what follows the last, or
/// the position after a comma at which no name starts.
pub open spec fn parse_names(s: Seq<char>, i: int, names: Seq<Node>) -> Result<
    (Seq<Node>, int),
    int,
>
    decreases s.len() - i,
{
    let comma = skip(s, i, Class::Space);
    if !char_at(s, comma, ',') {
        Ok((names, comma))
    } else {
        let start = skip(s, comma + 1, Class::Space);
        match ident_end(s, start, Class::Lower) {
            None => Err(start),
            Some(end) => if i < end <= s.len() {
                parse_names(s, end, names.push(leaf(s, Rule::name, start, end)))
            } else {
                Err(start)
            },
        }
    }
}

/// `tuple = { "(" (name ("," name)*)? ")" }` at `i`: the node, whose inner
/// nodes are the names, and the position after it, or the position at which
/// the next part is missing.
pub open spec fn parse_tuple(s: Seq<char>, i: int) -> Result<(Node, int), int> {
    if !char_at(s, i, '(') {
        Err(i)
    } else {
        let first = skip(s, i + 1, Class::Space);
        let listed = match ident_end(s, first, Class::Lower) {
            None => Ok((Seq::<Node>::empty(), first)),
            Some(end) => parse_names(s, end, seq![leaf(s, Rule::name, first, end)]),
        };
        match listed {
            Err(at) => Err(at),
            Ok((names, close)) => if !char_at(s, close, ')') {
                Err(close)
            } else {
                Ok(
                    (
                        Node { rule: Rule::tuple, text: s.subrange(i, close + 1), inner: names },
                        close + 1,
                    ),
                )
            },
        }
    }
}

/// `module = { "module" Name tuple ";" }` at `i`: the node and the position
/// after it, or the position at which the next part is missing.
pub open spec fn parse_module(s: Seq<char>, i: int) -> Result<(Node, int), int> {
    if !keyword_at(s, i) {
        Err(i)
    } else {
        let start = skip(s, i + 6, Class::Space);
        match ident_end(s, start, Class::Upper) {
            None => Err(start),
            Some(name_end) => match parse_tuple(s, skip(s, name_end, Class::Space)) {
                Err(at) => Err(at),
                Ok((tuple, tuple_end)) => {
                    let semicolon = skip(s, tuple_end, Class::Space);
                    if !char_at(s, semicolon, ';') {
                        Err(semicolon)
                    } else {
                        Ok(
                            (
                                Node {
                                    rule: Rule::module,
                                    text: s.subrange(i, semicolon + 1),
                                    inner: seq![leaf(s, Rule::Name, start, name_end), tuple],
                                },
                                semicolon + 1,
                            ),
                        )
                    }
                },
            },
        }
    }
}

/// `declaration* EOI` at `i`, with the nodes before it in `nodes`: all the
/// nodes, the last of them the end of the input, or the position at which a
/// declaration goes wrong.
pub open spec fn parse_declarations(s: Seq<char>, i: int, nodes: Seq<Node>) -> Result<
    Seq<Node>,
    int,
>
    decreases s.len() - i,
{
    let start = skip(s, i, Class::Space);
    if start >= s.len() {
        Ok(nodes.push(leaf(s, Rule::EOI, start, start)))
    } else {
        match parse_declaration(s, start) {
            Err(at) => Err(at),
            Ok((declaration, end)) => if i < end <= s.len() {
                parse_declarations(s, end, nodes.push(declaration))
            } else {
                Err(start)
            },
        }
    }
}

/// `file = { module? declaration* EOI }`: the top-level nodes of the text,
/// or the position at which it stops being a program. Where no module
/// clause stands at the start, the text is read as declarations; where that
/// fails too, the error is at the one of the two positions that lies
/// further on.
pub open spec fn parse_file(s: Seq<char>) -> Result<Seq<Node>, int> {
    let start = skip(s, 0, Class::Space);
    match parse_module(s, start) {
        Ok((module, end)) => parse_declarations(s, end, seq![module]),
        Err(in_module) => match parse_declarations(s, start, Seq::empty()) {
            Ok(nodes) => Ok(nodes),
            Err(at) => Err(if in_module > at {
                in_module
            } else {
                at
            }),
        },
    }
}

/// What the parser returns for a rule: for `file` the top-level nodes of
/// the whole text, for any other rule the one node of that rule at the
/// start of the text.
pub open spec fn parse_rule(rule: Rule, s: Seq<char>) -> Result<Seq<Node>, int> {
    match rule {
        Rule::file => parse_file(s),
        Rule::EOI => if s.len() == 0 {
            Ok(seq![leaf(s, Rule::EOI, 0, 0)])
        } else {
            Err(0)
        },
        Rule::module => one(parse_module(s, 0)),
        Rule::tuple => one(parse_tuple(s, 0)),
        Rule::declaration => one(parse_declaration(s, 0)),
        Rule::expression => one(parse_expression(s, 0)),
        Rule::Name => token(s, Rule::Name, ident_end(s, 0, Class::Upper)),
        Rule::name => token(s, Rule::name, ident_end(s, 0, Class::Lower)),
        Rule::integer => token(s, Rule::integer, integer_end(s, 0)),
    }
}

/// The node of a parse as a list of one node.
pub open spec fn one(r: Result<(Node, int), int>) -> Result<Seq<Node>, int> {
    match r {
        Ok((node, _)) => Ok(seq![node]),
        Err(at) => Err(at),
    }
}

/// The token at the start of the text that ends at `end`, as a list of one
/// node.
pub open spec fn token(s: Seq<char>, rule: Rule, end: Option<int>) -> Result<Seq<Node>, int> {
    match end {
        Some(end) => Ok(seq![leaf(s, rule, 0, end)]),
        None => Err(0),
    }
}

/// Whether a parser's result is the one that the grammar gives.
pub open spec fn agrees(r: Result<(Pair, usize), usize>, expected: Result<(Node, int), int>) -> bool {
    match r {
        Ok((pair, end)) => expected == Ok::<(Node, int), int>((node_of(pair), end as int)),
        Err(at) => expected == Err::<(Node, int), int>(at as int),
    }
}

/// Skipping stops inside the text, at a character that is not of the
/// class, and only passes over characters of the class.
pub proof fn lemma_skip(s: Seq<char>, i: int, class: Class)
    requires
        0 <= i <= s.len(),
    ensures
        i <= skip(s, i, class) <= s.len(),
        skip(s, i, class) < s.len() ==> !class.holds(s[skip(s, i, class)]),
        forall|k: int| i <= k < skip(s, i, class) ==> class.holds(#[trigger] s[k]),
    decreases s.len() - i,
{
    if i < s.len() && class.holds(s[i]) {
        lemma_skip(s, i + 1, class);
    }
}

/// An expression of the grammar ends after it starts, inside the text, and
/// an expression can be built from the nodes inside its node.
pub proof fn lemma_expression_shape(s: Seq<char>, i: int)
    requires
        0 <= i <= s.len(),
    ensures
        parse_expression(s, i) matches Ok((node, end)) ==> {
            &&& i < end <= s.len()
            &&& node.rule == Rule::expression
            &&& expr_shape(node.inner)
        },
{
    if i < s.len() {
        lemma_skip(s, i + 1, Class::Ident);
    }
}

/// A declaration of the grammar ends after it starts, inside the text, and
/// a declaration can be built from the nodes inside its node.
pub proof fn lemma_declaration_shape(s: Seq<char>, i: int)
    requires
        0 <= i <= s.len(),
    ensures
        parse_declaration(s, i) matches Ok((node, end)) ==> {
            &&& i < end <= s.len()
            &&& node.rule == Rule::declaration
            &&& decl_shape(node.inner)
        },
{
    if let Some(name_end) = ident_end(s, i, Class::Lower) {
        lemma_skip(s, i + 1, Class::Ident);
        lemma_skip(s, name_end, Class::Space);
        let equals = skip(s, name_end, Class::Space);
        if char_at(s, equals, '=') {
            lemma_skip(s, equals + 1, Class::Space);
            let start = skip(s, equals + 1, Class::Space);
            lemma_expression_shape(s, start);
            if let Ok((expression, expression_end)) = parse_expression(s, start) {
                lemma_skip(s, expression_end, Class::Space);
            }
        }
    }
}

/// A module clause of the grammar ends after it starts, inside the text, and
/// a header can be built from the nodes inside its node.
pub proof fn lemma_module_shape(s: Seq<char>, i: int)
    requires
        0 <= i <= s.len(),
    ensures
        parse_module(s, i) matches Ok((node, end)) ==> {
            &&& i < end <= s.len()
            &&& node.rule == Rule::module
            &&& header_shape(node.inner)
        },
{
    if keyword_at(s, i) {
        lemma_skip(s, i + 6, Class::Space);
        let start = skip(s, i + 6, Class::Space);
        if let Some(name_end) = ident_end(s, start, Class::Upper) {
            lemma_skip(s, start + 1, Class::Ident);
            lemma_skip(s, name_end, Class::Space);
            let open = skip(s, name_end, Class::Space);
            if let Ok((tuple, tuple_end)) = parse_tuple(s, open) {
                lemma_tuple_rule(s, open);
                lemma_skip(s, tuple_end, Class::Space);
            }
        }
    }
}

/// The list of names after the first ends where it started or later, and
/// keeps the names that came before it.
pub proof fn lemma_names_end(s: Seq<char>, i: int, names: Seq<Node>)
    requires
        0 <= i <= s.len(),
    ensures
        parse_names(s, i, names) matches Ok((all, end)) ==> i <= end <= s.len() && names.len()
            <= all.len(),
    decreases s.len() - i,
{
    lemma_skip(s, i, Class::Space);
    let comma = skip(s, i, Class::Space);
    if char_at(s, comma, ',') {
        lemma_skip(s, comma + 1, Class::Space);
        let start = skip(s, comma + 1, Class::Space);
        if let Some(end) = ident_end(s, start, Class::Lower) {
            if i < end <= s.len() {
                lemma_names_end(s, end, names.push(leaf(s, Rule::name, start, end)));
            }
        }
    }
}

/// A tuple of the grammar is a node of the rule `tuple` that ends after it
/// starts, inside the text.
pub proof fn lemma_tuple_rule(s: Seq<char>, i: int)
    requires
        0 <= i <= s.len(),
    ensures
        parse_tuple(s, i) matches Ok((node, end)) ==> i < end <= s.len() && node.rule
            == Rule::tuple,
{
    if char_at(s, i, '(') {
        lemma_skip(s, i + 1, Class::Space);
        let first = skip(s, i + 1, Class::Space);
        match ident_end(s, first, Class::Lower) {
            None => {},
            Some(end) => {
                lemma_skip(s, first + 1, Class::Ident);
                lemma_names_end(s, end, seq![leaf(s, Rule::name, first, end)]);
            },
        }
    }
}

/// Where a declaration goes wrong, it does so at or after its start, inside
/// the text or at its end.
pub proof fn lemma_declaration_error(s: Seq<char>, i: int)
    requires
        0 <= i <= s.len(),
    ensures
        parse_declaration(s, i) matches Err(at) ==> i <= at <= s.len(),
{
    if let Some(name_end) = ident_end(s, i, Class::Lower) {
        lemma_skip(s, i + 1, Class::Ident);
        lemma_skip(s, name_end, Class::Space);
        let equals = skip(s, name_end, Class::Space);
        if char_at(s, equals, '=') {
            lemma_skip(s, equals + 1, Class::Space);
            let start = skip(s, equals + 1, Class::Space);
            lemma_expression_shape(s, start);
            if let Ok((expression, expression_end)) = parse_expression(s, start) {
                lemma_skip(s, expression_end, Class::Space);
            }
        }
    }
}

/// Where the declarations of a file go wrong, they do so at or after their
/// start, inside the text or at its end.
pub proof fn lemma_declarations_error(s: Seq<char>, i: int, nodes: Seq<Node>)
    requires
        0 <= i <= s.len(),
    ensures
        parse_declarations(s, i, nodes) matches Err(at) ==> i <= at <= s.len(),
    decreases s.len() - i,
{
    lemma_skip(s, i, Class::Space);
    let start = skip(s, i, Class::Space);
    if start < s.len() {
        lemma_declaration_shape(s, start);
        lemma_declaration_error(s, start);
        if let Ok((declaration, end)) = parse_declaration(s, start) {
            lemma_declarations_error(s, end, nodes.push(declaration));
        }
    }
}

/// The declarations of the grammar keep the shape of the nodes before them:
/// a tree can be built from all of them together.
pub proof fn lemma_declarations_shape(s: Seq<char>, i: int, nodes: Seq<Node>)
    requires
        0 <= i <= s.len(),
        file_shape(nodes),
    ensures
        parse_declarations(s, i, nodes) matches Ok(all) ==> file_shape(all),
    decreases s.len() - i,
{
    lemma_skip(s, i, Class::Space);
    let start = skip(s, i, Class::Space);
    if start >= s.len() {
    } else {
        lemma_declaration_shape(s, start);
        if let Ok((declaration, end)) = parse_declaration(s, start) {
            let more = nodes.push(declaration);
            lemma_declarations_shape(s, end, more);
        }
    }
}

/// A tree can be built from every parse of a file: the top-level nodes are
/// module nodes, declaration nodes and the end of the input, each with
/// nodes of the right shape inside.
pub proof fn lemma_file_shape(s: Seq<char>)
    ensures
        parse_file(s) matches Ok(nodes) ==> file_shape(nodes),
{
    lemma_skip(s, 0, Class::Space);
    let start = skip(s, 0, Class::Space);
    lemma_module_shape(s, start);
    match parse_module(s, start) {
        Ok((module, end)) => {
            let nodes = seq![module];
            lemma_declarations_shape(s, end, nodes);
        },
        Err(_) => {
            lemma_declarations_shape(s, start, Seq::empty());
        },
    }
}

/// A source text, read by the positions of its characters. A text in ASCII
/// is read in place; any other is searched from its start on every read.
pub struct Source<'a> {
    text: &'a str,
    ascii: bool,
    len: usize,
}

impl<'a> View for Source<'a> {
    type V = Seq<char>;

    closed spec fn view(&self) -> Seq<char> {
        self.text@
    }
}

impl<'a> Source<'a> {
    /// Whether the reader agrees with its text.
    pub closed spec fn wf(&self) -> bool {
        &&& self.len == self.text@.len()
        &&& self.ascii == self.text.is_ascii()
    }

    /// The reader of `text`.
    pub fn new(text: &'a str) -> (source: Source<'a>)
        ensures
            source.wf(),
            source@ == text@,
    {
        let ascii = text.is_ascii();
        let len = if ascii {
            proof {
                is_ascii_spec_bytes(text);
            }
            text.as_bytes().len()
        } else {
            text.unicode_len()
        };
        Source { text, ascii, len }
    }

    /// The number of characters of the text.
    pub fn len(&self) -> (n: usize)
        requires
            self.wf(),
        ensures
            n == self@.len(),
    {
        self.len
    }

    /// The code point of the character at `i`.
    pub fn at(&self, i: usize) -> (code: u32)
        requires
            self.wf(),
            i < self@.len(),
        ensures
            code == self@[i as int] as u32,
    {
        if self.ascii {
            proof {
                is_ascii_spec_bytes(self.text);
            }
            self.text.as_bytes()[i] as u32
        } else {
            self.text.get_char(i) as u32
        }
    }

    /// The characters from `from` up to `to`, as a string.
    pub fn slice(&self, from: usize, to: usize) -> (s: String)
        requires
            self.wf(),
            from <= to <= self@.len(),
        ensures
            s@ == self@.subrange(from as int, to as int),
    {
        if self.ascii {
            String::from_str(self.text.substring_ascii(from, to))
        } else {
            String::from_str(self.text.substring_char(from, to))
        }
    }

    /// Whether the character `c` stands at `i`.
    pub fn has(&self, i: usize, c: char) -> (b: bool)
        requires
            self.wf(),
        ensures
            b == char_at(self@, i as int, c),
    {
        if i < self.len {
            let code = self.at(i);
            proof {
                vstd::utf8::char_u32_cast(self@[i as int], code);
                vstd::utf8::char_u32_cast(c, c as u32);
            }
            code == c as u32
        } else {
            false
        }
    }

    /// The first position at or after `from` whose character is not of the
    /// class `class`.
    pub fn skip(&self, from: usize, class: Class) -> (to: usize)
        requires
            self.wf(),
            from <= self@.len(),
        ensures
            to == skip(self@, from as int, class),
            from <= to <= self@.len(),
    {
        let mut i = from;
        let mut more = true;
        while more && i < self.len
            invariant
                self.wf(),
                from <= i <= self@.len(),
                skip(self@, from as int, class) == skip(self@, i as int, class),
                !more ==> i < self@.len() && !class.holds(self@[i as int]),
            decreases self.len - i + (if more { 1int } else { 0int }),
        {
            proof {
                class.lemma_holds(self@[i as int]);
            }
            if class.test(self.at(i)) {
                i = i + 1;
            } else {
                more = false;
            }
        }
        i
    }

    /// A node without nodes inside, for the text from `from` up to `to`.
    pub fn leaf(&self, rule: Rule, from: usize, to: usize) -> (pair: Pair)
        requires
            self.wf(),
            from <= to <= self@.len(),
        ensures
            node_of(pair) == leaf(self@, rule, from as int, to as int),
            pair.rule == rule,
            pair.text@ == self@.subrange(from as int, to as int),
            pair.inner@.len() == 0,
    {
        let pair = Pair { rule, text: self.slice(from, to), inner: Vec::new() };
        proof {
            lemma_node_of(pair);
            assert(nodes_of(pair.inner@) =~= Seq::<Node>::empty());
        }
        pair
    }

    /// The end of the identifier at `i` that starts with a character of the
    /// class `first`, if there is one.
    pub fn ident_end(&self, i: usize, first: Class) -> (r: Option<usize>)
        requires
            self.wf(),
            i <= self@.len(),
        ensures
            r matches Some(end) ==> ident_end(self@, i as int, first) == Some(end as int) && i
                < end <= self@.len(),
            r is None ==> ident_end(self@, i as int, first) is None,
    {
        if i < self.len {
            proof {
                first.lemma_holds(self@[i as int]);
            }
            if first.test(self.at(i)) {
                return Some(self.skip(i + 1, Class::Ident));
            }
        }
        None
    }

    /// The end of the integer literal at `i`, if there is one.
    pub fn integer_end(&self, i: usize) -> (r: Option<usize>)
        requires
            self.wf(),
            i <= self@.len(),
        ensures
            r matches Some(end) ==> integer_end(self@, i as int) == Some(end as int) && i < end
                <= self@.len(),
            r is None ==> integer_end(self@, i as int) is None,
    {
        let digits = if self.has(i, '+') || self.has(i, '-') {
            i + 1
        } else {
            i
        };
        let end = self.skip(digits, Class::Digit);
        if end == digits {
            return None;
        }
        let text = self.slice(i, end);
        match parse_i32(text.as_str()) {
            Some(_) => Some(end),
            None => None,
        }
    }

    /// Whether the word `module` stands at `i`.
    pub fn keyword_at(&self, i: usize) -> (b: bool)
        requires
            self.wf(),
            i <= self@.len(),
        ensures
            b == keyword_at(self@, i as int),
    {
        if self.len - i < 6 {
            return false;
        }
        self.has(i, 'm') && self.has(i + 1, 'o') && self.has(i + 2, 'd') && self.has(i + 3, 'u')
            && self.has(i + 4, 'l') && self.has(i + 5, 'e')
    }

    /// Parses an expression at `i`.
    pub fn parse_expression(&self, i: usize) -> (r: Result<(Pair, usize), usize>)
        requires
            self.wf(),
            i <= self@.len(),
        ensures
            agrees(r, parse_expression(self@, i as int)),
            r matches Ok((_, end)) ==> i < end <= self@.len(),
    {
        let (rule, end) = match self.integer_end(i) {
            Some(end) => (Rule::integer, end),
            None => match self.ident_end(i, Class::Lower) {
                Some(end) => (Rule::name, end),
                None => {
                    return Err(i);
                },
            },
        };
        let token = self.leaf(rule, i, end);
        let mut inner: Vec<Pair> = Vec::new();
        inner.push(token);
        let pair = Pair { rule: Rule::expression, text: self.slice(i, end), inner };
        proof {
            lemma_node_of(pair);
            assert(nodes_of(pair.inner@) =~= seq![node_of(token)]);
        }
        Ok((pair, end))
    }

    /// Parses a declaration at `i`.
    pub fn parse_declaration(&self, i: usize) -> (r: Result<(Pair, usize), usize>)
        requires
            self.wf(),
            i <= self@.len(),
        ensures
            agrees(r, parse_declaration(self@, i as int)),
            r matches Ok((_, end)) ==> i < end <= self@.len(),
    {
        let name_end = match self.ident_end(i, Class::Lower) {
            Some(end) => end,
            None => {
                return Err(i);
            },
        };
        let equals = self.skip(name_end, Class::Space);
        if !self.has(equals, '=') {
            return Err(equals);
        }
        let start = self.skip(equals + 1, Class::Space);
        let (expression, expression_end) = match self.parse_expression(start) {
            Ok(parsed) => parsed,
            Err(at) => {
                return Err(at);
            },
        };
        let semicolon = self.skip(expression_end, Class::Space);
        if !self.has(semicolon, ';') {
            return Err(semicolon);
        }
        let name = self.leaf(Rule::name, i, name_end);
        let mut inner: Vec<Pair> = Vec::new();
        inner.push(name);
        inner.push(expression);
        let pair = Pair { rule: Rule::declaration, text: self.slice(i, semicolon + 1), inner };
        proof {
            lemma_node_of(pair);
            assert(nodes_of(pair.inner@) =~= seq![node_of(name), node_of(expression)]);
        }
        Ok((pair, semicolon + 1))
    }

    /// Parses a tuple of names at `i`.
    pub fn parse_tuple(&self, i: usize) -> (r: Result<(Pair, usize), usize>)
        requires
            self.wf(),
            i <= self@.len(),
        ensures
            agrees(r, parse_tuple(self@, i as int)),
            r matches Ok((_, end)) ==> i < end <= self@.len(),
    {
        if !self.has(i, '(') {
            return Err(i);
        }
        let first = self.skip(i + 1, Class::Space);
        let mut names: Vec<Pair> = Vec::new();
        let mut close = first;
        match self.ident_end(first, Class::Lower) {
            None => {
                assert(nodes_of(names@) =~= Seq::<Node>::empty());
            },
            Some(end) => {
                let name = self.leaf(Rule::name, first, end);
                names.push(name);
                assert(nodes_of(names@) =~= seq![node_of(name)]);
                let ghost expected = parse_names(self@, end as int, nodes_of(names@));
                let mut at = end;
                let mut more = true;
                while more
                    invariant
                        self.wf(),
                        first < at <= self@.len(),
                        more ==> parse_names(self@, at as int, nodes_of(names@)) == expected,
                        expected matches Err(wrong) ==> parse_tuple(self@, i as int) == Err::<
                            (Node, int),
                            int,
                        >(wrong),
                        !more ==> expected == Ok::<(Seq<Node>, int), int>(
                            (nodes_of(names@), close as int),
                        ),
                        !more ==> at <= close <= self@.len(),
                    decreases self@.len() - at + (if more { 1int } else { 0int }),
                {
                    let comma = self.skip(at, Class::Space);
                    if !self.has(comma, ',') {
                        close = comma;
                        more = false;
                    } else {
                        let start = self.skip(comma + 1, Class::Space);
                        match self.ident_end(start, Class::Lower) {
                            None => {
                                return Err(start);
                            },
                            Some(next) => {
                                let ghost before = nodes_of(names@);
                                let name = self.leaf(Rule::name, start, next);
                                names.push(name);
                                assert(nodes_of(names@) =~= before.push(node_of(name)));
                                at = next;
                            },
                        }
                    }
                }
            },
        }
        if !self.has(close, ')') {
            return Err(close);
        }
        let pair = Pair { rule: Rule::tuple, text: self.slice(i, close + 1), inner: names };
        proof {
            lemma_node_of(pair);
        }
        Ok((pair, close + 1))
    }

    /// Parses a module clause at `i`.
    pub fn parse_module(&self, i: usize) -> (r: Result<(Pair, usize), usize>)
        requires
            self.wf(),
            i <= self@.len(),
        ensures
            agrees(r, parse_module(self@, i as int)),
            r matches Ok((_, end)) ==> i < end <= self@.len(),
    {
        if !self.keyword_at(i) {
            return Err(i);
        }
        let start = self.skip(i + 6, Class::Space);
        let name_end = match self.ident_end(start, Class::Upper) {
            Some(end) => end,
            None => {
                return Err(start);
            },
        };
        let open = self.skip(name_end, Class::Space);
        let (tuple, tuple_end) = match self.parse_tuple(open) {
            Ok(parsed) => parsed,
            Err(at) => {
                return Err(at);
            },
        };
        let semicolon = self.skip(tuple_end, Class::Space);
        if !self.has(semicolon, ';') {
            return Err(semicolon);
        }
        let name = self.leaf(Rule::Name, start, name_end);
        let mut inner: Vec<Pair> = Vec::new();
        inner.push(name);
        inner.push(tuple);
        let pair = Pair { rule: Rule::module, text: self.slice(i, semicolon + 1), inner };
        proof {
            lemma_node_of(pair);
            assert(nodes_of(pair.inner@) =~= seq![node_of(name), node_of(tuple)]);
        }
        Ok((pair, semicolon + 1))
    }

    /// Parses a whole program: the module clause, if there is one, the
    /// declarations and the end of the input.
    pub fn parse_file(&self) -> (r: Result<Vec<Pair>, usize>)
        requires
            self.wf(),
        ensures
            r matches Ok(pairs) ==> parse_file(self@) == Ok::<Seq<Node>, int>(nodes_of(pairs@)),
            r matches Err(at) ==> parse_file(self@) == Err::<Seq<Node>, int>(at as int),
    {
        let start = self.skip(0, Class::Space);
        let mut pairs: Vec<Pair> = Vec::new();
        let mut at = start;
        let mut furthest: usize = 0;
        match self.parse_module(start) {
            Ok((module, end)) => {
                pairs.push(module);
                assert(nodes_of(pairs@) =~= seq![node_of(module)]);
                at = end;
            },
            Err(in_module) => {
                assert(nodes_of(pairs@) =~= Seq::<Node>::empty());
                furthest = in_module;
            },
        }
        let ghost expected = parse_declarations(self@, at as int, nodes_of(pairs@));
        proof {
            lemma_declarations_error(self@, at as int, nodes_of(pairs@));
        }
        let mut more = true;
        while more
            invariant
                self.wf(),
                at <= self@.len(),
                expected matches Ok(nodes) ==> parse_file(self@) == expected,
                expected matches Err(wrong) ==> parse_file(self@) == Err::<Seq<Node>, int>(
                    if furthest > wrong {
                        furthest as int
                    } else {
                        wrong
                    },
                ),
                more ==> parse_declarations(self@, at as int, nodes_of(pairs@)) == expected,
                !more ==> expected == Ok::<Seq<Node>, int>(nodes_of(pairs@)),
            decreases self@.len() - at + (if more { 1int } else { 0int }),
        {
            let ghost before = nodes_of(pairs@);
            let next = self.skip(at, Class::Space);
            if next >= self.len {
                let eoi = self.leaf(Rule::EOI, next, next);
                pairs.push(eoi);
                assert(nodes_of(pairs@) =~= before.push(node_of(eoi)));
                more = false;
            } else {
                match self.parse_declaration(next) {
                    Err(position) => {
                        return Err(if furthest > position {
                            furthest
                        } else {
                            position
                        });
                    },
                    Ok((declaration, end)) => {
                        pairs.push(declaration);
                        assert(nodes_of(pairs@) =~= before.push(node_of(declaration)));
                        at = end;
                    },
                }
            }
        }
        Ok(pairs)
    }
}

/// What can be built from the nodes of a parse of `rule`: from a file a
/// tree, from a module clause a header, from a declaration a declaration,
/// from an expression an expression, from an integer its value.
pub open spec fn shaped(rule: Rule, nodes: Seq<Node>) -> bool {
    match rule {
        Rule::file => file_shape(nodes),
        Rule::module => nodes.len() == 1 && header_shape(nodes[0].inner),
        Rule::declaration => nodes.len() == 1 && decl_shape(nodes[0].inner),
        Rule::expression => nodes.len() == 1 && expr_shape(nodes[0].inner),
        Rule::integer => nodes.len() == 1 && literal_value(nodes[0].text) is Some,
        _ => nodes.len() == 1,
    }
}

/// The nodes of every parse have the shape that the builders of the syntax
/// tree rely on.
pub proof fn lemma_parse_shape(rule: Rule, s: Seq<char>)
    ensures
        parse_rule(rule, s) matches Ok(nodes) ==> shaped(rule, nodes),
{
    lemma_file_shape(s);
    lemma_module_shape(s, 0);
    lemma_declaration_shape(s, 0);
    lemma_expression_shape(s, 0);
}

/// A list of the one node `pair`.
fn single(pair: Pair) -> (pairs: Vec<Pair>)
    ensures
        nodes_of(pairs@) == seq![node_of(pair)],
{
    let mut pairs: Vec<Pair> = Vec::new();
    pairs.push(pair);
    pairs
}

/// Where the text stops following the grammar: the position of the
/// character at which the next part of a rule is missing.
#[derive(Debug, PartialEq, Eq)]
pub struct SyntaxError {
    pub position: usize,
}

/// The parser of the language.
#[derive(Debug)]
pub struct ChurchParser;

impl ChurchParser {
    /// Parses `src` by the rule `rule`. For `Rule::file` the whole text has
    /// to be a program, and its top-level nodes are returned: the module
    /// node, if there is a module clause, the declaration nodes and the end
    /// of the input. For any other rule the text has to start with what the
    /// rule describes, and the one node of it is returned.
    pub fn parse(rule: Rule, src: &str) -> (r: Result<Vec<Pair>, SyntaxError>)
        ensures
            r matches Ok(pairs) ==> parse_rule(rule, src@) == Ok::<Seq<Node>, int>(
                nodes_of(pairs@),
            ) && shaped(rule, nodes_of(pairs@)),
            r matches Err(e) ==> parse_rule(rule, src@) == Err::<Seq<Node>, int>(
                e.position as int,
            ),
    {
        let source = Source::new(src);
        proof {
            lemma_parse_shape(rule, src@);
        }
        let parsed = match rule {
            Rule::file => {
                return match source.parse_file() {
                    Ok(pairs) => Ok(pairs),
                    Err(position) => Err(SyntaxError { position }),
                };
            },
            Rule::EOI => {
                if source.len() == 0 {
                    Ok((source.leaf(Rule::EOI, 0, 0), 0))
                } else {
                    Err(0)
                }
            },
            Rule::module => source.parse_module(0),
            Rule::tuple => source.parse_tuple(0),
            Rule::declaration => source.parse_declaration(0),
            Rule::expression => source.parse_expression(0),
            Rule::Name => match source.ident_end(0, Class::Upper) {
                Some(end) => Ok((source.leaf(Rule::Name, 0, end), end)),
                None => Err(0),
            },
            Rule::name => match source.ident_end(0, Class::Lower) {
                Some(end) => Ok((source.leaf(Rule::name, 0, end), end)),
                None => Err(0),
            },
            Rule::integer => match source.integer_end(0) {
                Some(end) => Ok((source.leaf(Rule::integer, 0, end), end)),
                None => Err(0),
            },
        };
        match parsed {
            Ok((pair, _)) => Ok(single(pair)),
            Err(position) => Err(SyntaxError { position }),
        }
    }
}

} // verus!
