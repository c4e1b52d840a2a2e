//! The parse tree and its adapter: from the nodes that the grammar's rules
//! produce to identifiers, integers and lists of exports.

use vstd::prelude::*;
use vstd::string::is_ascii_spec_bytes;
pub use crate::grammar::{ChurchParser, SyntaxError};
use crate::names::{names_of, NameSet};

verus! {

/// The rules of the grammar. A node of the parse tree carries the rule that
/// produced it.
#[allow(non_camel_case_types)]
#[derive(Clone, Copy, Debug, PartialEq, Eq, Structural)]
pub enum Rule {
    /// The end of the input.
    EOI,
    /// A whole program: an optional module clause and the declarations.
    file,
    /// The module clause: the module's name and the tuple of its exports.
    module,
    /// The name of a module.
    Name,
    /// A list of names in parentheses.
    tuple,
    /// A declaration: a name and an expression.
    declaration,
    /// The name of a declaration.
    name,
    /// An expression: an integer or a name.
    expression,
    /// An integer literal.
    integer,
}

/// A node of the parse tree: the rule that matched, the text that it
/// matched, and the nodes of the rules that matched inside it.
#[derive(Debug, PartialEq, Eq)]
pub struct Pair {
    pub rule: Rule,
    pub text: String,
    pub inner: Vec<Pair>,
}

impl Pair {
    /// The rule that produced the node.
    pub fn as_rule(&self) -> (rule: Rule)
        ensures
            rule == self.rule,
    {
        self.rule
    }

    /// The text that the node's rule matched.
    pub fn as_str(&self) -> (text: &str)
        ensures
            text@ == self.text@,
    {
        self.text.as_str()
    }

    /// The nodes inside the node.
    pub fn into_inner(&self) -> (inner: &Vec<Pair>)
        ensures
            *inner == self.inner,
    {
        &self.inner
    }
}

/// The mathematical model of a [`Pair`].
pub struct Node {
    pub rule: Rule,
    pub text: Seq<char>,
    pub inner: Seq<Node>,
}

/// The model of a node of the parse tree.
pub open spec fn node_of(pair: Pair) -> Node
    decreases pair,
{
    Node {
        rule: pair.rule,
        text: pair.text@,
        inner: Seq::new(
            pair.inner@.len(),
            |i: int|
                if 0 <= i < pair.inner@.len() {
                    node_of(pair.inner@[i])
                } else {
                    arbitrary()
                },
        ),
    }
}

/// The models of a list of nodes.
pub open spec fn nodes_of(pairs: Seq<Pair>) -> Seq<Node> {
    Seq::new(pairs.len(), |i: int| node_of(pairs[i]))
}

impl View for Pair {
    type V = Node;

    open spec fn view(&self) -> Node {
        node_of(*self)
    }
}

/// The model of a node is made of its rule, its text and the models of the
/// nodes inside it.
pub proof fn lemma_node_of(pair: Pair)
    ensures
        node_of(pair).rule == pair.rule,
        node_of(pair).text == pair.text@,
        node_of(pair).inner == nodes_of(pair.inner@),
{
}

/// Whether `c` is a decimal digit.
pub open spec fn is_digit(c: char) -> bool {
    '0' <= c <= '9'
}

/// Whether `s` is made of decimal digits only.
pub open spec fn all_digits(s: Seq<char>) -> bool {
    forall|i: int| 0 <= i < s.len() ==> is_digit(#[trigger] s[i])
}

/// The number that a sequence of decimal digits stands for.
pub open spec fn digits_value(s: Seq<char>) -> int
    decreases s.len(),
{
    if s.len() == 0 {
        0
    } else {
        digits_value(s.drop_last()) * 10 + (s.last() as int - '0' as int)
    }
}

/// The digits of an integer literal: what follows its sign, if it has one.
pub open spec fn literal_digits(s: Seq<char>) -> Seq<char> {
    if s.len() > 0 && (s[0] == '-' || s[0] == '+') {
        s.skip(1)
    } else {
        s
    }
}

/// The value of an integer literal: an optional sign, `+` or `-`, and one
/// or more decimal digits, which stand for a number that fits in 32 bits.
/// Anything else is no literal.
pub open spec fn literal_value(s: Seq<char>) -> Option<i32> {
    let digits = literal_digits(s);
    let magnitude = digits_value(digits);
    let value = if s.len() > 0 && s[0] == '-' {
        -magnitude
    } else {
        magnitude
    };
    if digits.len() > 0 && all_digits(digits) && i32::MIN <= value <= i32::MAX {
        Some(value as i32)
    } else {
        None
    }
}

/// The value of a sequence of digits is not negative, and grows with every
/// digit that is added.
pub proof fn lemma_digits_value_prefix(s: Seq<char>, i: int)
    requires
        all_digits(s),
        0 <= i <= s.len(),
    ensures
        0 <= digits_value(s.take(i)) <= digits_value(s),
    decreases s.len() - i,
{
    lemma_digits_value_nonnegative(s.take(i));
    if i < s.len() {
        assert(s.take(i + 1).drop_last() == s.take(i));
        lemma_digits_value_prefix(s, i + 1);
    } else {
        assert(s.take(i) == s);
    }
}

/// The value of a sequence of digits is not negative.
pub proof fn lemma_digits_value_nonnegative(s: Seq<char>)
    requires
        all_digits(s),
    ensures
        0 <= digits_value(s),
    decreases s.len(),
{
    if s.len() > 0 {
        lemma_digits_value_nonnegative(s.drop_last());
    }
}

/// Reads an integer literal: `None` where `text` is no literal.
pub fn parse_i32(text: &str) -> (r: Option<i32>)
    ensures
        r == literal_value(text@),
{
    if !text.is_ascii() {
        proof {
            let s = text@;
            let digits = literal_digits(s);
            if digits.len() > 0 && all_digits(digits) {
                let i = choose|i: int| 0 <= i < s.len() && !('\0' <= #[trigger] s[i] <= '\u{7f}');
                if s != digits {
                    assert(digits[i - 1] == s[i]);
                }
            }
        }
        return None;
    }
    let bytes = text.as_bytes();
    proof {
        is_ascii_spec_bytes(text);
    }
    let n = bytes.len();
    let ghost s = text@;
    let ghost digits = literal_digits(s);
    let negative = n > 0 && bytes[0] == 45;
    let start: usize = if n > 0 && (bytes[0] == 45 || bytes[0] == 43) {
        1
    } else {
        0
    };
    if start == n {
        return None;
    }
    let mut magnitude: u64 = 0;
    let mut i: usize = start;
    while i < n
        invariant
            start <= i <= n,
            n == bytes.len(),
            n == s.len(),
            digits == s.skip(start as int),
            digits == literal_digits(s),
            s == text@,
            forall|k: int| 0 <= k < n ==> bytes[k] == s[k] as u8,
            forall|k: int| 0 <= k < n ==> '\0' <= #[trigger] s[k] <= '\u{7f}',
            all_digits(digits.take(i - start)),
            magnitude == digits_value(digits.take(i - start)),
            magnitude <= 0x8000_0000,
        decreases n - i,
    {
        let b = bytes[i];
        let ghost c = s[i as int];
        assert(digits[i - start] == c);
        if b < 48 || b > 57 {
            return None;
        }
        proof {
            let next = digits.take(i - start + 1);
            assert(next.drop_last() == digits.take(i - start));
            assert(all_digits(next));
        }
        magnitude = magnitude * 10 + (b - 48) as u64;
        if magnitude > 0x8000_0000 {
            proof {
                if all_digits(digits) {
                    lemma_digits_value_prefix(digits, i - start + 1);
                }
            }
            return None;
        }
        i = i + 1;
    }
    assert(digits.take(n - start) == digits);
    if negative {
        if magnitude == 0x8000_0000 {
            Some(i32::MIN)
        } else {
            Some(-(magnitude as i32))
        }
    } else if magnitude == 0x8000_0000 {
        None
    } else {
        Some(magnitude as i32)
    }
}

/// Whether the node is anything but the end of the input.
pub fn is_not_eoi(pair: &Pair) -> (b: bool)
    ensures
        b == (pair.rule != Rule::EOI),
{
    match pair.rule {
        Rule::EOI => false,
        _ => true,
    }
}

/// The identifier of a module: the node's text.
pub fn uid(pair: &Pair) -> (s: String)
    ensures
        s@ == pair.text@,
{
    pair.text.clone()
}

/// The identifier of a declaration: the node's text.
pub fn id(pair: &Pair) -> (s: String)
    ensures
        s@ == pair.text@,
{
    pair.text.clone()
}

/// The integer that the node's text stands for. The grammar produces
/// integer nodes on literals only, and the adapter relies on it.
pub fn integer(pair: &Pair) -> (v: i32)
    requires
        literal_value(pair.text@) is Some,
    ensures
        Some(v) == literal_value(pair.text@),
{
    match parse_i32(pair.text.as_str()) {
        Some(v) => v,
        None => 0,
    }
}

/// The texts of a list of nodes.
pub open spec fn texts(nodes: Seq<Node>) -> Seq<Seq<char>> {
    nodes.map_values(|n: Node| n.text)
}

/// The exported names: the set of the identifiers of the nodes of the list.
pub fn exports(pairs: &Vec<Pair>) -> (names: NameSet)
    ensures
        names@ == texts(nodes_of(pairs@)).to_set(),
{
    let ghost all = texts(nodes_of(pairs@));
    let mut names: Vec<String> = Vec::new();
    let mut i: usize = 0;
    while i < pairs.len()
        invariant
            i <= pairs.len(),
            all == texts(nodes_of(pairs@)),
            names_of(names@) == all.take(i as int),
        decreases pairs.len() - i,
    {
        let ghost before = names_of(names@);
        let name = id(&pairs[i]);
        names.push(name);
        proof {
            lemma_node_of(pairs[i as int]);
            assert(names_of(names@) == before.push(name@));
        }
        i = i + 1;
    }
    assert(all.take(i as int) == all);
    NameSet::from(names)
}

} // verus!
