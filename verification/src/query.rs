use vstd::prelude::*;

use crate::error::Error;
use crate::filter::OrderKind;
use crate::types::{IndexKind, KeyType};
use crate::text::{chars_of, push_char, push_str, to_text};

verus! {

// The text forms of the query language: a comparison of a filter (the text
// after the field) and an action of a modifier (the text after the field).
// Values are expressions of the host language, held as text: operands
// joined by operators, as `scan` reads them, up to the first place outside
// brackets where no operator follows an operand.

/// Whether the character is white space
pub open spec fn is_ws(c: char) -> bool {
    c == ' ' || c == '\t' || c == '\n' || c == '\r'
}

/// Whether the character may continue an identifier
pub open spec fn is_ident(c: char) -> bool {
    ('a' <= c && c <= 'z') || ('A' <= c && c <= 'Z') || ('0' <= c && c <= '9') || c == '_'
}

/// Whether the character opens a bracket
pub open spec fn is_open(c: char) -> bool {
    c == '(' || c == '[' || c == '{'
}

/// Whether the character closes a bracket
pub open spec fn is_close(c: char) -> bool {
    c == ')' || c == ']' || c == '}'
}

/// Whether the text holds `c` at `i`
pub open spec fn holds_at(s: Seq<char>, i: int, c: char) -> bool {
    0 <= i < s.len() && s[i] == c
}

/// Whether the text holds the word `in` at `i`
pub open spec fn kw_in(s: Seq<char>, i: int) -> bool {
    holds_at(s, i, 'i') && holds_at(s, i + 1, 'n') && !(i + 2 < s.len() && is_ident(s[i + 2]))
}

/// Whether the text holds the word `of` at `i`
pub open spec fn kw_of(s: Seq<char>, i: int) -> bool {
    holds_at(s, i, 'o') && holds_at(s, i + 1, 'f') && !(i + 2 < s.len() && is_ident(s[i + 2]))
}

/// The first position from `i` on that holds no white space
pub open spec fn skip_ws(s: Seq<char>, i: int) -> int
    decreases s.len() - i,
{
    if 0 <= i < s.len() && is_ws(s[i]) {
        skip_ws(s, i + 1)
    } else {
        i
    }
}

/// `skip_ws` moves forward within the text
pub proof fn lemma_skip_ws(s: Seq<char>, i: int)
    requires
        0 <= i <= s.len(),
    ensures
        i <= skip_ws(s, i) <= s.len(),
    decreases s.len() - i,
{
    if i < s.len() && is_ws(s[i]) {
        lemma_skip_ws(s, i + 1);
    }
}

/// Whether the character is a decimal digit
pub open spec fn is_digit(c: char) -> bool {
    '0' <= c && c <= '9'
}

/// The end of the number literal whose rest starts at `i`: identifier
/// characters (digits, suffixes, exponents) and points followed by a digit
pub open spec fn number_end(s: Seq<char>, i: int) -> int
    decreases s.len() - i,
{
    if 0 <= i < s.len() && (is_ident(s[i]) || (s[i] == '.' && i + 1 < s.len() && is_digit(s[i + 1]))) {
        number_end(s, i + 1)
    } else {
        i
    }
}

/// `number_end` moves forward within the text
pub proof fn lemma_number_end(s: Seq<char>, i: int)
    requires
        0 <= i <= s.len(),
    ensures
        i <= number_end(s, i) <= s.len(),
    decreases s.len() - i,
{
    if i < s.len() && (is_ident(s[i]) || (s[i] == '.' && i + 1 < s.len() && is_digit(s[i + 1]))) {
        lemma_number_end(s, i + 1);
    }
}

/// `lit_close` finds a position past `i` within the text
pub proof fn lemma_lit_close(s: Seq<char>, i: int)
    ensures
        lit_close(s, i) matches Some(j) ==> i < j <= s.len(),
    decreases s.len() - i,
{
    if 0 <= i < s.len() && s[i] == '\\' && i + 1 < s.len() {
        lemma_lit_close(s, i + 2);
    } else if 0 <= i < s.len() && s[i] != '"' && s[i] != '\\' {
        lemma_lit_close(s, i + 1);
    }
}

/// The position past the bracket that closes the group whose text goes on at
/// `i`, inside `depth` more brackets; string literals are passed over whole,
/// and anything else may stand inside
pub open spec fn soup_close(s: Seq<char>, i: int, depth: nat) -> Option<int>
    decreases s.len() - i,
{
    if i < 0 || i >= s.len() {
        None
    } else if s[i] == '"' {
        match lit_close(s, i + 1) {
            Some(j) => {
                proof {
                    lemma_lit_close(s, i + 1);
                }
                soup_close(s, j, depth)
            },
            None => None,
        }
    } else if is_open(s[i]) {
        soup_close(s, i + 1, depth + 1)
    } else if is_close(s[i]) {
        if depth == 0 {
            Some(i + 1)
        } else {
            soup_close(s, i + 1, (depth - 1) as nat)
        }
    } else {
        soup_close(s, i + 1, depth)
    }
}

/// `soup_close` finds a position past `i` within the text
pub proof fn lemma_soup_close(s: Seq<char>, i: int, depth: nat)
    ensures
        soup_close(s, i, depth) matches Some(j) ==> i < j <= s.len(),
    decreases s.len() - i,
{
    if 0 <= i < s.len() {
        if s[i] == '"' {
            lemma_lit_close(s, i + 1);
            if let Some(j) = lit_close(s, i + 1) {
                lemma_soup_close(s, j, depth);
            }
        } else if is_open(s[i]) {
            lemma_soup_close(s, i + 1, depth + 1);
        } else if is_close(s[i]) {
            if depth > 0 {
                lemma_soup_close(s, i + 1, (depth - 1) as nat);
            }
        } else {
            lemma_soup_close(s, i + 1, depth);
        }
    }
}

/// The length of the operator that joins two operands at `i` (`as` among
/// them); 0 where none is there
pub open spec fn binop_len(s: Seq<char>, i: int) -> int {
    let c = if 0 <= i < s.len() { s[i] } else { ' ' };
    let d = if 0 <= i + 1 < s.len() { s[i + 1] } else { ' ' };
    if c == '.' && d == '.' && holds_at(s, i + 2, '=') {
        3
    } else if (d == '=' && (c == '=' || c == '!' || c == '<' || c == '>')) || (c == d && (c == '&' || c == '|'
        || c == '<' || c == '>' || c == '.' || c == ':')) {
        2
    } else if c == '+' || c == '-' || c == '*' || c == '/' || c == '%' || c == '^' || c == '<' || c == '>' || c
        == '&' || c == '|' || c == '.' {
        1
    } else if c == 'a' && d == 's' && !(0 <= i + 2 < s.len() && is_ident(s[i + 2])) {
        2
    } else {
        0
    }
}

/// Whether an expression outside brackets ends at `i`: at a comma, a
/// semicolon or a closing bracket, in a range point at `..`, in a filter at
/// `&&` or `||`
pub open spec fn ends_at(s: Seq<char>, i: int, range: bool, cond: bool) -> bool {
    let c = s[i];
    c == ',' || c == ';' || is_close(c) || (range && c == '.' && holds_at(s, i + 1, '.')) || (cond && ((c == '&'
        && holds_at(s, i + 1, '&')) || (c == '|' && holds_at(s, i + 1, '|'))))
}

/// The bracket that closes the one given
pub open spec fn close_of(c: char) -> char {
    if c == '(' {
        ')'
    } else {
        ']'
    }
}

/// Where the host expression scanned from `i` ends: `mode` 0 wants an operand,
/// 1 has just had one, 2 wants an operand or the close of the innermost
/// bracket; `stack` holds the open round and square brackets, `last` the end
/// of the last operand. An operand is a string literal, a number, an
/// identifier or a bracketed group, after prefix operators; operators join
/// operands, and calls, indexing, `?` and macro invocations follow them;
/// round and square brackets hold expressions separated by commas, braces
/// anything. Outside brackets the expression ends where no operator follows
/// an operand; inside them that is an error.
pub open spec fn scan(s: Seq<char>, i: int, mode: nat, stack: Seq<char>, last: int, range: bool, cond: bool) -> Option<int>
    decreases s.len() - i,
{
    if i < 0 || i > s.len() {
        None
    } else if i == s.len() {
        if mode == 1 && stack.len() == 0 {
            Some(last)
        } else {
            None
        }
    } else {
        let c = s[i];
        let top = if stack.len() > 0 { stack.last() } else { ' ' };
        if is_ws(c) {
            scan(s, i + 1, mode, stack, last, range, cond)
        } else if mode == 1 {
            if stack.len() == 0 && ends_at(s, i, range, cond) {
                Some(last)
            } else if stack.len() > 0 && c == ',' {
                scan(s, i + 1, 2, stack, last, range, cond)
            } else if stack.len() > 0 && c == ';' && top == '[' {
                scan(s, i + 1, 0, stack, last, range, cond)
            } else if stack.len() > 0 && c == close_of(top) {
                scan(s, i + 1, 1, stack.drop_last(), i + 1, range, cond)
            } else if c == '?' {
                scan(s, i + 1, 1, stack, i + 1, range, cond)
            } else if c == '!' && (holds_at(s, i + 1, '(') || holds_at(s, i + 1, '[')) {
                scan(s, i + 2, 2, stack.push(s[i + 1]), last, range, cond)
            } else if c == '!' && holds_at(s, i + 1, '{') {
                match soup_close(s, i + 2, 0) {
                    Some(j) => {
                        proof {
                            lemma_soup_close(s, i + 2, 0);
                        }
                        scan(s, j, 1, stack, j, range, cond)
                    },
                    None => None,
                }
            } else if c == '(' || c == '[' {
                scan(s, i + 1, 2, stack.push(c), last, range, cond)
            } else if binop_len(s, i) > 0 {
                scan(s, i + binop_len(s, i), 0, stack, last, range, cond)
            } else if stack.len() == 0 {
                Some(last)
            } else {
                None
            }
        } else if mode == 2 && stack.len() > 0 && c == close_of(top) {
            scan(s, i + 1, 1, stack.drop_last(), i + 1, range, cond)
        } else if c == '-' || c == '!' || c == '&' || c == '*' {
            scan(s, i + 1, 0, stack, last, range, cond)
        } else if c == '"' {
            match lit_close(s, i + 1) {
                Some(j) => {
                    proof {
                        lemma_lit_close(s, i + 1);
                    }
                    scan(s, j, 1, stack, j, range, cond)
                },
                None => None,
            }
        } else if is_digit(c) {
            let j = number_end(s, i + 1);
            proof {
                lemma_number_end(s, i + 1);
            }
            scan(s, j, 1, stack, j, range, cond)
        } else if is_ident_start(c) {
            let j = ident_end(s, i + 1);
            proof {
                lemma_ident_end(s, i + 1);
            }
            scan(s, j, 1, stack, j, range, cond)
        } else if c == '(' || c == '[' {
            scan(s, i + 1, 2, stack.push(c), last, range, cond)
        } else if c == '{' {
            match soup_close(s, i + 1, 0) {
                Some(j) => {
                    proof {
                        lemma_soup_close(s, i + 1, 0);
                    }
                    scan(s, j, 1, stack, j, range, cond)
                },
                None => None,
            }
        } else {
            None
        }
    }
}

/// An expression that `scan` finds ends within the text, past `lo`
pub proof fn lemma_scan(s: Seq<char>, i: int, mode: nat, stack: Seq<char>, last: int, lo: int, range: bool, cond: bool)
    requires
        lo <= last <= i,
        mode == 1 ==> lo < last,
    ensures
        scan(s, i, mode, stack, last, range, cond) matches Some(e) ==> lo < e <= s.len(),
    decreases s.len() - i,
{
    if 0 <= i < s.len() {
        let c = s[i];
        let top = if stack.len() > 0 { stack.last() } else { ' ' };
        if is_ws(c) {
            lemma_scan(s, i + 1, mode, stack, last, lo, range, cond);
        } else if mode == 1 {
            if stack.len() == 0 && ends_at(s, i, range, cond) {
            } else if stack.len() > 0 && c == ',' {
                lemma_scan(s, i + 1, 2, stack, last, lo, range, cond);
            } else if stack.len() > 0 && c == ';' && top == '[' {
                lemma_scan(s, i + 1, 0, stack, last, lo, range, cond);
            } else if stack.len() > 0 && c == close_of(top) {
                lemma_scan(s, i + 1, 1, stack.drop_last(), i + 1, lo, range, cond);
            } else if c == '?' {
                lemma_scan(s, i + 1, 1, stack, i + 1, lo, range, cond);
            } else if c == '!' && (holds_at(s, i + 1, '(') || holds_at(s, i + 1, '[')) {
                lemma_scan(s, i + 2, 2, stack.push(s[i + 1]), last, lo, range, cond);
            } else if c == '!' && holds_at(s, i + 1, '{') {
                lemma_soup_close(s, i + 2, 0);
                if let Some(j) = soup_close(s, i + 2, 0) {
                    lemma_scan(s, j, 1, stack, j, lo, range, cond);
                }
            } else if c == '(' || c == '[' {
                lemma_scan(s, i + 1, 2, stack.push(c), last, lo, range, cond);
            } else if binop_len(s, i) > 0 {
                lemma_scan(s, i + binop_len(s, i), 0, stack, last, lo, range, cond);
            }
        } else if mode == 2 && stack.len() > 0 && c == close_of(top) {
            lemma_scan(s, i + 1, 1, stack.drop_last(), i + 1, lo, range, cond);
        } else if c == '-' || c == '!' || c == '&' || c == '*' {
            lemma_scan(s, i + 1, 0, stack, last, lo, range, cond);
        } else if c == '"' {
            lemma_lit_close(s, i + 1);
            if let Some(j) = lit_close(s, i + 1) {
                lemma_scan(s, j, 1, stack, j, lo, range, cond);
            }
        } else if is_digit(c) {
            lemma_number_end(s, i + 1);
            lemma_scan(s, number_end(s, i + 1), 1, stack, number_end(s, i + 1), lo, range, cond);
        } else if is_ident_start(c) {
            lemma_ident_end(s, i + 1);
            lemma_scan(s, ident_end(s, i + 1), 1, stack, ident_end(s, i + 1), lo, range, cond);
        } else if c == '(' || c == '[' {
            lemma_scan(s, i + 1, 2, stack.push(c), last, lo, range, cond);
        } else if c == '{' {
            lemma_soup_close(s, i + 1, 0);
            if let Some(j) = soup_close(s, i + 1, 0) {
                lemma_scan(s, j, 1, stack, j, lo, range, cond);
            }
        }
    }
}

/// The expression at `i` (after white space) and where it ends, as `scan`
/// finds it; `None` where there is none
pub open spec fn expr_at(s: Seq<char>, i: int, range: bool, cond: bool) -> Option<(Seq<char>, int)> {
    let a = skip_ws(s, i);
    match scan(s, a, 0, Seq::empty(), a, range, cond) {
        Some(e) => Some((s.subrange(a, e), e)),
        None => None,
    }
}

/// An expression found at `i` ends past `i`, within the text
pub proof fn lemma_expr_at(s: Seq<char>, i: int, range: bool, cond: bool)
    requires
        0 <= i <= s.len(),
    ensures
        expr_at(s, i, range, cond) matches Some((x, e)) ==> i < e <= s.len(),
{
    lemma_skip_ws(s, i);
    let a = skip_ws(s, i);
    lemma_scan(s, a, 0, Seq::empty(), a, a, range, cond);
}

/// A value of the query language: one expression, or a bracketed list of them
pub enum ValTree {
    Single(Seq<char>),
    List(Seq<Seq<char>>),
}

/// The items of a bracketed list from `i` on (past its opening bracket or a
/// comma), after those in `acc`, and the position past its closing bracket
pub open spec fn list_items(s: Seq<char>, i: int, acc: Seq<Seq<char>>) -> Option<(Seq<Seq<char>>, int)>
    decreases s.len() - i,
{
    if i < 0 || i > s.len() {
        None
    } else {
        let a = skip_ws(s, i);
        if holds_at(s, a, ']') {
            Some((acc, a + 1))
        } else {
            match expr_at(s, a, false, false) {
                None => None,
                Some((x, e)) => {
                    let b = skip_ws(s, e);
                    proof {
                        lemma_skip_ws(s, i);
                        lemma_expr_at(s, a, false, false);
                        lemma_skip_ws(s, e);
                    }
                    if holds_at(s, b, ',') {
                        list_items(s, b + 1, acc.push(x))
                    } else if holds_at(s, b, ']') {
                        Some((acc.push(x), b + 1))
                    } else {
                        None
                    }
                },
            }
        }
    }
}

/// The value at `i` and where it ends
pub open spec fn value_at(s: Seq<char>, i: int, range: bool, cond: bool) -> Option<(ValTree, int)> {
    let a = skip_ws(s, i);
    if holds_at(s, a, '[') {
        match list_items(s, a + 1, Seq::empty()) {
            Some((xs, e)) => Some((ValTree::List(xs), e)),
            None => None,
        }
    } else {
        match expr_at(s, a, range, cond) {
            Some((x, e)) => Some((ValTree::Single(x), e)),
            None => None,
        }
    }
}

/// A point of a range: counted from the end (`#`), downwards (`-`), and its value
pub struct PointTree {
    pub from_end: bool,
    pub down: bool,
    pub value: ValTree,
}

/// The range point at `i` and where it ends
pub open spec fn point_at(s: Seq<char>, i: int, range: bool, cond: bool) -> Option<(PointTree, int)> {
    let a = skip_ws(s, i);
    let from_end = holds_at(s, a, '#');
    let a1 = if from_end { skip_ws(s, a + 1) } else { a };
    let down = holds_at(s, a1, '-');
    let a2 = if down || holds_at(s, a1, '+') { a1 + 1 } else { a1 };
    match value_at(s, a2, range, cond) {
        Some((v, e)) => Some((PointTree { from_end, down, value: v }, e)),
        None => None,
    }
}

/// The range `a..b` at `i` and where it ends
pub open spec fn range_at(s: Seq<char>, i: int, cond: bool) -> Option<(PointTree, PointTree, int)> {
    match point_at(s, i, true, cond) {
        Some((p, e)) => {
            let b = skip_ws(s, e);
            if holds_at(s, b, '.') && holds_at(s, b + 1, '.') {
                match point_at(s, b + 2, false, cond) {
                    Some((q, e2)) => Some((p, q, e2)),
                    None => None,
                }
            } else {
                None
            }
        },
        None => None,
    }
}

/// A comparison of a filter
pub enum CompTree {
    Eq(ValTree),
    Ne(ValTree),
    In(ValTree),
    Ni(ValTree),
    Lt(ValTree),
    Le(ValTree),
    Gt(ValTree),
    Ge(ValTree),
    /// Between: start, start included, end, end included
    Bw(PointTree, bool, PointTree, bool),
    Has,
}

/// A comparison made of an operator and the value after it
pub open spec fn with_value(v: Option<(ValTree, int)>, make: spec_fn(ValTree) -> CompTree) -> Option<(CompTree, int)> {
    match v {
        Some((x, e)) => Some((make(x), e)),
        None => None,
    }
}

/// A between comparison made of the range after `in`
pub open spec fn with_range(r: Option<(PointTree, PointTree, int)>, start_inc: bool, end_inc: bool) -> Option<(CompTree, int)> {
    match r {
        Some((a, b, e)) => Some((CompTree::Bw(a, start_inc, b, end_inc), e)),
        None => None,
    }
}

/// The comparison at the start of the text (the text after the field of a
/// filter) and where it ends: `== v`, `!= v`, `in v` or `of v` (a list or an
/// expression), `!in v` or `!of v`, `< v`, `<= v`, `> v`, `>= v`, `?`, or a range
/// `in a..b` whose ends are included unless marked: `<in` leaves the start
/// out, `in>` the end, `<in>` both
pub open spec fn comp_grammar(s: Seq<char>) -> Option<(CompTree, int)> {
    comp_at(s, 0)
}

/// The comparison at `start` and where it ends
pub open spec fn comp_at(s: Seq<char>, start: int) -> Option<(CompTree, int)> {
    let i = skip_ws(s, start);
    if holds_at(s, i, '=') && holds_at(s, i + 1, '=') {
        with_value(value_at(s, i + 2, false, true), |x: ValTree| CompTree::Eq(x))
    } else if holds_at(s, i, '!') && holds_at(s, i + 1, '=') {
        with_value(value_at(s, i + 2, false, true), |x: ValTree| CompTree::Ne(x))
    } else if holds_at(s, i, '!') {
        let j = skip_ws(s, i + 1);
        if kw_in(s, j) || kw_of(s, j) {
            with_value(value_at(s, j + 2, false, true), |x: ValTree| CompTree::Ni(x))
        } else {
            None
        }
    } else if holds_at(s, i, '<') && holds_at(s, i + 1, '=') {
        with_value(value_at(s, i + 2, false, true), |x: ValTree| CompTree::Le(x))
    } else if holds_at(s, i, '<') && kw_in(s, i + 1) {
        if holds_at(s, i + 3, '>') {
            with_range(range_at(s, i + 4, true), false, false)
        } else {
            with_range(range_at(s, i + 3, true), false, true)
        }
    } else if holds_at(s, i, '<') {
        with_value(value_at(s, i + 1, false, true), |x: ValTree| CompTree::Lt(x))
    } else if holds_at(s, i, '>') && holds_at(s, i + 1, '=') {
        with_value(value_at(s, i + 2, false, true), |x: ValTree| CompTree::Ge(x))
    } else if holds_at(s, i, '>') {
        with_value(value_at(s, i + 1, false, true), |x: ValTree| CompTree::Gt(x))
    } else if kw_in(s, i) {
        if holds_at(s, i + 2, '>') {
            with_range(range_at(s, i + 3, true), true, false)
        } else if holds_at(s, skip_ws(s, i + 2), '[') {
            with_value(value_at(s, i + 2, false, true), |x: ValTree| CompTree::In(x))
        } else {
            match range_at(s, i + 2, true) {
                Some(_) => with_range(range_at(s, i + 2, true), true, true),
                None => with_value(value_at(s, i + 2, false, true), |x: ValTree| CompTree::In(x)),
            }
        }
    } else if kw_of(s, i) {
        with_value(value_at(s, i + 2, false, true), |x: ValTree| CompTree::In(x))
    } else if holds_at(s, i, '?') {
        Some((CompTree::Has, i + 1))
    } else {
        None
    }
}

/// Whether the character may start an identifier
pub open spec fn is_ident_start(c: char) -> bool {
    ('a' <= c && c <= 'z') || ('A' <= c && c <= 'Z') || c == '_'
}

/// The end of the identifier characters from `i` on
pub open spec fn ident_end(s: Seq<char>, i: int) -> int
    decreases s.len() - i,
{
    if 0 <= i < s.len() && is_ident(s[i]) {
        ident_end(s, i + 1)
    } else {
        i
    }
}

/// The identifier at `i` (after white space) and where it ends
pub open spec fn ident_at(s: Seq<char>, i: int) -> Option<(Seq<char>, int)> {
    let a = skip_ws(s, i);
    if 0 <= a < s.len() && is_ident_start(s[a]) {
        let e = ident_end(s, a + 1);
        Some((s.subrange(a, e), e))
    } else {
        None
    }
}

/// `ident_end` moves forward within the text
pub proof fn lemma_ident_end(s: Seq<char>, i: int)
    requires
        0 <= i <= s.len(),
    ensures
        i <= ident_end(s, i) <= s.len(),
    decreases s.len() - i,
{
    if i < s.len() && is_ident(s[i]) {
        lemma_ident_end(s, i + 1);
    }
}

/// The rest of a field path after `acc`: more identifiers after dots
pub open spec fn path_more(s: Seq<char>, i: int, acc: Seq<char>) -> (Seq<char>, int)
    decreases s.len() - i,
{
    if i < 0 || i > s.len() {
        (acc, i)
    } else {
        let b = skip_ws(s, i);
        if holds_at(s, b, '.') {
            match ident_at(s, b + 1) {
                Some((x, e)) => {
                    proof {
                        lemma_skip_ws(s, i);
                        lemma_skip_ws(s, b + 1);
                        lemma_ident_end(s, skip_ws(s, b + 1) + 1);
                    }
                    path_more(s, e, acc + seq!['.'] + x)
                },
                None => (acc, i),
            }
        } else {
            (acc, i)
        }
    }
}

/// The field path at `i`: identifiers joined by dots, and where it ends
pub open spec fn path_at(s: Seq<char>, i: int) -> Option<(Seq<char>, int)> {
    match ident_at(s, i) {
        Some((x, e)) => Some(path_more(s, e, x)),
        None => None,
    }
}

/// A filter
pub enum FilterTree {
    /// A comparison of the field at the path
    Comp(Seq<char>, CompTree),
    Not(Box<FilterTree>),
    And(Seq<FilterTree>),
    Or(Seq<FilterTree>),
}

/// A comparison with its negation taken out: `!=` is a negated `==`, and
/// `!in` a negated `in`
pub open spec fn not_not(c: CompTree) -> (bool, CompTree) {
    match c {
        CompTree::Ne(x) => (true, CompTree::Eq(x)),
        CompTree::Ni(x) => (true, CompTree::In(x)),
        _ => (false, c),
    }
}

/// The filter of a comparison of a field, negated by `!` where `neg` holds
pub open spec fn comp_filter(neg: bool, path: Seq<char>, c: CompTree) -> FilterTree {
    let f = FilterTree::Comp(path, not_not(c).1);
    if neg != not_not(c).0 {
        FilterTree::Not(Box::new(f))
    } else {
        f
    }
}

/// The field path and the comparison at `i`, and where they end
pub open spec fn comp_field_at(s: Seq<char>, i: int) -> Option<(Seq<char>, CompTree, int)> {
    match path_at(s, i) {
        Some((p, e)) => match comp_at(s, e) {
            Some((c, e2)) => Some((p, c, e2)),
            None => None,
        },
        None => None,
    }
}

/// A comparison of a field, or a filter in parentheses, at `i`, after an
/// optional `!` that negates it, and where it ends
pub open spec fn not_at(s: Seq<char>, i: int) -> Option<(FilterTree, int)>
    decreases s.len() - i, 1nat,
{
    if i < 0 || i > s.len() {
        None
    } else {
        let a = skip_ws(s, i);
        let neg = holds_at(s, a, '!');
        let b = skip_ws(s, if neg { a + 1 } else { a });
        if b >= i && holds_at(s, b, '(') {
            match or_at(s, b + 1) {
                Some((f, e)) => {
                    let d = skip_ws(s, e);
                    if holds_at(s, d, ')') {
                        Some((if neg { FilterTree::Not(Box::new(f)) } else { f }, d + 1))
                    } else {
                        None
                    }
                },
                None => None,
            }
        } else {
            match comp_field_at(s, b) {
                Some((p, c, e)) => Some((comp_filter(neg, p, c), e)),
                None => None,
            }
        }
    }
}

/// The filters joined by `&&` from `i` on, after those in `acc`, and where they end
pub open spec fn and_items(s: Seq<char>, i: int, acc: Seq<FilterTree>) -> Option<(Seq<FilterTree>, int)>
    decreases s.len() - i, 2nat,
{
    if i < 0 || i > s.len() {
        None
    } else {
        match not_at(s, i) {
            Some((f, e)) => {
                let b = skip_ws(s, e);
                if b >= i && holds_at(s, b, '&') && holds_at(s, b + 1, '&') {
                    and_items(s, b + 2, acc.push(f))
                } else {
                    Some((acc.push(f), e))
                }
            },
            None => None,
        }
    }
}

/// The conjunction at `i` (one filter stands for itself) and where it ends
pub open spec fn and_at(s: Seq<char>, i: int) -> Option<(FilterTree, int)>
    decreases s.len() - i, 3nat,
{
    if i < 0 || i > s.len() {
        None
    } else {
        match and_items(s, i, Seq::empty()) {
            Some((fs, e)) => Some((if fs.len() == 1 { fs[0] } else { FilterTree::And(fs) }, e)),
            None => None,
        }
    }
}

/// The conjunctions joined by `||` from `i` on, after those in `acc`, and where they end
pub open spec fn or_items(s: Seq<char>, i: int, acc: Seq<FilterTree>) -> Option<(Seq<FilterTree>, int)>
    decreases s.len() - i, 4nat,
{
    if i < 0 || i > s.len() {
        None
    } else {
        match and_at(s, i) {
            Some((f, e)) => {
                let b = skip_ws(s, e);
                if b >= i && holds_at(s, b, '|') && holds_at(s, b + 1, '|') {
                    or_items(s, b + 2, acc.push(f))
                } else {
                    Some((acc.push(f), e))
                }
            },
            None => None,
        }
    }
}

/// The disjunction at `i` (one conjunction stands for itself) and where it ends
pub open spec fn or_at(s: Seq<char>, i: int) -> Option<(FilterTree, int)>
    decreases s.len() - i, 5nat,
{
    if i < 0 || i > s.len() {
        None
    } else {
        match or_items(s, i, Seq::empty()) {
            Some((fs, e)) => Some((if fs.len() == 1 { fs[0] } else { FilterTree::Or(fs) }, e)),
            None => None,
        }
    }
}

/// The filter at the start of the text and where it ends: comparisons of
/// fields and filters in parentheses, each negated by a leading `!`, joined
/// by `&&`, which binds tighter, and `||`
pub open spec fn filter_grammar(s: Seq<char>) -> Option<(FilterTree, int)> {
    or_at(s, 0)
}

/// The filter of a query, and where it ends: blank text is no filter, any
/// other text a filter as `filter_grammar` says
pub open spec fn where_grammar(s: Seq<char>) -> Option<(Option<FilterTree>, int)> {
    let a = skip_ws(s, 0);
    if a >= s.len() {
        Some((None, a))
    } else {
        match filter_grammar(s) {
            Some((f, e)) => Some((Some(f), e)),
            None => None,
        }
    }
}

/// The position past the closing quote of the string literal whose text
/// starts at `i`; `None` where the literal does not close
pub open spec fn lit_close(s: Seq<char>, i: int) -> Option<int>
    decreases s.len() - i,
{
    if i < 0 || i >= s.len() {
        None
    } else if s[i] == '\\' {
        if i + 1 >= s.len() {
            None
        } else {
            lit_close(s, i + 2)
        }
    } else if s[i] == '"' {
        Some(i + 1)
    } else {
        lit_close(s, i + 1)
    }
}

/// An action of a modifier
pub enum ActionTree {
    Assign(Seq<char>),
    Delete,
    Add(Seq<char>),
    Sub(Seq<char>),
    Mul(Seq<char>),
    Div(Seq<char>),
    Toggle,
    /// Replace: the pattern (a string literal) and the replacement
    Replace(Seq<char>, Seq<char>),
    /// Splice of the range: the values put in, none where the range is removed
    Splice(PointTree, PointTree, Option<ValTree>),
    Merge(Seq<char>),
}

/// An action made of an operator and the expression after it
pub open spec fn with_expr(x: Option<(Seq<char>, int)>, make: spec_fn(Seq<char>) -> ActionTree) -> Option<(ActionTree, int)> {
    match x {
        Some((t, e)) => Some((make(t), e)),
        None => None,
    }
}

/// The action after a `~`: `= "pat" sub` replaces, `= obj` merges, else it deletes
pub open spec fn tilde_action(s: Seq<char>, i: int) -> Option<(ActionTree, int)> {
    let j = skip_ws(s, i + 1);
    if holds_at(s, j, '=') {
        let a = skip_ws(s, j + 1);
        if holds_at(s, a, '"') {
            match lit_close(s, a + 1) {
                Some(e) => match expr_at(s, e, false, false) {
                    Some((sub, e2)) => Some((ActionTree::Replace(s.subrange(a, e), sub), e2)),
                    None => None,
                },
                None => None,
            }
        } else {
            with_expr(expr_at(s, j + 1, false, false), |x: Seq<char>| ActionTree::Merge(x))
        }
    } else {
        Some((ActionTree::Delete, i + 1))
    }
}

/// The splice action after `[` at `i`: `[a..b] -` or `[a..b] ~` removes the
/// range, `[a..b] = v` puts the values in its place
pub open spec fn splice_action(s: Seq<char>, i: int) -> Option<(ActionTree, int)> {
    match range_at(s, i + 1, false) {
        Some((a, b, e)) => {
            let c = skip_ws(s, e);
            if holds_at(s, c, ']') {
                let d = skip_ws(s, c + 1);
                if holds_at(s, d, '-') || holds_at(s, d, '~') {
                    Some((ActionTree::Splice(a, b, None), d + 1))
                } else if holds_at(s, d, '=') {
                    match value_at(s, d + 1, false, false) {
                        Some((x, e2)) => Some((ActionTree::Splice(a, b, Some(x)), e2)),
                        None => None,
                    }
                } else {
                    None
                }
            } else {
                None
            }
        },
        None => None,
    }
}

/// The action at the start of the text (the text after the field of a
/// modifier) and where it ends: `= v` sets, `-` or `~` deletes, `+= v`,
/// `-= v`, `*= v`, `/= v` compute, `!` toggles, `~= "pat" sub` replaces,
/// `~= obj` merges, and `[a..b]` followed by `-`, `~` or `= v` splices
pub open spec fn action_grammar(s: Seq<char>) -> Option<(ActionTree, int)> {
    action_at(s, 0)
}

/// The action at `start` and where it ends
pub open spec fn action_at(s: Seq<char>, start: int) -> Option<(ActionTree, int)> {
    let i = skip_ws(s, start);
    if holds_at(s, i, '=') && !holds_at(s, i + 1, '=') {
        with_expr(expr_at(s, i + 1, false, false), |x: Seq<char>| ActionTree::Assign(x))
    } else if holds_at(s, i, '+') && holds_at(s, i + 1, '=') {
        with_expr(expr_at(s, i + 2, false, false), |x: Seq<char>| ActionTree::Add(x))
    } else if holds_at(s, i, '-') && holds_at(s, i + 1, '=') {
        with_expr(expr_at(s, i + 2, false, false), |x: Seq<char>| ActionTree::Sub(x))
    } else if holds_at(s, i, '-') {
        Some((ActionTree::Delete, i + 1))
    } else if holds_at(s, i, '*') && holds_at(s, i + 1, '=') {
        with_expr(expr_at(s, i + 2, false, false), |x: Seq<char>| ActionTree::Mul(x))
    } else if holds_at(s, i, '/') && holds_at(s, i + 1, '=') {
        with_expr(expr_at(s, i + 2, false, false), |x: Seq<char>| ActionTree::Div(x))
    } else if holds_at(s, i, '~') {
        tilde_action(s, i)
    } else if holds_at(s, i, '!') {
        Some((ActionTree::Toggle, i + 1))
    } else if holds_at(s, i, '[') {
        splice_action(s, i)
    } else {
        None
    }
}

/// The field paths and their actions from `i` on, after those in `acc`,
/// separated by `,` or `;`, and where they end; a list ends where no field
/// path follows, so it may be empty and may end with a separator
pub open spec fn mod_items(s: Seq<char>, i: int, acc: Seq<(Seq<char>, ActionTree)>) -> Option<(Seq<(Seq<char>, ActionTree)>, int)>
    decreases s.len() - i,
{
    if i < 0 || i > s.len() {
        None
    } else {
        match path_at(s, i) {
            None => Some((acc, i)),
            Some((p, e)) => match action_at(s, e) {
                None => None,
                Some((a, e2)) => {
                    let b = skip_ws(s, e2);
                    if b >= i && (holds_at(s, b, ',') || holds_at(s, b, ';')) {
                        mod_items(s, b + 1, acc.push((p, a)))
                    } else {
                        Some((acc.push((p, a)), e2))
                    }
                },
            },
        }
    }
}

/// The modifier at the start of the text: field paths with their actions
pub open spec fn modify_grammar(s: Seq<char>) -> Option<(Seq<(Seq<char>, ActionTree)>, int)> {
    mod_items(s, 0, Seq::empty())
}

/// Whether the text holds the word `w` at `a`, not followed by more of an identifier
pub open spec fn word_at(s: Seq<char>, a: int, w: Seq<char>) -> bool {
    0 <= a && a + w.len() <= s.len() && s.subrange(a, a + w.len()) == w && !(a + w.len() < s.len() && is_ident(s[a + w.len()]))
}

/// The order kind at `i` (`asc` or `>`, `desc` or `<`) and where it ends
pub open spec fn order_kind_at(s: Seq<char>, i: int) -> Option<(OrderKind, int)> {
    let a = skip_ws(s, i);
    if word_at(s, a, "desc"@) {
        Some((OrderKind::Desc, a + 4))
    } else if holds_at(s, a, '<') {
        Some((OrderKind::Desc, a + 1))
    } else if word_at(s, a, "asc"@) {
        Some((OrderKind::Asc, a + 3))
    } else if holds_at(s, a, '>') {
        Some((OrderKind::Asc, a + 1))
    } else {
        None
    }
}

/// An ordering
pub enum OrderTree {
    Primary(OrderKind),
    Field(Seq<char>, OrderKind),
}

/// The ordering at the start of the text and where it ends: by the primary
/// key (an order kind alone; none at all is ascending) or `by` a field path
/// and an order kind
pub open spec fn order_grammar(s: Seq<char>) -> Option<(OrderTree, int)> {
    let a = skip_ws(s, 0);
    if a >= s.len() {
        Some((OrderTree::Primary(OrderKind::Asc), a))
    } else if word_at(s, a, "by"@) {
        match path_at(s, a + 2) {
            Some((p, e)) => match order_kind_at(s, e) {
                Some((k, e2)) => Some((OrderTree::Field(p, k), e2)),
                None => None,
            },
            None => None,
        }
    } else {
        match order_kind_at(s, a) {
            Some((k, e)) => Some((OrderTree::Primary(k), e)),
            None => None,
        }
    }
}

/// The key type that the word at `i` names (`int`/`integer`, `float`,
/// `bool`/`boolean`, `str`/`string`/`text`, `bin`/`binary`) and where it ends
pub open spec fn key_type_at(s: Seq<char>, i: int) -> Option<(KeyType, int)> {
    let a = skip_ws(s, i);
    if word_at(s, a, "integer"@) {
        Some((KeyType::Int, a + 7))
    } else if word_at(s, a, "int"@) {
        Some((KeyType::Int, a + 3))
    } else if word_at(s, a, "float"@) {
        Some((KeyType::Float, a + 5))
    } else if word_at(s, a, "boolean"@) {
        Some((KeyType::Bool, a + 7))
    } else if word_at(s, a, "bool"@) {
        Some((KeyType::Bool, a + 4))
    } else if word_at(s, a, "string"@) {
        Some((KeyType::String, a + 6))
    } else if word_at(s, a, "str"@) {
        Some((KeyType::String, a + 3))
    } else if word_at(s, a, "text"@) {
        Some((KeyType::String, a + 4))
    } else if word_at(s, a, "binary"@) {
        Some((KeyType::Binary, a + 6))
    } else if word_at(s, a, "bin"@) {
        Some((KeyType::Binary, a + 3))
    } else {
        None
    }
}

/// The index kind that the word at `i` names (`uni`/`unique`, or
/// `dup`/`duplicate` for an index that may hold duplicates) and where it ends
pub open spec fn index_kind_at(s: Seq<char>, i: int) -> Option<(IndexKind, int)> {
    let a = skip_ws(s, i);
    if word_at(s, a, "unique"@) {
        Some((IndexKind::Unique, a + 6))
    } else if word_at(s, a, "uni"@) {
        Some((IndexKind::Unique, a + 3))
    } else if word_at(s, a, "duplicate"@) {
        Some((IndexKind::Index, a + 9))
    } else if word_at(s, a, "dup"@) {
        Some((IndexKind::Index, a + 3))
    } else {
        None
    }
}

/// A value of the query language, as text
#[derive(Debug, PartialEq, Eq)]
pub enum ValSyntax {
    /// One expression
    Single(String),
    /// A bracketed list of expressions
    List(Vec<String>),
}

/// The texts of a list of expressions
pub open spec fn texts(v: Seq<String>) -> Seq<Seq<char>> {
    v.map_values(|x: String| x@)
}

impl View for ValSyntax {
    type V = ValTree;

    open spec fn view(&self) -> ValTree {
        match self {
            ValSyntax::Single(x) => ValTree::Single(x@),
            ValSyntax::List(xs) => ValTree::List(texts(xs@)),
        }
    }
}

/// Range point origin
#[derive(Debug, Clone, Copy, PartialEq, Eq, Structural)]
pub enum Orig {
    /// from beginning
    Begin,
    /// from end (`#`)
    End,
}

/// Range point direction
#[derive(Debug, Clone, Copy, PartialEq, Eq, Structural)]
pub enum Dir {
    /// incrementing
    Up,
    /// decrementing (`-`)
    Down,
}

/// Range point border
#[derive(Debug, Clone, Copy, PartialEq, Eq, Structural)]
pub enum Bord {
    /// include point
    Incl,
    /// exclude point
    Excl,
}

/// A point of a range, as text
#[derive(Debug, PartialEq, Eq)]
pub struct PointSyntax {
    /// Where the point is counted from
    pub orig: Orig,
    /// Which way the point is counted
    pub dir: Dir,
    /// The value of the point
    pub value: ValSyntax,
}

impl View for PointSyntax {
    type V = PointTree;

    open spec fn view(&self) -> PointTree {
        PointTree { from_end: self.orig == Orig::End, down: self.dir == Dir::Down, value: self.value@ }
    }
}

/// A comparison of a filter, as text
#[derive(Debug, PartialEq, Eq)]
pub enum CompSyntax {
    Eq(ValSyntax),
    Ne(ValSyntax),
    In(ValSyntax),
    Ni(ValSyntax),
    Lt(ValSyntax),
    Le(ValSyntax),
    Gt(ValSyntax),
    Ge(ValSyntax),
    /// Between: start and its border, end and its border
    Bw(PointSyntax, Bord, PointSyntax, Bord),
    Has,
}

impl View for CompSyntax {
    type V = CompTree;

    open spec fn view(&self) -> CompTree {
        match self {
            CompSyntax::Eq(x) => CompTree::Eq(x@),
            CompSyntax::Ne(x) => CompTree::Ne(x@),
            CompSyntax::In(x) => CompTree::In(x@),
            CompSyntax::Ni(x) => CompTree::Ni(x@),
            CompSyntax::Lt(x) => CompTree::Lt(x@),
            CompSyntax::Le(x) => CompTree::Le(x@),
            CompSyntax::Gt(x) => CompTree::Gt(x@),
            CompSyntax::Ge(x) => CompTree::Ge(x@),
            CompSyntax::Bw(a, ai, b, bi) => CompTree::Bw(a@, *ai == Bord::Incl, b@, *bi == Bord::Incl),
            CompSyntax::Has => CompTree::Has,
        }
    }
}

/// Whether the text holds `c` at `i`
pub(crate) fn ch_is(v: &Vec<char>, i: usize, c: char) -> (r: bool)
    ensures
        r == holds_at(v@, i as int, c),
        r ==> i < v@.len() <= usize::MAX,
{
    let n = v.len();
    i < n && v[i] == c
}

/// Whether the character is white space
fn ws_char(c: char) -> (r: bool)
    ensures
        r == is_ws(c),
{
    c == ' ' || c == '\t' || c == '\n' || c == '\r'
}

/// Whether the text holds the word `in` at `i`
fn kw_in_at(v: &Vec<char>, i: usize) -> (r: bool)
    ensures
        r == kw_in(v@, i as int),
        r ==> i + 2 <= v@.len() <= usize::MAX,
{
    if i >= v.len() || v[i] != 'i' || i + 1 >= v.len() || v[i + 1] != 'n' {
        return false;
    }
    if i + 2 < v.len() {
        let c = v[i + 2];
        !(('a' <= c && c <= 'z') || ('A' <= c && c <= 'Z') || ('0' <= c && c <= '9') || c == '_')
    } else {
        true
    }
}

/// Whether the text holds the word `of` at `i`
fn kw_of_at(v: &Vec<char>, i: usize) -> (r: bool)
    ensures
        r == kw_of(v@, i as int),
        r ==> i + 2 <= v@.len() <= usize::MAX,
{
    if i >= v.len() || v[i] != 'o' || i + 1 >= v.len() || v[i + 1] != 'f' {
        return false;
    }
    if i + 2 < v.len() {
        let c = v[i + 2];
        !(('a' <= c && c <= 'z') || ('A' <= c && c <= 'Z') || ('0' <= c && c <= '9') || c == '_')
    } else {
        true
    }
}

/// The first position from `i` on that holds no white space
pub(crate) fn skip_ws_at(v: &Vec<char>, i: usize) -> (r: usize)
    requires
        i <= v@.len(),
    ensures
        r == skip_ws(v@, i as int),
        i <= r <= v@.len(),
{
    let mut j = i;
    while j < v.len() && ws_char(v[j])
        invariant
            i <= j <= v@.len(),
            skip_ws(v@, i as int) == skip_ws(v@, j as int),
        decreases v@.len() - j,
    {
        j = j + 1;
    }
    j
}

/// The end of the number literal whose rest starts at `i`
fn number_end_at(v: &Vec<char>, i: usize) -> (r: usize)
    requires
        i <= v@.len(),
    ensures
        r == number_end(v@, i as int),
        i <= r <= v@.len(),
{
    let mut j = i;
    while j < v.len() && (ident_char(v[j]) || (v[j] == '.' && j + 1 < v.len() && '0' <= v[j + 1] && v[j + 1] <= '9'))
        invariant
            i <= j <= v@.len(),
            number_end(v@, i as int) == number_end(v@, j as int),
        decreases v@.len() - j,
    {
        j = j + 1;
    }
    j
}

/// The end of the identifier characters from `i` on
fn ident_end_at(v: &Vec<char>, i: usize) -> (r: usize)
    requires
        i <= v@.len(),
    ensures
        r == ident_end(v@, i as int),
        i <= r <= v@.len(),
{
    let mut j = i;
    while j < v.len() && ident_char(v[j])
        invariant
            i <= j <= v@.len(),
            ident_end(v@, i as int) == ident_end(v@, j as int),
        decreases v@.len() - j,
    {
        j = j + 1;
    }
    j
}

/// The position past the bracket that closes the group whose text goes on at `i`
pub(crate) fn soup_close_at(v: &Vec<char>, i: usize) -> (r: Option<usize>)
    requires
        i <= v@.len(),
    ensures
        r == (match soup_close(v@, i as int, 0) {
            Some(e) => Some(e as usize),
            None => None::<usize>,
        }),
        r matches Some(e) ==> i < e <= v@.len() && soup_close(v@, i as int, 0) == Some(e as int),
{
    proof {
        lemma_soup_close(v@, i as int, 0);
    }
    let mut j = i;
    let mut depth: usize = 0;
    while j < v.len()
        invariant
            i <= j <= v@.len(),
            depth <= j,
            soup_close(v@, i as int, 0) == soup_close(v@, j as int, depth as nat),
        decreases v@.len() - j,
    {
        let c = v[j];
        if c == '"' {
            match lit_close_at(v, j + 1) {
                Some(e) => {
                    j = e;
                },
                None => {
                    return None;
                },
            }
        } else if c == '(' || c == '[' || c == '{' {
            depth = depth + 1;
            j = j + 1;
        } else if c == ')' || c == ']' || c == '}' {
            if depth == 0 {
                return Some(j + 1);
            }
            depth = depth - 1;
            j = j + 1;
        } else {
            j = j + 1;
        }
    }
    None
}

/// The length of the operator that joins two operands at `i`
fn binop_len_at(v: &Vec<char>, i: usize) -> (r: usize)
    requires
        i < v@.len(),
    ensures
        r == binop_len(v@, i as int),
        i + r <= v@.len(),
{
    let n = v.len();
    let c = v[i];
    let d = if i + 1 < n { v[i + 1] } else { ' ' };
    if c == '.' && d == '.' && ch_is(v, i + 2, '=') {
        3
    } else if (d == '=' && (c == '=' || c == '!' || c == '<' || c == '>')) || (c == d && (c == '&' || c == '|'
        || c == '<' || c == '>' || c == '.' || c == ':')) {
        2
    } else if c == '+' || c == '-' || c == '*' || c == '/' || c == '%' || c == '^' || c == '<' || c == '>' || c
        == '&' || c == '|' || c == '.' {
        1
    } else if c == 'a' && d == 's' && !(i + 2 < v.len() && ident_char(v[i + 2])) {
        2
    } else {
        0
    }
}

/// Whether an expression outside brackets ends at `i`
fn ends_at_pos(v: &Vec<char>, i: usize, range: bool, cond: bool) -> (r: bool)
    requires
        i < v@.len(),
    ensures
        r == ends_at(v@, i as int, range, cond),
{
    let n = v.len();
    let c = v[i];
    assert(i + 1 <= n);
    c == ',' || c == ';' || c == ')' || c == ']' || c == '}' || (range && c == '.' && ch_is(v, i + 1, '.')) || (
    cond && ((c == '&' && ch_is(v, i + 1, '&')) || (c == '|' && ch_is(v, i + 1, '|'))))
}

/// Where the host expression that starts at `a` ends, as `scan` finds it
fn scan_at(v: &Vec<char>, a: usize, range: bool, cond: bool) -> (r: Option<usize>)
    requires
        a <= v@.len(),
    ensures
        r == (match scan(v@, a as int, 0, Seq::empty(), a as int, range, cond) {
            Some(e) => Some(e as usize),
            None => None::<usize>,
        }),
        r matches Some(e) ==> a < e <= v@.len() && scan(v@, a as int, 0, Seq::empty(), a as int, range, cond) == Some(e as int),
{
    proof {
        lemma_scan(v@, a as int, 0, Seq::empty(), a as int, a as int, range, cond);
    }
    let mut i = a;
    let mut mode: u8 = 0;
    let mut stack: Vec<char> = Vec::new();
    let mut last = a;
    loop
        invariant
            a <= last <= i <= v@.len(),
            mode <= 2,
            mode == 1 ==> a < last,
            scan(v@, a as int, 0, Seq::empty(), a as int, range, cond) == scan(
                v@,
                i as int,
                mode as nat,
                stack@,
                last as int,
                range,
                cond,
            ),
        decreases v@.len() - i,
    {
        if i == v.len() {
            if mode == 1 && stack.len() == 0 {
                return Some(last);
            } else {
                return None;
            }
        }
        let c = v[i];
        let top = if stack.len() > 0 { stack[stack.len() - 1] } else { ' ' };
        let close = if top == '(' { ')' } else { ']' };
        let ghost s = v@;
        assert(top == (if stack@.len() > 0 { stack@.last() } else { ' ' }));
        if ws_char(c) {
            i = i + 1;
        } else if mode == 1 {
            if stack.len() == 0 && ends_at_pos(v, i, range, cond) {
                return Some(last);
            } else if stack.len() > 0 && c == ',' {
                mode = 2;
                i = i + 1;
            } else if stack.len() > 0 && c == ';' && top == '[' {
                mode = 0;
                i = i + 1;
            } else if stack.len() > 0 && c == close {
                stack.pop();
                mode = 1;
                i = i + 1;
                last = i;
            } else if c == '?' {
                i = i + 1;
                last = i;
            } else if c == '!' && (ch_is(v, i + 1, '(') || ch_is(v, i + 1, '[')) {
                stack.push(v[i + 1]);
                mode = 2;
                i = i + 2;
            } else if c == '!' && ch_is(v, i + 1, '{') {
                match soup_close_at(v, i + 2) {
                    Some(j) => {
                        i = j;
                        last = j;
                    },
                    None => {
                        return None;
                    },
                }
            } else if c == '(' || c == '[' {
                stack.push(c);
                mode = 2;
                i = i + 1;
            } else {
                let k = binop_len_at(v, i);
                if k > 0 {
                    mode = 0;
                    i = i + k;
                } else if stack.len() == 0 {
                    return Some(last);
                } else {
                    return None;
                }
            }
        } else if mode == 2 && stack.len() > 0 && c == close {
            stack.pop();
            mode = 1;
            i = i + 1;
            last = i;
        } else if c == '-' || c == '!' || c == '&' || c == '*' {
            mode = 0;
            i = i + 1;
        } else if c == '"' {
            match lit_close_at(v, i + 1) {
                Some(j) => {
                    mode = 1;
                    i = j;
                    last = j;
                },
                None => {
                    return None;
                },
            }
        } else if '0' <= c && c <= '9' {
            let j = number_end_at(v, i + 1);
            mode = 1;
            i = j;
            last = j;
        } else if ('a' <= c && c <= 'z') || ('A' <= c && c <= 'Z') || c == '_' {
            let j = ident_end_at(v, i + 1);
            mode = 1;
            i = j;
            last = j;
        } else if c == '(' || c == '[' {
            stack.push(c);
            mode = 2;
            i = i + 1;
        } else if c == '{' {
            match soup_close_at(v, i + 1) {
                Some(j) => {
                    mode = 1;
                    i = j;
                    last = j;
                },
                None => {
                    return None;
                },
            }
        } else {
            return None;
        }
    }
}

/// The text `v[a..e]`
pub(crate) fn text_range(v: &Vec<char>, a: usize, e: usize) -> (r: String)
    requires
        a <= e <= v@.len(),
    ensures
        r@ == v@.subrange(a as int, e as int),
{
    let mut r = String::new();
    let mut k = a;
    assert(r@ =~= v@.subrange(a as int, a as int));
    while k < e
        invariant
            a <= k <= e,
            e <= v@.len(),
            r@ == v@.subrange(a as int, k as int),
        decreases e - k,
    {
        push_char(&mut r, v[k]);
        assert(r@ =~= v@.subrange(a as int, k + 1));
        k = k + 1;
    }
    r
}

/// The expression at `i` and where it ends
pub(crate) fn expr_at_pos(v: &Vec<char>, i: usize, range: bool, cond: bool) -> (r: Option<(String, usize)>)
    requires
        i <= v@.len(),
    ensures
        r is Some <==> expr_at(v@, i as int, range, cond) is Some,
        r matches Some((x, e)) ==> (x@, e as int) == expr_at(v@, i as int, range, cond).unwrap() && e <= v@.len(),
{
    let a = skip_ws_at(v, i);
    match scan_at(v, a, range, cond) {
        Some(e) => Some((text_range(v, a, e), e)),
        None => None,
    }
}

/// The items of a bracketed list from `i` on, and the position past it
fn list_items_at(v: &Vec<char>, i: usize) -> (r: Option<(Vec<String>, usize)>)
    requires
        i <= v@.len(),
    ensures
        r is Some <==> list_items(v@, i as int, Seq::empty()) is Some,
        r matches Some((xs, e)) ==> (texts(xs@), e as int) == list_items(v@, i as int, Seq::empty()).unwrap() && e <= v@.len(),
{
    let mut xs: Vec<String> = Vec::new();
    let mut j = i;
    assert(texts(xs@) =~= Seq::<Seq<char>>::empty());
    loop
        invariant
            j <= v@.len(),
            list_items(v@, i as int, Seq::empty()) == list_items(v@, j as int, texts(xs@)),
        decreases v@.len() - j,
    {
        let a = skip_ws_at(v, j);
        if ch_is(v, a, ']') {
            return Some((xs, a + 1));
        }
        let (x, e) = match expr_at_pos(v, a, false, false) {
            Some(p) => p,
            None => {
                return None;
            },
        };
        proof {
            lemma_expr_at(v@, a as int, false, false);
        }
        let b = skip_ws_at(v, e);
        let ghost before = xs@;
        if ch_is(v, b, ',') {
            xs.push(x);
            assert(texts(xs@) =~= texts(before).push(x@));
            j = b + 1;
        } else if ch_is(v, b, ']') {
            xs.push(x);
            assert(texts(xs@) =~= texts(before).push(x@));
            return Some((xs, b + 1));
        } else {
            return None;
        }
    }
}

/// The value at `i` and where it ends
fn value_at_pos(v: &Vec<char>, i: usize, range: bool, cond: bool) -> (r: Option<(ValSyntax, usize)>)
    requires
        i <= v@.len(),
    ensures
        r is Some <==> value_at(v@, i as int, range, cond) is Some,
        r matches Some((x, e)) ==> (x@, e as int) == value_at(v@, i as int, range, cond).unwrap() && e <= v@.len(),
{
    let a = skip_ws_at(v, i);
    if ch_is(v, a, '[') {
        match list_items_at(v, a + 1) {
            Some((xs, e)) => Some((ValSyntax::List(xs), e)),
            None => None,
        }
    } else {
        match expr_at_pos(v, a, range, cond) {
            Some((x, e)) => {
                proof {
                    lemma_skip_ws(v@, a as int);
                }
                assert(skip_ws(v@, a as int) == skip_ws(v@, i as int)) by {
                    lemma_skip_ws_idem(v@, i as int);
                }
                Some((ValSyntax::Single(x), e))
            },
            None => {
                proof {
                    lemma_skip_ws_idem(v@, i as int);
                }
                None
            },
        }
    }
}

/// The range point at `i` and where it ends
fn point_at_pos(v: &Vec<char>, i: usize, range: bool, cond: bool) -> (r: Option<(PointSyntax, usize)>)
    requires
        i <= v@.len(),
    ensures
        r is Some <==> point_at(v@, i as int, range, cond) is Some,
        r matches Some((p, e)) ==> (p@, e as int) == point_at(v@, i as int, range, cond).unwrap() && e <= v@.len(),
{
    let a = skip_ws_at(v, i);
    let from_end = ch_is(v, a, '#');
    let a1 = if from_end { skip_ws_at(v, a + 1) } else { a };
    let down = ch_is(v, a1, '-');
    let a2 = if down || ch_is(v, a1, '+') { a1 + 1 } else { a1 };
    match value_at_pos(v, a2, range, cond) {
        Some((x, e)) => Some((PointSyntax { orig: if from_end { Orig::End } else { Orig::Begin }, dir: if down { Dir::Down } else { Dir::Up }, value: x }, e)),
        None => None,
    }
}

/// The range `a..b` at `i` and where it ends
fn range_at_pos(v: &Vec<char>, i: usize, cond: bool) -> (r: Option<(PointSyntax, PointSyntax, usize)>)
    requires
        i <= v@.len(),
    ensures
        r is Some <==> range_at(v@, i as int, cond) is Some,
        r matches Some((p, q, e)) ==> (p@, q@, e as int) == range_at(v@, i as int, cond).unwrap() && e <= v@.len(),
{
    let (p, e) = match point_at_pos(v, i, true, cond) {
        Some(x) => x,
        None => {
            return None;
        },
    };
    let b = skip_ws_at(v, e);
    if ch_is(v, b, '.') && ch_is(v, b + 1, '.') {
        match point_at_pos(v, b + 2, false, cond) {
            Some((q, e2)) => Some((p, q, e2)),
            None => None,
        }
    } else {
        None
    }
}

/// The error of a query text that the grammar does not take
pub(crate) fn syntax_error(what: &str) -> (e: Error)
    ensures
        e.message@ == what@,
{
    Error::new(to_text(what))
}

/// The comparison at `start` and where it ends
fn comp_at_pos(v: &Vec<char>, start: usize) -> (r: Option<(CompSyntax, usize)>)
    requires
        start <= v@.len(),
    ensures
        r is Some <==> comp_at(v@, start as int) is Some,
        r matches Some((c, n)) ==> (c@, n as int) == comp_at(v@, start as int).unwrap() && n <= v@.len(),
{
    let i = skip_ws_at(v, start);
    let r = if ch_is(v, i, '=') && ch_is(v, i + 1, '=') {
        match value_at_pos(v, i + 2, false, true) {
            Some((x, e)) => Some((CompSyntax::Eq(x), e)),
            None => None,
        }
    } else if ch_is(v, i, '!') && ch_is(v, i + 1, '=') {
        match value_at_pos(v, i + 2, false, true) {
            Some((x, e)) => Some((CompSyntax::Ne(x), e)),
            None => None,
        }
    } else if ch_is(v, i, '!') {
        let j = skip_ws_at(v, i + 1);
        if kw_in_at(v, j) || kw_of_at(v, j) {
            match value_at_pos(v, j + 2, false, true) {
                Some((x, e)) => Some((CompSyntax::Ni(x), e)),
                None => None,
            }
        } else {
            None
        }
    } else if ch_is(v, i, '<') && ch_is(v, i + 1, '=') {
        match value_at_pos(v, i + 2, false, true) {
            Some((x, e)) => Some((CompSyntax::Le(x), e)),
            None => None,
        }
    } else if ch_is(v, i, '<') && kw_in_at(v, i + 1) {
        let (at, end_bord) = if ch_is(v, i + 3, '>') { (i + 4, Bord::Excl) } else { (i + 3, Bord::Incl) };
        match range_at_pos(v, at, true) {
            Some((a, b, e)) => Some((CompSyntax::Bw(a, Bord::Excl, b, end_bord), e)),
            None => None,
        }
    } else if ch_is(v, i, '<') {
        match value_at_pos(v, i + 1, false, true) {
            Some((x, e)) => Some((CompSyntax::Lt(x), e)),
            None => None,
        }
    } else if ch_is(v, i, '>') && ch_is(v, i + 1, '=') {
        match value_at_pos(v, i + 2, false, true) {
            Some((x, e)) => Some((CompSyntax::Ge(x), e)),
            None => None,
        }
    } else if ch_is(v, i, '>') {
        match value_at_pos(v, i + 1, false, true) {
            Some((x, e)) => Some((CompSyntax::Gt(x), e)),
            None => None,
        }
    } else if kw_in_at(v, i) {
        if ch_is(v, i + 2, '>') {
            match range_at_pos(v, i + 3, true) {
                Some((a, b, e)) => Some((CompSyntax::Bw(a, Bord::Incl, b, Bord::Excl), e)),
                None => None,
            }
        } else if ch_is(v, skip_ws_at(v, i + 2), '[') {
            match value_at_pos(v, i + 2, false, true) {
                Some((x, e)) => Some((CompSyntax::In(x), e)),
                None => None,
            }
        } else {
            match range_at_pos(v, i + 2, true) {
                Some((a, b, e)) => Some((CompSyntax::Bw(a, Bord::Incl, b, Bord::Incl), e)),
                None => match value_at_pos(v, i + 2, false, true) {
                    Some((x, e)) => Some((CompSyntax::In(x), e)),
                    None => None,
                },
            }
        }
    } else if kw_of_at(v, i) {
        match value_at_pos(v, i + 2, false, true) {
            Some((x, e)) => Some((CompSyntax::In(x), e)),
            None => None,
        }
    } else if ch_is(v, i, '?') {
        Some((CompSyntax::Has, i + 1))
    } else {
        None
    };
    r
}

/// The comparison at the start of the text after the field of a filter, and
/// the position where it ends; an error where the text does not start with one
pub fn parse_comp(src: &str) -> (r: Result<(CompSyntax, usize), Error>)
    ensures
        r is Ok <==> comp_grammar(src@) is Some,
        r matches Ok((c, n)) ==> (c@, n as int) == comp_grammar(src@).unwrap() && n <= src@.len(),
        r matches Err(e) ==> e.message@ == "Invalid comparison"@,
{
    let v = chars_of(src);
    match comp_at_pos(&v, 0) {
        Some(x) => Ok(x),
        None => Err(syntax_error("Invalid comparison")),
    }
}

/// A filter, as text
#[derive(Debug, PartialEq, Eq)]
pub enum FilterSyntax {
    /// A comparison of the field at the path
    Comp(String, CompSyntax),
    Not(Box<FilterSyntax>),
    And(Vec<FilterSyntax>),
    Or(Vec<FilterSyntax>),
}

/// The filter that a filter's text form stands for
pub open spec fn filter_view(f: FilterSyntax) -> FilterTree
    decreases f, 0nat,
{
    match f {
        FilterSyntax::Comp(p, c) => FilterTree::Comp(p@, c@),
        FilterSyntax::Not(b) => FilterTree::Not(Box::new(filter_view(*b))),
        FilterSyntax::And(v) => FilterTree::And(filters_view(v@)),
        FilterSyntax::Or(v) => FilterTree::Or(filters_view(v@)),
    }
}

/// The filters that a sequence of text forms stands for
pub open spec fn filters_view(v: Seq<FilterSyntax>) -> Seq<FilterTree>
    decreases v, 1nat,
{
    if v.len() == 0 {
        Seq::empty()
    } else {
        filters_view(v.drop_last()).push(filter_view(v.last()))
    }
}

impl View for FilterSyntax {
    type V = FilterTree;

    open spec fn view(&self) -> FilterTree {
        filter_view(*self)
    }
}

/// Whether the character may continue an identifier
fn ident_char(c: char) -> (r: bool)
    ensures
        r == is_ident(c),
{
    ('a' <= c && c <= 'z') || ('A' <= c && c <= 'Z') || ('0' <= c && c <= '9') || c == '_'
}

/// The identifier at `i` and where it ends
pub(crate) fn ident_at_pos(v: &Vec<char>, i: usize) -> (r: Option<(String, usize)>)
    requires
        i <= v@.len(),
    ensures
        r is Some <==> ident_at(v@, i as int) is Some,
        r matches Some((x, e)) ==> (x@, e as int) == ident_at(v@, i as int).unwrap() && i < e <= v@.len(),
{
    let a = skip_ws_at(v, i);
    if a >= v.len() {
        return None;
    }
    let c = v[a];
    if !(('a' <= c && c <= 'z') || ('A' <= c && c <= 'Z') || c == '_') {
        return None;
    }
    let mut e = a + 1;
    while e < v.len() && ident_char(v[e])
        invariant
            a < e <= v@.len(),
            ident_end(v@, a + 1) == ident_end(v@, e as int),
        decreases v@.len() - e,
    {
        e = e + 1;
    }
    Some((text_range(v, a, e), e))
}

/// The field path at `i` and where it ends
pub(crate) fn path_at_pos(v: &Vec<char>, i: usize) -> (r: Option<(String, usize)>)
    requires
        i <= v@.len(),
    ensures
        r is Some <==> path_at(v@, i as int) is Some,
        r matches Some((x, e)) ==> (x@, e as int) == path_at(v@, i as int).unwrap() && e <= v@.len(),
{
    let (mut acc, mut j) = match ident_at_pos(v, i) {
        Some(p) => p,
        None => {
            return None;
        },
    };
    loop
        invariant
            j <= v@.len(),
            path_at(v@, i as int) == Some(path_more(v@, j as int, acc@)),
        decreases v@.len() - j,
    {
        let b = skip_ws_at(v, j);
        if !ch_is(v, b, '.') {
            return Some((acc, j));
        }
        match ident_at_pos(v, b + 1) {
            Some((x, e)) => {
                let ghost before = acc@;
                push_char(&mut acc, '.');
                push_str(&mut acc, x.as_str());
                assert(acc@ =~= before + seq!['.'] + x@);
                j = e;
            },
            None => {
                return Some((acc, j));
            },
        }
    }
}

/// The field path and the comparison at `i`, and where they end
fn comp_field_at_pos(v: &Vec<char>, i: usize) -> (r: Option<(String, CompSyntax, usize)>)
    requires
        i <= v@.len(),
    ensures
        r is Some <==> comp_field_at(v@, i as int) is Some,
        r matches Some((p, c, e)) ==> (p@, c@, e as int) == comp_field_at(v@, i as int).unwrap() && e <= v@.len(),
{
    match path_at_pos(v, i) {
        Some((p, e)) => match comp_at_pos(v, e) {
            Some((c, e2)) => Some((p, c, e2)),
            None => None,
        },
        None => None,
    }
}

/// The filter of a comparison of a field, negated where `neg` holds
fn comp_filter_of(neg: bool, path: String, c: CompSyntax) -> (r: FilterSyntax)
    ensures
        r@ == comp_filter(neg, path@, c@),
{
    let ghost p = path@;
    let (inv, c2) = match c {
        CompSyntax::Ne(x) => (true, CompSyntax::Eq(x)),
        CompSyntax::Ni(x) => (true, CompSyntax::In(x)),
        other => (false, other),
    };
    assert(not_not(c@) == (inv, c2@));
    let f = FilterSyntax::Comp(path, c2);
    assert(filter_view(f) == FilterTree::Comp(p, c2@));
    if neg != inv {
        FilterSyntax::Not(Box::new(f))
    } else {
        f
    }
}

/// A comparison of a field, or a filter in parentheses, at `i`, after an
/// optional `!`, and where it ends
fn not_at_pos(v: &Vec<char>, i: usize) -> (r: Option<(FilterSyntax, usize)>)
    requires
        i <= v@.len(),
    ensures
        r is Some <==> not_at(v@, i as int) is Some,
        r matches Some((f, e)) ==> (f@, e as int) == not_at(v@, i as int).unwrap() && e <= v@.len(),
    decreases v@.len() - i, 1nat,
{
    let a = skip_ws_at(v, i);
    let neg = ch_is(v, a, '!');
    let b = skip_ws_at(v, if neg { a + 1 } else { a });
    if b >= i && ch_is(v, b, '(') {
        match or_at_pos(v, b + 1) {
            Some((f, e)) => {
                let d = skip_ws_at(v, e);
                if ch_is(v, d, ')') {
                    let g = if neg { FilterSyntax::Not(Box::new(f)) } else { f };
                    Some((g, d + 1))
                } else {
                    None
                }
            },
            None => None,
        }
    } else {
        match comp_field_at_pos(v, b) {
            Some((p, c, e)) => Some((comp_filter_of(neg, p, c), e)),
            None => None,
        }
    }
}

/// The filters joined by `&&` from `i` on, and where they end
fn and_items_pos(v: &Vec<char>, i: usize) -> (r: Option<(Vec<FilterSyntax>, usize)>)
    requires
        i <= v@.len(),
    ensures
        r is Some <==> and_items(v@, i as int, Seq::empty()) is Some,
        r matches Some((fs, e)) ==> (filters_view(fs@), e as int) == and_items(v@, i as int, Seq::empty()).unwrap() && e <= v@.len(),
    decreases v@.len() - i, 2nat,
{
    let mut acc: Vec<FilterSyntax> = Vec::new();
    let mut j = i;
    assert(filters_view(acc@) =~= Seq::<FilterTree>::empty());
    loop
        invariant
            i <= j <= v@.len(),
            and_items(v@, i as int, Seq::empty()) == and_items(v@, j as int, filters_view(acc@)),
        decreases v@.len() - j,
    {
        let (f, e) = match not_at_pos(v, j) {
            Some(p) => p,
            None => {
                return None;
            },
        };
        let b = skip_ws_at(v, e);
        let ghost before = acc@;
        let ghost fv = f@;
        acc.push(f);
        assert(acc@.drop_last() =~= before);
        assert(filters_view(acc@) == filters_view(before).push(fv));
        if b >= j && ch_is(v, b, '&') && ch_is(v, b + 1, '&') {
            j = b + 2;
        } else {
            return Some((acc, e));
        }
    }
}

/// The conjunction at `i` and where it ends
fn and_at_pos(v: &Vec<char>, i: usize) -> (r: Option<(FilterSyntax, usize)>)
    requires
        i <= v@.len(),
    ensures
        r is Some <==> and_at(v@, i as int) is Some,
        r matches Some((f, e)) ==> (f@, e as int) == and_at(v@, i as int).unwrap() && e <= v@.len(),
    decreases v@.len() - i, 3nat,
{
    match and_items_pos(v, i) {
        Some((fs, e)) => Some((joined(fs, true), e)),
        None => None,
    }
}

/// The conjunctions joined by `||` from `i` on, and where they end
fn or_items_pos(v: &Vec<char>, i: usize) -> (r: Option<(Vec<FilterSyntax>, usize)>)
    requires
        i <= v@.len(),
    ensures
        r is Some <==> or_items(v@, i as int, Seq::empty()) is Some,
        r matches Some((fs, e)) ==> (filters_view(fs@), e as int) == or_items(v@, i as int, Seq::empty()).unwrap() && e <= v@.len(),
    decreases v@.len() - i, 4nat,
{
    let mut acc: Vec<FilterSyntax> = Vec::new();
    let mut j = i;
    assert(filters_view(acc@) =~= Seq::<FilterTree>::empty());
    loop
        invariant
            i <= j <= v@.len(),
            or_items(v@, i as int, Seq::empty()) == or_items(v@, j as int, filters_view(acc@)),
        decreases v@.len() - j,
    {
        let (f, e) = match and_at_pos(v, j) {
            Some(p) => p,
            None => {
                return None;
            },
        };
        let b = skip_ws_at(v, e);
        let ghost before = acc@;
        let ghost fv = f@;
        acc.push(f);
        assert(acc@.drop_last() =~= before);
        assert(filters_view(acc@) == filters_view(before).push(fv));
        if b >= j && ch_is(v, b, '|') && ch_is(v, b + 1, '|') {
            j = b + 2;
        } else {
            return Some((acc, e));
        }
    }
}

/// The disjunction at `i` and where it ends
pub(crate) fn or_at_pos(v: &Vec<char>, i: usize) -> (r: Option<(FilterSyntax, usize)>)
    requires
        i <= v@.len(),
    ensures
        r is Some <==> or_at(v@, i as int) is Some,
        r matches Some((f, e)) ==> (f@, e as int) == or_at(v@, i as int).unwrap() && e <= v@.len(),
    decreases v@.len() - i, 5nat,
{
    match or_items_pos(v, i) {
        Some((fs, e)) => Some((joined(fs, false), e)),
        None => None,
    }
}

/// The one filter of a list, or the filters joined (`conj`: by `&&`, else by `||`)
fn joined(fs: Vec<FilterSyntax>, conj: bool) -> (r: FilterSyntax)
    ensures
        r@ == (if filters_view(fs@).len() == 1 {
            filters_view(fs@)[0]
        } else if conj {
            FilterTree::And(filters_view(fs@))
        } else {
            FilterTree::Or(filters_view(fs@))
        }),
{
    let ghost all = fs@;
    proof {
        lemma_filters_view_len(fs@);
    }
    if fs.len() == 1 {
        let mut fs = fs;
        let f = fs.pop().unwrap();
        proof {
            assert(all =~= seq![f]);
            assert(seq![f].drop_last() =~= Seq::<FilterSyntax>::empty());
        }
        f
    } else if conj {
        FilterSyntax::And(fs)
    } else {
        FilterSyntax::Or(fs)
    }
}

/// The view of a sequence of filters has one filter for each
proof fn lemma_filters_view_len(v: Seq<FilterSyntax>)
    ensures
        filters_view(v).len() == v.len(),
    decreases v.len(),
{
    if v.len() > 0 {
        lemma_filters_view_len(v.drop_last());
    }
}

/// The filter at the start of the text and the position where it ends; an
/// error where the text does not start with one
pub fn parse_filter(src: &str) -> (r: Result<(FilterSyntax, usize), Error>)
    ensures
        r is Ok <==> filter_grammar(src@) is Some,
        r matches Ok((f, n)) ==> (f@, n as int) == filter_grammar(src@).unwrap() && n <= src@.len(),
        r matches Err(e) ==> e.message@ == "Invalid filter"@,
{
    let v = chars_of(src);
    match or_at_pos(&v, 0) {
        Some(x) => Ok(x),
        None => Err(syntax_error("Invalid filter")),
    }
}

/// The filter of a query: none where the text is blank, else the filter at
/// its start and the position where it ends; an error where the text is
/// neither blank nor starts with a filter
pub fn parse_where(src: &str) -> (r: Result<(Option<FilterSyntax>, usize), Error>)
    ensures
        r is Ok <==> where_grammar(src@) is Some,
        r matches Ok((f, n)) ==> (match f {
            Some(g) => Some(g@),
            None => None::<FilterTree>,
        }, n as int) == where_grammar(src@).unwrap() && n <= src@.len(),
        r matches Err(e) ==> e.message@ == "Invalid filter"@,
{
    let v = chars_of(src);
    let a = skip_ws_at(&v, 0);
    if a >= v.len() {
        return Ok((None, a));
    }
    match or_at_pos(&v, 0) {
        Some((f, e)) => Ok((Some(f), e)),
        None => Err(syntax_error("Invalid filter")),
    }
}

/// An action of a modifier, as text
#[derive(Debug, PartialEq, Eq)]
pub enum ActionSyntax {
    Assign(String),
    Delete,
    Add(String),
    Sub(String),
    Mul(String),
    Div(String),
    Toggle,
    /// Replace: the pattern (a string literal) and the replacement
    Replace(String, String),
    /// Splice of the range: the values put in, none where the range is removed
    Splice(PointSyntax, PointSyntax, Option<ValSyntax>),
    Merge(String),
}

impl View for ActionSyntax {
    type V = ActionTree;

    open spec fn view(&self) -> ActionTree {
        match self {
            ActionSyntax::Assign(x) => ActionTree::Assign(x@),
            ActionSyntax::Delete => ActionTree::Delete,
            ActionSyntax::Add(x) => ActionTree::Add(x@),
            ActionSyntax::Sub(x) => ActionTree::Sub(x@),
            ActionSyntax::Mul(x) => ActionTree::Mul(x@),
            ActionSyntax::Div(x) => ActionTree::Div(x@),
            ActionSyntax::Toggle => ActionTree::Toggle,
            ActionSyntax::Replace(p, x) => ActionTree::Replace(p@, x@),
            ActionSyntax::Splice(a, b, v) => ActionTree::Splice(a@, b@, match v {
                Some(x) => Some(x@),
                None => None,
            }),
            ActionSyntax::Merge(x) => ActionTree::Merge(x@),
        }
    }
}

/// The position past the closing quote of the string literal whose text starts at `i`
fn lit_close_at(v: &Vec<char>, i: usize) -> (r: Option<usize>)
    requires
        i <= v@.len(),
    ensures
        r == (match lit_close(v@, i as int) {
            Some(e) => Some(e as usize),
            None => None::<usize>,
        }),
        r matches Some(e) ==> i < e <= v@.len() && lit_close(v@, i as int) == Some(e as int),
{
    let mut j = i;
    while j < v.len()
        invariant
            i <= j <= v@.len(),
            lit_close(v@, i as int) == lit_close(v@, j as int),
        decreases v@.len() - j,
    {
        if v[j] == '\\' {
            if j + 1 >= v.len() {
                return None;
            }
            j = j + 2;
        } else if v[j] == '"' {
            return Some(j + 1);
        } else {
            j = j + 1;
        }
    }
    None
}

/// The action after a `~` at `i`
fn tilde_action_at(v: &Vec<char>, i: usize) -> (r: Option<(ActionSyntax, usize)>)
    requires
        i < v@.len() <= usize::MAX,
    ensures
        r is Some <==> tilde_action(v@, i as int) is Some,
        r matches Some((x, e)) ==> (x@, e as int) == tilde_action(v@, i as int).unwrap() && e <= v@.len(),
{
    let j = skip_ws_at(v, i + 1);
    if ch_is(v, j, '=') {
        let a = skip_ws_at(v, j + 1);
        if ch_is(v, a, '"') {
            match lit_close_at(v, a + 1) {
                Some(e) => match expr_at_pos(v, e, false, false) {
                    Some((sub, e2)) => Some((ActionSyntax::Replace(text_range(v, a, e), sub), e2)),
                    None => None,
                },
                None => None,
            }
        } else {
            match expr_at_pos(v, j + 1, false, false) {
                Some((x, e)) => Some((ActionSyntax::Merge(x), e)),
                None => None,
            }
        }
    } else {
        Some((ActionSyntax::Delete, i + 1))
    }
}

/// The splice action after `[` at `i`
fn splice_action_at(v: &Vec<char>, i: usize) -> (r: Option<(ActionSyntax, usize)>)
    requires
        i < v@.len() <= usize::MAX,
    ensures
        r is Some <==> splice_action(v@, i as int) is Some,
        r matches Some((x, e)) ==> (x@, e as int) == splice_action(v@, i as int).unwrap() && e <= v@.len(),
{
    let (a, b, e) = match range_at_pos(v, i + 1, false) {
        Some(x) => x,
        None => {
            return None;
        },
    };
    let c = skip_ws_at(v, e);
    if !ch_is(v, c, ']') {
        return None;
    }
    let d = skip_ws_at(v, c + 1);
    if ch_is(v, d, '-') || ch_is(v, d, '~') {
        Some((ActionSyntax::Splice(a, b, None), d + 1))
    } else if ch_is(v, d, '=') {
        match value_at_pos(v, d + 1, false, false) {
            Some((x, e2)) => Some((ActionSyntax::Splice(a, b, Some(x)), e2)),
            None => None,
        }
    } else {
        None
    }
}

/// The action at `start` and where it ends
fn action_at_pos(v: &Vec<char>, start: usize) -> (r: Option<(ActionSyntax, usize)>)
    requires
        start <= v@.len(),
    ensures
        r is Some <==> action_at(v@, start as int) is Some,
        r matches Some((a, n)) ==> (a@, n as int) == action_at(v@, start as int).unwrap() && n <= v@.len(),
{
    let i = skip_ws_at(v, start);
    let r = if ch_is(v, i, '=') && !ch_is(v, i + 1, '=') {
        match expr_at_pos(v, i + 1, false, false) {
            Some((x, e)) => Some((ActionSyntax::Assign(x), e)),
            None => None,
        }
    } else if ch_is(v, i, '+') && ch_is(v, i + 1, '=') {
        match expr_at_pos(v, i + 2, false, false) {
            Some((x, e)) => Some((ActionSyntax::Add(x), e)),
            None => None,
        }
    } else if ch_is(v, i, '-') && ch_is(v, i + 1, '=') {
        match expr_at_pos(v, i + 2, false, false) {
            Some((x, e)) => Some((ActionSyntax::Sub(x), e)),
            None => None,
        }
    } else if ch_is(v, i, '-') {
        Some((ActionSyntax::Delete, i + 1))
    } else if ch_is(v, i, '*') && ch_is(v, i + 1, '=') {
        match expr_at_pos(v, i + 2, false, false) {
            Some((x, e)) => Some((ActionSyntax::Mul(x), e)),
            None => None,
        }
    } else if ch_is(v, i, '/') && ch_is(v, i + 1, '=') {
        match expr_at_pos(v, i + 2, false, false) {
            Some((x, e)) => Some((ActionSyntax::Div(x), e)),
            None => None,
        }
    } else if ch_is(v, i, '~') {
        tilde_action_at(v, i)
    } else if ch_is(v, i, '!') {
        Some((ActionSyntax::Toggle, i + 1))
    } else if ch_is(v, i, '[') {
        splice_action_at(v, i)
    } else {
        None
    };
    r
}

/// The action at the start of the text after the field of a modifier, and
/// the position where it ends; an error where the text does not start with one
pub fn parse_action(src: &str) -> (r: Result<(ActionSyntax, usize), Error>)
    ensures
        r is Ok <==> action_grammar(src@) is Some,
        r matches Ok((a, n)) ==> (a@, n as int) == action_grammar(src@).unwrap() && n <= src@.len(),
        r matches Err(e) ==> e.message@ == "Invalid action"@,
{
    let v = chars_of(src);
    match action_at_pos(&v, 0) {
        Some(x) => Ok(x),
        None => Err(syntax_error("Invalid action")),
    }
}

/// The field paths and actions of a modifier, as text
pub open spec fn mods_view(v: Seq<(String, ActionSyntax)>) -> Seq<(Seq<char>, ActionTree)> {
    v.map_values(|e: (String, ActionSyntax)| (e.0@, e.1@))
}

/// The field paths and their actions from `i` on, and where they end;
/// `None` where an action after a path is not one
pub(crate) fn mod_items_pos(v: &Vec<char>, i: usize) -> (r: Option<(Vec<(String, ActionSyntax)>, usize)>)
    requires
        i <= v@.len(),
    ensures
        r is Some <==> mod_items(v@, i as int, Seq::empty()) is Some,
        r matches Some((m, n)) ==> (mods_view(m@), n as int) == mod_items(v@, i as int, Seq::empty()).unwrap() && n <= v@.len(),
{
    let mut acc: Vec<(String, ActionSyntax)> = Vec::new();
    let mut j: usize = i;
    assert(mods_view(acc@) =~= Seq::<(Seq<char>, ActionTree)>::empty());
    loop
        invariant
            i <= j <= v@.len(),
            mod_items(v@, i as int, Seq::empty()) == mod_items(v@, j as int, mods_view(acc@)),
        decreases v@.len() - j,
    {
        let (p, e) = match path_at_pos(v, j) {
            Some(x) => x,
            None => {
                return Some((acc, j));
            },
        };
        let (a, e2) = match action_at_pos(v, e) {
            Some(x) => x,
            None => {
                return None;
            },
        };
        let b = skip_ws_at(v, e2);
        let ghost before = acc@;
        let ghost item = (p@, a@);
        acc.push((p, a));
        assert(mods_view(acc@) =~= mods_view(before).push(item));
        if b >= j && (ch_is(v, b, ',') || ch_is(v, b, ';')) {
            j = b + 1;
        } else {
            return Some((acc, e2));
        }
    }
}

/// The modifier at the start of the text, field path by field path, and the
/// position where it ends; an error where an action after a path is not one
pub fn parse_modify(src: &str) -> (r: Result<(Vec<(String, ActionSyntax)>, usize), Error>)
    ensures
        r is Ok <==> modify_grammar(src@) is Some,
        r matches Ok((m, n)) ==> (mods_view(m@), n as int) == modify_grammar(src@).unwrap() && n <= src@.len(),
        r matches Err(e) ==> e.message@ == "Invalid modifier"@,
{
    let v = chars_of(src);
    match mod_items_pos(&v, 0) {
        Some(x) => Ok(x),
        None => Err(syntax_error("Invalid modifier")),
    }
}

/// An ordering, as text
#[derive(Debug, PartialEq, Eq)]
pub enum OrderSyntax {
    Primary(OrderKind),
    Field(String, OrderKind),
}

impl View for OrderSyntax {
    type V = OrderTree;

    open spec fn view(&self) -> OrderTree {
        match self {
            OrderSyntax::Primary(k) => OrderTree::Primary(*k),
            OrderSyntax::Field(p, k) => OrderTree::Field(p@, *k),
        }
    }
}

/// Whether the text holds the word `w` at `a`
pub(crate) fn word_at_pos(v: &Vec<char>, a: usize, w: &str) -> (r: bool)
    ensures
        r == word_at(v@, a as int, w@),
        r ==> a + w@.len() <= v@.len() <= usize::MAX,
{
    let wc = chars_of(w);
    let n = v.len();
    if a > n || wc.len() > n - a {
        return false;
    }
    let mut k: usize = 0;
    while k < wc.len()
        invariant
            a + wc@.len() <= v@.len(),
            n == v@.len(),
            k <= wc@.len(),
            wc@ == w@,
            forall|j: int| 0 <= j < k ==> v@[a + j] == wc@[j],
        decreases wc@.len() - k,
    {
        if v[a + k] != wc[k] {
            assert(v@.subrange(a as int, a + w@.len())[k as int] != w@[k as int]);
            return false;
        }
        k = k + 1;
    }
    assert(v@.subrange(a as int, a + w@.len()) =~= w@);
    let e = a + wc.len();
    if e < n && ident_char(v[e]) {
        false
    } else {
        true
    }
}

/// The order kind at `i` and where it ends
pub(crate) fn order_kind_at_pos(v: &Vec<char>, i: usize) -> (r: Option<(OrderKind, usize)>)
    requires
        i <= v@.len(),
    ensures
        r == (match order_kind_at(v@, i as int) {
            Some((k, e)) => Some((k, e as usize)),
            None => None::<(OrderKind, usize)>,
        }),
        r matches Some((k, e)) ==> e <= v@.len() && order_kind_at(v@, i as int) == Some((k, e as int)),
{
    let a = skip_ws_at(v, i);
    proof {
        reveal_strlit("desc");
        reveal_strlit("asc");
    }
    if word_at_pos(v, a, "desc") {
        Some((OrderKind::Desc, a + 4))
    } else if ch_is(v, a, '<') {
        Some((OrderKind::Desc, a + 1))
    } else if word_at_pos(v, a, "asc") {
        Some((OrderKind::Asc, a + 3))
    } else if ch_is(v, a, '>') {
        Some((OrderKind::Asc, a + 1))
    } else {
        None
    }
}

/// The ordering at the start of the text and the position where it ends;
/// an error where the text does not start with one
pub fn parse_order(src: &str) -> (r: Result<(OrderSyntax, usize), Error>)
    ensures
        r is Ok <==> order_grammar(src@) is Some,
        r matches Ok((o, n)) ==> (o@, n as int) == order_grammar(src@).unwrap() && n <= src@.len(),
        r matches Err(e) ==> e.message@ == "Invalid order"@,
{
    let v = chars_of(src);
    let a = skip_ws_at(&v, 0);
    proof {
        reveal_strlit("by");
    }
    let r = if a >= v.len() {
        Some((OrderSyntax::Primary(OrderKind::Asc), a))
    } else if word_at_pos(&v, a, "by") {
        match path_at_pos(&v, a + 2) {
            Some((p, e)) => match order_kind_at_pos(&v, e) {
                Some((k, e2)) => Some((OrderSyntax::Field(p, k), e2)),
                None => None,
            },
            None => None,
        }
    } else {
        match order_kind_at_pos(&v, a) {
            Some((k, e)) => Some((OrderSyntax::Primary(k), e)),
            None => None,
        }
    };
    match r {
        Some(x) => Ok(x),
        None => Err(syntax_error("Invalid order")),
    }
}

/// The key type that the word at `i` names, and where it ends
pub(crate) fn key_type_at_pos(v: &Vec<char>, i: usize) -> (r: Option<(KeyType, usize)>)
    requires
        i <= v@.len(),
    ensures
        r is Some <==> key_type_at(v@, i as int) is Some,
        r matches Some((k, n)) ==> (k, n as int) == key_type_at(v@, i as int).unwrap() && n <= v@.len(),
{
    let a = skip_ws_at(v, i);
    proof {
        reveal_strlit("integer");
        reveal_strlit("int");
        reveal_strlit("float");
        reveal_strlit("boolean");
        reveal_strlit("bool");
        reveal_strlit("string");
        reveal_strlit("str");
        reveal_strlit("text");
        reveal_strlit("binary");
        reveal_strlit("bin");
    }
    if word_at_pos(v, a, "integer") {
        Some((KeyType::Int, a + 7))
    } else if word_at_pos(v, a, "int") {
        Some((KeyType::Int, a + 3))
    } else if word_at_pos(v, a, "float") {
        Some((KeyType::Float, a + 5))
    } else if word_at_pos(v, a, "boolean") {
        Some((KeyType::Bool, a + 7))
    } else if word_at_pos(v, a, "bool") {
        Some((KeyType::Bool, a + 4))
    } else if word_at_pos(v, a, "string") {
        Some((KeyType::String, a + 6))
    } else if word_at_pos(v, a, "str") {
        Some((KeyType::String, a + 3))
    } else if word_at_pos(v, a, "text") {
        Some((KeyType::String, a + 4))
    } else if word_at_pos(v, a, "binary") {
        Some((KeyType::Binary, a + 6))
    } else if word_at_pos(v, a, "bin") {
        Some((KeyType::Binary, a + 3))
    } else {
        None
    }
}

/// The key type that the word at the start of the text names, and the
/// position where it ends; an error where it names none
pub fn parse_key_type(src: &str) -> (r: Result<(KeyType, usize), Error>)
    ensures
        r is Ok <==> key_type_at(src@, 0) is Some,
        r matches Ok((k, n)) ==> (k, n as int) == key_type_at(src@, 0).unwrap() && n <= src@.len(),
        r matches Err(e) ==> e.message@ == "Invalid key type"@,
{
    let v = chars_of(src);
    match key_type_at_pos(&v, 0) {
        Some(x) => Ok(x),
        None => Err(syntax_error("Invalid key type")),
    }
}

/// The index kind that the word at `i` names, and where it ends
pub(crate) fn index_kind_at_pos(v: &Vec<char>, i: usize) -> (r: Option<(IndexKind, usize)>)
    requires
        i <= v@.len(),
    ensures
        r is Some <==> index_kind_at(v@, i as int) is Some,
        r matches Some((k, n)) ==> (k, n as int) == index_kind_at(v@, i as int).unwrap() && n <= v@.len(),
{
    let a = skip_ws_at(v, i);
    proof {
        reveal_strlit("unique");
        reveal_strlit("uni");
        reveal_strlit("duplicate");
        reveal_strlit("dup");
    }
    if word_at_pos(v, a, "unique") {
        Some((IndexKind::Unique, a + 6))
    } else if word_at_pos(v, a, "uni") {
        Some((IndexKind::Unique, a + 3))
    } else if word_at_pos(v, a, "duplicate") {
        Some((IndexKind::Index, a + 9))
    } else if word_at_pos(v, a, "dup") {
        Some((IndexKind::Index, a + 3))
    } else {
        None
    }
}

/// The index kind that the word at the start of the text names, and the
/// position where it ends; an error where it names none
pub fn parse_index_kind(src: &str) -> (r: Result<(IndexKind, usize), Error>)
    ensures
        r is Ok <==> index_kind_at(src@, 0) is Some,
        r matches Ok((k, n)) ==> (k, n as int) == index_kind_at(src@, 0).unwrap() && n <= src@.len(),
        r matches Err(e) ==> e.message@ == "Invalid index kind"@,
{
    let v = chars_of(src);
    match index_kind_at_pos(&v, 0) {
        Some(x) => Ok(x),
        None => Err(syntax_error("Invalid index kind")),
    }
}

/// Skipping white space twice is skipping it once
pub proof fn lemma_skip_ws_idem(s: Seq<char>, i: int)
    requires
        0 <= i <= s.len(),
    ensures
        skip_ws(s, skip_ws(s, i)) == skip_ws(s, i),
    decreases s.len() - i,
{
    if i < s.len() && is_ws(s[i]) {
        lemma_skip_ws_idem(s, i + 1);
    }
}

} // verus!
