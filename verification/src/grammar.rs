//! The grammar of condition and count expressions.
//!
//! ```text
//! expression := level 9
//! level n    := level (n - 1) { operator of level n, level (n - 1) }
//! level 0    := unary { "as" integer type }
//! unary      := "!" unary | "-" unary | atom
//! atom       := number | "true" | "false" | word | "_root" "." word
//!             | "(" expression ")"
//! number     := decimal digits | "0x" hexadecimal digits
//! ```
//!
//! Operators by level, loosest first: `||` (9), `&&` (8), the comparisons
//! `==  !=  <=  >=  <  >` (7), `|` (6), `^` (5), `&` (4), `<<  >>` (3),
//! `+  -` (2), `*  /  %` (1). Operators of one level associate to the left,
//! except the comparisons, which do not chain. Blanks may stand between any
//! two tokens. The integer types are `u8`, `u16`, `u32`, `u64`, `usize`
//! and their signed counterparts.

use crate::expr::{BinaryOp, Expr, ExprView, IntType, UnaryOp};
use crate::text::{same_text, text_chars, text_piece};
use vstd::prelude::*;

verus! {

pub open spec fn is_space(c: char) -> bool {
    c == ' ' || c == '\t' || c == '\n' || c == '\r'
}

pub open spec fn is_digit(c: char) -> bool {
    '0' <= c && c <= '9'
}

pub open spec fn is_word_start(c: char) -> bool {
    ('a' <= c && c <= 'z') || ('A' <= c && c <= 'Z') || c == '_'
}

pub open spec fn is_word_char(c: char) -> bool {
    is_word_start(c) || is_digit(c)
}

/// The first offset at or after `pos` that holds no blank.
pub open spec fn skip_spaces(s: Seq<char>, pos: int) -> int
    decreases s.len() - pos,
{
    if 0 <= pos < s.len() && is_space(s[pos]) {
        skip_spaces(s, pos + 1)
    } else {
        pos
    }
}

/// The first offset at or after `pos` that holds no word character.
pub open spec fn word_end(s: Seq<char>, pos: int) -> int
    decreases s.len() - pos,
{
    if 0 <= pos < s.len() && is_word_char(s[pos]) {
        word_end(s, pos + 1)
    } else {
        pos
    }
}

/// The value of a decimal digit.
pub open spec fn digit_value(c: char) -> nat {
    (c as int - '0' as int) as nat
}

/// The number spelled by the digits from `pos` on, after the digits that
/// gave `acc`, and the offset after it; `None` when it does not fit in 64
/// bits.
pub open spec fn number_at(s: Seq<char>, pos: int, acc: nat) -> Option<(u64, int)>
    decreases s.len() - pos,
{
    if 0 <= pos < s.len() && is_digit(s[pos]) {
        let value = acc * 10 + digit_value(s[pos]);
        if value > u64::MAX {
            None
        } else {
            number_at(s, pos + 1, value)
        }
    } else if acc <= u64::MAX {
        Some((acc as u64, pos))
    } else {
        None
    }
}

/// Whether the character `c` stands at offset `p`.
pub open spec fn has(s: Seq<char>, p: int, c: char) -> bool {
    0 <= p < s.len() && s[p] == c
}

/// The operator of the given level that starts at offset `p`, and its
/// length.
pub open spec fn operator_at(s: Seq<char>, p: int, level: nat) -> Option<(BinaryOp, int)> {
    if level == 9 {
        if has(s, p, '|') && has(s, p + 1, '|') {
            Some((BinaryOp::Or, 2int))
        } else {
            None
        }
    } else if level == 8 {
        if has(s, p, '&') && has(s, p + 1, '&') {
            Some((BinaryOp::And, 2int))
        } else {
            None
        }
    } else if level == 7 {
        if has(s, p, '=') && has(s, p + 1, '=') {
            Some((BinaryOp::Eq, 2int))
        } else if has(s, p, '!') && has(s, p + 1, '=') {
            Some((BinaryOp::Ne, 2int))
        } else if has(s, p, '<') && has(s, p + 1, '=') {
            Some((BinaryOp::Le, 2int))
        } else if has(s, p, '>') && has(s, p + 1, '=') {
            Some((BinaryOp::Ge, 2int))
        } else if has(s, p, '<') {
            Some((BinaryOp::Lt, 1int))
        } else if has(s, p, '>') {
            Some((BinaryOp::Gt, 1int))
        } else {
            None
        }
    } else if level == 6 {
        if has(s, p, '|') && !(has(s, p + 1, '|')) {
            Some((BinaryOp::BitOr, 1int))
        } else {
            None
        }
    } else if level == 5 {
        if has(s, p, '^') {
            Some((BinaryOp::BitXor, 1int))
        } else {
            None
        }
    } else if level == 4 {
        if has(s, p, '&') && !(has(s, p + 1, '&')) {
            Some((BinaryOp::BitAnd, 1int))
        } else {
            None
        }
    } else if level == 3 {
        if has(s, p, '<') && has(s, p + 1, '<') {
            Some((BinaryOp::Shl, 2int))
        } else if has(s, p, '>') && has(s, p + 1, '>') {
            Some((BinaryOp::Shr, 2int))
        } else {
            None
        }
    } else if level == 2 {
        if has(s, p, '+') {
            Some((BinaryOp::Add, 1int))
        } else if has(s, p, '-') {
            Some((BinaryOp::Sub, 1int))
        } else {
            None
        }
    } else if level == 1 {
        if has(s, p, '*') {
            Some((BinaryOp::Mul, 1int))
        } else if has(s, p, '/') {
            Some((BinaryOp::Div, 1int))
        } else if has(s, p, '%') {
            Some((BinaryOp::Rem, 1int))
        } else {
            None
        }
    } else {
        None
    }
}

/// Whether a character is a hexadecimal digit.
pub open spec fn is_hex_digit(c: char) -> bool {
    is_digit(c) || ('a' <= c && c <= 'f') || ('A' <= c && c <= 'F')
}

/// The value of a hexadecimal digit.
pub open spec fn hex_value(c: char) -> nat {
    if is_digit(c) {
        digit_value(c)
    } else if 'a' <= c && c <= 'f' {
        (c as int - 'a' as int + 10) as nat
    } else {
        (c as int - 'A' as int + 10) as nat
    }
}

/// The number spelled by the hexadecimal digits from `pos` on, after the
/// digits that gave `acc`, and the offset after it; `None` when it does not
/// fit in 64 bits.
pub open spec fn hex_at(s: Seq<char>, pos: int, acc: nat) -> Option<(u64, int)>
    decreases s.len() - pos,
{
    if 0 <= pos < s.len() && is_hex_digit(s[pos]) {
        let value = acc * 16 + hex_value(s[pos]);
        if value > u64::MAX {
            None
        } else {
            hex_at(s, pos + 1, value)
        }
    } else if acc <= u64::MAX {
        Some((acc as u64, pos))
    } else {
        None
    }
}

/// Whether a hexadecimal literal starts at `p`: `0x` and a digit.
pub open spec fn hex_starts(s: Seq<char>, p: int) -> bool {
    has(s, p, '0') && has(s, p + 1, 'x') && 0 <= p + 2 < s.len() && is_hex_digit(s[p + 2])
}

/// The literal that starts at `p`, and the offset after it.
pub open spec fn literal_at(s: Seq<char>, p: int) -> Option<(u64, int)> {
    if hex_starts(s, p) {
        hex_at(s, p + 2, 0)
    } else {
        number_at(s, p, 0)
    }
}

/// The atom that starts at or after `pos`, and the offset after it.
pub open spec fn parse_atom(s: Seq<char>, pos: int) -> Option<(ExprView, int)>
    decreases s.len() - pos, 0nat,
{
    let p = skip_spaces(s, pos);
    if !(0 <= pos <= p < s.len()) {
        None
    } else if s[p] == '(' {
        match parse_level(s, p + 1, 9) {
            Some((inner, q)) => if has(s, skip_spaces(s, q), ')') {
                Some((inner, skip_spaces(s, q) + 1))
            } else {
                None
            },
            None => None,
        }
    } else if is_digit(s[p]) {
        match literal_at(s, p) {
            Some((n, q)) => Some((ExprView::Number(n), q)),
            None => None,
        }
    } else if is_word_start(s[p]) {
        let q = word_end(s, p);
        let word = s.subrange(p, q);
        if word == "true"@ {
            Some((ExprView::Truth(true), q))
        } else if word == "false"@ {
            Some((ExprView::Truth(false), q))
        } else if word == "_root"@ {
            let dot = skip_spaces(s, q);
            let start = skip_spaces(s, dot + 1);
            if has(s, dot, '.') && 0 <= start < s.len() && is_word_start(s[start]) {
                Some((ExprView::Root(s.subrange(start, word_end(s, start))), word_end(s, start)))
            } else {
                None
            }
        } else {
            Some((ExprView::Local(word), q))
        }
    } else {
        None
    }
}

/// The unary expression that starts at or after `pos`.
pub open spec fn parse_unary(s: Seq<char>, pos: int) -> Option<(ExprView, int)>
    decreases s.len() - pos, 1nat,
{
    let p = skip_spaces(s, pos);
    if 0 <= pos <= p < s.len() && (s[p] == '!' || s[p] == '-') {
        match parse_unary(s, p + 1) {
            Some((inner, q)) => Some(
                (ExprView::Unary(if s[p] == '!' {
                    UnaryOp::Not
                } else {
                    UnaryOp::Neg
                }, Box::new(inner)), q),
            ),
            None => None,
        }
    } else {
        parse_atom(s, pos)
    }
}

/// The integer type that a word names.
pub open spec fn int_type_named(word: Seq<char>) -> Option<IntType> {
    if word == "u8"@ {
        Some(IntType::U8)
    } else if word == "u16"@ {
        Some(IntType::U16)
    } else if word == "u32"@ {
        Some(IntType::U32)
    } else if word == "u64"@ {
        Some(IntType::U64)
    } else if word == "usize"@ {
        Some(IntType::Usize)
    } else if word == "i8"@ {
        Some(IntType::I8)
    } else if word == "i16"@ {
        Some(IntType::I16)
    } else if word == "i32"@ {
        Some(IntType::I32)
    } else if word == "i64"@ {
        Some(IntType::I64)
    } else if word == "isize"@ {
        Some(IntType::Isize)
    } else {
        None
    }
}

/// The casts that follow an operand at `pos`, applied to `inner` one after
/// the other, and the offset after the last of them. A cast is the word
/// `as` and the name of an integer type.
pub open spec fn cast_tail(s: Seq<char>, pos: int, inner: ExprView) -> (ExprView, int)
    decreases s.len() - pos,
{
    let p = skip_spaces(s, pos);
    let q = word_end(s, p);
    let start = skip_spaces(s, q);
    let end = word_end(s, start);
    if 0 <= pos <= p && p < q <= start && start < end <= s.len() && s.subrange(p, q) == "as"@ {
        match int_type_named(s.subrange(start, end)) {
            Some(target) => cast_tail(s, end, ExprView::Cast(target, Box::new(inner))),
            None => (inner, pos),
        }
    } else {
        (inner, pos)
    }
}

/// The expression of the given level that starts at or after `pos`.
pub open spec fn parse_level(s: Seq<char>, pos: int, level: nat) -> Option<(ExprView, int)>
    decreases s.len() - pos, 2 * level + 3,
{
    if level == 0 {
        match parse_unary(s, pos) {
            Some((inner, p)) => Some(cast_tail(s, p, inner)),
            None => None,
        }
    } else {
        match parse_level(s, pos, (level - 1) as nat) {
            Some((left, p)) => if pos <= p <= s.len() {
                parse_tail(s, p, level, left)
            } else {
                None
            },
            None => None,
        }
    }
}

/// What follows an operand of the given level at `pos`: operators of that
/// level with their right operands, folded onto `left` from the left.
pub open spec fn parse_tail(s: Seq<char>, pos: int, level: nat, left: ExprView) -> Option<(ExprView, int)>
    decreases s.len() - pos, 2 * level + 2,
{
    let p = skip_spaces(s, pos);
    match operator_at(s, p, level) {
        Some((op, n)) => if 0 <= pos <= p && level > 0 {
            match parse_level(s, p + n, (level - 1) as nat) {
                Some((right, q)) => {
                    let joined = ExprView::Binary(op, Box::new(left), Box::new(right));
                    if level == 7 {
                        Some((joined, q))
                    } else if pos < q <= s.len() {
                        parse_tail(s, q, level, joined)
                    } else {
                        None
                    }
                },
                None => None,
            }
        } else {
            None
        },
        None => Some((left, pos)),
    }
}

/// The expression that a text spells, if it spells one and nothing else.
pub open spec fn parsed_expression(s: Seq<char>) -> Option<ExprView> {
    match parse_level(s, 0, 9) {
        Some((e, p)) => if skip_spaces(s, p) == s.len() {
            Some(e)
        } else {
            None
        },
        None => None,
    }
}

/// Whether a text is a name that an expression can spell: a letter or `_`,
/// then letters, digits and `_`, and none of the words that the grammar
/// keeps for itself.
pub open spec fn is_name(s: Seq<char>) -> bool {
    &&& s.len() > 0
    &&& is_word_start(s[0])
    &&& forall|i: int| 0 <= i < s.len() ==> is_word_char(#[trigger] s[i])
    &&& s != "true"@
    &&& s != "false"@
    &&& s != "_root"@
}

/// A word ends at or after its start, inside the text, and after its
/// first character when it has one.
pub proof fn lemma_word_end_bounds(s: Seq<char>, pos: int)
    ensures
        pos <= word_end(s, pos),
        0 <= pos <= s.len() ==> word_end(s, pos) <= s.len(),
        forall|i: int| pos <= i < word_end(s, pos) ==> is_word_char(#[trigger] s[i]),
        0 <= pos < s.len() && is_word_char(s[pos]) ==> pos < word_end(s, pos),
    decreases s.len() - pos,
{
    if 0 <= pos < s.len() && is_word_char(s[pos]) {
        lemma_word_end_bounds(s, pos + 1);
    }
}

/// Whether a text is a name that an expression can spell.
pub fn check_name(text: &str) -> (r: bool)
    ensures
        r == is_name(text@),
{
    let chars = text_chars(text);
    if chars.len() == 0 || !word_start(chars[0]) {
        return false;
    }
    let mut i: usize = 0;
    while i < chars.len()
        invariant
            i <= chars@.len(),
            chars@ == text@,
            forall|j: int| 0 <= j < i ==> is_word_char(#[trigger] text@[j]),
        decreases chars@.len() - i,
    {
        if !word_char(chars[i]) {
            return false;
        }
        i += 1;
    }
    !same_text(text, "true") && !same_text(text, "false") && !same_text(text, "_root")
}

/// A word is as long as the run of word characters that it is.
proof fn lemma_word_end_of_word(s: Seq<char>, pos: int)
    requires
        0 <= pos <= s.len(),
        forall|i: int| 0 <= i < s.len() ==> is_word_char(#[trigger] s[i]),
    ensures
        word_end(s, pos) == s.len(),
    decreases s.len() - pos,
{
    if pos < s.len() {
        lemma_word_end_of_word(s, pos + 1);
    }
}

/// A name is read as itself at every level of the grammar.
proof fn lemma_name_at_level(s: Seq<char>, level: nat)
    requires
        is_name(s),
    ensures
        parse_level(s, 0, level) == Some((ExprView::Local(s), s.len() as int)),
    decreases level,
{
    let end = s.len() as int;
    if level == 0 {
        lemma_word_end_of_word(s, 0);
        lemma_word_end_of_word(s, end);
        assert(!is_space(s[0]));
        assert(skip_spaces(s, 0) == 0);
        assert(s.subrange(0, end) =~= s);
        assert(parse_atom(s, 0) == Some((ExprView::Local(s), end)));
        assert(parse_unary(s, 0) == Some((ExprView::Local(s), end)));
        assert(skip_spaces(s, end) == end);
        assert(cast_tail(s, end, ExprView::Local(s)) == (ExprView::Local(s), end));
    } else {
        lemma_name_at_level(s, (level - 1) as nat);
        assert(skip_spaces(s, end) == end);
        assert(operator_at(s, end, level) is None);
        assert(parse_tail(s, end, level, ExprView::Local(s)) == Some((ExprView::Local(s), end)));
    }
}

/// Every name can be spelled in an expression: as an expression, a name
/// is the local field of that name.
pub proof fn lemma_name_is_an_expression(s: Seq<char>)
    requires
        is_name(s),
    ensures
        parsed_expression(s) == Some(ExprView::Local(s)),
{
    lemma_name_at_level(s, 9);
    assert(skip_spaces(s, s.len() as int) == s.len());
}

/// The model of the outcome of parsing a part of a text.
pub open spec fn parsed_view(r: Option<(Expr, usize)>) -> Option<(ExprView, int)> {
    match r {
        Some((e, p)) => Some((e@, p as int)),
        None => None,
    }
}

fn space(c: char) -> (r: bool)
    ensures
        r == is_space(c),
{
    c == ' ' || c == '\t' || c == '\n' || c == '\r'
}

fn digit(c: char) -> (r: bool)
    ensures
        r == is_digit(c),
{
    c >= '0' && c <= '9'
}

fn word_start(c: char) -> (r: bool)
    ensures
        r == is_word_start(c),
{
    (c >= 'a' && c <= 'z') || (c >= 'A' && c <= 'Z') || c == '_'
}

fn word_char(c: char) -> (r: bool)
    ensures
        r == is_word_char(c),
{
    word_start(c) || digit(c)
}

fn skip(chars: &Vec<char>, pos: usize) -> (p: usize)
    requires
        pos <= chars@.len(),
    ensures
        p == skip_spaces(chars@, pos as int),
        pos <= p <= chars@.len(),
{
    let mut p = pos;
    while p < chars.len() && space(chars[p])
        invariant
            pos <= p <= chars@.len(),
            skip_spaces(chars@, pos as int) == skip_spaces(chars@, p as int),
        decreases chars@.len() - p,
    {
        p += 1;
    }
    p
}

fn find_word_end(chars: &Vec<char>, pos: usize) -> (p: usize)
    requires
        pos <= chars@.len(),
    ensures
        p == word_end(chars@, pos as int),
        pos <= p <= chars@.len(),
{
    let mut p = pos;
    while p < chars.len() && word_char(chars[p])
        invariant
            pos <= p <= chars@.len(),
            word_end(chars@, pos as int) == word_end(chars@, p as int),
        decreases chars@.len() - p,
    {
        p += 1;
    }
    p
}

fn read_number(chars: &Vec<char>, pos: usize) -> (r: Option<(u64, usize)>)
    requires
        pos <= chars@.len(),
    ensures
        match r {
            Some((n, p)) => number_at(chars@, pos as int, 0) == Some((n, p as int)) && pos <= p <= chars@.len(),
            None => number_at(chars@, pos as int, 0).is_none(),
        },
        r matches Some((_, p)) ==> (pos < chars@.len() && is_digit(chars@[pos as int]) ==> pos < p),
{
    let mut p = pos;
    let mut acc: u64 = 0;
    while p < chars.len() && digit(chars[p])
        invariant
            pos <= p <= chars@.len(),
            number_at(chars@, pos as int, 0) == number_at(chars@, p as int, acc as nat),
        decreases chars@.len() - p,
    {
        let d = (chars[p] as u32 - '0' as u32) as u64;
        assert(d == digit_value(chars@[p as int]));
        if acc > (u64::MAX - d) / 10 {
            assert(acc * 10 + d > u64::MAX) by (nonlinear_arith)
                requires
                    acc > (u64::MAX - d) / 10,
                    d < 10,
            ;
            return None;
        }
        assert(acc * 10 + d <= u64::MAX) by (nonlinear_arith)
            requires
                acc <= (u64::MAX - d) / 10,
                d < 10,
        ;
        acc = acc * 10 + d;
        p += 1;
    }
    Some((acc, p))
}

fn has_char(chars: &Vec<char>, p: usize, c: char) -> (r: bool)
    ensures
        r == has(chars@, p as int, c),
{
    p < chars.len() && chars[p] == c
}

fn second(chars: &Vec<char>, p: usize, c: char) -> (r: bool)
    requires
        p <= chars@.len(),
    ensures
        r == has(chars@, p + 1, c),
{
    p < chars.len() && has_char(chars, p + 1, c)
}

fn find_operator(chars: &Vec<char>, p: usize, level: u8) -> (r: Option<(BinaryOp, usize)>)
    requires
        p <= chars@.len(),
    ensures
        match r {
            Some((op, n)) => operator_at(chars@, p as int, level as nat) == Some((op, n as int)),
            None => operator_at(chars@, p as int, level as nat).is_none(),
        },
        r matches Some((_, n)) ==> 1 <= n,
        r matches Some((_, n)) ==> p + n <= chars@.len(),
{
    if level == 9 {
        if has_char(chars, p, '|') && second(chars, p, '|') {
            Some((BinaryOp::Or, 2))
        } else {
            None
        }
    } else if level == 8 {
        if has_char(chars, p, '&') && second(chars, p, '&') {
            Some((BinaryOp::And, 2))
        } else {
            None
        }
    } else if level == 7 {
        if has_char(chars, p, '=') && second(chars, p, '=') {
            Some((BinaryOp::Eq, 2))
        } else if has_char(chars, p, '!') && second(chars, p, '=') {
            Some((BinaryOp::Ne, 2))
        } else if has_char(chars, p, '<') && second(chars, p, '=') {
            Some((BinaryOp::Le, 2))
        } else if has_char(chars, p, '>') && second(chars, p, '=') {
            Some((BinaryOp::Ge, 2))
        } else if has_char(chars, p, '<') {
            Some((BinaryOp::Lt, 1))
        } else if has_char(chars, p, '>') {
            Some((BinaryOp::Gt, 1))
        } else {
            None
        }
    } else if level == 6 {
        if has_char(chars, p, '|') && !second(chars, p, '|') {
            Some((BinaryOp::BitOr, 1))
        } else {
            None
        }
    } else if level == 5 {
        if has_char(chars, p, '^') {
            Some((BinaryOp::BitXor, 1))
        } else {
            None
        }
    } else if level == 4 {
        if has_char(chars, p, '&') && !second(chars, p, '&') {
            Some((BinaryOp::BitAnd, 1))
        } else {
            None
        }
    } else if level == 3 {
        if has_char(chars, p, '<') && second(chars, p, '<') {
            Some((BinaryOp::Shl, 2))
        } else if has_char(chars, p, '>') && second(chars, p, '>') {
            Some((BinaryOp::Shr, 2))
        } else {
            None
        }
    } else if level == 2 {
        if has_char(chars, p, '+') {
            Some((BinaryOp::Add, 1))
        } else if has_char(chars, p, '-') {
            Some((BinaryOp::Sub, 1))
        } else {
            None
        }
    } else if level == 1 {
        if has_char(chars, p, '*') {
            Some((BinaryOp::Mul, 1))
        } else if has_char(chars, p, '/') {
            Some((BinaryOp::Div, 1))
        } else if has_char(chars, p, '%') {
            Some((BinaryOp::Rem, 1))
        } else {
            None
        }
    } else {
        None
    }
}

fn hex_digit(c: char) -> (r: Option<u64>)
    ensures
        match r {
            Some(d) => is_hex_digit(c) && d == hex_value(c) && d < 16,
            None => !is_hex_digit(c),
        },
{
    if digit(c) {
        Some((c as u32 - '0' as u32) as u64)
    } else if c >= 'a' && c <= 'f' {
        Some((c as u32 - 'a' as u32 + 10) as u64)
    } else if c >= 'A' && c <= 'F' {
        Some((c as u32 - 'A' as u32 + 10) as u64)
    } else {
        None
    }
}

fn read_hex(chars: &Vec<char>, pos: usize) -> (r: Option<(u64, usize)>)
    requires
        pos < chars@.len(),
        is_hex_digit(chars@[pos as int]),
    ensures
        match r {
            Some((n, p)) => hex_at(chars@, pos as int, 0) == Some((n, p as int)) && pos < p <= chars@.len(),
            None => hex_at(chars@, pos as int, 0).is_none(),
        },
{
    let mut p = pos;
    let mut acc: u64 = 0;
    while p < chars.len()
        invariant
            pos <= p <= chars@.len(),
            p == pos ==> is_hex_digit(chars@[pos as int]),
            hex_at(chars@, pos as int, 0) == hex_at(chars@, p as int, acc as nat),
        decreases chars@.len() - p,
    {
        let d = match hex_digit(chars[p]) {
            Some(d) => d,
            None => {
                return Some((acc, p));
            },
        };
        if acc > (u64::MAX - d) / 16 {
            assert(acc * 16 + d > u64::MAX) by (nonlinear_arith)
                requires
                    acc > (u64::MAX - d) / 16,
                    d < 16,
            ;
            return None;
        }
        assert(acc * 16 + d <= u64::MAX) by (nonlinear_arith)
            requires
                acc <= (u64::MAX - d) / 16,
                d < 16,
        ;
        acc = acc * 16 + d;
        p += 1;
    }
    Some((acc, p))
}

fn read_literal(chars: &Vec<char>, p: usize) -> (r: Option<(u64, usize)>)
    requires
        p < chars@.len(),
        is_digit(chars@[p as int]),
    ensures
        match r {
            Some((n, q)) => literal_at(chars@, p as int) == Some((n, q as int)) && p < q <= chars@.len(),
            None => literal_at(chars@, p as int).is_none(),
        },
{
    if chars[p] == '0' && chars.len() - p > 2 && chars[p + 1] == 'x' && hex_digit(chars[p + 2]).is_some() {
        read_hex(chars, p + 2)
    } else {
        read_number(chars, p)
    }
}

fn atom(text: &str, chars: &Vec<char>, pos: usize) -> (r: Option<(Expr, usize)>)
    requires
        chars@ == text@,
        pos <= chars@.len(),
    ensures
        parsed_view(r) == parse_atom(chars@, pos as int),
        r matches Some((_, end)) ==> pos < end <= chars@.len(),
    decreases chars@.len() - pos, 0nat,
{
    let p = skip(chars, pos);
    if p >= chars.len() {
        return None;
    }
    let c = chars[p];
    if c == '(' {
        match level_expr(text, chars, p + 1, 9) {
            Some((inner, q)) => {
                let close = skip(chars, q);
                if has_char(chars, close, ')') {
                    Some((inner, close + 1))
                } else {
                    None
                }
            },
            None => None,
        }
    } else if digit(c) {
        match read_literal(chars, p) {
            Some((n, q)) => Some((Expr::Number(n), q)),
            None => None,
        }
    } else if word_start(c) {
        let q = find_word_end(chars, p);
        proof {
            lemma_word_end_bounds(chars@, p as int);
        }
        let word = text_piece(text, p, q);
        if same_text(word.as_str(), "true") {
            Some((Expr::Truth(true), q))
        } else if same_text(word.as_str(), "false") {
            Some((Expr::Truth(false), q))
        } else if same_text(word.as_str(), "_root") {
            let dot = skip(chars, q);
            if !has_char(chars, dot, '.') {
                return None;
            }
            let start = skip(chars, dot + 1);
            if start < chars.len() && word_start(chars[start]) {
                let end = find_word_end(chars, start);
                Some((Expr::Root(text_piece(text, start, end)), end))
            } else {
                None
            }
        } else {
            Some((Expr::Local(word), q))
        }
    } else {
        None
    }
}

fn unary_expr(text: &str, chars: &Vec<char>, pos: usize) -> (r: Option<(Expr, usize)>)
    requires
        chars@ == text@,
        pos <= chars@.len(),
    ensures
        parsed_view(r) == parse_unary(chars@, pos as int),
        r matches Some((_, end)) ==> pos < end <= chars@.len(),
    decreases chars@.len() - pos, 1nat,
{
    let p = skip(chars, pos);
    if p < chars.len() && (chars[p] == '!' || chars[p] == '-') {
        let op = if chars[p] == '!' {
            UnaryOp::Not
        } else {
            UnaryOp::Neg
        };
        match unary_expr(text, chars, p + 1) {
            Some((inner, q)) => Some((Expr::Unary(op, Box::new(inner)), q)),
            None => None,
        }
    } else {
        atom(text, chars, pos)
    }
}

fn int_type_by_name(word: &str) -> (r: Option<IntType>)
    ensures
        r == int_type_named(word@),
{
    if same_text(word, "u8") {
        Some(IntType::U8)
    } else if same_text(word, "u16") {
        Some(IntType::U16)
    } else if same_text(word, "u32") {
        Some(IntType::U32)
    } else if same_text(word, "u64") {
        Some(IntType::U64)
    } else if same_text(word, "usize") {
        Some(IntType::Usize)
    } else if same_text(word, "i8") {
        Some(IntType::I8)
    } else if same_text(word, "i16") {
        Some(IntType::I16)
    } else if same_text(word, "i32") {
        Some(IntType::I32)
    } else if same_text(word, "i64") {
        Some(IntType::I64)
    } else if same_text(word, "isize") {
        Some(IntType::Isize)
    } else {
        None
    }
}

fn casts(text: &str, chars: &Vec<char>, pos: usize, inner: Expr) -> (r: (Expr, usize))
    requires
        chars@ == text@,
        pos <= chars@.len(),
    ensures
        (r.0@, r.1 as int) == cast_tail(chars@, pos as int, inner@),
        pos <= r.1 <= chars@.len(),
    decreases chars@.len() - pos,
{
    let p = skip(chars, pos);
    let q = find_word_end(chars, p);
    let start = skip(chars, q);
    let end = find_word_end(chars, start);
    if p < q && start < end && same_text(text_piece(text, p, q).as_str(), "as") {
        match int_type_by_name(text_piece(text, start, end).as_str()) {
            Some(target) => casts(text, chars, end, Expr::Cast(target, Box::new(inner))),
            None => (inner, pos),
        }
    } else {
        (inner, pos)
    }
}

fn level_expr(text: &str, chars: &Vec<char>, pos: usize, level: u8) -> (r: Option<(Expr, usize)>)
    requires
        chars@ == text@,
        pos <= chars@.len(),
    ensures
        parsed_view(r) == parse_level(chars@, pos as int, level as nat),
        r matches Some((_, end)) ==> pos < end <= chars@.len(),
    decreases chars@.len() - pos, 2 * level + 3,
{
    if level == 0 {
        match unary_expr(text, chars, pos) {
            Some((inner, p)) => Some(casts(text, chars, p, inner)),
            None => None,
        }
    } else {
        match level_expr(text, chars, pos, level - 1) {
            Some((left, p)) => tail_expr(text, chars, p, level, left),
            None => None,
        }
    }
}

fn tail_expr(text: &str, chars: &Vec<char>, pos: usize, level: u8, left: Expr) -> (r: Option<(Expr, usize)>)
    requires
        chars@ == text@,
        pos <= chars@.len(),
        level > 0,
    ensures
        parsed_view(r) == parse_tail(chars@, pos as int, level as nat, left@),
        r matches Some((_, end)) ==> pos <= end <= chars@.len(),
    decreases chars@.len() - pos, 2 * level + 2,
{
    let p = skip(chars, pos);
    let found = find_operator(chars, p, level);
    match found {
        Some((op, n)) => {
            assert(p + n <= chars.len());
            match level_expr(text, chars, p + n, level - 1) {
                Some((right, q)) => {
                    let joined = Expr::Binary(op, Box::new(left), Box::new(right));
                    if level == 7 {
                        Some((joined, q))
                    } else {
                        tail_expr(text, chars, q, level, joined)
                    }
                },
                None => None,
            }
        },
        None => Some((left, pos)),
    }
}

/// Reads an expression from its text; `None` when the text spells no
/// expression, or spells anything after one.
pub fn parse_expression(text: &str) -> (r: Option<Expr>)
    ensures
        match r {
            Some(e) => parsed_expression(text@) == Some(e@),
            None => parsed_expression(text@).is_none(),
        },
{
    let chars = text_chars(text);
    match level_expr(text, &chars, 0, 9) {
        Some((e, p)) => {
            if skip(&chars, p) == chars.len() {
                Some(e)
            } else {
                None
            }
        },
        None => None,
    }
}

} // verus!
