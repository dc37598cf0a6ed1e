//! Evaluation of Redcode expressions: integer arithmetic, comparisons and
//! boolean logic over `i32`, with the usual precedence
//! (`&& ||` < comparisons < `+ -` < `* / %` < unary `- + !`).

use vstd::prelude::*;

use crate::text::{self, digits_value, is_digit, nat_digits};

use super::chars::{
    char_is_ident_start, digits_end, ident_end, is_ident_start, lemma_digits_end_at, scan_digits, scan_ident,
    skip_whitespace, skip_ws,
};

verus! {

/// The value of an expression: a number, or the first label it refers to
/// (labels have no value at this point), or `Invalid` when the arithmetic
/// overflows `i32` or divides by zero.
pub enum ExprValue {
    Number(i32),
    Label(Seq<char>),
    Invalid,
}

/// A binary operator.
#[derive(Clone, Copy, Debug, PartialEq, Eq, Structural)]
pub enum BinOp {
    And,
    Or,
    Gt,
    Ge,
    Lt,
    Le,
    Eq,
    Ne,
    Add,
    Sub,
    Mul,
    Div,
    Rem,
}

/// The result of a binary operator on two numbers, or `None` where Rust's
/// `i32` arithmetic would overflow or divide by zero.
pub open spec fn apply_binary(op: BinOp, a: i32, b: i32) -> Option<i32> {
    match op {
        BinOp::And => Some(if a != 0 && b != 0 { 1i32 } else { 0i32 }),
        BinOp::Or => Some(if a != 0 || b != 0 { 1i32 } else { 0i32 }),
        BinOp::Gt => Some(if a > b { 1i32 } else { 0i32 }),
        BinOp::Ge => Some(if a >= b { 1i32 } else { 0i32 }),
        BinOp::Lt => Some(if a < b { 1i32 } else { 0i32 }),
        BinOp::Le => Some(if a <= b { 1i32 } else { 0i32 }),
        BinOp::Eq => Some(if a == b { 1i32 } else { 0i32 }),
        BinOp::Ne => Some(if a != b { 1i32 } else { 0i32 }),
        BinOp::Add => a.checked_add(b),
        BinOp::Sub => a.checked_sub(b),
        BinOp::Mul => a.checked_mul(b),
        BinOp::Div => a.checked_div(b),
        BinOp::Rem => a.checked_rem(b),
    }
}

/// Combines two operand values: numbers are combined by the operator; otherwise
/// the first operand that is not a number decides.
pub open spec fn combine(a: ExprValue, op: BinOp, b: ExprValue) -> ExprValue {
    match a {
        ExprValue::Number(x) => match b {
            ExprValue::Number(y) => match apply_binary(op, x, y) {
                Some(z) => ExprValue::Number(z),
                None => ExprValue::Invalid,
            },
            _ => b,
        },
        _ => a,
    }
}

/// The result of a unary operator (`-`, `+` or `!`) on a value.
pub open spec fn apply_unary(op: char, v: ExprValue) -> ExprValue {
    match v {
        ExprValue::Number(x) => if op == '-' {
            match 0i32.checked_sub(x) {
                Some(y) => ExprValue::Number(y),
                None => ExprValue::Invalid,
            }
        } else if op == '!' {
            ExprValue::Number(if x == 0 { 1i32 } else { 0i32 })
        } else {
            v
        },
        _ => v,
    }
}

/// Applies unary operators in the order they are written, the first one first.
pub open spec fn apply_unary_ops(ops: Seq<char>, v: ExprValue) -> ExprValue
    decreases ops.len(),
{
    if ops.len() == 0 {
        v
    } else {
        apply_unary_ops(ops.drop_first(), apply_unary(ops[0], v))
    }
}

/// Whether `c` is a unary operator.
pub open spec fn is_unary_op(c: char) -> bool {
    c == '-' || c == '+' || c == '!'
}

/// The unary operators written from `i` on, and the position after them.
pub open spec fn unary_prefix(s: Seq<char>, i: int) -> (Seq<char>, int)
    decreases s.len() - i,
{
    let k = skip_ws(s, i);
    if i <= k < s.len() && is_unary_op(s[k]) {
        let (ops, j) = unary_prefix(s, k + 1);
        (seq![s[k]] + ops, j)
    } else {
        (Seq::empty(), k)
    }
}

/// The number of characters of an operator.
pub open spec fn op_len(op: BinOp) -> int {
    match op {
        BinOp::And | BinOp::Or | BinOp::Ge | BinOp::Le | BinOp::Eq | BinOp::Ne => 2,
        _ => 1,
    }
}

/// The boolean operator written at `k`, if any.
pub open spec fn bool_op_at(s: Seq<char>, k: int) -> Option<BinOp> {
    if 0 <= k && k + 1 < s.len() && s[k] == '&' && s[k + 1] == '&' {
        Some(BinOp::And)
    } else if 0 <= k && k + 1 < s.len() && s[k] == '|' && s[k + 1] == '|' {
        Some(BinOp::Or)
    } else {
        None
    }
}

/// The comparison operator written at `k`, if any.
pub open spec fn compare_op_at(s: Seq<char>, k: int) -> Option<BinOp> {
    if 0 <= k && k + 1 < s.len() && s[k] == '>' && s[k + 1] == '=' {
        Some(BinOp::Ge)
    } else if 0 <= k && k + 1 < s.len() && s[k] == '<' && s[k + 1] == '=' {
        Some(BinOp::Le)
    } else if 0 <= k && k + 1 < s.len() && s[k] == '=' && s[k + 1] == '=' {
        Some(BinOp::Eq)
    } else if 0 <= k && k + 1 < s.len() && s[k] == '!' && s[k + 1] == '=' {
        Some(BinOp::Ne)
    } else if 0 <= k < s.len() && s[k] == '>' {
        Some(BinOp::Gt)
    } else if 0 <= k < s.len() && s[k] == '<' {
        Some(BinOp::Lt)
    } else {
        None
    }
}

/// The additive operator written at `k`, if any.
pub open spec fn add_op_at(s: Seq<char>, k: int) -> Option<BinOp> {
    if 0 <= k < s.len() && s[k] == '+' {
        Some(BinOp::Add)
    } else if 0 <= k < s.len() && s[k] == '-' {
        Some(BinOp::Sub)
    } else {
        None
    }
}

/// The multiplicative operator written at `k`, if any.
pub open spec fn mul_op_at(s: Seq<char>, k: int) -> Option<BinOp> {
    if 0 <= k < s.len() && s[k] == '*' {
        Some(BinOp::Mul)
    } else if 0 <= k < s.len() && s[k] == '/' {
        Some(BinOp::Div)
    } else if 0 <= k < s.len() && s[k] == '%' {
        Some(BinOp::Rem)
    } else {
        None
    }
}

/// The value of the decimal number `digits`, or `Invalid` when it does not fit an `i32`.
pub open spec fn number_value(digits: Seq<char>) -> ExprValue {
    if digits_value(digits) <= i32::MAX {
        ExprValue::Number(digits_value(digits) as i32)
    } else {
        ExprValue::Invalid
    }
}

/// An expression starting at `i`: its value and the position after it, or
/// `None` if no expression is written there.
/// `Expression = Value (("&&" | "||") Value)*`
pub open spec fn expr(s: Seq<char>, i: int) -> Option<(ExprValue, int)>
    decreases s.len() - i, 9int,
{
    if 0 <= i <= s.len() {
        match value(s, i) {
            Some((v, j)) => if i < j <= s.len() {
                expr_tail(s, j, v)
            } else {
                None
            },
            None => None,
        }
    } else {
        None
    }
}

/// The rest of an expression after an operand with value `acc`, ending at `i`.
pub open spec fn expr_tail(s: Seq<char>, i: int, acc: ExprValue) -> Option<(ExprValue, int)>
    decreases s.len() - i, 8int,
{
    let k = skip_ws(s, i);
    match bool_op_at(s, k) {
        Some(op) => if 0 <= i <= k && k + 2 <= s.len() {
            match value(s, k + 2) {
                Some((v, j)) => if k + 2 < j <= s.len() {
                    expr_tail(s, j, combine(acc, op, v))
                } else {
                    None
                },
                None => None,
            }
        } else {
            None
        },
        None => Some((acc, i)),
    }
}

/// `Value = Sum (CompareOp Sum)*`
pub open spec fn value(s: Seq<char>, i: int) -> Option<(ExprValue, int)>
    decreases s.len() - i, 7int,
{
    if 0 <= i <= s.len() {
        match sum(s, i) {
            Some((v, j)) => if i < j <= s.len() {
                value_tail(s, j, v)
            } else {
                None
            },
            None => None,
        }
    } else {
        None
    }
}

pub open spec fn value_tail(s: Seq<char>, i: int, acc: ExprValue) -> Option<(ExprValue, int)>
    decreases s.len() - i, 6int,
{
    let k = skip_ws(s, i);
    match compare_op_at(s, k) {
        Some(op) => if 0 <= i <= k && k + op_len(op) <= s.len() {
            match sum(s, k + op_len(op)) {
                Some((v, j)) => if k + op_len(op) < j <= s.len() {
                    value_tail(s, j, combine(acc, op, v))
                } else {
                    None
                },
                None => None,
            }
        } else {
            None
        },
        None => Some((acc, i)),
    }
}

/// `Sum = Product (("+" | "-") Product)*`
pub open spec fn sum(s: Seq<char>, i: int) -> Option<(ExprValue, int)>
    decreases s.len() - i, 5int,
{
    if 0 <= i <= s.len() {
        match product(s, i) {
            Some((v, j)) => if i < j <= s.len() {
                sum_tail(s, j, v)
            } else {
                None
            },
            None => None,
        }
    } else {
        None
    }
}

pub open spec fn sum_tail(s: Seq<char>, i: int, acc: ExprValue) -> Option<(ExprValue, int)>
    decreases s.len() - i, 4int,
{
    let k = skip_ws(s, i);
    match add_op_at(s, k) {
        Some(op) => if 0 <= i <= k && k + 1 <= s.len() {
            match product(s, k + 1) {
                Some((v, j)) => if k + 1 < j <= s.len() {
                    sum_tail(s, j, combine(acc, op, v))
                } else {
                    None
                },
                None => None,
            }
        } else {
            None
        },
        None => Some((acc, i)),
    }
}

/// `Product = Unary (("*" | "/" | "%") Unary)*`
pub open spec fn product(s: Seq<char>, i: int) -> Option<(ExprValue, int)>
    decreases s.len() - i, 3int,
{
    if 0 <= i <= s.len() {
        match unary(s, i) {
            Some((v, j)) => if i < j <= s.len() {
                product_tail(s, j, v)
            } else {
                None
            },
            None => None,
        }
    } else {
        None
    }
}

pub open spec fn product_tail(s: Seq<char>, i: int, acc: ExprValue) -> Option<(ExprValue, int)>
    decreases s.len() - i, 2int,
{
    let k = skip_ws(s, i);
    match mul_op_at(s, k) {
        Some(op) => if 0 <= i <= k && k + 1 <= s.len() {
            match unary(s, k + 1) {
                Some((v, j)) => if k + 1 < j <= s.len() {
                    product_tail(s, j, combine(acc, op, v))
                } else {
                    None
                },
                None => None,
            }
        } else {
            None
        },
        None => Some((acc, i)),
    }
}

/// `Unary = ("-" | "+" | "!")* Atom`
pub open spec fn unary(s: Seq<char>, i: int) -> Option<(ExprValue, int)>
    decreases s.len() - i, 1int,
{
    let (ops, k) = unary_prefix(s, i);
    if 0 <= i <= k <= s.len() {
        match atom(s, k) {
            Some((v, e)) => Some((apply_unary_ops(ops, v), e)),
            None => None,
        }
    } else {
        None
    }
}

/// `Atom = Number | Label | "(" Expression ")"`, starting exactly at `k`.
pub open spec fn atom(s: Seq<char>, k: int) -> Option<(ExprValue, int)>
    decreases s.len() - k, 0int,
{
    if 0 <= k < s.len() {
        if s[k] == '(' {
            match expr(s, k + 1) {
                Some((v, j)) => {
                    let m = skip_ws(s, j);
                    if k + 1 < j <= m < s.len() && s[m] == ')' {
                        Some((v, m + 1))
                    } else {
                        None
                    }
                },
                None => None,
            }
        } else if is_digit(s[k]) {
            let e = digits_end(s, k);
            Some((number_value(s.subrange(k, e)), e))
        } else if is_ident_start(s[k]) {
            let e = ident_end(s, k);
            Some((ExprValue::Label(s.subrange(k, e)), e))
        } else {
            None
        }
    } else {
        None
    }
}

/// The value of `s` when all of it (but surrounding white space) is one expression.
pub open spec fn whole_expr(s: Seq<char>) -> Option<ExprValue> {
    match expr(s, 0) {
        Some((v, j)) => if skip_ws(s, j) == s.len() {
            Some(v)
        } else {
            None
        },
        None => None,
    }
}

/// The arithmetic and logic operators compute what their symbols mean, on
/// any two `i32` operands: `+ - *` give the mathematical result when it fits
/// an `i32` (and nothing otherwise), comparisons give 1 when they hold and 0
/// when not, and `&& ||` treat non-zero as true.
pub proof fn law_binary_meaning(a: i32, b: i32)
    ensures
        apply_binary(BinOp::Add, a, b) == (if i32::MIN <= a + b <= i32::MAX {
            Some((a + b) as i32)
        } else {
            None
        }),
        apply_binary(BinOp::Sub, a, b) == (if i32::MIN <= a - b <= i32::MAX {
            Some((a - b) as i32)
        } else {
            None
        }),
        apply_binary(BinOp::Mul, a, b) == (if i32::MIN <= a * b <= i32::MAX {
            Some((a * b) as i32)
        } else {
            None
        }),
        apply_binary(BinOp::Lt, a, b) == Some(if a < b { 1i32 } else { 0i32 }),
        apply_binary(BinOp::Le, a, b) == Some(if a <= b { 1i32 } else { 0i32 }),
        apply_binary(BinOp::Gt, a, b) == Some(if a > b { 1i32 } else { 0i32 }),
        apply_binary(BinOp::Ge, a, b) == Some(if a >= b { 1i32 } else { 0i32 }),
        apply_binary(BinOp::Eq, a, b) == Some(if a == b { 1i32 } else { 0i32 }),
        apply_binary(BinOp::Ne, a, b) == Some(if a != b { 1i32 } else { 0i32 }),
        apply_binary(BinOp::And, a, b) == Some(if a != 0 && b != 0 { 1i32 } else { 0i32 }),
        apply_binary(BinOp::Or, a, b) == Some(if a != 0 || b != 0 { 1i32 } else { 0i32 }),
        b == 0 ==> apply_binary(BinOp::Div, a, b) is None && apply_binary(BinOp::Rem, a, b) is None,
{
}

/// The text `a - b`, for any two numbers written in decimal, is worth `a`
/// minus `b` (subtraction takes the left operand first).
pub proof fn law_subtraction_text(a: nat, b: nat)
    requires
        a <= i32::MAX,
        b <= i32::MAX,
    ensures
        whole_expr(nat_digits(a) + seq![' ', '-', ' '] + nat_digits(b)) == Some(ExprValue::Number((a - b) as i32)),
{
    let da = nat_digits(a);
    let db = nat_digits(b);
    let s = da + seq![' ', '-', ' '] + db;
    let la = da.len() as int;
    let n = s.len() as int;
    text::lemma_nat_digits(a);
    text::lemma_nat_digits(b);
    assert(n == la + 3 + db.len());
    assert forall|j: int| 0 <= j < la implies s[j] == da[j] by {}
    assert forall|j: int| 0 <= j < db.len() implies s[la + 3 + j] == db[j] by {}
    assert(s[la] == ' ' && s[la + 1] == '-' && s[la + 2] == ' ');
    assert(is_digit(s[0]) && is_digit(s[la + 3]));
    assert(!text::is_whitespace(s[0]));
    assert(!text::is_whitespace(s[la + 3]));
    assert(text::is_whitespace(s[la]) && text::is_whitespace(s[la + 2]));
    assert(!text::is_whitespace(s[la + 1]));
    // The first operand.
    assert forall|j: int| 0 <= j < 0 + la implies is_digit(#[trigger] s[j]) by {
        assert(s[j] == da[j]);
    }
    lemma_digits_end_at(s, 0, la);
    assert(s.subrange(0, la) =~= da);
    assert(skip_ws(s, 0) == 0);
    assert(unary_prefix(s, 0) == (Seq::<char>::empty(), 0int));
    assert(atom(s, 0) == Some((ExprValue::Number(a as i32), la)));
    assert(apply_unary_ops(Seq::<char>::empty(), ExprValue::Number(a as i32)) == ExprValue::Number(a as i32));
    assert(unary(s, 0) == Some((ExprValue::Number(a as i32), la)));
    assert(skip_ws(s, la + 1) == la + 1);
    assert(skip_ws(s, la) == la + 1);
    assert(mul_op_at(s, la + 1) is None);
    assert(product_tail(s, la, ExprValue::Number(a as i32)) == Some((ExprValue::Number(a as i32), la)));
    assert(product(s, 0) == Some((ExprValue::Number(a as i32), la)));
    // The second operand.
    assert forall|j: int| la + 3 <= j < la + 3 + db.len() implies is_digit(#[trigger] s[j]) by {
        assert(s[j] == db[j - la - 3]);
    }
    lemma_digits_end_at(s, la + 3, db.len() as int);
    assert(s.subrange(la + 3, n) =~= db);
    assert(skip_ws(s, la + 3) == la + 3);
    assert(skip_ws(s, la + 2) == la + 3);
    assert(unary_prefix(s, la + 3) == (Seq::<char>::empty(), la + 3)) by {
        assert(!is_unary_op(s[la + 3]));
    }
    assert(unary_prefix(s, la + 2) == (Seq::<char>::empty(), la + 3));
    assert(atom(s, la + 3) == Some((ExprValue::Number(b as i32), n)));
    assert(unary(s, la + 2) == Some((ExprValue::Number(b as i32), n)));
    assert(skip_ws(s, n) == n);
    assert(mul_op_at(s, n) is None);
    assert(product_tail(s, n, ExprValue::Number(b as i32)) == Some((ExprValue::Number(b as i32), n)));
    assert(product(s, la + 2) == Some((ExprValue::Number(b as i32), n)));
    // The difference.
    let d = ExprValue::Number((a - b) as i32);
    assert(combine(ExprValue::Number(a as i32), BinOp::Sub, ExprValue::Number(b as i32)) == d);
    assert(add_op_at(s, n) is None);
    assert(sum_tail(s, n, d) == Some((d, n)));
    assert(add_op_at(s, la + 1) == Some(BinOp::Sub));
    assert(sum_tail(s, la, ExprValue::Number(a as i32)) == Some((d, n)));
    assert(sum(s, 0) == Some((d, n)));
    assert(compare_op_at(s, n) is None);
    assert(value_tail(s, n, d) == Some((d, n)));
    assert(value(s, 0) == Some((d, n)));
    assert(bool_op_at(s, n) is None);
    assert(expr_tail(s, n, d) == Some((d, n)));
    assert(expr(s, 0) == Some((d, n)));
}

/// The value of an evaluated expression.
#[derive(Debug)]
pub enum Evaluated {
    Number(i32),
    Label(Vec<char>),
    Invalid,
}

impl View for Evaluated {
    type V = ExprValue;

    open spec fn view(&self) -> ExprValue {
        match self {
            Evaluated::Number(n) => ExprValue::Number(*n),
            Evaluated::Label(l) => ExprValue::Label(l@),
            Evaluated::Invalid => ExprValue::Invalid,
        }
    }
}

/// An exec result agrees with a spec result.
pub open spec fn agrees(res: Option<(Evaluated, usize)>, spec: Option<(ExprValue, int)>) -> bool {
    match res {
        Some((v, j)) => spec == Some((v@, j as int)),
        None => spec is None,
    }
}

fn eval_binary(op: BinOp, a: i32, b: i32) -> (res: Option<i32>)
    ensures
        res == apply_binary(op, a, b),
{
    match op {
        BinOp::And => Some(if a != 0 && b != 0 { 1 } else { 0 }),
        BinOp::Or => Some(if a != 0 || b != 0 { 1 } else { 0 }),
        BinOp::Gt => Some(if a > b { 1 } else { 0 }),
        BinOp::Ge => Some(if a >= b { 1 } else { 0 }),
        BinOp::Lt => Some(if a < b { 1 } else { 0 }),
        BinOp::Le => Some(if a <= b { 1 } else { 0 }),
        BinOp::Eq => Some(if a == b { 1 } else { 0 }),
        BinOp::Ne => Some(if a != b { 1 } else { 0 }),
        BinOp::Add => a.checked_add(b),
        BinOp::Sub => a.checked_sub(b),
        BinOp::Mul => a.checked_mul(b),
        BinOp::Div => a.checked_div(b),
        BinOp::Rem => a.checked_rem(b),
    }
}

fn combine_values(a: Evaluated, op: BinOp, b: Evaluated) -> (res: Evaluated)
    ensures
        res@ == combine(a@, op, b@),
{
    match a {
        Evaluated::Number(x) => match b {
            Evaluated::Number(y) => match eval_binary(op, x, y) {
                Some(z) => Evaluated::Number(z),
                None => Evaluated::Invalid,
            },
            _ => b,
        },
        _ => a,
    }
}

fn eval_unary(op: char, v: Evaluated) -> (res: Evaluated)
    ensures
        res@ == apply_unary(op, v@),
{
    match v {
        Evaluated::Number(x) => if op == '-' {
            match 0i32.checked_sub(x) {
                Some(y) => Evaluated::Number(y),
                None => Evaluated::Invalid,
            }
        } else if op == '!' {
            Evaluated::Number(if x == 0 { 1 } else { 0 })
        } else {
            Evaluated::Number(x)
        },
        _ => v,
    }
}

fn eval_unary_ops(ops: &Vec<char>, v: Evaluated) -> (res: Evaluated)
    ensures
        res@ == apply_unary_ops(ops@, v@),
{
    let mut cur = v;
    let mut t: usize = 0;
    assert(ops@.skip(0) =~= ops@);
    while t < ops.len()
        invariant
            t <= ops@.len(),
            apply_unary_ops(ops@, v@) == apply_unary_ops(ops@.skip(t as int), cur@),
        decreases ops@.len() - t,
    {
        let ghost before = ops@.skip(t as int);
        cur = eval_unary(ops[t], cur);
        t = t + 1;
        assert(before.drop_first() =~= ops@.skip(t as int));
    }
    assert(ops@.skip(t as int).len() == 0);
    cur
}

fn scan_unary_prefix(s: &[char], i: usize) -> (res: (Vec<char>, usize))
    requires
        i <= s@.len(),
    ensures
        unary_prefix(s@, i as int) == (res.0@, res.1 as int),
        i <= res.1 <= s@.len(),
{
    let mut ops: Vec<char> = Vec::new();
    let mut k = skip_whitespace(s, i);
    proof {
        lemma_skip_ws_idem(s@, i as int);
        lemma_unary_prefix_skip(s@, i as int);
        assert(ops@ + unary_prefix(s@, k as int).0 =~= unary_prefix(s@, k as int).0);
    }
    while k < s.len() && (s[k] == '-' || s[k] == '+' || s[k] == '!')
        invariant
            i <= k <= s@.len(),
            k == skip_ws(s@, k as int),
            unary_prefix(s@, i as int) == (ops@ + unary_prefix(s@, k as int).0, unary_prefix(
                s@,
                k as int,
            ).1),
        decreases s@.len() - k,
    {
        let ghost k0 = k as int;
        ops.push(s[k]);
        k = skip_whitespace(s, k + 1);
        proof {
            let (rest, j) = unary_prefix(s@, k0 + 1);
            assert(unary_prefix(s@, k0 + 1) == unary_prefix(s@, k as int)) by {
                lemma_unary_prefix_skip(s@, k0 + 1);
            }
            assert(ops@ + unary_prefix(s@, k as int).0 =~= ops@.drop_last() + (seq![s@[k0]]
                + unary_prefix(s@, k as int).0));
        }
    }
    assert(unary_prefix(s@, k as int).0 =~= Seq::<char>::empty());
    assert(ops@ + Seq::<char>::empty() =~= ops@);
    (ops, k)
}

proof fn lemma_unary_prefix_skip(s: Seq<char>, i: int)
    requires
        0 <= i,
    ensures
        unary_prefix(s, i) == unary_prefix(s, skip_ws(s, i)),
    decreases s.len() - i,
{
    super::chars::lemma_skip_ws(s, i);
    lemma_skip_ws_idem(s, i);
}

proof fn lemma_skip_ws_idem(s: Seq<char>, i: int)
    requires
        0 <= i,
    ensures
        skip_ws(s, skip_ws(s, i)) == skip_ws(s, i),
    decreases s.len() - i,
{
    if 0 <= i < s.len() && crate::text::is_whitespace(s[i]) {
        lemma_skip_ws_idem(s, i + 1);
    }
}

proof fn lemma_unary_prefix_bounds(s: Seq<char>, i: int)
    requires
        0 <= i <= s.len(),
    ensures
        i <= unary_prefix(s, i).1 <= s.len(),
    decreases s.len() - i,
{
    let k = skip_ws(s, i);
    super::chars::lemma_skip_ws(s, i);
    if i <= k < s.len() && is_unary_op(s[k]) {
        lemma_unary_prefix_bounds(s, k + 1);
    }
}

proof fn lemma_digits_value_step(s: Seq<char>, k: int, j: int)
    requires
        0 <= k <= j < s.len(),
    ensures
        digits_value(s.subrange(k, j + 1)) == digits_value(s.subrange(k, j)) * 10
            + text::digit_value(s[j]),
{
    assert(s.subrange(k, j + 1).drop_last() =~= s.subrange(k, j));
}

proof fn lemma_digits_value_nonneg(s: Seq<char>)
    requires
        forall|j: int| 0 <= j < s.len() ==> is_digit(#[trigger] s[j]),
    ensures
        digits_value(s) >= 0,
    decreases s.len(),
{
    if s.len() > 0 {
        lemma_digits_value_nonneg(s.drop_last());
        assert(is_digit(s[s.len() - 1]));
    }
}

/// The value of the digits `s[k..e]`.
fn eval_number(s: &[char], k: usize, e: usize) -> (res: Evaluated)
    requires
        k <= e <= s@.len(),
        forall|j: int| k <= j < e ==> is_digit(#[trigger] s@[j]),
    ensures
        res@ == number_value(s@.subrange(k as int, e as int)),
{
    let cap: u64 = 0x8000_0000;
    let mut acc: u64 = 0;
    let mut j = k;
    while j < e
        invariant
            k <= j <= e <= s@.len(),
            forall|x: int| k <= x < e ==> is_digit(#[trigger] s@[x]),
            acc <= cap,
            cap == 0x8000_0000,
            digits_value(s@.subrange(k as int, j as int)) >= 0,
            acc == (if digits_value(s@.subrange(k as int, j as int)) < cap {
                digits_value(s@.subrange(k as int, j as int))
            } else {
                cap as int
            }),
        decreases e - j,
    {
        let d = (s[j] as u32 - '0' as u32) as u64;
        proof {
            lemma_digits_value_step(s@, k as int, j as int);
            assert(is_digit(s@[j as int]));
        }
        let next = acc * 10 + d;
        acc = if next < cap {
            next
        } else {
            cap
        };
        j = j + 1;
    }
    if acc < cap {
        Evaluated::Number(acc as i32)
    } else {
        Evaluated::Invalid
    }
}

/// Evaluates the expression starting at `i`; see [`expr`].
pub fn eval_expr(s: &[char], i: usize) -> (res: Option<(Evaluated, usize)>)
    requires
        i <= s@.len(),
    ensures
        agrees(res, expr(s@, i as int)),
        res matches Some((_, j)) ==> j <= s@.len(),
    decreases s@.len() - i, 9int,
{
    match eval_value(s, i) {
        Some((v, j)) => if i < j && j <= s.len() {
            eval_expr_tail(s, j, v)
        } else {
            None
        },
        None => None,
    }
}

fn eval_expr_tail(s: &[char], i: usize, acc: Evaluated) -> (res: Option<(Evaluated, usize)>)
    requires
        i <= s@.len(),
    ensures
        agrees(res, expr_tail(s@, i as int, acc@)),
        res matches Some((_, j)) ==> j <= s@.len(),
    decreases s@.len() - i, 8int,
{
    let k = skip_whitespace(s, i);
    let op = if k < s.len() && k + 1 < s.len() && s[k] == '&' && s[k + 1] == '&' {
        Some(BinOp::And)
    } else if k < s.len() && k + 1 < s.len() && s[k] == '|' && s[k + 1] == '|' {
        Some(BinOp::Or)
    } else {
        None
    };
    assert(op == bool_op_at(s@, k as int));
    match op {
        Some(op) => {
            match eval_value(s, k + 2) {
                Some((v, j)) => if k + 2 < j && j <= s.len() {
                    let next = combine_values(acc, op, v);
                    eval_expr_tail(s, j, next)
                } else {
                    None
                },
                None => None,
            }
        },
        None => Some((acc, i)),
    }
}

fn eval_value(s: &[char], i: usize) -> (res: Option<(Evaluated, usize)>)
    requires
        i <= s@.len(),
    ensures
        agrees(res, value(s@, i as int)),
        res matches Some((_, j)) ==> j <= s@.len(),
    decreases s@.len() - i, 7int,
{
    match eval_sum(s, i) {
        Some((v, j)) => if i < j && j <= s.len() {
            eval_value_tail(s, j, v)
        } else {
            None
        },
        None => None,
    }
}

fn compare_op(s: &[char], k: usize) -> (res: Option<BinOp>)
    requires
        k <= s@.len(),
    ensures
        res == compare_op_at(s@, k as int),
        res matches Some(op) ==> k + op_len(op) <= s@.len(),
{
    if k < s.len() && k + 1 < s.len() && s[k] == '>' && s[k + 1] == '=' {
        Some(BinOp::Ge)
    } else if k < s.len() && k + 1 < s.len() && s[k] == '<' && s[k + 1] == '=' {
        Some(BinOp::Le)
    } else if k < s.len() && k + 1 < s.len() && s[k] == '=' && s[k + 1] == '=' {
        Some(BinOp::Eq)
    } else if k < s.len() && k + 1 < s.len() && s[k] == '!' && s[k + 1] == '=' {
        Some(BinOp::Ne)
    } else if k < s.len() && s[k] == '>' {
        Some(BinOp::Gt)
    } else if k < s.len() && s[k] == '<' {
        Some(BinOp::Lt)
    } else {
        None
    }
}

fn eval_value_tail(s: &[char], i: usize, acc: Evaluated) -> (res: Option<(Evaluated, usize)>)
    requires
        i <= s@.len(),
    ensures
        agrees(res, value_tail(s@, i as int, acc@)),
        res matches Some((_, j)) ==> j <= s@.len(),
    decreases s@.len() - i, 6int,
{
    let k = skip_whitespace(s, i);
    let cop = compare_op(s, k);
    match cop {
        Some(op) => {
            assert(k + op_len(op) <= s@.len());
            let len: usize = match op {
                BinOp::Ge | BinOp::Le | BinOp::Eq | BinOp::Ne => 2,
                _ => 1,
            };
            assert(len == op_len(op));
            let n = s.len();
            let start = k + len;
            match eval_sum(s, start) {
                Some((v, j)) => if k + len < j && j <= s.len() {
                    let next = combine_values(acc, op, v);
                    eval_value_tail(s, j, next)
                } else {
                    None
                },
                None => None,
            }
        },
        None => Some((acc, i)),
    }
}

fn eval_sum(s: &[char], i: usize) -> (res: Option<(Evaluated, usize)>)
    requires
        i <= s@.len(),
    ensures
        agrees(res, sum(s@, i as int)),
        res matches Some((_, j)) ==> j <= s@.len(),
    decreases s@.len() - i, 5int,
{
    match eval_product(s, i) {
        Some((v, j)) => if i < j && j <= s.len() {
            eval_sum_tail(s, j, v)
        } else {
            None
        },
        None => None,
    }
}

fn eval_sum_tail(s: &[char], i: usize, acc: Evaluated) -> (res: Option<(Evaluated, usize)>)
    requires
        i <= s@.len(),
    ensures
        agrees(res, sum_tail(s@, i as int, acc@)),
        res matches Some((_, j)) ==> j <= s@.len(),
    decreases s@.len() - i, 4int,
{
    let k = skip_whitespace(s, i);
    let op = if k < s.len() && s[k] == '+' {
        Some(BinOp::Add)
    } else if k < s.len() && s[k] == '-' {
        Some(BinOp::Sub)
    } else {
        None
    };
    assert(op == add_op_at(s@, k as int));
    match op {
        Some(op) => {
            match eval_product(s, k + 1) {
                Some((v, j)) => if k + 1 < j && j <= s.len() {
                    let next = combine_values(acc, op, v);
                    eval_sum_tail(s, j, next)
                } else {
                    None
                },
                None => None,
            }
        },
        None => Some((acc, i)),
    }
}

fn eval_product(s: &[char], i: usize) -> (res: Option<(Evaluated, usize)>)
    requires
        i <= s@.len(),
    ensures
        agrees(res, product(s@, i as int)),
        res matches Some((_, j)) ==> j <= s@.len(),
    decreases s@.len() - i, 3int,
{
    match eval_unary_expr(s, i) {
        Some((v, j)) => if i < j && j <= s.len() {
            eval_product_tail(s, j, v)
        } else {
            None
        },
        None => None,
    }
}

fn eval_product_tail(s: &[char], i: usize, acc: Evaluated) -> (res: Option<(Evaluated, usize)>)
    requires
        i <= s@.len(),
    ensures
        agrees(res, product_tail(s@, i as int, acc@)),
        res matches Some((_, j)) ==> j <= s@.len(),
    decreases s@.len() - i, 2int,
{
    let k = skip_whitespace(s, i);
    let op = if k < s.len() && s[k] == '*' {
        Some(BinOp::Mul)
    } else if k < s.len() && s[k] == '/' {
        Some(BinOp::Div)
    } else if k < s.len() && s[k] == '%' {
        Some(BinOp::Rem)
    } else {
        None
    };
    assert(op == mul_op_at(s@, k as int));
    match op {
        Some(op) => {
            match eval_unary_expr(s, k + 1) {
                Some((v, j)) => if k + 1 < j && j <= s.len() {
                    let next = combine_values(acc, op, v);
                    eval_product_tail(s, j, next)
                } else {
                    None
                },
                None => None,
            }
        },
        None => Some((acc, i)),
    }
}

fn eval_unary_expr(s: &[char], i: usize) -> (res: Option<(Evaluated, usize)>)
    requires
        i <= s@.len(),
    ensures
        agrees(res, unary(s@, i as int)),
        res matches Some((_, j)) ==> j <= s@.len(),
    decreases s@.len() - i, 1int,
{
    let (ops, k) = scan_unary_prefix(s, i);
    match eval_atom(s, k) {
        Some((v, e)) => Some((eval_unary_ops(&ops, v), e)),
        None => None,
    }
}

fn eval_atom(s: &[char], k: usize) -> (res: Option<(Evaluated, usize)>)
    requires
        k <= s@.len(),
    ensures
        agrees(res, atom(s@, k as int)),
        res matches Some((_, j)) ==> j <= s@.len(),
    decreases s@.len() - k, 0int,
{
    if k < s.len() {
        if s[k] == '(' {
            match eval_expr(s, k + 1) {
                Some((v, j)) => {
                    let m = skip_whitespace(s, j);
                    if k + 1 < j && m < s.len() && s[m] == ')' {
                        Some((v, m + 1))
                    } else {
                        None
                    }
                },
                None => None,
            }
        } else if '0' <= s[k] && s[k] <= '9' {
            let e = scan_digits(s, k);
            proof {
                super::chars::lemma_digits_end(s@, k as int);
            }
            let n = eval_number(s, k, e);
            Some((n, e))
        } else if char_is_ident_start(s[k]) {
            let e = scan_ident(s, k);
            let label = crate::text::slice_range(s, k, e);
            Some((Evaluated::Label(label), e))
        } else {
            None
        }
    } else {
        None
    }
}

/// Evaluates `s` when all of it (but surrounding white space) is one expression.
pub fn eval_whole(s: &[char]) -> (res: Option<Evaluated>)
    ensures
        match res {
            Some(v) => whole_expr(s@) == Some(v@),
            None => whole_expr(s@) is None,
        },
{
    match eval_expr(s, 0) {
        Some((v, j)) => if skip_whitespace(s, j) == s.len() {
            Some(v)
        } else {
            None
        },
        None => None,
    }
}

} // verus!
