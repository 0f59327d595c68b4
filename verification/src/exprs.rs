//! Grammars for the two expression forms inside a plan: filter predicates
//! (`pl.col("age") > 30`) and aggregate calls (`pl.col("age").mean()`).
//!
//! Both grammars scan the text for the leftmost position where the whole
//! pattern matches, and produce typed values: a `Predicate` with a typed
//! literal, or an `AggSpec` naming one of the five supported aggregate
//! functions.

use crate::parser::{find_from, is_ws_char, spec_trim, strip_quotes};
use crate::parser::{find_char_from, is_ws, strip_quotes_str, trim_str};
use vstd::prelude::*;
use vstd::string::*;

verus! {

/// A comparison operator of a filter predicate.
#[derive(Debug, PartialEq, Eq, Clone, Copy, Structural)]
pub enum CmpOp {
    Gt,
    Lt,
    Ge,
    Le,
    Equals,
    NotEquals,
}

/// A filter literal, typed at parse time: integer if the text parses as an
/// `i64`, else float if it has floating-point syntax (the text is kept),
/// else the quote-stripped text itself.
#[derive(Debug, PartialEq, Eq, Clone)]
pub enum LitVal {
    IntLit(i64),
    FloatLit(String),
    StrLit(String),
}

pub enum LitView {
    IntV(i64),
    FloatV(Seq<char>),
    StrV(Seq<char>),
}

impl View for LitVal {
    type V = LitView;

    open spec fn view(&self) -> LitView {
        match self {
            LitVal::IntLit(n) => LitView::IntV(*n),
            LitVal::FloatLit(s) => LitView::FloatV(s@),
            LitVal::StrLit(s) => LitView::StrV(s@),
        }
    }
}

/// A parsed filter predicate: `column <op> literal`.
#[derive(Debug, PartialEq, Eq, Clone)]
pub struct Predicate {
    pub column: String,
    pub op: CmpOp,
    pub value: LitVal,
}

pub struct PredView {
    pub column: Seq<char>,
    pub op: CmpOp,
    pub value: LitView,
}

impl View for Predicate {
    type V = PredView;

    open spec fn view(&self) -> PredView {
        PredView { column: self.column@, op: self.op, value: self.value@ }
    }
}

/// One of the five supported aggregate functions.
#[derive(Debug, PartialEq, Eq, Clone, Copy, Structural)]
pub enum AggFunc {
    Sum,
    Mean,
    Min,
    Max,
    Count,
}

/// A parsed aggregate call: `function(column)`.
#[derive(Debug, PartialEq, Eq, Clone)]
pub struct AggSpec {
    pub func: AggFunc,
    pub column: String,
}

pub struct AggView {
    pub func: AggFunc,
    pub column: Seq<char>,
}

impl View for AggSpec {
    type V = AggView;

    open spec fn view(&self) -> AggView {
        AggView { func: self.func, column: self.column@ }
    }
}

pub open spec fn is_digit(c: char) -> bool {
    0x30 <= c as u32 && c as u32 <= 0x39
}

pub open spec fn digit_of(c: char) -> int {
    c as u32 - 0x30
}

/// The value of a nonempty digit string, most significant digit first.
pub open spec fn digits_val(d: Seq<char>) -> int
    decreases d.len(),
{
    if d.len() == 0 {
        0
    } else {
        digits_val(d.drop_last()) * 10 + digit_of(d.last())
    }
}

/// The sign and digit part of an integer literal.
pub open spec fn int_sign(v: Seq<char>) -> bool {
    v.len() > 0 && v[0] == '-'
}

pub open spec fn int_digits(v: Seq<char>) -> Seq<char> {
    if v.len() > 0 && (v[0] == '+' || v[0] == '-') {
        v.drop_first()
    } else {
        v
    }
}

pub open spec fn all_digits(d: Seq<char>) -> bool {
    d.len() > 0 && forall|i: int| 0 <= i < d.len() ==> is_digit(d[i])
}

/// Does `v` parse as an `i64`: an optional sign, one or more digits, and a
/// value within the `i64` range?
pub open spec fn valid_i64(v: Seq<char>) -> bool {
    let d = int_digits(v);
    all_digits(d) && (if int_sign(v) {
        digits_val(d) <= 0x8000000000000000
    } else {
        digits_val(d) <= 0x7fffffffffffffff
    })
}

pub open spec fn i64_value(v: Seq<char>) -> int {
    if int_sign(v) {
        -digits_val(int_digits(v))
    } else {
        digits_val(int_digits(v))
    }
}

proof fn lemma_digits_val_nonneg(d: Seq<char>)
    requires
        forall|i: int| 0 <= i < d.len() ==> is_digit(d[i]),
    ensures
        digits_val(d) >= 0,
    decreases d.len(),
{
    if d.len() > 0 {
        lemma_digits_val_nonneg(d.drop_last());
    }
}

/// Extending a digit string never decreases its value.
proof fn lemma_digits_val_prefix(d: Seq<char>, k: int)
    requires
        forall|i: int| 0 <= i < d.len() ==> is_digit(d[i]),
        0 <= k <= d.len(),
    ensures
        digits_val(d.subrange(0, k)) <= digits_val(d),
    decreases d.len() - k,
{
    if k < d.len() {
        let p = d.subrange(0, k);
        let q = d.subrange(0, k + 1);
        assert(q.drop_last() =~= p);
        lemma_digits_val_nonneg(p);
        lemma_digits_val_prefix(d, k + 1);
    } else {
        assert(d.subrange(0, k) =~= d);
    }
}

fn is_digit_exec(c: char) -> (b: bool)
    ensures
        b == is_digit(c),
{
    let u = c as u32;
    0x30 <= u && u <= 0x39
}

/// Parse `v` as an `i64` exactly as `str::parse::<i64>` would: `Some`
/// if and only if `v` is a signed digit string whose value fits.
pub fn parse_i64(v: &str) -> (r: Option<i64>)
    ensures
        r is Some <==> valid_i64(v@),
        r is Some ==> r->0 as int == i64_value(v@),
{
    let n = v.unicode_len();
    if n == 0 {
        return None;
    }
    let c0 = v.get_char(0);
    let neg = c0 == '-';
    let start: usize = if c0 == '-' || c0 == '+' {
        1
    } else {
        0
    };
    proof {
        assert(int_digits(v@) =~= v@.subrange(start as int, n as int));
    }
    if start == n {
        return None;
    }
    let limit: u64 = if neg {
        9223372036854775808
    } else {
        9223372036854775807
    };
    let ghost d = v@.subrange(start as int, n as int);
    let mut mag: u64 = 0;
    let mut i: usize = start;
    while i < n
        invariant
            n == v@.len(),
            start <= i <= n,
            start < n,
            d == v@.subrange(start as int, n as int),
            int_digits(v@) == d,
            int_sign(v@) == neg,
            forall|j: int| 0 <= j < i - start ==> is_digit(d[j]),
            mag as int == digits_val(d.subrange(0, i - start)),
            mag <= limit,
            limit == if neg {
                9223372036854775808u64
            } else {
                9223372036854775807u64
            },
        decreases n - i,
    {
        let c = v.get_char(i);
        if !is_digit_exec(c) {
            proof {
                assert(d[i - start] == v@[i as int]);
            }
            return None;
        }
        let dig: u64 = (c as u32 - 0x30) as u64;
        proof {
            assert(d[i - start] == c);
        }
        if mag > 922337203685477580 {
            proof {
                let k = i - start;
                assert(d.subrange(0, k + 1).drop_last() =~= d.subrange(0, k));
                assert(digits_val(d.subrange(0, k + 1)) > limit);
                if all_digits(d) {
                    lemma_digits_val_prefix(d, k + 1);
                }
            }
            return None;
        }
        mag = mag * 10 + dig;
        proof {
            let k = i - start;
            assert(d.subrange(0, k + 1).drop_last() =~= d.subrange(0, k));
        }
        if mag > limit {
            proof {
                let k = i - start + 1;
                if all_digits(d) {
                    lemma_digits_val_prefix(d, k);
                }
            }
            return None;
        }
        i = i + 1;
    }
    proof {
        assert(d.subrange(0, n - start) =~= d);
        assert(all_digits(d));
    }
    if neg {
        if mag == 9223372036854775808 {
            Some(i64::MIN)
        } else {
            Some(-(mag as i64))
        }
    } else {
        Some(mag as i64)
    }
}

/// First index at or after `i` holding a non-digit character, or `s.len()`.
pub open spec fn digit_run_end(s: Seq<char>, i: int) -> int
    decreases s.len() - i,
{
    if i < 0 || i >= s.len() {
        s.len() as int
    } else if is_digit(s[i]) {
        digit_run_end(s, i + 1)
    } else {
        i
    }
}

pub proof fn lemma_digit_run_end_bounds(s: Seq<char>, i: int)
    requires
        0 <= i <= s.len(),
    ensures
        i <= digit_run_end(s, i) <= s.len(),
    decreases s.len() - i,
{
    if i < s.len() && is_digit(s[i]) {
        lemma_digit_run_end_bounds(s, i + 1);
    }
}

fn digit_run_end_exec(s: &str, start: usize) -> (r: usize)
    requires
        start <= s@.len(),
    ensures
        r == digit_run_end(s@, start as int),
        start <= r <= s@.len(),
{
    let n = s.unicode_len();
    let mut i: usize = start;
    while i < n
        invariant
            n == s@.len(),
            start <= i <= n,
            digit_run_end(s@, start as int) == digit_run_end(s@, i as int),
        decreases n - i,
    {
        if !is_digit_exec(s.get_char(i)) {
            return i;
        }
        i = i + 1;
    }
    i
}

/// Case-insensitive (ASCII) match of `b` against a lowercase word `w`.
pub open spec fn is_ci(b: Seq<char>, w: Seq<char>) -> bool {
    b.len() == w.len() && forall|i: int|
        0 <= i < b.len() ==> (b[i] as u32 == w[i] as u32 || b[i] as u32 + 0x20 == w[i] as u32)
}

fn eq_ci(b: &str, w: &str) -> (r: bool)
    ensures
        r == is_ci(b@, w@),
{
    let bn = b.unicode_len();
    let wn = w.unicode_len();
    if bn != wn {
        return false;
    }
    let mut i: usize = 0;
    while i < bn
        invariant
            bn == b@.len(),
            bn == w@.len(),
            0 <= i <= bn,
            forall|j: int|
                0 <= j < i ==> (b@[j] as u32 == w@[j] as u32 || b@[j] as u32 + 0x20 == w@[j]
                    as u32),
        decreases bn - i,
    {
        let bu = b.get_char(i) as u32;
        let wu = w.get_char(i) as u32;
        if !(bu == wu || bu + 0x20 == wu) {
            return false;
        }
        i = i + 1;
    }
    true
}

/// Does the number part (no sign) have floating-point syntax: a mantissa
/// with at least one digit and at most one dot, then an optional exponent?
pub open spec fn is_number_syntax(b: Seq<char>) -> bool {
    let d1 = digit_run_end(b, 0);
    let has_dot = d1 < b.len() && b[d1] == '.';
    let mant_end = if has_dot {
        digit_run_end(b, d1 + 1)
    } else {
        d1
    };
    let digit_count = if has_dot {
        d1 + (mant_end - d1 - 1)
    } else {
        d1
    };
    digit_count >= 1 && exp_ok(b, mant_end)
}

/// Is `b` from position `p` on a valid exponent suffix (or nothing)?
pub open spec fn exp_ok(b: Seq<char>, p: int) -> bool {
    if p == b.len() {
        true
    } else if 0 <= p < b.len() && (b[p] == 'e' || b[p] == 'E') {
        let q = if p + 1 < b.len() && (b[p + 1] == '+' || b[p + 1] == '-') {
            p + 2
        } else {
            p + 1
        };
        q < b.len() && digit_run_end(b, q) == b.len()
    } else {
        false
    }
}

/// Does `v` have the syntax `f64::from_str` accepts: an optional sign, then
/// `inf`, `infinity`, `nan` (case-insensitive) or a number?
pub open spec fn is_float_syntax(v: Seq<char>) -> bool {
    let b = if v.len() > 0 && (v[0] == '+' || v[0] == '-') {
        v.drop_first()
    } else {
        v
    };
    v.len() > 0 && (is_ci(b, "inf"@) || is_ci(b, "infinity"@) || is_ci(b, "nan"@)
        || is_number_syntax(b))
}

/// Recognize floating-point syntax, exactly as `is_float_syntax` states it.
pub fn is_float_str(v: &str) -> (r: bool)
    ensures
        r == is_float_syntax(v@),
{
    let n = v.unicode_len();
    if n == 0 {
        return false;
    }
    let c0 = v.get_char(0);
    let start: usize = if c0 == '+' || c0 == '-' {
        1
    } else {
        0
    };
    let b = v.substring_char(start, n);
    proof {
        if start == 0 {
            assert(b@ =~= v@);
        } else {
            assert(b@ =~= v@.drop_first());
        }
    }
    if eq_ci(b, "inf") || eq_ci(b, "infinity") || eq_ci(b, "nan") {
        return true;
    }
    let bn = b.unicode_len();
    let d1 = digit_run_end_exec(b, 0);
    let has_dot = d1 < bn && b.get_char(d1) == '.';
    let mant_end: usize = if has_dot {
        digit_run_end_exec(b, d1 + 1)
    } else {
        d1
    };
    let digit_count: usize = if has_dot {
        d1 + (mant_end - d1 - 1)
    } else {
        d1
    };
    if digit_count < 1 {
        return false;
    }
    if mant_end == bn {
        return true;
    }
    let e = b.get_char(mant_end);
    if !(e == 'e' || e == 'E') {
        return false;
    }
    let q: usize = if mant_end + 1 < bn && (b.get_char(mant_end + 1) == '+' || b.get_char(
        mant_end + 1,
    ) == '-') {
        mant_end + 2
    } else {
        mant_end + 1
    };
    q < bn && digit_run_end_exec(b, q) == bn
}

/// The typed form of a filter literal: integer, then float, else string.
pub open spec fn literal_view(v: Seq<char>) -> LitView {
    if valid_i64(v) {
        LitView::IntV(i64_value(v) as i64)
    } else if is_float_syntax(v) {
        LitView::FloatV(v)
    } else {
        LitView::StrV(v)
    }
}

/// Type a literal: try `i64`, then floating-point syntax, else string.
pub fn type_literal(v: &str) -> (r: LitVal)
    ensures
        r@ == literal_view(v@),
{
    match parse_i64(v) {
        Some(n) => LitVal::IntLit(n),
        None => {
            if is_float_str(v) {
                LitVal::FloatLit(String::from_str(v))
            } else {
                LitVal::StrLit(String::from_str(v))
            }
        },
    }
}

/// `p` stands at position `i` of `s`.
pub open spec fn lit_at(s: Seq<char>, i: int, p: Seq<char>) -> bool {
    0 <= i && i + p.len() <= s.len() && s.subrange(i, i + p.len()) == p
}

fn lit_at_exec(s: &str, i: usize, p: &str) -> (b: bool)
    ensures
        b == lit_at(s@, i as int, p@),
{
    let sn = s.unicode_len();
    let pn = p.unicode_len();
    if pn > sn || i > sn - pn {
        return false;
    }
    let mut j: usize = 0;
    while j < pn
        invariant
            sn == s@.len(),
            pn == p@.len(),
            i + pn <= sn,
            0 <= j <= pn,
            forall|x: int| 0 <= x < j ==> s@[i + x] == p@[x],
        decreases pn - j,
    {
        if s.get_char(i + j) != p.get_char(j) {
            proof {
                assert(s@.subrange(i as int, i + pn)[j as int] == s@[i + j]);
            }
            return false;
        }
        j = j + 1;
    }
    proof {
        assert(s@.subrange(i as int, i + pn) =~= p@);
    }
    true
}

/// First index at or after `i` holding a non-whitespace character, or `s.len()`.
pub open spec fn non_ws_from(s: Seq<char>, i: int) -> int
    decreases s.len() - i,
{
    if i < 0 || i >= s.len() {
        s.len() as int
    } else if is_ws_char(s[i]) {
        non_ws_from(s, i + 1)
    } else {
        i
    }
}

fn non_ws_from_exec(s: &str, start: usize) -> (r: usize)
    requires
        start <= s@.len(),
    ensures
        r == non_ws_from(s@, start as int),
        start <= r <= s@.len(),
{
    let n = s.unicode_len();
    let mut i: usize = start;
    while i < n
        invariant
            n == s@.len(),
            start <= i <= n,
            non_ws_from(s@, start as int) == non_ws_from(s@, i as int),
        decreases n - i,
    {
        if !is_ws(s.get_char(i)) {
            return i;
        }
        i = i + 1;
    }
    i
}

/// The value text after an operator ending at `a`: the rest of the line
/// after intervening whitespace, except that when only whitespace remains
/// its last character alone is the value (the pattern needs a nonempty
/// value, so it gives one whitespace character back).
pub open spec fn val_after(s: Seq<char>, a: int) -> Option<Seq<char>> {
    if a >= s.len() {
        None
    } else {
        let w = non_ws_from(s, a);
        let m = if w < s.len() {
            w
        } else {
            s.len() - 1
        };
        Some(s.subrange(m, s.len() as int))
    }
}

/// Start index of the value after an operator ending at `a`, when any.
fn val_start_exec(s: &str, a: usize) -> (r: Option<usize>)
    requires
        a <= s@.len(),
    ensures
        match r {
            Some(m) => val_after(s@, a as int) == Some(s@.subrange(m as int, s@.len() as int))
                && m <= s@.len(),
            None => val_after(s@, a as int) is None,
        },
{
    let n = s.unicode_len();
    if a >= n {
        return None;
    }
    let w = non_ws_from_exec(s, a);
    if w < n {
        Some(w)
    } else {
        Some(n - 1)
    }
}

/// The comparison operator standing at `k` and its value text: the two-char
/// operators are preferred, and a one-char operator can still match where a
/// two-char one leaves no value (`>=` at the very end reads as `>` with
/// value `=`).
pub open spec fn op_val_at(s: Seq<char>, k: int) -> Option<(CmpOp, Seq<char>)> {
    if lit_at(s, k, ">="@) && val_after(s, k + 2) is Some {
        Some((CmpOp::Ge, val_after(s, k + 2)->Some_0))
    } else if lit_at(s, k, "<="@) && val_after(s, k + 2) is Some {
        Some((CmpOp::Le, val_after(s, k + 2)->Some_0))
    } else if lit_at(s, k, "=="@) && val_after(s, k + 2) is Some {
        Some((CmpOp::Equals, val_after(s, k + 2)->Some_0))
    } else if lit_at(s, k, "!="@) && val_after(s, k + 2) is Some {
        Some((CmpOp::NotEquals, val_after(s, k + 2)->Some_0))
    } else if lit_at(s, k, ">"@) && val_after(s, k + 1) is Some {
        Some((CmpOp::Gt, val_after(s, k + 1)->Some_0))
    } else if lit_at(s, k, "<"@) && val_after(s, k + 1) is Some {
        Some((CmpOp::Lt, val_after(s, k + 1)->Some_0))
    } else {
        None
    }
}

fn op_val_exec(s: &str, k: usize) -> (r: Option<(CmpOp, usize)>)
    requires
        k <= s@.len(),
    ensures
        match r {
            Some((op, m)) => m <= s@.len() && op_val_at(s@, k as int) == Some(
                (op, s@.subrange(m as int, s@.len() as int)),
            ),
            None => op_val_at(s@, k as int) is None,
        },
{
    let n = s.unicode_len();
    proof {
        reveal_strlit(">=");
        reveal_strlit("<=");
        reveal_strlit("==");
        reveal_strlit("!=");
        reveal_strlit(">");
        reveal_strlit("<");
    }
    if lit_at_exec(s, k, ">=") {
        if let Some(m) = val_start_exec(s, k + 2) {
            return Some((CmpOp::Ge, m));
        }
    }
    if lit_at_exec(s, k, "<=") {
        if let Some(m) = val_start_exec(s, k + 2) {
            return Some((CmpOp::Le, m));
        }
    }
    if lit_at_exec(s, k, "==") {
        if let Some(m) = val_start_exec(s, k + 2) {
            return Some((CmpOp::Equals, m));
        }
    }
    if lit_at_exec(s, k, "!=") {
        if let Some(m) = val_start_exec(s, k + 2) {
            return Some((CmpOp::NotEquals, m));
        }
    }
    if lit_at_exec(s, k, ">") {
        if let Some(m) = val_start_exec(s, k + 1) {
            return Some((CmpOp::Gt, m));
        }
    }
    if lit_at_exec(s, k, "<") {
        if let Some(m) = val_start_exec(s, k + 1) {
            return Some((CmpOp::Lt, m));
        }
    }
    None
}

/// A full predicate pattern standing at `i`: `pl.col("<name>")`, optional
/// whitespace, an operator, optional whitespace, and a nonempty value text.
pub open spec fn filter_at(s: Seq<char>, i: int) -> Option<(Seq<char>, CmpOp, Seq<char>)> {
    let pc = "pl.col(\""@;
    if !lit_at(s, i, pc) {
        None
    } else {
        let a = i + pc.len();
        let j = find_from(s, '"', a);
        if j == s.len() || j == a || !(j + 1 < s.len() && s[j + 1] == ')') {
            None
        } else {
            let k = non_ws_from(s, j + 2);
            match op_val_at(s, k) {
                Some((op, val)) => Some((s.subrange(a, j), op, val)),
                None => None,
            }
        }
    }
}

/// The leftmost position at or after `i` where the predicate pattern
/// matches, as a regular-expression search would find it.
pub open spec fn filter_search(s: Seq<char>, i: int) -> Option<(Seq<char>, CmpOp, Seq<char>)>
    decreases s.len() - i,
{
    if i < 0 || i >= s.len() {
        None
    } else if filter_at(s, i) is Some {
        filter_at(s, i)
    } else {
        filter_search(s, i + 1)
    }
}

/// The meaning of `parse_filter`: the first predicate pattern in the text,
/// its value trimmed, unquoted and typed.
pub open spec fn spec_parse_filter(s: Seq<char>) -> Option<PredView> {
    match filter_search(s, 0) {
        Some((col, op, val)) => Some(
            PredView { column: col, op, value: literal_view(strip_quotes(spec_trim(val))) },
        ),
        None => None,
    }
}

fn try_filter_at(s: &str, i: usize) -> (r: Option<(usize, usize, CmpOp, usize)>)
    requires
        i <= s@.len(),
    ensures
        match r {
            Some((a, j, op, m)) => a <= j <= s@.len() && m <= s@.len() && filter_at(
                s@,
                i as int,
            ) == Some(
                (
                    s@.subrange(a as int, j as int),
                    op,
                    s@.subrange(m as int, s@.len() as int),
                ),
            ),
            None => filter_at(s@, i as int) is None,
        },
{
    let pc = "pl.col(\"";
    if !lit_at_exec(s, i, pc) {
        return None;
    }
    let n = s.unicode_len();
    let a = i + pc.unicode_len();
    let j = find_char_from(s, '"', a);
    if j == n || j == a || n - j < 2 || s.get_char(j + 1) != ')' {
        return None;
    }
    let k = non_ws_from_exec(s, j + 2);
    match op_val_exec(s, k) {
        Some((op, m)) => Some((a, j, op, m)),
        None => None,
    }
}

/// Parse a filter expression into a typed predicate: the first position
/// where the predicate pattern matches decides, exactly as
/// `spec_parse_filter` states; otherwise the expression is unsupported.
pub fn parse_filter(expr: &str) -> (r: Result<Predicate, String>)
    ensures
        match spec_parse_filter(expr@) {
            Some(pv) => r is Ok && r->Ok_0@ == pv,
            None => r is Err && r->Err_0@ == "unsupported filter"@,
        },
{
    let n = expr.unicode_len();
    let mut i: usize = 0;
    while i < n
        invariant
            n == expr@.len(),
            0 <= i <= n,
            filter_search(expr@, 0) == filter_search(expr@, i as int),
        decreases n - i,
    {
        match try_filter_at(expr, i) {
            Some((a, j, op, m)) => {
                let column = String::from_str(expr.substring_char(a, j));
                let raw = strip_quotes_str(trim_str(expr.substring_char(m, n)));
                let value = type_literal(raw);
                return Ok(Predicate { column, op, value });
            },
            None => {},
        }
        i = i + 1;
    }
    Err(String::from_str("unsupported filter"))
}

pub open spec fn is_word_char(c: char) -> bool {
    let u = c as u32;
    (0x41 <= u && u <= 0x5A) || (0x61 <= u && u <= 0x7A) || (0x30 <= u && u <= 0x39) || u == 0x5F
}

/// First index at or after `i` holding a non-word character, or `s.len()`.
pub open spec fn word_run_end(s: Seq<char>, i: int) -> int
    decreases s.len() - i,
{
    if i < 0 || i >= s.len() {
        s.len() as int
    } else if is_word_char(s[i]) {
        word_run_end(s, i + 1)
    } else {
        i
    }
}

fn word_run_end_exec(s: &str, start: usize) -> (r: usize)
    requires
        start <= s@.len(),
    ensures
        r == word_run_end(s@, start as int),
        start <= r <= s@.len(),
{
    let n = s.unicode_len();
    let mut i: usize = start;
    while i < n
        invariant
            n == s@.len(),
            start <= i <= n,
            word_run_end(s@, start as int) == word_run_end(s@, i as int),
        decreases n - i,
    {
        let u = s.get_char(i) as u32;
        if !((0x41 <= u && u <= 0x5A) || (0x61 <= u && u <= 0x7A) || (0x30 <= u && u <= 0x39)
            || u == 0x5F) {
            return i;
        }
        i = i + 1;
    }
    i
}

/// A full aggregate pattern standing at `i`: `pl.col("<name>").<word>()`.
pub open spec fn agg_at(s: Seq<char>, i: int) -> Option<(Seq<char>, Seq<char>)> {
    let pc = "pl.col(\""@;
    if !lit_at(s, i, pc) {
        None
    } else {
        let a = i + pc.len();
        let j = find_from(s, '"', a);
        if j == s.len() || j == a || !(j + 2 < s.len() && s[j + 1] == ')' && s[j + 2] == '.') {
            None
        } else {
            let w = word_run_end(s, j + 3);
            if w == j + 3 {
                None
            } else if w + 2 <= s.len() && s[w] == '(' && s[w + 1] == ')' {
                Some((s.subrange(a, j), s.subrange(j + 3, w)))
            } else {
                None
            }
        }
    }
}

/// The leftmost position at or after `i` where the aggregate pattern matches.
pub open spec fn agg_search(s: Seq<char>, i: int) -> Option<(Seq<char>, Seq<char>)>
    decreases s.len() - i,
{
    if i < 0 || i >= s.len() {
        None
    } else if agg_at(s, i) is Some {
        agg_at(s, i)
    } else {
        agg_search(s, i + 1)
    }
}

/// The aggregate function a word names, if it is one of the five supported.
pub open spec fn agg_func_of(w: Seq<char>) -> Option<AggFunc> {
    if w == "sum"@ {
        Some(AggFunc::Sum)
    } else if w == "mean"@ {
        Some(AggFunc::Mean)
    } else if w == "min"@ {
        Some(AggFunc::Min)
    } else if w == "max"@ {
        Some(AggFunc::Max)
    } else if w == "count"@ {
        Some(AggFunc::Count)
    } else {
        None
    }
}

/// The meaning of `parse_agg`: the first aggregate pattern in the text,
/// accepted only when its word names a supported function.
pub open spec fn spec_parse_agg(s: Seq<char>) -> Option<AggView> {
    match agg_search(s, 0) {
        Some((col, w)) => match agg_func_of(w) {
            Some(f) => Some(AggView { func: f, column: col }),
            None => None,
        },
        None => None,
    }
}

fn str_eq(a: &str, b: &str) -> (r: bool)
    ensures
        r == (a@ == b@),
{
    let an = a.unicode_len();
    let bn = b.unicode_len();
    if an != bn {
        return false;
    }
    let mut i: usize = 0;
    while i < an
        invariant
            an == a@.len(),
            an == b@.len(),
            0 <= i <= an,
            forall|j: int| 0 <= j < i ==> a@[j] == b@[j],
        decreases an - i,
    {
        if a.get_char(i) != b.get_char(i) {
            return false;
        }
        i = i + 1;
    }
    proof {
        assert(a@ =~= b@);
    }
    true
}

fn try_agg_at(s: &str, i: usize) -> (r: Option<(usize, usize, usize, usize)>)
    requires
        i <= s@.len(),
    ensures
        match r {
            Some((a, j, f, w)) => a <= j <= s@.len() && f <= w <= s@.len() && agg_at(
                s@,
                i as int,
            ) == Some((s@.subrange(a as int, j as int), s@.subrange(f as int, w as int))),
            None => agg_at(s@, i as int) is None,
        },
{
    let pc = "pl.col(\"";
    if !lit_at_exec(s, i, pc) {
        return None;
    }
    let n = s.unicode_len();
    let a = i + pc.unicode_len();
    let j = find_char_from(s, '"', a);
    if j == n || j == a || n - j < 3 || s.get_char(j + 1) != ')' || s.get_char(j + 2) != '.' {
        return None;
    }
    let w = word_run_end_exec(s, j + 3);
    if w == j + 3 {
        return None;
    }
    if n - w >= 2 && s.get_char(w) == '(' && s.get_char(w + 1) == ')' {
        Some((a, j, j + 3, w))
    } else {
        None
    }
}

/// Parse an aggregate expression: the first position where the aggregate
/// pattern matches decides, and its word must name one of `sum`, `mean`,
/// `min`, `max`, `count`; anything else is unsupported.
pub fn parse_agg(expr: &str) -> (r: Result<AggSpec, String>)
    ensures
        match spec_parse_agg(expr@) {
            Some(av) => r is Ok && r->Ok_0@ == av,
            None => r is Err && r->Err_0@ == "unsupported agg"@,
        },
{
    let n = expr.unicode_len();
    let mut i: usize = 0;
    while i < n
        invariant
            n == expr@.len(),
            0 <= i <= n,
            agg_search(expr@, 0) == agg_search(expr@, i as int),
        decreases n - i,
    {
        match try_agg_at(expr, i) {
            Some((a, j, f, w)) => {
                let column = String::from_str(expr.substring_char(a, j));
                let word = expr.substring_char(f, w);
                let func = if str_eq(word, "sum") {
                    Some(AggFunc::Sum)
                } else if str_eq(word, "mean") {
                    Some(AggFunc::Mean)
                } else if str_eq(word, "min") {
                    Some(AggFunc::Min)
                } else if str_eq(word, "max") {
                    Some(AggFunc::Max)
                } else if str_eq(word, "count") {
                    Some(AggFunc::Count)
                } else {
                    None
                };
                return match func {
                    Some(f2) => Ok(AggSpec { func: f2, column }),
                    None => Err(String::from_str("unsupported agg")),
                };
            },
            None => {},
        }
        i = i + 1;
    }
    Err(String::from_str("unsupported agg"))
}

} // verus!
