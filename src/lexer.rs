//! Tokenizer: turns source text into instructions, one at a time.
//!
//! Each instruction is a fixed-shape run of characters. Loop, if and while
//! instructions take a variable and then a run of letters, whose first
//! instruction becomes their body.
use vstd::prelude::*;
use crate::num::{Num, parse_slice, parse_spec, digit_run, digit_run_end, digits_capped, digits_val, capped, is_digit};
use crate::text::string_of;

verus! {

/// An instruction, as the tokenizer produces it.
#[derive(Debug, PartialEq)]
pub enum LBT {
    /// `Sa4`: save a number into a variable.
    SaveNumber((char, Num)),
    /// `Sa'hello'`: save a text into a variable.
    SaveStr((char, String)),
    /// `Cab`: copy the value of the first variable into the second.
    Copy((char, char)),
    /// `Pa`: print a variable.
    PrintVar(char),
    /// `P'hello'`: print a text.
    PrintStr(String),
    /// `MAcab`: arithmetic or comparison; operator, target, operands.
    MathOp((char, char, char, char)),
    /// `BEcab`: boolean operation; operator, target, operands.
    BoolOp((char, char, char, char)),
    /// `LaX`: run the instruction `X` as many times as `a` counts.
    Loop((char, Box<LBT>)),
    /// `IaX`: run `X` once when `a` is true.
    IfStatement((char, Box<LBT>)),
    /// `WaX`: run `X` while `a` is true.
    WhileLoop((char, Box<LBT>)),
    /// `Ra`: reset a variable.
    ResetVar(char),
    /// `RA`: reset every variable.
    ResetAll,
    /// `GNa0`: read an input, as a number (`N`) or a text (`S`), into a variable.
    GetInput((char, char, usize)),
    /// `Na`: negate a variable as a truth value.
    Negate(char),
    /// `F`: finish the program.
    Finish,
    /// `Xfab`: run the program text held by `f`, with each parameter letter
    /// replaced by the letter after it.
    Execute((char, String)),
    /// Text that forms no instruction.
    Error,
}

/// An instruction, as plain mathematical data.
pub enum Instr {
    SaveNumber(char, int),
    SaveStr(char, Seq<char>),
    Copy(char, char),
    PrintVar(char),
    PrintStr(Seq<char>),
    MathOp(char, char, char, char),
    BoolOp(char, char, char, char),
    Loop(char, Box<Instr>),
    IfStatement(char, Box<Instr>),
    WhileLoop(char, Box<Instr>),
    ResetVar(char),
    ResetAll,
    GetInput(char, char, int),
    Negate(char),
    Finish,
    Execute(char, Seq<char>),
    Error,
}

/// What an instruction stands for.
pub open spec fn model(t: LBT) -> Instr
    decreases t,
{
    match t {
        LBT::SaveNumber((v, n)) => Instr::SaveNumber(v, n@),
        LBT::SaveStr((v, s)) => Instr::SaveStr(v, s@),
        LBT::Copy((a, b)) => Instr::Copy(a, b),
        LBT::PrintVar(v) => Instr::PrintVar(v),
        LBT::PrintStr(s) => Instr::PrintStr(s@),
        LBT::MathOp((o, t, a, b)) => Instr::MathOp(o, t, a, b),
        LBT::BoolOp((o, t, a, b)) => Instr::BoolOp(o, t, a, b),
        LBT::Loop((v, b)) => Instr::Loop(v, Box::new(model(*b))),
        LBT::IfStatement((v, b)) => Instr::IfStatement(v, Box::new(model(*b))),
        LBT::WhileLoop((v, b)) => Instr::WhileLoop(v, Box::new(model(*b))),
        LBT::ResetVar(v) => Instr::ResetVar(v),
        LBT::ResetAll => Instr::ResetAll,
        LBT::GetInput((o, v, i)) => Instr::GetInput(o, v, i as int),
        LBT::Negate(v) => Instr::Negate(v),
        LBT::Finish => Instr::Finish,
        LBT::Execute((f, m)) => Instr::Execute(f, m@),
        LBT::Error => Instr::Error,
    }
}

impl View for LBT {
    type V = Instr;

    open spec fn view(&self) -> Instr {
        model(*self)
    }
}

/// Nesting depth of an instruction.
pub open spec fn size(i: Instr) -> nat
    decreases i,
{
    match i {
        Instr::Loop(_, b) => 1 + size(*b),
        Instr::IfStatement(_, b) => 1 + size(*b),
        Instr::WhileLoop(_, b) => 1 + size(*b),
        _ => 0,
    }
}

pub open spec fn is_lower(c: char) -> bool {
    'a' <= c && c <= 'z'
}

pub open spec fn is_upper(c: char) -> bool {
    'A' <= c && c <= 'Z'
}

pub open spec fn is_letter(c: char) -> bool {
    is_lower(c) || is_upper(c)
}

/// Characters that separate instructions.
pub open spec fn is_space(c: char) -> bool {
    c == ' ' || c == '\t' || c == '\n' || c == '\x0C' || c == '\r'
}

/// Whether `s[i]` lies before `e` and satisfies `f`.
pub open spec fn at(s: Seq<char>, i: int, e: int, f: spec_fn(char) -> bool) -> bool {
    0 <= i < e && i < s.len() && f(s[i])
}

/// Index just past the run of letters that starts at `p`.
pub open spec fn letter_run_end(s: Seq<char>, p: int, e: int) -> int
    decreases e - p,
{
    if at(s, p, e, |c: char| is_letter(c)) {
        letter_run_end(s, p + 1, e)
    } else {
        p
    }
}

/// Index just past the run of lowercase letter pairs that starts at `p`.
pub open spec fn pair_run_end(s: Seq<char>, p: int, e: int) -> int
    decreases e - p,
{
    if at(s, p, e, |c: char| is_lower(c)) && at(s, p + 1, e, |c: char| is_lower(c)) {
        pair_run_end(s, p + 2, e)
    } else {
        p
    }
}

/// Index of the first quote at or after `p`, or `e` when there is none.
pub open spec fn quote_at_or_after(s: Seq<char>, p: int, e: int) -> int
    decreases e - p,
{
    if p < e && 0 <= p < s.len() && s[p] != '\'' {
        quote_at_or_after(s, p + 1, e)
    } else if p < e {
        p
    } else {
        e
    }
}

/// Index of the first character at or after `p` that is neither a separator
/// nor inside a comment; `e` when there is none.
pub open spec fn skip_space(s: Seq<char>, p: int, e: int) -> int
    decreases e - p,
{
    if p < e && 0 <= p < s.len() && is_space(s[p]) {
        skip_space(s, p + 1, e)
    } else if p < e && 0 <= p < s.len() && s[p] == '!' {
        skip_comment(s, p + 1, e)
    } else {
        p
    }
}

/// Like `skip_space`, from inside a comment, which runs to the end of its line.
pub open spec fn skip_comment(s: Seq<char>, p: int, e: int) -> int
    decreases e - p,
{
    if p < e && 0 <= p < s.len() {
        if s[p] == '\n' || s[p] == '\r' {
            skip_space(s, p + 1, e)
        } else {
            skip_comment(s, p + 1, e)
        }
    } else {
        p
    }
}

pub open spec fn math_ops() -> Seq<char> {
    seq!['A', 'S', 'M', 'D', 'E', 'G', 'L', 'R']
}

pub open spec fn bool_ops() -> Seq<char> {
    seq!['E', 'A', 'O', 'X']
}

/// `S` followed by a variable: a number or a quoted text.
pub open spec fn save_at(s: Seq<char>, p: int, e: int) -> (Instr, int) {
    let v = s[p + 1];
    if at(s, p + 2, e, |c: char| c == '\'') {
        let j = quote_at_or_after(s, p + 3, e);
        if j < e {
            (Instr::SaveStr(v, s.subrange(p + 3, j)), j + 1)
        } else {
            (Instr::Error, p + 1)
        }
    } else {
        let q = if at(s, p + 2, e, |c: char| c == '-') {
            p + 3
        } else {
            p + 2
        };
        let d = digit_run_end(s, q, e);
        if d == q {
            (Instr::Error, p + 1)
        } else {
            let end = if at(s, d, e, |c: char| c == '.') && at(s, d + 1, e, |c: char| is_digit(c)) {
                digit_run_end(s, d + 1, e)
            } else {
                d
            };
            match parse_spec(s.subrange(p + 2, end)) {
                Some(n) => (Instr::SaveNumber(v, n), end),
                None => (Instr::Error, end),
            }
        }
    }
}

/// The instruction that starts at `p`, reading no further than `e`, and
/// the index just past it.
pub open spec fn token_at(s: Seq<char>, p: int, e: int) -> (Instr, int)
    decreases e - p,
{
    let lower = |c: char| is_lower(c);
    let upper = |c: char| is_upper(c);
    if !(0 <= p < e && e <= s.len()) {
        (Instr::Error, p + 1)
    } else {
        let c = s[p];
        if c == 'S' && at(s, p + 1, e, lower) {
            save_at(s, p, e)
        } else if c == 'C' && at(s, p + 1, e, lower) && at(s, p + 2, e, lower) {
            (Instr::Copy(s[p + 1], s[p + 2]), p + 3)
        } else if c == 'P' && at(s, p + 1, e, lower) {
            (Instr::PrintVar(s[p + 1]), p + 2)
        } else if c == 'P' && at(s, p + 1, e, |x: char| x == '\'') && quote_at_or_after(
            s,
            p + 2,
            e,
        ) < e {
            let j = quote_at_or_after(s, p + 2, e);
            (Instr::PrintStr(s.subrange(p + 2, j)), j + 1)
        } else if (c == 'M' || c == 'B') && at(s, p + 1, e, upper) && at(s, p + 2, e, lower) && at(
            s,
            p + 3,
            e,
            lower,
        ) && at(s, p + 4, e, lower) {
            let op = s[p + 1];
            if c == 'M' && math_ops().contains(op) {
                (Instr::MathOp(op, s[p + 2], s[p + 3], s[p + 4]), p + 5)
            } else if c == 'B' && bool_ops().contains(op) {
                (Instr::BoolOp(op, s[p + 2], s[p + 3], s[p + 4]), p + 5)
            } else {
                (Instr::Error, p + 5)
            }
        } else if (c == 'L' || c == 'I' || c == 'W') && at(s, p + 1, e, lower) && at(
            s,
            p + 2,
            e,
            |x: char| is_letter(x),
        ) {
            let end = letter_run_end(s, p + 2, e);
            let body = Box::new(
                if p + 2 <= end && end <= e {
                    token_at(s, p + 2, end).0
                } else {
                    Instr::Error
                },
            );
            let v = s[p + 1];
            if c == 'L' {
                (Instr::Loop(v, body), end)
            } else if c == 'I' {
                (Instr::IfStatement(v, body), end)
            } else {
                (Instr::WhileLoop(v, body), end)
            }
        } else if c == 'R' && at(s, p + 1, e, |x: char| x == 'A') {
            (Instr::ResetAll, p + 2)
        } else if c == 'R' && at(s, p + 1, e, lower) {
            (Instr::ResetVar(s[p + 1]), p + 2)
        } else if c == 'G' && at(s, p + 1, e, upper) && at(s, p + 2, e, lower) && at(
            s,
            p + 3,
            e,
            |x: char| is_digit(x),
        ) {
            let end = digit_run_end(s, p + 3, e);
            let op = s[p + 1];
            if op == 'N' || op == 'S' {
                (
                    Instr::GetInput(
                        op,
                        s[p + 2],
                        capped(digits_val(s.subrange(p + 3, end)) as int, usize::MAX as int),
                    ),
                    end,
                )
            } else {
                (Instr::Error, end)
            }
        } else if c == 'N' && at(s, p + 1, e, lower) {
            (Instr::Negate(s[p + 1]), p + 2)
        } else if c == 'F' {
            (Instr::Finish, p + 1)
        } else if c == 'X' && at(s, p + 1, e, lower) {
            let end = pair_run_end(s, p + 2, e);
            (Instr::Execute(s[p + 1], s.subrange(p + 2, end)), end)
        } else {
            (Instr::Error, p + 1)
        }
    }
}

/// The next instruction at or after `p`, with where it starts and ends;
/// none when only separators and comments remain.
pub open spec fn next_token(s: Seq<char>, p: int) -> Option<(Instr, int, int)> {
    let st = skip_space(s, p, s.len() as int);
    if st < s.len() {
        let (t, e) = token_at(s, st, s.len() as int);
        Some((t, st, e))
    } else {
        None
    }
}

/// Every instruction at or after `p`, in order.
pub open spec fn tokens_from(s: Seq<char>, p: int) -> Seq<Instr>
    decreases s.len() - p,
{
    match next_token(s, p) {
        Some((t, st, e)) => if p < e <= s.len() {
            seq![t] + tokens_from(s, e)
        } else {
            seq![t]
        },
        None => Seq::empty(),
    }
}

/// Every instruction of a source text, in order.
pub open spec fn tokenize(s: Seq<char>) -> Seq<Instr> {
    tokens_from(s, 0)
}

fn lower_c(c: char) -> (r: bool)
    ensures
        r == is_lower(c),
{
    'a' <= c && c <= 'z'
}

fn upper_c(c: char) -> (r: bool)
    ensures
        r == is_upper(c),
{
    'A' <= c && c <= 'Z'
}

fn digit_c(c: char) -> (r: bool)
    ensures
        r == is_digit(c),
{
    '0' <= c && c <= '9'
}

fn space_c(c: char) -> (r: bool)
    ensures
        r == is_space(c),
{
    c == ' ' || c == '\t' || c == '\n' || c == '\x0C' || c == '\r'
}

fn math_op_c(c: char) -> (r: bool)
    ensures
        r == math_ops().contains(c),
{
    let r = c == 'A' || c == 'S' || c == 'M' || c == 'D' || c == 'E' || c == 'G' || c == 'L'
        || c == 'R';
    proof {
        let m = math_ops();
        if r {
            if c == 'A' {
                assert(m[0] == c);
            } else if c == 'S' {
                assert(m[1] == c);
            } else if c == 'M' {
                assert(m[2] == c);
            } else if c == 'D' {
                assert(m[3] == c);
            } else if c == 'E' {
                assert(m[4] == c);
            } else if c == 'G' {
                assert(m[5] == c);
            } else if c == 'L' {
                assert(m[6] == c);
            } else {
                assert(m[7] == c);
            }
        } else {
            assert forall|i: int| 0 <= i < m.len() implies m[i] != c by {}
        }
    }
    r
}

fn bool_op_c(c: char) -> (r: bool)
    ensures
        r == bool_ops().contains(c),
{
    let r = c == 'E' || c == 'A' || c == 'O' || c == 'X';
    proof {
        let m = bool_ops();
        if r {
            if c == 'E' {
                assert(m[0] == c);
            } else if c == 'A' {
                assert(m[1] == c);
            } else if c == 'O' {
                assert(m[2] == c);
            } else {
                assert(m[3] == c);
            }
        } else {
            assert forall|i: int| 0 <= i < m.len() implies m[i] != c by {}
        }
    }
    r
}

fn letter_run(s: &Vec<char>, p: usize, e: usize) -> (r: usize)
    requires
        p <= e <= s.len(),
    ensures
        r == letter_run_end(s@, p as int, e as int),
        p <= r <= e,
        p < e && is_letter(s@[p as int]) ==> p < r,
{
    let mut k = p;
    while k < e && (lower_c(s[k]) || upper_c(s[k]))
        invariant
            p <= k <= e <= s.len(),
            letter_run_end(s@, p as int, e as int) == letter_run_end(s@, k as int, e as int),
        decreases e - k,
    {
        k = k + 1;
    }
    k
}

fn pair_run(s: &Vec<char>, p: usize, e: usize) -> (r: usize)
    requires
        p <= e <= s.len(),
    ensures
        r == pair_run_end(s@, p as int, e as int),
        p <= r <= e,
{
    let mut k = p;
    while e - k > 1 && lower_c(s[k]) && lower_c(s[k + 1])
        invariant
            p <= k <= e <= s.len(),
            pair_run_end(s@, p as int, e as int) == pair_run_end(s@, k as int, e as int),
        decreases e - k,
    {
        k = k + 2;
    }
    k
}

fn quote_from(s: &Vec<char>, p: usize, e: usize) -> (r: usize)
    requires
        p <= e <= s.len(),
    ensures
        r == quote_at_or_after(s@, p as int, e as int),
        p <= r <= e,
        r < e ==> s@[r as int] == '\'',
        forall|j: int| p <= j < r ==> s@[j] != '\'',
{
    let mut k = p;
    while k < e && s[k] != '\''
        invariant
            p <= k <= e <= s.len(),
            quote_at_or_after(s@, p as int, e as int) == quote_at_or_after(s@, k as int, e as int),
            forall|j: int| p <= j < k ==> s@[j] != '\'',
        decreases e - k,
    {
        k = k + 1;
    }
    k
}

fn skip(s: &Vec<char>, p: usize, e: usize) -> (r: usize)
    requires
        p <= e <= s.len(),
    ensures
        r == skip_space(s@, p as int, e as int),
        p <= r <= e,
{
    let mut k = p;
    let mut comment = false;
    while k < e && (comment || space_c(s[k]) || s[k] == '!')
        invariant
            p <= k <= e <= s.len(),
            skip_space(s@, p as int, e as int) == (if comment {
                skip_comment(s@, k as int, e as int)
            } else {
                skip_space(s@, k as int, e as int)
            }),
        decreases e - k,
    {
        if comment {
            if s[k] == '\n' || s[k] == '\r' {
                comment = false;
            }
        } else if s[k] == '!' {
            comment = true;
        }
        k = k + 1;
    }
    k
}

fn save_at_exec(s: &Vec<char>, p: usize, e: usize) -> (r: (LBT, usize))
    requires
        p + 1 < e <= s.len(),
        is_lower(s@[p + 1]),
    ensures
        r.0@ == save_at(s@, p as int, e as int).0,
        r.1 == save_at(s@, p as int, e as int).1,
        p < r.1 <= e,
{
    let v = s[p + 1];
    if e - p > 2 && s[p + 2] == '\'' {
        let j = quote_from(s, p + 3, e);
        if j < e {
            (LBT::SaveStr((v, string_of(s, p + 3, j))), j + 1)
        } else {
            (LBT::Error, p + 1)
        }
    } else {
        let q = if e - p > 2 && s[p + 2] == '-' {
            p + 3
        } else {
            p + 2
        };
        let d = digit_run(s, q, e);
        if d == q {
            (LBT::Error, p + 1)
        } else {
            let end = if e - d > 1 && s[d] == '.' && digit_c(s[d + 1]) {
                digit_run(s, d + 1, e)
            } else {
                d
            };
            match parse_slice(s, p + 2, end) {
                Some(n) => (LBT::SaveNumber((v, n)), end),
                None => (LBT::Error, end),
            }
        }
    }
}

/// The instruction that starts at `p`, reading no further than `e`, and the
/// index just past it.
fn token_at_exec(s: &Vec<char>, p: usize, e: usize) -> (r: (LBT, usize))
    requires
        p < e <= s.len(),
    ensures
        r.0@ == token_at(s@, p as int, e as int).0,
        r.1 == token_at(s@, p as int, e as int).1,
        p < r.1 <= e,
    decreases e - p,
{
    let c = s[p];
    let low1 = p + 1 < e && lower_c(s[p + 1]);
    let low2 = e - p > 2 && lower_c(s[p + 2]);
    if c == 'S' && low1 {
        save_at_exec(s, p, e)
    } else if c == 'C' && low1 && low2 {
        (LBT::Copy((s[p + 1], s[p + 2])), p + 3)
    } else if c == 'P' && low1 {
        (LBT::PrintVar(s[p + 1]), p + 2)
    } else if c == 'P' && p + 1 < e && s[p + 1] == '\'' && quote_from(s, p + 2, e) < e {
        let j = quote_from(s, p + 2, e);
        (LBT::PrintStr(string_of(s, p + 2, j)), j + 1)
    } else if (c == 'M' || c == 'B') && p + 1 < e && upper_c(s[p + 1]) && low2 && e - p > 3
        && lower_c(s[p + 3]) && e - p > 4 && lower_c(s[p + 4]) {
        let op = s[p + 1];
        if c == 'M' && math_op_c(op) {
            (LBT::MathOp((op, s[p + 2], s[p + 3], s[p + 4])), p + 5)
        } else if c == 'B' && bool_op_c(op) {
            (LBT::BoolOp((op, s[p + 2], s[p + 3], s[p + 4])), p + 5)
        } else {
            (LBT::Error, p + 5)
        }
    } else if (c == 'L' || c == 'I' || c == 'W') && low1 && e - p > 2 && (lower_c(s[p + 2])
        || upper_c(s[p + 2])) {
        let end = letter_run(s, p + 2, e);
        let (inner, _) = token_at_exec(s, p + 2, end);
        let body = Box::new(inner);
        let v = s[p + 1];
        if c == 'L' {
            (LBT::Loop((v, body)), end)
        } else if c == 'I' {
            (LBT::IfStatement((v, body)), end)
        } else {
            (LBT::WhileLoop((v, body)), end)
        }
    } else if c == 'R' && p + 1 < e && s[p + 1] == 'A' {
        (LBT::ResetAll, p + 2)
    } else if c == 'R' && low1 {
        (LBT::ResetVar(s[p + 1]), p + 2)
    } else if c == 'G' && p + 1 < e && upper_c(s[p + 1]) && low2 && e - p > 3 && digit_c(
        s[p + 3],
    ) {
        let end = digit_run(s, p + 3, e);
        let op = s[p + 1];
        if op == 'N' || op == 'S' {
            let n = digits_capped(s, p + 3, end, usize::MAX as u128);
            (LBT::GetInput((op, s[p + 2], n as usize)), end)
        } else {
            (LBT::Error, end)
        }
    } else if c == 'N' && low1 {
        (LBT::Negate(s[p + 1]), p + 2)
    } else if c == 'F' {
        (LBT::Finish, p + 1)
    } else if c == 'X' && low1 {
        let end = pair_run(s, p + 2, e);
        (LBT::Execute((s[p + 1], string_of(s, p + 2, end))), end)
    } else {
        (LBT::Error, p + 1)
    }
}

/// The next instruction at or after `p`, with where it starts and ends.
pub fn next_token_exec(s: &Vec<char>, p: usize) -> (r: Option<(LBT, usize, usize)>)
    requires
        p <= s.len(),
    ensures
        match next_token(s@, p as int) {
            None => r is None,
            Some((t, st, e)) => r matches Some((x, a, b)) && x@ == t && a == st && b == e && p <= a
                < b <= s.len(),
        },
{
    let st = skip(s, p, s.len());
    if st < s.len() {
        let (t, e) = token_at_exec(s, st, s.len());
        Some((t, st, e))
    } else {
        None
    }
}

/// What each instruction of a sequence stands for.
pub open spec fn models(v: Seq<LBT>) -> Seq<Instr> {
    v.map_values(|t: LBT| t@)
}

/// A lazy, finite sequence of the instructions of a source text.
pub struct Lexer {
    chars: Vec<char>,
    pos: usize,
    start: usize,
    end: usize,
}

impl Lexer {
    #[verifier::type_invariant]
    spec fn inv(self) -> bool {
        self.start <= self.end <= self.pos <= self.chars.len()
    }

    /// The source text.
    pub closed spec fn source(self) -> Seq<char> {
        self.chars@
    }

    /// Where the next instruction is looked for.
    pub closed spec fn position(self) -> int {
        self.pos as int
    }

    /// Where the last instruction handed out starts and ends.
    pub closed spec fn span(self) -> (int, int) {
        (self.start as int, self.end as int)
    }

    /// The next instruction; none once only separators and comments remain.
    pub fn next(&mut self) -> (r: Option<LBT>)
        ensures
            final(self).source() == old(self).source(),
            match next_token(old(self).source(), old(self).position()) {
                None => r is None && final(self).position() == old(self).position(),
                Some((t, st, e)) => r matches Some(x) && x@ == t && final(self).position() == e
                    && final(self).span() == (st, e),
            },
    {
        proof {
            use_type_invariant(&*self);
        }
        match next_token_exec(&self.chars, self.pos) {
            Some((t, st, e)) => {
                self.pos = e;
                self.end = e;
                self.start = st;
                Some(t)
            },
            None => None,
        }
    }

    /// The text of the last instruction handed out.
    pub fn slice(&self) -> (r: String)
        ensures
            r@ == self.source().subrange(self.span().0, self.span().1),
    {
        proof {
            use_type_invariant(self);
        }
        string_of(&self.chars, self.start, self.end)
    }

    /// Every instruction that is left, in order.
    pub fn collect_all(&mut self) -> (r: Vec<LBT>)
        ensures
            models(r@) == tokens_from(old(self).source(), old(self).position()),
    {
        proof {
            use_type_invariant(&*self);
        }
        let mut out: Vec<LBT> = Vec::new();
        let ghost s = self.chars@;
        let ghost p0 = self.pos as int;
        loop
            invariant
                self.chars@ == s,
                s == old(self).source(),
                p0 == old(self).position(),
                self.pos <= s.len(),
                self.start <= self.end <= self.pos,
                models(out@) + tokens_from(s, self.pos as int) == tokens_from(
                    s,
                    p0,
                ),
            decreases s.len() - self.pos,
        {
            match next_token_exec(&self.chars, self.pos) {
                Some((t, st, e)) => {
                    let ghost before = models(out@);
                    let ghost m = t@;
                    out.push(t);
                    assert(models(out@) =~= before.push(m));
                    assert(tokens_from(s, self.pos as int) == seq![m] + tokens_from(s, e as int));
                    assert(before.push(m) + tokens_from(s, e as int) =~= before + (seq![m]
                        + tokens_from(s, e as int)));
                    self.pos = e;
                    self.end = e;
                    self.start = st;
                },
                None => {
                    assert(tokens_from(s, self.pos as int) =~= Seq::<Instr>::empty());
                    assert(models(out@) + tokens_from(s, self.pos as int)
                        =~= models(out@));
                    return out;
                },
            }
        }
    }
}

impl LBT {
    /// A lexer over the instructions of `src`.
    pub fn lexer(src: &str) -> (r: Lexer)
        ensures
            r.source() == src@,
            r.position() == 0,
    {
        Lexer { chars: crate::text::chars_of(src), pos: 0, start: 0, end: 0 }
    }
}

} // verus!
