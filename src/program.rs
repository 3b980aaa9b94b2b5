//! The evaluator: runs instructions against a store, an input list and an
//! output buffer.
//!
//! Every loop and every nesting of stored programs is bounded by the loop
//! limit: a while loop whose condition still holds after that many rounds, a
//! counted loop asked for more rounds, or stored programs nested deeper than
//! the limit, fail.
use vstd::prelude::*;
use crate::argmap::{apply_argmap, rewrite, views};
use crate::lexer::{Instr, LBT, Lexer, models, size, tokenize, tokens_from};
use crate::num::{
    add_spec, div_spec, mul_spec, parse_spec, rem_spec, sub_spec, whole_count, Num, SCALE,
    opt_view,
};
use crate::storage::{
    Slots, Storage, Val, Value, assign, clear_slot, display, empty_slots, is_var, is_var_name,
    lookup, materialize, truthy,
};
use crate::text::{chars_of, message};

verus! {

/// What a run can change: the store, the output, and whether the program
/// has been finished.
pub struct Machine {
    pub store: Slots,
    pub out: Seq<char>,
    pub fin: bool,
}

/// The machine after reading variable `c`.
pub open spec fn touch(m: Machine, c: char) -> Machine {
    Machine { store: materialize(m.store, c), ..m }
}

/// The machine after writing `v` to `c`.
pub open spec fn write(m: Machine, c: char, v: Value) -> Machine {
    Machine { store: assign(m.store, c, v), ..m }
}

/// One, as a number: the value of a true comparison.
pub open spec fn one() -> int {
    SCALE as int
}

/// A truth value as a number.
pub open spec fn flag(b: bool) -> int {
    if b {
        one()
    } else {
        0
    }
}

/// The result of arithmetic operator `op`; none for an unknown operator or
/// a failed operation.
pub open spec fn math_result(op: char, a: int, b: int) -> Option<int> {
    if op == 'A' {
        add_spec(a, b)
    } else if op == 'S' {
        sub_spec(a, b)
    } else if op == 'M' {
        mul_spec(a, b)
    } else if op == 'D' {
        div_spec(a, b)
    } else if op == 'R' {
        rem_spec(a, b)
    } else if op == 'E' {
        Some(flag(a == b))
    } else if op == 'G' {
        Some(flag(a > b))
    } else if op == 'L' {
        Some(flag(a < b))
    } else {
        None
    }
}

/// The result of boolean operator `op`; none for an unknown operator.
pub open spec fn bool_result(op: char, a: bool, b: bool) -> Option<int> {
    if op == 'E' {
        Some(flag(a == b))
    } else if op == 'A' {
        Some(flag(a && b))
    } else if op == 'O' {
        Some(flag(a || b))
    } else if op == 'X' {
        Some(flag(a != b))
    } else {
        None
    }
}

/// Whether every character names a variable.
pub open spec fn all_vars(s: Seq<char>) -> bool {
    forall|i: int| 0 <= i < s.len() ==> is_var_name(#[trigger] s[i])
}

/// The effect of one instruction on machine `m`: the machine after it, and
/// whether it succeeded. `inp` is the input list, `limit` the loop limit and
/// `depth` how many more stored programs may be nested.
pub open spec fn eval(i: Instr, m: Machine, inp: Seq<Seq<char>>, limit: nat, depth: nat) -> (
    Machine,
    bool,
)
    decreases depth, 1nat, size(i), 0nat,
{
    match i {
        Instr::SaveNumber(c, q) => if is_var_name(c) {
            (write(m, c, Value::Number(q)), true)
        } else {
            (m, false)
        },
        Instr::SaveStr(c, t) => if is_var_name(c) {
            (write(m, c, Value::Text(t)), true)
        } else {
            (m, false)
        },
        Instr::Copy(a, b) => if !is_var_name(a) {
            (m, false)
        } else if !is_var_name(b) {
            (touch(m, a), false)
        } else {
            (write(touch(m, a), b, lookup(m.store, a)), true)
        },
        Instr::PrintVar(c) => if is_var_name(c) {
            (Machine { out: m.out + display(lookup(m.store, c)), ..touch(m, c) }, true)
        } else {
            (m, false)
        },
        Instr::PrintStr(t) => (Machine { out: m.out + t, ..m }, true),
        Instr::MathOp(op, t, a, b) => math_step(op, t, a, b, m),
        Instr::BoolOp(op, t, a, b) => bool_step(op, t, a, b, m),
        Instr::ResetVar(c) => if is_var_name(c) {
            (Machine { store: clear_slot(m.store, c), ..m }, true)
        } else {
            (m, true)
        },
        Instr::ResetAll => (Machine { store: empty_slots(), ..m }, true),
        Instr::Negate(c) => if !is_var_name(c) {
            (m, false)
        } else if truthy(lookup(m.store, c)) {
            (Machine { store: clear_slot(m.store, c), ..m }, true)
        } else {
            (write(m, c, Value::Number(one())), true)
        },
        Instr::Loop(c, body) => if !is_var_name(c) {
            (m, false)
        } else {
            match lookup(m.store, c) {
                Value::Number(q) => if whole_count(q) > limit {
                    (touch(m, c), false)
                } else {
                    repeat(*body, whole_count(q), touch(m, c), inp, limit, depth)
                },
                Value::Text(_) => (touch(m, c), false),
            }
        },
        Instr::IfStatement(c, body) => if !is_var_name(c) {
            (m, false)
        } else if truthy(lookup(m.store, c)) {
            eval(*body, touch(m, c), inp, limit, depth)
        } else {
            (touch(m, c), true)
        },
        Instr::WhileLoop(c, body) => repeat_while(c, *body, limit, m, inp, limit, depth),
        Instr::GetInput(op, c, idx) => if !(0 <= idx < inp.len()) || !is_var_name(c) {
            (m, false)
        } else if op == 'N' {
            match parse_spec(inp[idx]) {
                Some(q) => (write(m, c, Value::Number(q)), true),
                None => (m, false),
            }
        } else if op == 'S' {
            (write(m, c, Value::Text(inp[idx])), true)
        } else {
            (m, false)
        },
        Instr::Execute(f, args) => if !all_vars(args) || !is_var_name(f) {
            (m, false)
        } else {
            match lookup(m.store, f) {
                Value::Text(t) => if depth == 0 {
                    (touch(m, f), false)
                } else {
                    let (m2, ok) = run_seq(
                        tokenize(rewrite(t, args)),
                        0,
                        Machine { fin: false, ..touch(m, f) },
                        inp,
                        limit,
                        (depth - 1) as nat,
                    );
                    (Machine { fin: m.fin, ..m2 }, ok)
                },
                Value::Number(_) => (touch(m, f), false),
            }
        },
        Instr::Finish => (Machine { fin: true, ..m }, true),
        Instr::Error => (m, false),
    }
}

/// `MAcab` and its kin: both operands must hold numbers.
pub open spec fn math_step(op: char, t: char, a: char, b: char, m: Machine) -> (Machine, bool) {
    if !is_var_name(a) {
        (m, false)
    } else {
        let m1 = touch(m, a);
        match lookup(m.store, a) {
            Value::Text(_) => (m1, false),
            Value::Number(x) => if !is_var_name(b) {
                (m1, false)
            } else {
                let m2 = touch(m1, b);
                match lookup(m1.store, b) {
                    Value::Text(_) => (m2, false),
                    Value::Number(y) => match math_result(op, x, y) {
                        Some(v) => if is_var_name(t) {
                            (write(m2, t, Value::Number(v)), true)
                        } else {
                            (m2, false)
                        },
                        None => (m2, false),
                    },
                }
            },
        }
    }
}

/// `BEcab` and its kin: both operands are read as truth values.
pub open spec fn bool_step(op: char, t: char, a: char, b: char, m: Machine) -> (Machine, bool) {
    if !is_var_name(a) {
        (m, false)
    } else if !is_var_name(b) {
        (touch(m, a), false)
    } else {
        let m2 = touch(touch(m, a), b);
        let x = truthy(lookup(m.store, a));
        let y = truthy(lookup(touch(m, a).store, b));
        match bool_result(op, x, y) {
            Some(v) => if is_var_name(t) {
                (write(m2, t, Value::Number(v)), true)
            } else {
                (m2, false)
            },
            None => (m2, false),
        }
    }
}

/// Runs `body` `n` times, stopping at the first failure.
pub open spec fn repeat(body: Instr, n: nat, m: Machine, inp: Seq<Seq<char>>, limit: nat, depth: nat) -> (
    Machine,
    bool,
)
    decreases depth, 1nat, size(body), n,
{
    if n == 0 {
        (m, true)
    } else {
        let (m1, ok) = eval(body, m, inp, limit, depth);
        if !ok {
            (m1, false)
        } else {
            repeat(body, (n - 1) as nat, m1, inp, limit, depth)
        }
    }
}

/// Runs `body` while `c` reads as true, checking before every round; fails
/// when `c` still holds after `k` more rounds.
pub open spec fn repeat_while(
    c: char,
    body: Instr,
    k: nat,
    m: Machine,
    inp: Seq<Seq<char>>,
    limit: nat,
    depth: nat,
) -> (Machine, bool)
    decreases depth, 1nat, size(body), k,
{
    if !is_var_name(c) {
        (m, false)
    } else if !truthy(lookup(m.store, c)) {
        (touch(m, c), true)
    } else if k == 0 {
        (touch(m, c), false)
    } else {
        let (m1, ok) = eval(body, touch(m, c), inp, limit, depth);
        if !ok {
            (m1, false)
        } else {
            repeat_while(c, body, (k - 1) as nat, m1, inp, limit, depth)
        }
    }
}

/// Runs `prog` from instruction `idx` until it ends, finishes or fails.
pub open spec fn run_seq(
    prog: Seq<Instr>,
    idx: int,
    m: Machine,
    inp: Seq<Seq<char>>,
    limit: nat,
    depth: nat,
) -> (Machine, bool)
    decreases depth, 2nat, 0nat, prog.len() - idx,
{
    if idx < 0 || idx >= prog.len() {
        (m, true)
    } else {
        let (m1, ok) = eval(prog[idx], m, inp, limit, depth);
        if !ok {
            (m1, false)
        } else if m1.fin {
            (m1, true)
        } else {
            run_seq(prog, idx + 1, m1, inp, limit, depth)
        }
    }
}

/// Whether `res`, an outcome of the semantics, is the machine given by
/// `store`, `out` and `fin`, with success `ok`.
pub open spec fn reaches(res: (Machine, bool), store: Slots, out: Seq<char>, fin: bool, ok: bool) -> bool {
    res.0.store == store && res.0.out == out && res.0.fin == fin && res.1 == ok
}

/// The machine with the given store and output.
pub open spec fn at_start(store: Slots, out: Seq<char>, fin: bool) -> Machine {
    Machine { store, out, fin }
}

fn flag_num(b: bool) -> (r: Num)
    ensures
        r@ == flag(b),
{
    if b {
        Num::one()
    } else {
        Num::zero()
    }
}

fn math_exec(op: char, x: &Num, y: &Num) -> (r: Option<Num>)
    ensures
        opt_view(r) == math_result(op, x@, y@),
{
    if op == 'A' {
        x.checked_add(y)
    } else if op == 'S' {
        x.checked_sub(y)
    } else if op == 'M' {
        x.checked_mul(y)
    } else if op == 'D' {
        x.checked_div(y)
    } else if op == 'R' {
        x.checked_rem(y)
    } else if op == 'E' {
        Some(flag_num(x.same(y)))
    } else if op == 'G' {
        Some(flag_num(x.greater(y)))
    } else if op == 'L' {
        Some(flag_num(x.less(y)))
    } else {
        None
    }
}

fn bool_exec(op: char, x: bool, y: bool) -> (r: Option<Num>)
    ensures
        opt_view(r) == bool_result(op, x, y),
{
    if op == 'E' {
        Some(flag_num(x == y))
    } else if op == 'A' {
        Some(flag_num(x && y))
    } else if op == 'O' {
        Some(flag_num(x || y))
    } else if op == 'X' {
        Some(flag_num(x != y))
    } else {
        None
    }
}

/// Runs one instruction.
fn evaluate(
    cmd: &LBT,
    data: &mut Storage,
    inv: &Vec<String>,
    out: &mut String,
    fin: &mut bool,
    limit: usize,
    depth: usize,
) -> (r: Result<(), String>)
    ensures
        reaches(
            eval(
                cmd@,
                at_start(old(data)@, old(out)@, *old(fin)),
                views(inv@),
                limit as nat,
                depth as nat,
            ),
            final(data)@,
            final(out)@,
            *final(fin),
            r is Ok,
        ),
    decreases depth, 1nat, size(cmd@), 0nat,
{
    match cmd {
        LBT::SaveNumber((c, n)) => data.set_var(*c, &Val::Number(*n)),
        LBT::SaveStr((c, t)) => data.set_var(*c, &Val::Text(t.clone())),
        LBT::Copy((a, b)) => data.copy(*a, *b),
        LBT::PrintVar(c) => match data.get_var(*c) {
            Some(v) => {
                v.write_to(out);
                Ok(())
            },
            None => Err(message("P: not a variable name: ", *c)),
        },
        LBT::PrintStr(t) => {
            out.append(t.as_str());
            Ok(())
        },
        LBT::MathOp((op, t, a, b)) => {
            let x = match data.get_var(*a) {
                Some(Val::Number(x)) => x,
                Some(Val::Text(_)) => {
                    return Err(message("M: variable is not a number: ", *a));
                },
                None => {
                    return Err(message("M: not a variable name: ", *a));
                },
            };
            let y = match data.get_var(*b) {
                Some(Val::Number(y)) => y,
                Some(Val::Text(_)) => {
                    return Err(message("M: variable is not a number: ", *b));
                },
                None => {
                    return Err(message("M: not a variable name: ", *b));
                },
            };
            match math_exec(*op, &x, &y) {
                Some(v) => data.set_var(*t, &Val::Number(v)),
                None => Err(message("M: operation failed: ", *op)),
            }
        },
        LBT::BoolOp((op, t, a, b)) => {
            let x = match data.var_as_bool(*a) {
                Some(x) => x,
                None => {
                    return Err(message("B: not a variable name: ", *a));
                },
            };
            let y = match data.var_as_bool(*b) {
                Some(y) => y,
                None => {
                    return Err(message("B: not a variable name: ", *b));
                },
            };
            match bool_exec(*op, x, y) {
                Some(v) => data.set_var(*t, &Val::Number(v)),
                None => Err(message("B: invalid operator: ", *op)),
            }
        },
        LBT::ResetVar(c) => data.reset_var(*c),
        LBT::ResetAll => data.reset_all(),
        LBT::Negate(c) => {
            let ghost s0 = data@;
            proof {
                crate::storage::lemma_slots(data);
            }
            match data.var_as_bool(*c) {
                Some(true) => {
                    let r = data.reset_var(*c);
                    assert(data@ =~= clear_slot(s0, *c));
                    r
                },
                Some(false) => {
                    let r = data.set_var(*c, &Val::Number(Num::one()));
                    assert(data@ =~= assign(s0, *c, Value::Number(one())));
                    r
                },
                None => Err(message("N: not a variable name: ", *c)),
            }
        },
        LBT::Loop((c, body)) => {
            let ghost m0 = at_start(data@, out@, *fin);
            let q = match data.get_var(*c) {
                Some(Val::Number(q)) => q,
                Some(Val::Text(_)) => {
                    return Err(message("L: variable is not a number: ", *c));
                },
                None => {
                    return Err(message("L: not a variable name: ", *c));
                },
            };
            let n = q.count();
            if n > limit as u128 {
                return Err(message("L: loop limit exceeded by variable ", *c));
            }
            let n = n as usize;
            let b: &LBT = &**body;
            assert(size(b@) < size(cmd@));
            let ghost whole = eval(cmd@, m0, views(inv@), limit as nat, depth as nat);
            let mut i: usize = 0;
            while i < n
                invariant
                    i <= n,
                    size(b@) < size(cmd@),
                    whole == eval(
                        cmd@,
                        at_start(old(data)@, old(out)@, *old(fin)),
                        views(inv@),
                        limit as nat,
                        depth as nat,
                    ),
                    whole == repeat(
                        b@,
                        (n - i) as nat,
                        at_start(data@, out@, *fin),
                        views(inv@),
                        limit as nat,
                        depth as nat,
                    ),
                decreases n - i,
            {
                let r = evaluate(b, data, inv, out, fin, limit, depth);
                if r.is_err() {
                    return r;
                }
                i = i + 1;
            }
            Ok(())
        },
        LBT::IfStatement((c, body)) => match data.var_as_bool(*c) {
            Some(true) => evaluate(&**body, data, inv, out, fin, limit, depth),
            Some(false) => Ok(()),
            None => Err(message("I: not a variable name: ", *c)),
        },
        LBT::WhileLoop((c, body)) => {
            let b: &LBT = &**body;
            assert(size(b@) < size(cmd@));
            let ghost whole = eval(
                cmd@,
                at_start(data@, out@, *fin),
                views(inv@),
                limit as nat,
                depth as nat,
            );
            let mut k: usize = limit;
            loop
                invariant
                    k <= limit,
                    size(b@) < size(cmd@),
                    whole == eval(
                        cmd@,
                        at_start(old(data)@, old(out)@, *old(fin)),
                        views(inv@),
                        limit as nat,
                        depth as nat,
                    ),
                    whole == repeat_while(
                        *c,
                        b@,
                        k as nat,
                        at_start(data@, out@, *fin),
                        views(inv@),
                        limit as nat,
                        depth as nat,
                    ),
                decreases k,
            {
                match data.var_as_bool(*c) {
                    None => {
                        return Err(message("W: not a variable name: ", *c));
                    },
                    Some(false) => {
                        return Ok(());
                    },
                    Some(true) => {
                        if k == 0 {
                            return Err(message("W: loop limit exceeded by variable ", *c));
                        }
                        let r = evaluate(b, data, inv, out, fin, limit, depth);
                        if r.is_err() {
                            return r;
                        }
                        k = k - 1;
                    },
                }
            }
        },
        LBT::GetInput((op, c, idx)) => {
            if *idx >= inv.len() {
                return Err(message("G: no input at the index given to ", *c));
            }
            if !is_var(c) {
                return Err(message("G: not a variable name: ", *c));
            }
            if *op == 'N' {
                match Num::parse(inv[*idx].as_str()) {
                    Some(q) => data.set_var(*c, &Val::Number(q)),
                    None => Err(message("G: input is not a number, for ", *c)),
                }
            } else if *op == 'S' {
                data.set_var(*c, &Val::Text(inv[*idx].clone()))
            } else {
                Err(message("G: invalid operator: ", *op))
            }
        },
        LBT::Execute((f, args)) => {
            let m = chars_of(args.as_str());
            let mut i: usize = 0;
            while i < m.len()
                invariant
                    i <= m.len(),
                    m@ == args@,
                    cmd@ == Instr::Execute(*f, args@),
                    data@ == old(data)@,
                    out@ == old(out)@,
                    *fin == *old(fin),
                    forall|j: int| 0 <= j < i ==> is_var_name(#[trigger] m@[j]),
                decreases m.len() - i,
            {
                if !is_var(&m[i]) {
                    assert(!is_var_name(args@[i as int]));
                    assert(!all_vars(args@));

                    return Err(message("X: not a variable name: ", m[i]));
                }
                i = i + 1;
            }
            if !is_var(f) {
                return Err(message("X: not a variable name: ", *f));
            }
            match data.get_var(*f) {
                Some(Val::Text(t)) => {
                    if depth == 0 {
                        return Err(message("X: nesting limit exceeded by variable ", *f));
                    }
                    let text = apply_argmap(&t, args);
                    let mut lx = LBT::lexer(text.as_str());
                    let list = lx.collect_all();
                    run_list(&list, data, inv, out, limit, depth - 1)
                },
                Some(Val::Number(_)) => Err(message("X: variable is not a text: ", *f)),
                None => Err(message("X: not a variable name: ", *f)),
            }
        },
        LBT::Finish => {
            *fin = true;
            Ok(())
        },
        LBT::Error => Err(String::from_str("unrecognized instruction")),
    }
}

/// Runs a whole instruction list as a program of its own, which starts
/// unfinished.
fn run_list(
    list: &Vec<LBT>,
    data: &mut Storage,
    inv: &Vec<String>,
    out: &mut String,
    limit: usize,
    depth: usize,
) -> (r: Result<(), String>)
    ensures
        ({
            let res = run_seq(
                models(list@),
                0,
                at_start(old(data)@, old(out)@, false),
                views(inv@),
                limit as nat,
                depth as nat,
            );
            res.0.store == final(data)@ && res.0.out == final(out)@ && (res.1 <==> r is Ok)
        }),
    decreases depth, 2nat, 0nat, 0nat,
{
    let ghost whole = run_seq(
        models(list@),
        0,
        at_start(data@, out@, false),
        views(inv@),
        limit as nat,
        depth as nat,
    );
    let mut fin = false;
    let mut i: usize = 0;
    while i < list.len()
        invariant
            i <= list.len(),
            !fin,
            whole == run_seq(
                models(list@),
                0,
                at_start(old(data)@, old(out)@, false),
                views(inv@),
                limit as nat,
                depth as nat,
            ),
            whole == run_seq(
                models(list@),
                i as int,
                at_start(data@, out@, false),
                views(inv@),
                limit as nat,
                depth as nat,
            ),
        decreases list.len() - i,
    {
        assert(models(list@)[i as int] == list@[i as int]@);
        let r = evaluate(&list[i], data, inv, out, &mut fin, limit, depth);
        if r.is_err() {
            return r;
        }
        if fin {
            return Ok(());
        }
        i = i + 1;
    }
    Ok(())
}

/// A program: its instructions, and how far it has run.
pub struct Program {
    program_list: Vec<LBT>,
    program_counter: usize,
    finished: bool,
    result: Result<(), String>,
    loop_limit: usize,
}

impl Program {
    #[verifier::type_invariant]
    spec fn inv(self) -> bool {
        &&& self.program_counter <= self.program_list.len()
        &&& self.program_counter == self.program_list.len() ==> self.result is Ok
    }

    /// The instructions.
    pub closed spec fn instructions(self) -> Seq<Instr> {
        models(self.program_list@)
    }

    /// Index of the next instruction to run.
    pub closed spec fn counter(self) -> int {
        self.program_counter as int
    }

    /// Whether the program has finished.
    pub closed spec fn done(self) -> bool {
        self.finished
    }

    /// Whether the last instruction run succeeded.
    pub closed spec fn ok(self) -> bool {
        self.result is Ok
    }

    /// The loop limit.
    pub closed spec fn limit(self) -> nat {
        self.loop_limit as nat
    }

    /// A program, not yet run, made of the instructions that `lex` has left.
    /// The loop limit also bounds how deep stored programs may nest.
    pub fn new(lex: Lexer, loop_limit: usize) -> (r: Result<Program, String>)
        ensures
            r matches Ok(p) && p.instructions() == tokens_from(lex.source(), lex.position())
                && p.counter() == 0 && !p.done() && p.ok() && p.limit() == loop_limit,
    {
        let mut lex = lex;
        let plist = lex.collect_all();
        Ok(Program {
            program_list: plist,
            program_counter: 0,
            finished: false,
            result: Ok(()),
            loop_limit,
        })
    }

    /// Whether the program has finished.
    pub fn is_finished(&self) -> (r: bool)
        ensures
            r == self.done(),
    {
        self.finished
    }

    /// Runs the next instruction. Fails, changing nothing, when the program
    /// has finished or no instruction is left; otherwise fails exactly when
    /// the instruction does, and then stays at it.
    pub fn step(&mut self, data: &mut Storage, inv: &Vec<String>, out: &mut String) -> (r: Result<
        (),
        String,
    >)
        ensures
            final(self).instructions() == old(self).instructions(),
            final(self).limit() == old(self).limit(),
            old(self).done() || old(self).counter() >= old(self).instructions().len() ==> r is Err
                && final(data)@ == old(data)@ && final(out)@ == old(out)@ && final(self).done()
                == old(self).done() && final(self).counter() == old(self).counter()
                && final(self).ok() == old(self).ok(),
            !old(self).done() && old(self).counter() < old(self).instructions().len() ==> ({
                let res = eval(
                    old(self).instructions()[old(self).counter()],
                    at_start(old(data)@, old(out)@, false),
                    views(inv@),
                    old(self).limit(),
                    old(self).limit(),
                );
                &&& res.0.store == final(data)@
                &&& res.0.out == final(out)@
                &&& (r is Ok <==> res.1)
                &&& final(self).ok() == res.1
                &&& res.1 ==> final(self).counter() == old(self).counter() + 1 && final(self).done()
                    == (res.0.fin || final(self).counter() == final(self).instructions().len())
                &&& !res.1 ==> final(self).counter() == old(self).counter() && final(self).done()
                    == res.0.fin
            }),
    {
        proof {
            use_type_invariant(&*self);
        }
        if self.finished {
            return Err(String::from_str("program is already finished"));
        }
        if self.program_counter >= self.program_list.len() {
            return Err(String::from_str("no instruction left to run"));
        }
        let i = self.program_counter;
        assert(models(self.program_list@)[i as int] == self.program_list@[i as int]@);
        let mut fin = false;
        let r = evaluate(
            &self.program_list[i],
            data,
            inv,
            out,
            &mut fin,
            self.loop_limit,
            self.loop_limit,
        );
        match r {
            Ok(()) => {
                self.result = Ok(());
                self.program_counter = i + 1;
                self.finished = fin || self.program_counter >= self.program_list.len();
                Ok(())
            },
            Err(msg) => {
                self.result = Err(msg.clone());
                self.finished = fin;
                Err(msg)
            },
        }
    }

    /// Runs the program until it finishes or an instruction fails, and
    /// returns how the last instruction run ended.
    pub fn run(&mut self, data: &mut Storage, inv: &Vec<String>, out: &mut String) -> (r: Result<
        (),
        String,
    >)
        ensures
            final(self).done(),
            old(self).done() ==> final(data)@ == old(data)@ && final(out)@ == old(out)@ && (r is Ok
                <==> old(self).ok()),
            !old(self).done() ==> ({
                let res = run_seq(
                    old(self).instructions(),
                    old(self).counter(),
                    at_start(old(data)@, old(out)@, false),
                    views(inv@),
                    old(self).limit(),
                    old(self).limit(),
                );
                res.0.store == final(data)@ && res.0.out == final(out)@ && (r is Ok <==> res.1)
            }),
    {
        let ghost whole = run_seq(
            self.instructions(),
            self.counter(),
            at_start(data@, out@, false),
            views(inv@),
            self.limit(),
            self.limit(),
        );
        while !self.finished
            invariant
                self.instructions() == old(self).instructions(),
                self.limit() == old(self).limit(),
                old(self).done() ==> self.done() && data@ == old(data)@ && out@ == old(out)@
                    && self.ok() == old(self).ok(),
                !old(self).done() ==> whole == run_seq(
                    old(self).instructions(),
                    old(self).counter(),
                    at_start(old(data)@, old(out)@, false),
                    views(inv@),
                    old(self).limit(),
                    old(self).limit(),
                ),
                !old(self).done() && !self.done() ==> whole == run_seq(
                    self.instructions(),
                    self.counter(),
                    at_start(data@, out@, false),
                    views(inv@),
                    self.limit(),
                    self.limit(),
                ),
                !old(self).done() && self.done() ==> whole.0.store == data@ && whole.0.out == out@
                    && whole.1 && self.ok(),
            decreases self.instructions().len() - self.counter(),
        {
            proof {
                use_type_invariant(&*self);
            }
            let ghost pre_c = self.counter();
            let ghost pre_m = at_start(data@, out@, false);
            let step_result = self.step(data, inv, out);
            if step_result.is_err() {
                proof {
                    use_type_invariant(&*self);
                }
                self.finished = true;
                return self.last_result();
            }
            proof {
                use_type_invariant(&*self);
                let prog = self.instructions();
                let res = eval(prog[pre_c], pre_m, views(inv@), self.limit(), self.limit());
                if !old(self).done() && !res.0.fin {
                    assert(res.0 == at_start(data@, out@, false));
                    if self.counter() == prog.len() {
                        assert(run_seq(prog, self.counter(), res.0, views(inv@), self.limit(), self.limit())
                            == (res.0, true));
                    }
                }
            }
        }
        self.last_result()
    }

    fn last_result(&self) -> (r: Result<(), String>)
        ensures
            r is Ok <==> self.ok(),
    {
        match &self.result {
            Ok(()) => Ok(()),
            Err(msg) => Err(msg.clone()),
        }
    }
}

/// Runs the source text `src` as a program against `data`, reading inputs
/// from `inv` and printing to `out`.
pub fn run_source(
    src: &str,
    data: &mut Storage,
    inv: &Vec<String>,
    out: &mut String,
    loop_limit: usize,
) -> (r: Result<(), String>)
    ensures
        ({
            let res = run_seq(
                tokenize(src@),
                0,
                at_start(old(data)@, old(out)@, false),
                views(inv@),
                loop_limit as nat,
                loop_limit as nat,
            );
            res.0.store == final(data)@ && res.0.out == final(out)@ && (r is Ok <==> res.1)
        }),
{
    match Program::new(LBT::lexer(src), loop_limit) {
        Ok(mut program) => program.run(data, inv, out),
        Err(msg) => Err(msg),
    }
}

} // verus!
