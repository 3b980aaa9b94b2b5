//! Laws that hold of the store, the evaluator and parameter substitution.
use vstd::prelude::*;
use crate::argmap::{lemma_no_quotes, lemma_quote_search, quoted_literals, rewrite, subst_char};
use crate::lexer::{Instr, quote_at_or_after};
use crate::num::{SCALE, whole_count};
use crate::program::{Machine, all_vars, eval, repeat, repeat_while, touch};
use crate::storage::{Slots, Value, empty_slots, is_var_name, lookup, materialize, slot, truthy};

verus! {

/// A variable that was never written reads as zero, and still holds zero
/// once the read has stored it.
pub proof fn lemma_unwritten_reads_zero(m: Slots, c: char)
    requires
        is_var_name(c),
        m.len() == 26,
        m[slot(c)] is None,
    ensures
        lookup(m, c) == Value::Number(0),
        lookup(materialize(m, c), c) == Value::Number(0),
{
}

/// After resetting every variable, every variable reads as zero.
pub proof fn lemma_reset_all_reads_zero(
    m: Machine,
    c: char,
    inp: Seq<Seq<char>>,
    limit: nat,
    depth: nat,
)
    requires
        is_var_name(c),
    ensures
        eval(Instr::ResetAll, m, inp, limit, depth).1,
        lookup(eval(Instr::ResetAll, m, inp, limit, depth).0.store, c) == Value::Number(0),
{
    assert(empty_slots()[slot(c)] is None);
}

/// Every text is true, the empty text included; a number is true exactly
/// when it is not zero.
pub proof fn lemma_truthiness(t: Seq<char>, q: int)
    ensures
        truthy(Value::Text(t)),
        truthy(Value::Text(Seq::empty())),
        truthy(Value::Number(q)) == (q != 0),
        !truthy(Value::Number(0)),
{
}

/// A counted loop runs its body as many times as the floor of its count,
/// and not at all when the count is zero or less.
pub proof fn lemma_loop_count(
    c: char,
    body: Instr,
    q: int,
    m: Machine,
    inp: Seq<Seq<char>>,
    limit: nat,
    depth: nat,
)
    requires
        is_var_name(c),
        lookup(m.store, c) == Value::Number(q),
        whole_count(q) <= limit,
    ensures
        q <= 0 ==> eval(Instr::Loop(c, Box::new(body)), m, inp, limit, depth) == (touch(m, c), true),
        q > 0 ==> eval(Instr::Loop(c, Box::new(body)), m, inp, limit, depth) == repeat(
            body,
            (q / SCALE as int) as nat,
            touch(m, c),
            inp,
            limit,
            depth,
        ),
        3 * SCALE <= q < 4 * SCALE ==> whole_count(q) == 3,
{
    if q <= 0 {
        assert(repeat(body, 0, touch(m, c), inp, limit, depth) == (touch(m, c), true));
    }
    if 3 * SCALE <= q < 4 * SCALE {
        assert(q / SCALE as int == 3);
    }
}

/// A while loop checks its condition before every round, the first one
/// included: when the condition is false its body does not run.
pub proof fn lemma_while_checks_first(
    c: char,
    body: Instr,
    k: nat,
    m: Machine,
    inp: Seq<Seq<char>>,
    limit: nat,
    depth: nat,
)
    requires
        is_var_name(c),
    ensures
        eval(Instr::WhileLoop(c, Box::new(body)), m, inp, limit, depth) == repeat_while(
            c,
            body,
            limit,
            m,
            inp,
            limit,
            depth,
        ),
        !truthy(lookup(m.store, c)) ==> repeat_while(c, body, k, m, inp, limit, depth) == (
            touch(m, c),
            true,
        ),
        truthy(lookup(m.store, c)) && k > 0 ==> repeat_while(c, body, k, m, inp, limit, depth) == ({
            let (m1, ok) = eval(body, touch(m, c), inp, limit, depth);
            if !ok {
                (m1, false)
            } else {
                repeat_while(c, body, (k - 1) as nat, m1, inp, limit, depth)
            }
        }),
{
}

proof fn lemma_subst_keeps_quotes(c: char, m: Seq<char>)
    requires
        all_vars(m),
    ensures
        (subst_char(c, m) == '\'') == (c == '\''),
    decreases m.len(),
{
    if m.len() >= 2 {
        assert(is_var_name(m[0]) && is_var_name(m[1]));
        let rest = m.subrange(2, m.len() as int);
        assert(all_vars(rest)) by {
            assert forall|i: int| 0 <= i < rest.len() implies is_var_name(#[trigger] rest[i]) by {
                assert(rest[i] == m[i + 2]);
            }
        }
        lemma_subst_keeps_quotes(
            if c == m[0] {
                m[1]
            } else {
                c
            },
            rest,
        );
    }
}

proof fn lemma_search_finds(s: Seq<char>, p: int, e: int, j: int)
    requires
        0 <= p <= j < e <= s.len(),
        forall|i: int| p <= i < j ==> s[i] != '\'',
        s[j] == '\'',
    ensures
        quote_at_or_after(s, p, e) == j,
    decreases j - p,
{
    if p < j {
        lemma_search_finds(s, p + 1, e, j);
    }
}

proof fn lemma_rewrite_quote_free(s: Seq<char>, m: Seq<char>)
    requires
        all_vars(m),
        forall|i: int| 0 <= i < s.len() ==> s[i] != '\'',
    ensures
        forall|i: int|
            0 <= i < rewrite(s, m).len() ==> #[trigger] rewrite(s, m)[i] != '\'',
    decreases s.len(),
{
    if s.len() > 0 {
        assert(s[0] != '\'');
        lemma_subst_keeps_quotes(s[0], m);
        let rest = s.drop_first();
        assert(forall|i: int| 0 <= i < rest.len() ==> rest[i] == s[i + 1]);
        lemma_rewrite_quote_free(rest, m);
        let r = rewrite(s, m);
        assert(r == seq![subst_char(s[0], m)] + rewrite(rest, m));
        assert forall|i: int| 0 <= i < r.len() implies #[trigger] r[i] != '\'' by {
            if i > 0 {
                assert(r[i] == rewrite(rest, m)[i - 1]);
            }
        }
    }
}

/// Parameter substitution never changes quoted text: the quoted texts of a
/// stored program are the same, in the same order, after substitution.
pub proof fn lemma_rewrite_keeps_literals(s: Seq<char>, m: Seq<char>)
    requires
        all_vars(m),
    ensures
        quoted_literals(rewrite(s, m)) == quoted_literals(s),
    decreases s.len(),
{
    let n = s.len() as int;
    if n == 0 {
        return;
    }
    let t = rewrite(s, m);
    if s[0] == '\'' {
        let j = quote_at_or_after(s, 1, n);
        lemma_quote_search(s, 1, n);
        if 1 <= j < n {
            let lit = s.subrange(0, j + 1);
            let rest = s.subrange(j + 1, n);
            lemma_rewrite_keeps_literals(rest, m);
            assert(t == lit + rewrite(rest, m));
            assert(t[0] == '\'');
            assert forall|i: int| 1 <= i < j implies t[i] != '\'' by {
                assert(t[i] == s[i]);
            }
            assert(t[j] == s[j]);
            lemma_search_finds(t, 1, t.len() as int, j);
            assert(t.subrange(0, j + 1) =~= lit);
            assert(t.subrange(j + 1, t.len() as int) =~= rewrite(rest, m));
        } else {
            let rest = s.drop_first();
            assert forall|i: int| 0 <= i < rest.len() implies rest[i] != '\'' by {
                assert(rest[i] == s[i + 1]);
            }
            lemma_rewrite_quote_free(rest, m);
            lemma_no_quotes(rest);
            assert(t == seq![s[0]] + rewrite(rest, m));
            let jt = quote_at_or_after(t, 1, t.len() as int);
            lemma_quote_search(t, 1, t.len() as int);
            if jt < t.len() {
                assert(t[jt] == rewrite(rest, m)[jt - 1]);
            }
        }
    } else {
        let rest = s.drop_first();
        lemma_subst_keeps_quotes(s[0], m);
        lemma_rewrite_keeps_literals(rest, m);
        assert(t == seq![subst_char(s[0], m)] + rewrite(rest, m));
        assert(t.drop_first() =~= rewrite(rest, m));
    }
}

} // verus!
