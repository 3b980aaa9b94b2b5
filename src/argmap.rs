//! Parameter substitution for stored programs: every parameter letter is
//! replaced by its argument, except inside quoted text.
use vstd::prelude::*;
use crate::lexer::quote_at_or_after;
use crate::text::{chars_of, push_all, push_char};

verus! {

/// The quoted texts of `s`, quotes included: the leftmost runs from a quote
/// to the next quote, none overlapping, in order.
pub open spec fn quoted_literals(s: Seq<char>) -> Seq<Seq<char>>
    decreases s.len(),
{
    if s.len() == 0 {
        Seq::empty()
    } else if s[0] == '\'' {
        let j = quote_at_or_after(s, 1, s.len() as int);
        if 1 <= j < s.len() {
            seq![s.subrange(0, j + 1)] + quoted_literals(s.subrange(j + 1, s.len() as int))
        } else {
            Seq::empty()
        }
    } else {
        quoted_literals(s.drop_first())
    }
}

/// The character that `c` becomes when each pair `(m[0], m[1])`,
/// `(m[2], m[3])`, ... replaces its first letter by its second, in order.
pub open spec fn subst_char(c: char, m: Seq<char>) -> char
    decreases m.len(),
{
    if m.len() < 2 {
        c
    } else {
        subst_char(
            if c == m[0] {
                m[1]
            } else {
                c
            },
            m.subrange(2, m.len() as int),
        )
    }
}

/// `s` with every character outside its quoted texts substituted by `m`.
pub open spec fn rewrite(s: Seq<char>, m: Seq<char>) -> Seq<char>
    decreases s.len(),
{
    if s.len() == 0 {
        Seq::empty()
    } else if s[0] == '\'' {
        let j = quote_at_or_after(s, 1, s.len() as int);
        if 1 <= j < s.len() {
            s.subrange(0, j + 1) + rewrite(s.subrange(j + 1, s.len() as int), m)
        } else {
            seq![s[0]] + rewrite(s.drop_first(), m)
        }
    } else {
        seq![subst_char(s[0], m)] + rewrite(s.drop_first(), m)
    }
}

/// The views of a sequence of strings.
pub open spec fn views(v: Seq<String>) -> Seq<Seq<char>> {
    v.map_values(|s: String| s@)
}

/// Relies on `regex::Regex::new` and `regex::Regex::find_iter`: for the
/// pattern `'[^']*'`, the matches are the leftmost non-overlapping runs from
/// a quote to the next quote, handed out in order.
#[verifier::external_body]
fn find_matches(pattern: &str, text: &str) -> (r: Vec<String>)
    requires
        pattern@ == "'[^']*'"@,
    ensures
        views(r@) == quoted_literals(text@),
{
    let rx = regex::Regex::new(pattern).unwrap();
    rx.find_iter(text).map(|m| m.as_str().to_string()).collect()
}

pub(crate) proof fn lemma_quote_search(s: Seq<char>, p: int, e: int)
    requires
        0 <= p <= e <= s.len(),
    ensures
        p <= quote_at_or_after(s, p, e) <= e,
        forall|i: int| p <= i < quote_at_or_after(s, p, e) ==> s[i] != '\'',
        quote_at_or_after(s, p, e) < e ==> s[quote_at_or_after(s, p, e)] == '\'',
    decreases e - p,
{
    if p < e {
        lemma_quote_search(s, p + 1, e);
    }
}

pub(crate) proof fn lemma_no_quotes(s: Seq<char>)
    requires
        forall|i: int| 0 <= i < s.len() ==> s[i] != '\'',
    ensures
        quoted_literals(s) == Seq::<Seq<char>>::empty(),
    decreases s.len(),
{
    if s.len() > 0 {
        assert(s[0] != '\'');
        lemma_no_quotes(s.drop_first());
    }
}

fn subst(c: char, m: &Vec<char>) -> (r: char)
    ensures
        r == subst_char(c, m@),
{
    let mut x = c;
    let mut j: usize = 0;
    assert(m@.subrange(0, m.len() as int) =~= m@);
    while m.len() - j > 1
        invariant
            j <= m.len(),
            subst_char(c, m@) == subst_char(x, m@.subrange(j as int, m.len() as int)),
        decreases m.len() - j,
    {
        let ghost rest = m@.subrange(j as int, m.len() as int);
        assert(rest.subrange(2, rest.len() as int) =~= m@.subrange(j + 2, m.len() as int));
        if x == m[j] {
            x = m[j + 1];
        }
        j = j + 2;
    }
    x
}

/// The text of a stored program with each parameter replaced by its
/// argument, outside quoted texts.
pub fn apply_argmap(raw: &String, argmap: &String) -> (r: String)
    ensures
        r@ == rewrite(raw@, argmap@),
{
    let literals = find_matches("'[^']*'", raw.as_str());
    let s = chars_of(raw.as_str());
    let m = chars_of(argmap.as_str());
    let n = s.len();
    let mut out = String::new();
    let mut i: usize = 0;
    let mut k: usize = 0;
    assert(s@.subrange(0, n as int) =~= s@);
    assert(views(literals@).subrange(0, literals.len() as int) =~= views(literals@));
    assert(out@ + rewrite(s@, m@) =~= rewrite(s@, m@));
    while i < n
        invariant
            n == s.len(),
            s@ == raw@,
            m@ == argmap@,
            i <= n,
            k <= literals.len(),
            views(literals@).subrange(k as int, literals.len() as int) == quoted_literals(
                s@.subrange(i as int, n as int),
            ),
            out@ + rewrite(s@.subrange(i as int, n as int), m@) == rewrite(s@, m@),
        decreases n - i,
    {
        let ghost t = s@.subrange(i as int, n as int);
        let ghost lits = views(literals@).subrange(k as int, literals.len() as int);
        if s[i] == '\'' && k < literals.len() {
            let lit = chars_of(literals[k].as_str());
            proof {
                assert(t[0] == s@[i as int]);
                let j = quote_at_or_after(t, 1, t.len() as int);
                assert(t.len() > 0);
                assert(lits.len() > 0);
                if !(1 <= j < t.len()) {
                    assert(quoted_literals(t) =~= Seq::<Seq<char>>::empty());
                    assert(false);
                }
                assert(lits[0] == lit@);
                assert(1 <= j < t.len());
                assert(lit@ == t.subrange(0, j + 1));
                assert(t.subrange(j + 1, t.len() as int) =~= s@.subrange(i + j + 1, n as int));
                assert(lits.subrange(1, lits.len() as int) =~= views(literals@).subrange(
                    k + 1,
                    literals.len() as int,
                ));
            }
            push_all(&mut out, &lit);
            proof {
                assert(out@ + rewrite(s@.subrange(i + lit.len(), n as int), m@) =~= rewrite(
                    s@,
                    m@,
                ));
            }
            i = i + lit.len();
            k = k + 1;
        } else {
            proof {
                assert(t[0] == s@[i as int]);
                assert(t.drop_first() =~= s@.subrange(i + 1, n as int));
                if s@[i as int] == '\'' {
                    let j = quote_at_or_after(t, 1, t.len() as int);
                    lemma_quote_search(t, 1, t.len() as int);
                    if 1 <= j < t.len() {
                        assert(lits.len() > 0);
                    } else {
                        lemma_no_quotes(t.drop_first());
                    }
                }
            }
            let c = if s[i] == '\'' {
                s[i]
            } else {
                subst(s[i], &m)
            };
            push_char(&mut out, c);
            proof {
                assert(out@ + rewrite(s@.subrange(i + 1, n as int), m@) =~= rewrite(s@, m@));
                if s@[i as int] != '\'' {
                    assert(quoted_literals(t) == quoted_literals(t.drop_first()));
                }
            }
            i = i + 1;
        }
    }
    proof {
        assert(s@.subrange(n as int, n as int) =~= Seq::<char>::empty());
        assert(out@ + rewrite(Seq::<char>::empty(), m@) =~= out@);
    }
    out
}

} // verus!
