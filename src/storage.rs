//! The variable store: one slot for each lowercase letter.
use vstd::prelude::*;
use crate::num::Num;

verus! {

/// Whether a character names a variable: a lowercase ASCII letter.
pub open spec fn is_var_name(c: char) -> bool {
    'a' <= c && c <= 'z'
}

/// The slot of a variable.
pub open spec fn slot(c: char) -> int {
    c as int - 'a' as int
}

/// Whether `c` names a variable.
pub fn is_var(c: &char) -> (r: bool)
    ensures
        r == is_var_name(*c),
{
    'a' <= *c && *c <= 'z'
}

/// A value a variable can hold.
#[derive(Debug, Clone, PartialEq)]
pub enum Val {
    Text(String),
    Number(Num),
}

/// What a value holds, as plain mathematical data.
pub enum Value {
    Text(Seq<char>),
    Number(int),
}

impl View for Val {
    type V = Value;

    open spec fn view(&self) -> Value {
        match self {
            Val::Text(s) => Value::Text(s@),
            Val::Number(n) => Value::Number(n@),
        }
    }
}

/// Text values are always true; a number is true when it is not zero.
pub open spec fn truthy(v: Value) -> bool {
    match v {
        Value::Text(_) => true,
        Value::Number(q) => q != 0,
    }
}

/// The store as a sequence of slots, one per letter, empty for a variable
/// never written or since reset.
pub type Slots = Seq<Option<Value>>;

/// The value a variable reads as: what its slot holds, or zero.
pub open spec fn lookup(m: Slots, c: char) -> Value {
    match m[slot(c)] {
        Some(v) => v,
        None => Value::Number(0),
    }
}

/// The store after reading `c`: its slot holds what it reads as.
pub open spec fn materialize(m: Slots, c: char) -> Slots {
    m.update(slot(c), Some(lookup(m, c)))
}

/// The store after writing `v` to `c`.
pub open spec fn assign(m: Slots, c: char, v: Value) -> Slots {
    m.update(slot(c), Some(v))
}

/// The store after resetting `c`.
pub open spec fn clear_slot(m: Slots, c: char) -> Slots {
    m.update(slot(c), None)
}

/// A store in which no variable has been written.
pub open spec fn empty_slots() -> Slots {
    Seq::new(26, |i: int| None)
}

impl Val {
    /// Zero, the value of every variable never written.
    pub fn zero() -> (r: Val)
        ensures
            r@ == Value::Number(0),
    {
        Val::Number(Num::zero())
    }

    /// A copy of this value.
    pub fn duplicate(&self) -> (r: Val)
        ensures
            r@ == self@,
    {
        match self {
            Val::Text(s) => Val::Text(s.clone()),
            Val::Number(n) => Val::Number(*n),
        }
    }

    /// Whether the value counts as true.
    pub fn as_bool(&self) -> (r: bool)
        ensures
            r == truthy(self@),
    {
        match self {
            Val::Text(_) => true,
            Val::Number(n) => !n.is_zero(),
        }
    }

    /// Appends how the value is written: a text verbatim, a number in decimal.
    pub fn write_to(&self, out: &mut String)
        ensures
            final(out)@ == old(out)@ + display(self@),
    {
        match self {
            Val::Text(s) => out.append(s.as_str()),
            Val::Number(n) => n.write_to(out),
        }
    }
}

/// How a value is written out.
pub open spec fn display(v: Value) -> Seq<char> {
    match v {
        Value::Text(t) => t,
        Value::Number(q) => crate::num::num_text(q),
    }
}

/// Every store has one slot per letter.
pub proof fn lemma_slots(s: &Storage)
    ensures
        s@.len() == 26,
{
}

/// The variables of a program.
pub struct Storage {
    data: [Option<Val>; 26],
}

impl View for Storage {
    type V = Slots;

    closed spec fn view(&self) -> Slots {
        self.data@.map_values(
            |o: Option<Val>|
                match o {
                    Some(v) => Some(v@),
                    None => None,
                },
        )
    }
}

impl Storage {
    /// A store in which no variable has been written.
    pub fn new() -> (r: Storage)
        ensures
            r@ == empty_slots(),
    {
        let data: [Option<Val>; 26] = [
            None,
            None,
            None,
            None,
            None,
            None,
            None,
            None,
            None,
            None,
            None,
            None,
            None,
            None,
            None,
            None,
            None,
            None,
            None,
            None,
            None,
            None,
            None,
            None,
            None,
            None,
        ];
        let r = Storage { data };
        assert(r@ =~= empty_slots());
        r
    }

    /// Reads a variable; one never written is set to zero by the read.
    /// None when `var_name` is not a variable.
    pub fn get_var(&mut self, var_name: char) -> (r: Option<Val>)
        ensures
            is_var_name(var_name) ==> (r matches Some(v) && v@ == lookup(old(self)@, var_name)),
            is_var_name(var_name) ==> final(self)@ == materialize(old(self)@, var_name),
            !is_var_name(var_name) ==> r is None && final(self)@ == old(self)@,
    {
        if !is_var(&var_name) {
            return None;
        }
        let i = (var_name as u32 - 'a' as u32) as usize;
        let v = match &self.data[i] {
            Some(v) => v.duplicate(),
            None => Val::zero(),
        };
        self.data[i] = Some(v.duplicate());
        assert(self@ =~= materialize(old(self)@, var_name));
        Some(v)
    }

    /// Writes a variable. Fails when `var_name` is not a variable.
    pub fn set_var(&mut self, var_name: char, new_value: &Val) -> (r: Result<(), String>)
        ensures
            is_var_name(var_name) ==> r is Ok && final(self)@ == assign(
                old(self)@,
                var_name,
                new_value@,
            ),
            !is_var_name(var_name) ==> r is Err && final(self)@ == old(self)@,
    {
        if !is_var(&var_name) {
            return Err(crate::text::message("not a variable name: ", var_name));
        }
        let i = (var_name as u32 - 'a' as u32) as usize;
        self.data[i] = Some(new_value.duplicate());
        assert(self@ =~= assign(old(self)@, var_name, new_value@));
        Ok(())
    }

    /// Resets a variable, so that it reads as zero again. A character that
    /// names no variable leaves the store as it is.
    pub fn reset_var(&mut self, var_name: char) -> (r: Result<(), String>)
        ensures
            r is Ok,
            is_var_name(var_name) ==> final(self)@ == clear_slot(old(self)@, var_name),
            !is_var_name(var_name) ==> final(self)@ == old(self)@,
    {
        if is_var(&var_name) {
            let i = (var_name as u32 - 'a' as u32) as usize;
            self.data[i] = None;
            assert(self@ =~= clear_slot(old(self)@, var_name));
        }
        Ok(())
    }

    /// Resets every variable.
    pub fn reset_all(&mut self) -> (r: Result<(), String>)
        ensures
            r is Ok,
            final(self)@ == empty_slots(),
    {
        *self = Storage::new();
        Ok(())
    }

    /// Copies the value of `from_var` into `to_var`, reading `from_var` first.
    pub fn copy(&mut self, from_var: char, to_var: char) -> (r: Result<(), String>)
        ensures
            r is Ok <==> is_var_name(from_var) && is_var_name(to_var),
            !is_var_name(from_var) ==> final(self)@ == old(self)@,
            is_var_name(from_var) && !is_var_name(to_var) ==> final(self)@ == materialize(
                old(self)@,
                from_var,
            ),
            is_var_name(from_var) && is_var_name(to_var) ==> final(self)@ == assign(
                materialize(old(self)@, from_var),
                to_var,
                lookup(old(self)@, from_var),
            ),
    {
        match self.get_var(from_var) {
            Some(v) => self.set_var(to_var, &v),
            None => Err(crate::text::message("not a variable name: ", from_var)),
        }
    }

    /// Reads a variable as a truth value; none when `var_name` is not a variable.
    pub fn var_as_bool(&mut self, var_name: char) -> (r: Option<bool>)
        ensures
            is_var_name(var_name) ==> r == Some(truthy(lookup(old(self)@, var_name)))
                && final(self)@ == materialize(old(self)@, var_name),
            !is_var_name(var_name) ==> r is None && final(self)@ == old(self)@,
    {
        match self.get_var(var_name) {
            Some(v) => Some(v.as_bool()),
            None => None,
        }
    }
}

} // verus!
