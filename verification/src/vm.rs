//! The execution engine: owns the operand stack and the variable table and
//! implements every opcode's data behaviour and its failure conditions.

use vstd::prelude::*;

use crate::error::Error;
use crate::error::ErrView;
use crate::parse::parse_i32;
use crate::parse::parse_i32_of;
use crate::stack::stack_new;
use crate::stack::stack_pop;
use crate::stack::stack_seq;
use crate::stack::stack_try_push;
use crate::stack::STACK_CAPACITY;
use crate::text::str_eq;

verus! {

/// What a quoted variable-name token denotes: the token must be at least
/// three characters, the first and last of them single quotes; the name is
/// everything between them.
pub open spec fn unquote_of(s: Seq<char>) -> Option<Seq<char>> {
    if s.len() < 3 || s[0] != '\'' || s.last() != '\'' {
        None
    } else {
        Some(s.subrange(1, s.len() - 1))
    }
}

/// Strips the single quotes from a variable-name token, or rejects it.
pub fn unquote_var(varname: &str) -> (r: Option<&str>)
    ensures
        match r {
            Option::Some(inner) => unquote_of(varname@) == Some(inner@),
            Option::None => unquote_of(varname@) is None,
        },
{
    let n = varname.unicode_len();
    if n < 3 {
        return None;
    }
    if varname.get_char(0) != '\'' || varname.get_char(n - 1) != '\'' {
        return None;
    }
    Some(varname.substring_char(1, n - 1))
}

/// One named variable.
pub(crate) struct Var {
    pub name: String,
    pub val: i32,
}

/// No two entries share a name.
pub(crate) open spec fn names_unique(vs: Seq<Var>) -> bool {
    forall|i: int, j: int| 0 <= i < j < vs.len() ==> vs[i].name@ != vs[j].name@
}

/// The mapping a variable list denotes; later entries would win, though the
/// engine keeps names unique.
pub(crate) open spec fn table_of(vs: Seq<Var>) -> Map<Seq<char>, i32>
    decreases vs.len(),
{
    if vs.len() == 0 {
        Map::empty()
    } else {
        table_of(vs.drop_last()).insert(vs.last().name@, vs.last().val)
    }
}

proof fn lemma_table_push(vs: Seq<Var>, v: Var)
    ensures
        table_of(vs.push(v)) == table_of(vs).insert(v.name@, v.val),
{
    assert(vs.push(v).drop_last() =~= vs);
}

proof fn lemma_table_contains(vs: Seq<Var>, nm: Seq<char>)
    ensures
        table_of(vs).contains_key(nm) <==> exists|i: int|
            0 <= i < vs.len() && vs[i].name@ == nm,
    decreases vs.len(),
{
    if vs.len() > 0 {
        lemma_table_contains(vs.drop_last(), nm);
        if table_of(vs).contains_key(nm) {
            if vs.last().name@ == nm {
                assert(vs[vs.len() - 1].name@ == nm);
            } else {
                let i = choose|i: int| 0 <= i < vs.drop_last().len() && vs.drop_last()[i].name@
                    == nm;
                assert(vs[i].name@ == nm);
            }
        }
        if exists|i: int| 0 <= i < vs.len() && vs[i].name@ == nm {
            let i = choose|i: int| 0 <= i < vs.len() && vs[i].name@ == nm;
            if i < vs.len() - 1 {
                assert(vs.drop_last()[i].name@ == nm);
            }
        }
    }
}

proof fn lemma_table_lookup(vs: Seq<Var>, i: int)
    requires
        names_unique(vs),
        0 <= i < vs.len(),
    ensures
        table_of(vs).contains_key(vs[i].name@),
        table_of(vs)[vs[i].name@] == vs[i].val,
    decreases vs.len(),
{
    if i < vs.len() - 1 {
        assert(names_unique(vs.drop_last()));
        assert(vs.drop_last()[i] == vs[i]);
        lemma_table_lookup(vs.drop_last(), i);
        assert(vs[i].name@ != vs.last().name@);
    }
}

proof fn lemma_table_update(vs: Seq<Var>, i: int, v: Var)
    requires
        names_unique(vs),
        0 <= i < vs.len(),
        v.name@ == vs[i].name@,
    ensures
        table_of(vs.update(i, v)) == table_of(vs).insert(v.name@, v.val),
        names_unique(vs.update(i, v)),
    decreases vs.len(),
{
    let u = vs.update(i, v);
    if i == vs.len() - 1 {
        assert(u.drop_last() =~= vs.drop_last());
        assert(u.last() == v);
        assert(table_of(vs.drop_last()).insert(vs.last().name@, vs.last().val).insert(
            v.name@,
            v.val,
        ) =~= table_of(vs.drop_last()).insert(v.name@, v.val));
    } else {
        assert(names_unique(vs.drop_last()));
        assert(vs.drop_last()[i] == vs[i]);
        lemma_table_update(vs.drop_last(), i, v);
        assert(u.drop_last() =~= vs.drop_last().update(i, v));
        assert(u.last() == vs.last());
        assert(v.name@ != vs.last().name@);
        assert(table_of(vs.drop_last()).insert(v.name@, v.val).insert(
            vs.last().name@,
            vs.last().val,
        ) =~= table_of(vs.drop_last()).insert(vs.last().name@, vs.last().val).insert(
            v.name@,
            v.val,
        ));
    }
}

/// The execution engine: the operand stack and the variable table.
pub(crate) struct VM {
    stack: arrayvec::ArrayVec<i32, 512>,
    local: Vec<Var>,
}

impl VM {
    /// The elements of the operand stack, bottom first.
    pub(crate) closed spec fn stack_m(&self) -> Seq<i32> {
        stack_seq(self.stack)
    }

    /// The mapping from variable name to value.
    pub(crate) closed spec fn table_m(&self) -> Map<Seq<char>, i32> {
        table_of(self.local@)
    }

    /// Well-formedness: variable names are unique and the stack is within
    /// its capacity.
    pub(crate) closed spec fn wf(&self) -> bool {
        names_unique(self.local@) && self.stack_m().len() <= STACK_CAPACITY
    }

    /// A fresh engine: empty stack, empty table.
    pub(crate) fn new() -> (r: VM)
        ensures
            r.wf(),
            r.stack_m() == Seq::<i32>::empty(),
            r.table_m() == Map::<Seq<char>, i32>::empty(),
    {
        VM { stack: stack_new(), local: Vec::new() }
    }

    /// Parses the token as an `i32` and pushes the value.
    pub(crate) fn load_value(&mut self, val: &str) -> (r: Result<(), Error>)
        requires
            old(self).wf(),
        ensures
            final(self).wf(),
            final(self).table_m() == old(self).table_m(),
            ({
                let m = old(self).stack_m();
                match parse_i32_of(val@) {
                    Option::None => r matches Err(e) && e@ == ErrView::Syntax(val@) && final(self).stack_m() == m,
                    Option::Some(v) => if m.len() >= STACK_CAPACITY {
                        r matches Err(e) && e@ == ErrView::StackOverflow && final(self).stack_m()
                            == m
                    } else {
                        r is Ok && final(self).stack_m() == m.push(v)
                    },
                }
            }),
    {
        match parse_i32(val) {
            None => Err(Error::Syntax(val.to_owned())),
            Some(v) => {
                if stack_try_push(&mut self.stack, v) {
                    Ok(())
                } else {
                    Err(Error::StackOverflow)
                }
            },
        }
    }

    /// Pops the top of stack and stores it under the unquoted name,
    /// overwriting an existing value or creating the variable.
    #[verifier::loop_isolation(false)]
    pub(crate) fn write_var(&mut self, varname: &str) -> (r: Result<(), Error>)
        requires
            old(self).wf(),
        ensures
            final(self).wf(),
            ({
                let m = old(self).stack_m();
                match unquote_of(varname@) {
                    Option::None => r matches Err(e) && e@ == ErrView::Syntax(varname@) && final(self).stack_m() == m && final(self).table_m() == old(self).table_m(),
                    Option::Some(nm) => if m.len() == 0 {
                        r matches Err(e) && e@ == ErrView::Internal("Stack is empty"@) && final(self).stack_m() == m && final(self).table_m() == old(self).table_m()
                    } else {
                        r is Ok && final(self).stack_m() == m.drop_last() && final(self).table_m()
                            == old(self).table_m().insert(nm, m.last())
                    },
                }
            }),
    {
        let name = match unquote_var(varname) {
            None => {
                return Err(Error::Syntax(varname.to_owned()));
            },
            Some(n) => n,
        };
        let top = match stack_pop(&mut self.stack) {
            None => {
                return Err(Error::Internal("Stack is empty".to_owned()));
            },
            Some(v) => v,
        };
        let mut k: usize = 0;
        while k < self.local.len()
            invariant
                k <= self.local@.len(),
                self.local == old(self).local,
                self.stack_m() == old(self).stack_m().drop_last(),
                forall|t: int| 0 <= t < k ==> self.local@[t].name@ != name@,
            decreases self.local@.len() - k,
        {
            if str_eq(self.local[k].name.as_str(), name) {
                let entry = Var { name: name.to_owned(), val: top };
                proof {
                    lemma_table_update(self.local@, k as int, entry);
                }
                self.local.set(k, entry);
                return Ok(());
            }
            k += 1;
        }
        let entry = Var { name: name.to_owned(), val: top };
        proof {
            lemma_table_push(self.local@, entry);
        }
        self.local.push(entry);
        Ok(())
    }

    /// Pushes the value of the unquoted name, or reports that the variable
    /// was never written.
    #[verifier::loop_isolation(false)]
    pub(crate) fn read_var(&mut self, varname: &str) -> (r: Result<(), Error>)
        requires
            old(self).wf(),
        ensures
            final(self).wf(),
            final(self).table_m() == old(self).table_m(),
            ({
                let m = old(self).stack_m();
                let tbl = old(self).table_m();
                match unquote_of(varname@) {
                    Option::None => r matches Err(e) && e@ == ErrView::Syntax(varname@) && final(self).stack_m() == m,
                    Option::Some(nm) => if !tbl.contains_key(nm) {
                        r matches Err(e) && e@ == ErrView::UndefinedVar(varname@) && final(self).stack_m() == m
                    } else if m.len() >= STACK_CAPACITY {
                        r matches Err(e) && e@ == ErrView::StackOverflow && final(self).stack_m()
                            == m
                    } else {
                        r is Ok && final(self).stack_m() == m.push(tbl[nm])
                    },
                }
            }),
    {
        let name = match unquote_var(varname) {
            None => {
                return Err(Error::Syntax(varname.to_owned()));
            },
            Some(n) => n,
        };
        let mut k: usize = 0;
        while k < self.local.len()
            invariant
                k <= self.local@.len(),
                self.local == old(self).local,
                self.stack_m() == old(self).stack_m(),
                forall|t: int| 0 <= t < k ==> self.local@[t].name@ != name@,
            decreases self.local@.len() - k,
        {
            if str_eq(self.local[k].name.as_str(), name) {
                proof {
                    lemma_table_lookup(self.local@, k as int);
                }
                let v = self.local[k].val;
                if stack_try_push(&mut self.stack, v) {
                    return Ok(());
                } else {
                    return Err(Error::StackOverflow);
                }
            }
            k += 1;
        }
        proof {
            lemma_table_contains(self.local@, name@);
        }
        Err(Error::UndefinedVar(varname.to_owned()))
    }

    /// Pops `left` then `right` and pushes `left + right`.
    pub(crate) fn add(&mut self) -> (r: Result<(), Error>)
        requires
            old(self).wf(),
        ensures
            final(self).wf(),
            final(self).table_m() == old(self).table_m(),
            ({
                let m = old(self).stack_m();
                if m.len() < 2 {
                    r matches Err(e) && e@ == ErrView::Internal("Stack is empty"@) && final(self).stack_m() == (if m.len() == 0 { m } else { m.drop_last() })
                } else {
                    match m.last().checked_add(m[m.len() - 2]) {
                        Option::None => r matches Err(e) && e@ == ErrView::Internal("Arithmetic fault"@) && final(self).stack_m() == m.drop_last().drop_last(),
                        Option::Some(v) => r is Ok && final(self).stack_m() == m.drop_last().drop_last().push(v),
                    }
                }
            }),
    {
        let (left, right) = match pop2_from_stack(&mut self.stack) {
            Err(e) => {
                return Err(e);
            },
            Ok(p) => p,
        };
        match left.checked_add(right) {
            None => Err(Error::Internal("Arithmetic fault".to_owned())),
            Some(v) => {
                if stack_try_push(&mut self.stack, v) {
                    Ok(())
                } else {
                    Err(Error::StackOverflow)
                }
            },
        }
    }

    /// Pops `left` then `right` and pushes `left - right`.
    pub(crate) fn sub(&mut self) -> (r: Result<(), Error>)
        requires
            old(self).wf(),
        ensures
            final(self).wf(),
            final(self).table_m() == old(self).table_m(),
            ({
                let m = old(self).stack_m();
                if m.len() < 2 {
                    r matches Err(e) && e@ == ErrView::Internal("Stack is empty"@) && final(self).stack_m() == (if m.len() == 0 { m } else { m.drop_last() })
                } else {
                    match m.last().checked_sub(m[m.len() - 2]) {
                        Option::None => r matches Err(e) && e@ == ErrView::Internal("Arithmetic fault"@) && final(self).stack_m() == m.drop_last().drop_last(),
                        Option::Some(v) => r is Ok && final(self).stack_m() == m.drop_last().drop_last().push(v),
                    }
                }
            }),
    {
        let (left, right) = match pop2_from_stack(&mut self.stack) {
            Err(e) => {
                return Err(e);
            },
            Ok(p) => p,
        };
        match left.checked_sub(right) {
            None => Err(Error::Internal("Arithmetic fault".to_owned())),
            Some(v) => {
                if stack_try_push(&mut self.stack, v) {
                    Ok(())
                } else {
                    Err(Error::StackOverflow)
                }
            },
        }
    }

    /// Pops `left` then `right` and pushes `left * right`.
    pub(crate) fn mul(&mut self) -> (r: Result<(), Error>)
        requires
            old(self).wf(),
        ensures
            final(self).wf(),
            final(self).table_m() == old(self).table_m(),
            ({
                let m = old(self).stack_m();
                if m.len() < 2 {
                    r matches Err(e) && e@ == ErrView::Internal("Stack is empty"@) && final(self).stack_m() == (if m.len() == 0 { m } else { m.drop_last() })
                } else {
                    match m.last().checked_mul(m[m.len() - 2]) {
                        Option::None => r matches Err(e) && e@ == ErrView::Internal("Arithmetic fault"@) && final(self).stack_m() == m.drop_last().drop_last(),
                        Option::Some(v) => r is Ok && final(self).stack_m() == m.drop_last().drop_last().push(v),
                    }
                }
            }),
    {
        let (left, right) = match pop2_from_stack(&mut self.stack) {
            Err(e) => {
                return Err(e);
            },
            Ok(p) => p,
        };
        match left.checked_mul(right) {
            None => Err(Error::Internal("Arithmetic fault".to_owned())),
            Some(v) => {
                if stack_try_push(&mut self.stack, v) {
                    Ok(())
                } else {
                    Err(Error::StackOverflow)
                }
            },
        }
    }

    /// Pops `left` then `right` and pushes `left / right`, truncating toward
    /// zero; a zero divisor or an overflowing quotient is an arithmetic
    /// fault.
    pub(crate) fn div(&mut self) -> (r: Result<(), Error>)
        requires
            old(self).wf(),
        ensures
            final(self).wf(),
            final(self).table_m() == old(self).table_m(),
            ({
                let m = old(self).stack_m();
                if m.len() < 2 {
                    r matches Err(e) && e@ == ErrView::Internal("Stack is empty"@) && final(self).stack_m() == (if m.len() == 0 { m } else { m.drop_last() })
                } else {
                    match m.last().checked_div(m[m.len() - 2]) {
                        Option::None => r matches Err(e) && e@ == ErrView::Internal("Arithmetic fault"@) && final(self).stack_m() == m.drop_last().drop_last(),
                        Option::Some(v) => r is Ok && final(self).stack_m() == m.drop_last().drop_last().push(v),
                    }
                }
            }),
    {
        let (left, right) = match pop2_from_stack(&mut self.stack) {
            Err(e) => {
                return Err(e);
            },
            Ok(p) => p,
        };
        match left.checked_div(right) {
            None => Err(Error::Internal("Arithmetic fault".to_owned())),
            Some(v) => {
                if stack_try_push(&mut self.stack, v) {
                    Ok(())
                } else {
                    Err(Error::StackOverflow)
                }
            },
        }
    }

    /// Pops `left` then `right` and reports whether they are equal; pushes
    /// nothing back.
    pub(crate) fn is_eq(&mut self) -> (r: Result<bool, Error>)
        requires
            old(self).wf(),
        ensures
            final(self).wf(),
            final(self).table_m() == old(self).table_m(),
            ({
                let m = old(self).stack_m();
                if m.len() < 2 {
                    r matches Err(e) && e@ == ErrView::Internal("Stack is empty"@) && final(self).stack_m() == (if m.len() == 0 { m } else { m.drop_last() })
                } else {
                    r matches Ok(b) && b == (m.last() == m[m.len() - 2]) && final(self).stack_m() == m.drop_last().drop_last()
                }
            }),
    {
        let (left, right) = match pop2_from_stack(&mut self.stack) {
            Err(e) => {
                return Err(e);
            },
            Ok(p) => p,
        };
        Ok(left == right)
    }

    /// Pops and returns the single result value.
    pub(crate) fn ret(&mut self) -> (r: Result<i32, Error>)
        requires
            old(self).wf(),
        ensures
            final(self).wf(),
            final(self).table_m() == old(self).table_m(),
            ({
                let m = old(self).stack_m();
                if m.len() == 0 {
                    r matches Err(e) && e@ == ErrView::Internal("Stack is empty"@) && final(self).stack_m() == m
                } else {
                    r matches Ok(v) && v == m.last() && final(self).stack_m() == m.drop_last()
                }
            }),
    {
        match stack_pop(&mut self.stack) {
            None => Err(Error::Internal("Stack is empty".to_owned())),
            Some(v) => Ok(v),
        }
    }
}

/// Pops the two topmost values: the first of the pair is the old top of
/// stack, the second the value under it.
fn pop2_from_stack(stack: &mut arrayvec::ArrayVec<i32, 512>) -> (r: Result<(i32, i32), Error>)
    ensures
        ({
            let m = stack_seq(*old(stack));
            if m.len() >= 2 {
                r matches Ok(p) && p.0 == m.last() && p.1 == m[m.len() - 2] && stack_seq(
                    *final(stack),
                ) == m.drop_last().drop_last()
            } else {
                r matches Err(e) && e@ == ErrView::Internal("Stack is empty"@) && stack_seq(
                    *final(stack),
                ) == (if m.len() == 0 {
                    m
                } else {
                    m.drop_last()
                })
            }
        }),
{
    let v1 = match stack_pop(stack) {
        None => {
            return Err(Error::Internal("Stack is empty".to_owned()));
        },
        Some(v) => v,
    };
    let v2 = match stack_pop(stack) {
        None => {
            return Err(Error::Internal("Stack is empty".to_owned()));
        },
        Some(v) => v,
    };
    Ok((v1, v2))
}

} // verus!
