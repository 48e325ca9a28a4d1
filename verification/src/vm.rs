//! The WATSON stack machine.
//!
//! [`step`] is the mathematical semantics of one instruction: it either
//! transforms the stack of value models or names the error.  [`VM::execute`]
//! implements exactly that semantics and attaches the failing token's
//! location to every error.

use crate::bits::{bits_of_i64, lemma_cast_i64_to_u8, lemma_cast_i64_to_u64, low_byte, wrap_i64};
use crate::error::{Error, ErrorKind};
use crate::language::{Insn, Token};
use crate::value::{
    bytes_eq, elem_views, entry_views, lemma_elem_views, lemma_entry_views, lemma_elem_views_push,
    lemma_entry_views_push, lemma_obj_insert_unique, obj_insert, value_wf, Bytes, Value, ValueView,
    INFINITY_BITS, NAN_BITS, SIGN_BIT,
};
use vstd::prelude::*;

verus! {

/// How many operands an instruction pops.
pub open spec fn arity(i: Insn) -> int {
    match i {
        Insn::Inew => 0,
        Insn::Iinc => 1,
        Insn::Ishl => 1,
        Insn::Iadd => 2,
        Insn::Ineg => 1,
        Insn::Isht => 2,
        Insn::Itof => 1,
        Insn::Itou => 1,
        Insn::Finf => 0,
        Insn::Fnan => 0,
        Insn::Fneg => 1,
        Insn::Snew => 0,
        Insn::Sadd => 2,
        Insn::Onew => 0,
        Insn::Oadd => 3,
        Insn::Anew => 0,
        Insn::Aadd => 2,
        Insn::Bnew => 0,
        Insn::Bneg => 1,
        Insn::Nnew => 0,
        Insn::Gdup => 1,
        Insn::Gpop => 1,
        Insn::Gswp => 2,
    }
}

/// `x` doubled `k` times with 64-bit wraparound: the effect of `k`
/// consecutive `Ishl` instructions, i.e. a left shift by `k` bits.
pub open spec fn iter_shl(x: i64, k: nat) -> i64
    decreases k,
{
    if k == 0 {
        x
    } else {
        wrap_i64(2 * iter_shl(x, (k - 1) as nat))
    }
}

/// The shift amount that `Isht` takes from its first operand: the low six
/// bits, as Rust's shift of a 64-bit value masks them.
pub open spec fn shift_amount(y: i64) -> nat {
    (y & 63) as nat
}

/// The semantics of one instruction on a stack of value models (top of the
/// stack is the end of the sequence): the new stack, or the kind of error.
///
/// Operands are popped from the top and type-checked in pop order, so a
/// missing operand is reported as `EmptyStack` before any variant is
/// looked at, and a wrong variant in the first popped operand is reported
/// before one in the second.
pub open spec fn step(s: Seq<ValueView>, i: Insn) -> Result<Seq<ValueView>, ErrorKind> {
    match i {
        Insn::Inew => Ok(s.push(ValueView::Int(0))),
        Insn::Iinc => match pop1(s) {
            Ok((s1, v)) => match v {
                ValueView::Int(x) => Ok(s1.push(ValueView::Int(wrap_i64(x + 1)))),
                _ => Err(ErrorKind::TypeMismatch),
            },
            Err(e) => Err(e),
        },
        Insn::Ishl => match pop1(s) {
            Ok((s1, v)) => match v {
                ValueView::Int(x) => Ok(s1.push(ValueView::Int(wrap_i64(2 * x)))),
                _ => Err(ErrorKind::TypeMismatch),
            },
            Err(e) => Err(e),
        },
        Insn::Iadd => match pop2(s) {
            Ok((s1, y, x)) => match (y, x) {
                (ValueView::Int(y), ValueView::Int(x)) => Ok(
                    s1.push(ValueView::Int(wrap_i64(x + y))),
                ),
                _ => Err(ErrorKind::TypeMismatch),
            },
            Err(e) => Err(e),
        },
        Insn::Ineg => match pop1(s) {
            Ok((s1, v)) => match v {
                ValueView::Int(x) => Ok(s1.push(ValueView::Int(wrap_i64(-x)))),
                _ => Err(ErrorKind::TypeMismatch),
            },
            Err(e) => Err(e),
        },
        Insn::Isht => match pop2(s) {
            Ok((s1, y, x)) => match (y, x) {
                (ValueView::Int(y), ValueView::Int(x)) => Ok(
                    s1.push(ValueView::Int(iter_shl(x, shift_amount(y)))),
                ),
                _ => Err(ErrorKind::TypeMismatch),
            },
            Err(e) => Err(e),
        },
        Insn::Itof => match pop1(s) {
            Ok((s1, v)) => match v {
                ValueView::Int(x) => Ok(s1.push(ValueView::Float(bits_of_i64(x)))),
                _ => Err(ErrorKind::TypeMismatch),
            },
            Err(e) => Err(e),
        },
        Insn::Itou => match pop1(s) {
            Ok((s1, v)) => match v {
                ValueView::Int(x) => Ok(s1.push(ValueView::Uint(bits_of_i64(x)))),
                _ => Err(ErrorKind::TypeMismatch),
            },
            Err(e) => Err(e),
        },
        Insn::Finf => Ok(s.push(ValueView::Float(INFINITY_BITS))),
        Insn::Fnan => Ok(s.push(ValueView::Float(NAN_BITS))),
        Insn::Fneg => match pop1(s) {
            Ok((s1, v)) => match v {
                ValueView::Float(b) => Ok(s1.push(ValueView::Float(b ^ SIGN_BIT))),
                _ => Err(ErrorKind::TypeMismatch),
            },
            Err(e) => Err(e),
        },
        Insn::Snew => Ok(s.push(ValueView::String(Seq::empty()))),
        Insn::Sadd => match pop2(s) {
            Ok((s1, y, x)) => match (y, x) {
                (ValueView::Int(x), ValueView::String(t)) => Ok(
                    s1.push(ValueView::String(t.push(low_byte(x)))),
                ),
                _ => Err(ErrorKind::TypeMismatch),
            },
            Err(e) => Err(e),
        },
        Insn::Onew => Ok(s.push(ValueView::Object(Seq::empty()))),
        Insn::Oadd => match pop3(s) {
            Ok((s1, v, k, o)) => match (k, o) {
                (ValueView::String(k), ValueView::Object(entries)) => Ok(
                    s1.push(ValueView::Object(obj_insert(entries, k, v))),
                ),
                _ => Err(ErrorKind::TypeMismatch),
            },
            Err(e) => Err(e),
        },
        Insn::Anew => Ok(s.push(ValueView::Array(Seq::empty()))),
        Insn::Aadd => match pop2(s) {
            Ok((s1, v, a)) => match a {
                ValueView::Array(a) => Ok(s1.push(ValueView::Array(a.push(v)))),
                _ => Err(ErrorKind::TypeMismatch),
            },
            Err(e) => Err(e),
        },
        Insn::Bnew => Ok(s.push(ValueView::Bool(false))),
        Insn::Bneg => match pop1(s) {
            Ok((s1, v)) => match v {
                ValueView::Bool(b) => Ok(s1.push(ValueView::Bool(!b))),
                _ => Err(ErrorKind::TypeMismatch),
            },
            Err(e) => Err(e),
        },
        Insn::Nnew => Ok(s.push(ValueView::Nil)),
        Insn::Gdup => match pop1(s) {
            Ok((s1, v)) => Ok(s1.push(v).push(v)),
            Err(e) => Err(e),
        },
        Insn::Gpop => match pop1(s) {
            Ok((s1, v)) => Ok(s1),
            Err(e) => Err(e),
        },
        Insn::Gswp => match pop2(s) {
            Ok((s1, v1, v2)) => Ok(s1.push(v1).push(v2)),
            Err(e) => Err(e),
        },
    }
}

/// Pops one value: the rest of the stack and the former top.
pub open spec fn pop1(s: Seq<ValueView>) -> Result<(Seq<ValueView>, ValueView), ErrorKind> {
    if s.len() < 1 {
        Err(ErrorKind::EmptyStack)
    } else {
        Ok((s.drop_last(), s.last()))
    }
}

/// Pops two values, in pop order: first the top, then the one below it.
pub open spec fn pop2(s: Seq<ValueView>) -> Result<
    (Seq<ValueView>, ValueView, ValueView),
    ErrorKind,
> {
    if s.len() < 2 {
        Err(ErrorKind::EmptyStack)
    } else {
        Ok((s.drop_last().drop_last(), s.last(), s.drop_last().last()))
    }
}

/// Pops three values, in pop order.
pub open spec fn pop3(s: Seq<ValueView>) -> Result<
    (Seq<ValueView>, ValueView, ValueView, ValueView),
    ErrorKind,
> {
    if s.len() < 3 {
        Err(ErrorKind::EmptyStack)
    } else {
        Ok(
            (
                s.drop_last().drop_last().drop_last(),
                s.last(),
                s.drop_last().last(),
                s.drop_last().drop_last().last(),
            ),
        )
    }
}

/// The stack a failing instruction leaves behind: the operands it managed
/// to pop are gone.  When the stack is too short everything is popped; on a
/// type mismatch all `arity(i)` operands were popped before the check.
pub open spec fn stack_after_error(s: Seq<ValueView>, i: Insn) -> Seq<ValueView> {
    if s.len() < arity(i) {
        Seq::empty()
    } else {
        s.take(s.len() - arity(i))
    }
}


/// Every value on the stack is well formed: the keys of every object in it
/// are unique.
pub open spec fn stack_wf(s: Seq<ValueView>) -> bool {
    forall|i: int| 0 <= i < s.len() ==> value_wf(#[trigger] s[i])
}

/// Executing an instruction keeps every stack value well formed: the only
/// instruction that reaches inside a value, `Oadd`, inserts with
/// overwrite, so an object's keys stay unique.
pub proof fn lemma_step_preserves_wf(s: Seq<ValueView>, i: Insn)
    requires
        stack_wf(s),
        step(s, i) is Ok,
    ensures
        stack_wf(step(s, i)->Ok_0),
{
    let r = step(s, i)->Ok_0;
    assert forall|j: int| 0 <= j < r.len() implies value_wf(r[j]) by {
        if i == Insn::Oadd {
            let v = s[s.len() - 1];
            match (s[s.len() - 2], s[s.len() - 3]) {
                (ValueView::String(kb), ValueView::Object(entries)) => {
                    assert(value_wf(s[s.len() - 3]));
                    assert(value_wf(v));
                    lemma_obj_insert_unique(entries, kb, v);
                    let grown = obj_insert(entries, kb, v);
                    assert forall|t: int| 0 <= t < grown.len() implies value_wf(
                        #[trigger] grown[t].1,
                    ) by {
                        if grown[t].1 != v {
                            let u = choose|u: int|
                                0 <= u < entries.len() && entries[u].1 == grown[t].1;
                            assert(value_wf(entries[u].1));
                        }
                    }
                    assert(value_wf(ValueView::Object(grown)));
                },
                _ => {},
            }
        } else if i == Insn::Aadd {
            let v = s[s.len() - 1];
            match s[s.len() - 2] {
                ValueView::Array(elems) => {
                    assert(value_wf(s[s.len() - 2]));
                    assert(value_wf(v));
                    let grown = elems.push(v);
                    assert forall|t: int| 0 <= t < grown.len() implies value_wf(
                        #[trigger] grown[t],
                    ) by {
                        if t < elems.len() {
                            assert(grown[t] == elems[t]);
                        }
                    }
                    assert(value_wf(ValueView::Array(grown)));
                },
                _ => {},
            }
        } else if i == Insn::Sadd {
            match (s[s.len() - 1], s[s.len() - 2]) {
                (ValueView::Int(x), ValueView::String(bs)) => {
                    assert(value_wf(ValueView::String(bs.push(crate::bits::low_byte(x)))));
                },
                _ => {},
            }
        }
    }
}

/// A stack of the WATSON VM.  Its model is the sequence of value models,
/// top last.
pub struct Stack {
    vec: Vec<Value>,
}

impl View for Stack {
    type V = Seq<ValueView>;

    closed spec fn view(&self) -> Seq<ValueView> {
        elem_views(self.vec@)
    }
}

impl Stack {
    /// An empty stack.
    pub fn new() -> (r: Stack)
        ensures
            r@ == Seq::<ValueView>::empty(),
    {
        Stack { vec: Vec::new() }
    }

    /// Pushes a value onto the stack.
    pub fn push(&mut self, v: Value)
        ensures
            final(self)@ == old(self)@.push(v@),
    {
        proof {
            lemma_elem_views_push(self.vec@, v);
        }
        self.vec.push(v);
    }

    /// Pops the top value, or `None` from an empty stack.
    pub fn pop(&mut self) -> (r: Option<Value>)
        ensures
            match r {
                Option::Some(v) => old(self)@.len() > 0 && v@ == old(self)@.last() && final(self)@
                    == old(self)@.drop_last(),
                Option::None => old(self)@.len() == 0 && final(self)@ == old(self)@,
            },
    {
        proof {
            lemma_elem_views(self.vec@);
            if self.vec@.len() > 0 {
                assert(elem_views(self.vec@) == elem_views(self.vec@.drop_last()).push(
                    self.vec@.last()@,
                ));
            }
        }
        self.vec.pop()
    }

    /// Returns the value on the top of the stack without consuming it.
    pub fn peek_top(&self) -> (r: Option<&Value>)
        ensures
            match r {
                Option::Some(v) => self@.len() > 0 && v@ == self@.last(),
                Option::None => self@.len() == 0,
            },
    {
        proof {
            lemma_elem_views(self.vec@);
        }
        let len = self.vec.len();
        if len == 0 {
            None
        } else {
            Some(&self.vec[len - 1])
        }
    }

    /// The number of values on the stack.
    pub fn len(&self) -> (r: usize)
        ensures
            r == self@.len(),
    {
        proof {
            lemma_elem_views(self.vec@);
        }
        self.vec.len()
    }
}

/// A WATSON virtual machine: a stack and nothing else.  Its model is the
/// stack's model.
pub struct VM {
    /// The value stack the machine works on.
    pub stack: Stack,
}

impl View for VM {
    type V = Seq<ValueView>;

    open spec fn view(&self) -> Seq<ValueView> {
        self.stack@
    }
}

impl VM {
    /// A VM with an empty stack.
    pub fn new() -> (r: VM)
        ensures
            r@ == Seq::<ValueView>::empty(),
    {
        VM { stack: Stack::new() }
    }

    /// Returns the value on the top of the stack without consuming it.
    pub fn peek_top(&self) -> (r: Option<&Value>)
        ensures
            match r {
                Option::Some(v) => self@.len() > 0 && v@ == self@.last(),
                Option::None => self@.len() == 0,
            },
    {
        self.stack.peek_top()
    }

    /// Removes and returns the value on the top of the stack.
    pub fn into_top(self) -> (r: Option<Value>)
        ensures
            match r {
                Option::Some(v) => self@.len() > 0 && v@ == self@.last(),
                Option::None => self@.len() == 0,
            },
    {
        let mut vm = self;
        vm.stack.pop()
    }

    /// Executes a single instruction: implements [`step`] on the stack and
    /// reports errors at the token's location.  On failure the operands
    /// popped before the failure was found are gone, as
    /// [`stack_after_error`] states.
    pub fn execute(&mut self, t: Token) -> (r: Result<(), Error>)
        ensures
            match r {
                Ok(()) => step(old(self)@, t.insn) == Ok::<_, ErrorKind>(final(self)@),
                Err(e) => {
                    &&& step(old(self)@, t.insn) == Err::<Seq<ValueView>, _>(e.kind)
                    &&& e.location == t.location
                    &&& final(self)@ == stack_after_error(old(self)@, t.insn)
                },
            },
    {
        let loc = t.location;
        match t.insn {
            Insn::Inew => {
                self.stack.push(Value::Int(0));
                Ok(())
            },
            Insn::Iinc => {
                let v = match self.stack.pop() {
                    Option::Some(v) => v,
                    Option::None => {
                        return Err(Error { kind: ErrorKind::EmptyStack, location: loc });
                    },
                };
                match v {
                    Value::Int(x) => {
                        self.stack.push(Value::Int(x.wrapping_add(1)));
                        Ok(())
                    },
                    _ => Err(Error { kind: ErrorKind::TypeMismatch, location: loc }),
                }
            },
            Insn::Ishl => {
                let v = match self.stack.pop() {
                    Option::Some(v) => v,
                    Option::None => {
                        return Err(Error { kind: ErrorKind::EmptyStack, location: loc });
                    },
                };
                match v {
                    Value::Int(x) => {
                        self.stack.push(Value::Int(x.wrapping_add(x)));
                        Ok(())
                    },
                    _ => Err(Error { kind: ErrorKind::TypeMismatch, location: loc }),
                }
            },
            Insn::Iadd => {
                let v1 = match self.stack.pop() {
                    Option::Some(v) => v,
                    Option::None => {
                        return Err(Error { kind: ErrorKind::EmptyStack, location: loc });
                    },
                };
                let v2 = match self.stack.pop() {
                    Option::Some(v) => v,
                    Option::None => {
                        return Err(Error { kind: ErrorKind::EmptyStack, location: loc });
                    },
                };
                match (v1, v2) {
                    (Value::Int(y), Value::Int(x)) => {
                        self.stack.push(Value::Int(x.wrapping_add(y)));
                        Ok(())
                    },
                    _ => Err(Error { kind: ErrorKind::TypeMismatch, location: loc }),
                }
            },
            Insn::Ineg => {
                let v = match self.stack.pop() {
                    Option::Some(v) => v,
                    Option::None => {
                        return Err(Error { kind: ErrorKind::EmptyStack, location: loc });
                    },
                };
                match v {
                    Value::Int(x) => {
                        self.stack.push(Value::Int((0 as i64).wrapping_sub(x)));
                        Ok(())
                    },
                    _ => Err(Error { kind: ErrorKind::TypeMismatch, location: loc }),
                }
            },
            Insn::Isht => {
                let v1 = match self.stack.pop() {
                    Option::Some(v) => v,
                    Option::None => {
                        return Err(Error { kind: ErrorKind::EmptyStack, location: loc });
                    },
                };
                let v2 = match self.stack.pop() {
                    Option::Some(v) => v,
                    Option::None => {
                        return Err(Error { kind: ErrorKind::EmptyStack, location: loc });
                    },
                };
                match (v1, v2) {
                    (Value::Int(y), Value::Int(x)) => {
                        self.stack.push(Value::Int(shl_by(x, y)));
                        Ok(())
                    },
                    _ => Err(Error { kind: ErrorKind::TypeMismatch, location: loc }),
                }
            },
            Insn::Itof => {
                let v = match self.stack.pop() {
                    Option::Some(v) => v,
                    Option::None => {
                        return Err(Error { kind: ErrorKind::EmptyStack, location: loc });
                    },
                };
                match v {
                    Value::Int(x) => {
                        proof {
                            lemma_cast_i64_to_u64(x);
                        }
                        self.stack.push(Value::Float(#[verifier::truncate] (x as u64)));
                        Ok(())
                    },
                    _ => Err(Error { kind: ErrorKind::TypeMismatch, location: loc }),
                }
            },
            Insn::Itou => {
                let v = match self.stack.pop() {
                    Option::Some(v) => v,
                    Option::None => {
                        return Err(Error { kind: ErrorKind::EmptyStack, location: loc });
                    },
                };
                match v {
                    Value::Int(x) => {
                        proof {
                            lemma_cast_i64_to_u64(x);
                        }
                        self.stack.push(Value::Uint(#[verifier::truncate] (x as u64)));
                        Ok(())
                    },
                    _ => Err(Error { kind: ErrorKind::TypeMismatch, location: loc }),
                }
            },
            Insn::Finf => {
                self.stack.push(Value::Float(0x7ff0_0000_0000_0000));
                Ok(())
            },
            Insn::Fnan => {
                self.stack.push(Value::Float(0x7ff8_0000_0000_0000));
                Ok(())
            },
            Insn::Fneg => {
                let v = match self.stack.pop() {
                    Option::Some(v) => v,
                    Option::None => {
                        return Err(Error { kind: ErrorKind::EmptyStack, location: loc });
                    },
                };
                match v {
                    Value::Float(b) => {
                        self.stack.push(Value::Float(b ^ 0x8000_0000_0000_0000));
                        Ok(())
                    },
                    _ => Err(Error { kind: ErrorKind::TypeMismatch, location: loc }),
                }
            },
            Insn::Snew => {
                self.stack.push(Value::String(Vec::new()));
                Ok(())
            },
            Insn::Sadd => {
                let v1 = match self.stack.pop() {
                    Option::Some(v) => v,
                    Option::None => {
                        return Err(Error { kind: ErrorKind::EmptyStack, location: loc });
                    },
                };
                let v2 = match self.stack.pop() {
                    Option::Some(v) => v,
                    Option::None => {
                        return Err(Error { kind: ErrorKind::EmptyStack, location: loc });
                    },
                };
                match (v1, v2) {
                    (Value::Int(x), Value::String(mut t)) => {
                        proof {
                            lemma_cast_i64_to_u8(x);
                        }
                        t.push(#[verifier::truncate] (x as u8));
                        self.stack.push(Value::String(t));
                        Ok(())
                    },
                    _ => Err(Error { kind: ErrorKind::TypeMismatch, location: loc }),
                }
            },
            Insn::Onew => {
                self.stack.push(Value::Object(Vec::new()));
                Ok(())
            },
            Insn::Oadd => {
                let v1 = match self.stack.pop() {
                    Option::Some(v) => v,
                    Option::None => {
                        return Err(Error { kind: ErrorKind::EmptyStack, location: loc });
                    },
                };
                let v2 = match self.stack.pop() {
                    Option::Some(v) => v,
                    Option::None => {
                        return Err(Error { kind: ErrorKind::EmptyStack, location: loc });
                    },
                };
                let v3 = match self.stack.pop() {
                    Option::Some(v) => v,
                    Option::None => {
                        return Err(Error { kind: ErrorKind::EmptyStack, location: loc });
                    },
                };
                match (v2, v3) {
                    (Value::String(k), Value::Object(entries)) => {
                        let entries = insert_entry(entries, k, v1);
                        self.stack.push(Value::Object(entries));
                        Ok(())
                    },
                    _ => Err(Error { kind: ErrorKind::TypeMismatch, location: loc }),
                }
            },
            Insn::Anew => {
                self.stack.push(Value::Array(Vec::new()));
                Ok(())
            },
            Insn::Aadd => {
                let v1 = match self.stack.pop() {
                    Option::Some(v) => v,
                    Option::None => {
                        return Err(Error { kind: ErrorKind::EmptyStack, location: loc });
                    },
                };
                let v2 = match self.stack.pop() {
                    Option::Some(v) => v,
                    Option::None => {
                        return Err(Error { kind: ErrorKind::EmptyStack, location: loc });
                    },
                };
                match v2 {
                    Value::Array(mut a) => {
                        proof {
                            lemma_elem_views_push(a@, v1);
                        }
                        a.push(v1);
                        self.stack.push(Value::Array(a));
                        Ok(())
                    },
                    _ => Err(Error { kind: ErrorKind::TypeMismatch, location: loc }),
                }
            },
            Insn::Bnew => {
                self.stack.push(Value::Bool(false));
                Ok(())
            },
            Insn::Bneg => {
                let v = match self.stack.pop() {
                    Option::Some(v) => v,
                    Option::None => {
                        return Err(Error { kind: ErrorKind::EmptyStack, location: loc });
                    },
                };
                match v {
                    Value::Bool(b) => {
                        self.stack.push(Value::Bool(!b));
                        Ok(())
                    },
                    _ => Err(Error { kind: ErrorKind::TypeMismatch, location: loc }),
                }
            },
            Insn::Nnew => {
                self.stack.push(Value::Nil);
                Ok(())
            },
            Insn::Gdup => {
                let v = match self.stack.pop() {
                    Option::Some(v) => v,
                    Option::None => {
                        return Err(Error { kind: ErrorKind::EmptyStack, location: loc });
                    },
                };
                let v2 = v.clone();
                self.stack.push(v);
                self.stack.push(v2);
                Ok(())
            },
            Insn::Gpop => {
                match self.stack.pop() {
                    Option::Some(_) => Ok(()),
                    Option::None => Err(Error { kind: ErrorKind::EmptyStack, location: loc }),
                }
            },
            Insn::Gswp => {
                let v1 = match self.stack.pop() {
                    Option::Some(v) => v,
                    Option::None => {
                        return Err(Error { kind: ErrorKind::EmptyStack, location: loc });
                    },
                };
                let v2 = match self.stack.pop() {
                    Option::Some(v) => v,
                    Option::None => {
                        return Err(Error { kind: ErrorKind::EmptyStack, location: loc });
                    },
                };
                self.stack.push(v1);
                self.stack.push(v2);
                Ok(())
            },
        }
    }
}

/// Left-shifts `x` by the low six bits of `y` with wraparound, by repeated
/// doubling.
fn shl_by(x: i64, y: i64) -> (r: i64)
    ensures
        r == iter_shl(x, shift_amount(y)),
{
    let sh = y & 63;
    proof {
        assert(0 <= y & 63 < 64) by (bit_vector);
    }
    let mut acc = x;
    let mut k: i64 = 0;
    while k < sh
        invariant
            0 <= k <= sh,
            sh == y & 63,
            0 <= sh < 64,
            acc == iter_shl(x, k as nat),
        decreases sh - k,
    {
        acc = acc.wrapping_add(acc);
        k = k + 1;
    }
    acc
}

/// Inserts `k -> v` into an entry list as `Oadd` demands: overwrites the
/// first entry with that key in place, else appends a new entry.
fn insert_entry(entries: Vec<(Bytes, Value)>, k: Bytes, v: Value) -> (r: Vec<(Bytes, Value)>)
    ensures
        entry_views(r@) == obj_insert(entry_views(entries@), k@, v@),
{
    let mut entries = entries;
    let n = entries.len();
    let mut i: usize = 0;
    let mut found: bool = false;
    while i < n && !found
        invariant
            n == entries@.len(),
            0 <= i <= n,
            found ==> i < n && entries@[i as int].0@ == k@,
            forall|j: int| 0 <= j < i ==> entries@[j].0@ != k@,
        decreases n - i + (if found { 0int } else { 1int }),
    {
        if bytes_eq(&entries[i].0, &k) {
            found = true;
        } else {
            i = i + 1;
        }
    }
    proof {
        lemma_entry_views(entries@);
        let s = entry_views(entries@);
        lemma_obj_insert_at(s, k@, v@, if found { i as int } else { s.len() as int });
    }
    if found {
        let ghost old_entries = entries@;
        entries.set(i, (k, v));
        proof {
            lemma_entry_views(entries@);
            assert(entry_views(entries@) =~= entry_views(old_entries).update(i as int, (k@, v@)));
        }
        entries
    } else {
        proof {
            lemma_entry_views_push(entries@, k, v);
        }
        entries.push((k, v));
        entries
    }
}

/// Where the first key match sits determines what [`obj_insert`] returns:
/// an in-place update there, or an appended entry when there is no match.
proof fn lemma_obj_insert_at(s: Seq<(Seq<u8>, ValueView)>, k: Seq<u8>, v: ValueView, idx: int)
    requires
        0 <= idx <= s.len(),
        forall|j: int| 0 <= j < idx ==> s[j].0 != k,
        idx < s.len() ==> s[idx].0 == k,
    ensures
        idx < s.len() ==> obj_insert(s, k, v) == s.update(idx, (k, v)),
        idx == s.len() ==> obj_insert(s, k, v) == s.push((k, v)),
    decreases s.len(),
{
    if s.len() == 0 {
        assert(obj_insert(s, k, v) =~= s.push((k, v)));
    } else if s[0].0 == k {
        assert(idx == 0);
        assert(obj_insert(s, k, v) =~= s.update(0, (k, v)));
    } else {
        assert(idx > 0);
        lemma_obj_insert_at(s.skip(1), k, v, idx - 1);
        if idx < s.len() {
            assert(obj_insert(s, k, v) =~= s.update(idx, (k, v)));
        } else {
            assert(obj_insert(s, k, v) =~= s.push((k, v)));
        }
    }
}

} // verus!
