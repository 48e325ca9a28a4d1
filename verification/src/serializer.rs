//! The WATSON serializer: values to instruction streams.
//!
//! [`insns_of`] is the instruction stream of a value, the exact inverse of
//! VM execution.  The [`Serializer`] produces that stream one instruction
//! per [`Serializer::next_insn`] call, driven by an explicit stack of
//! resume points rather than native recursion, so arbitrarily deep values
//! cannot overflow the call stack and the generator can be paused after any
//! instruction.
//!
//! An integer is emitted by scanning the bits of its 64-bit pattern upward:
//! `Inew` starts the accumulator at zero, and for each set bit the literal
//! one is pushed (`Inew`, `Iinc`), shifted into position (`Ishl` repeated)
//! and merged (`Iadd`); runs of zero bits cost nothing.

use crate::bits::{bits_of_i64, lemma_cast_i64_to_u64};
use crate::language::Insn;
use crate::value::{
    elem_views, entry_views, float_is_infinite, float_is_nan, float_is_negative, lemma_elem_views,
    lemma_entry_views, Bytes, Value, ValueView,
};
use vstd::arithmetic::power2::{
    lemma2_to64, lemma2_to64_rest, lemma_pow2_pos, lemma_pow2_unfold, pow2,
};
use vstd::prelude::*;

verus! {

/// `k` repetitions of `Ishl`.
pub open spec fn ishl_seq(k: nat) -> Seq<Insn>
    decreases k,
{
    if k == 0 {
        Seq::empty()
    } else {
        seq![Insn::Ishl] + ishl_seq((k - 1) as nat)
    }
}

/// The instructions that add the remaining magnitude `m`, whose lowest bit
/// sits at position `shift`, into the integer accumulator on the stack.
pub open spec fn int_tail_insns(m: u64, shift: nat) -> Seq<Insn>
    decreases m,
{
    if m == 0 {
        Seq::empty()
    } else {
        let rest = int_tail_insns(m / 2, shift + 1);
        if m % 2 == 1 {
            seq![Insn::Inew, Insn::Iinc] + ishl_seq(shift) + seq![Insn::Iadd] + rest
        } else {
            rest
        }
    }
}

/// The instructions that build the integer whose 64-bit pattern is `m`.
pub open spec fn int_insns(m: u64) -> Seq<Insn> {
    seq![Insn::Inew] + int_tail_insns(m, 0)
}

/// The instructions that append one byte to the string accumulator.
pub open spec fn byte_insns(b: u8) -> Seq<Insn> {
    int_insns(b as u64) + seq![Insn::Sadd]
}

/// The instructions that append each byte of `s` in order.
pub open spec fn str_tail_insns(s: Seq<u8>) -> Seq<Insn>
    decreases s.len(),
{
    if s.len() == 0 {
        Seq::empty()
    } else {
        byte_insns(s[0]) + str_tail_insns(s.skip(1))
    }
}

/// The instructions that build the float with bit pattern `b`: every NaN
/// is one `Fnan`, infinities are `Finf` with `Fneg` for the negative one,
/// and any finite pattern is built as an integer and reinterpreted.
pub open spec fn float_insns(b: u64) -> Seq<Insn> {
    if float_is_nan(b) {
        seq![Insn::Fnan]
    } else if float_is_infinite(b) {
        if float_is_negative(b) {
            seq![Insn::Finf, Insn::Fneg]
        } else {
            seq![Insn::Finf]
        }
    } else {
        int_insns(b) + seq![Insn::Itof]
    }
}

/// The instruction stream of a value: replaying it through the VM pushes
/// the value (with NaNs canonicalized) onto the stack.
pub open spec fn insns_of(v: ValueView) -> Seq<Insn>
    decreases v,
{
    match v {
        ValueView::Int(n) => int_insns(bits_of_i64(n)),
        ValueView::Uint(u) => int_insns(u) + seq![Insn::Itou],
        ValueView::Float(b) => float_insns(b),
        ValueView::String(s) => seq![Insn::Snew] + str_tail_insns(s),
        ValueView::Object(e) => seq![Insn::Onew] + obj_tail_insns(e),
        ValueView::Array(a) => seq![Insn::Anew] + arr_tail_insns(a),
        ValueView::Bool(b) => if b {
            seq![Insn::Bnew, Insn::Bneg]
        } else {
            seq![Insn::Bnew]
        },
        ValueView::Nil => seq![Insn::Nnew],
    }
}

/// The instructions that insert each entry of `e` in order: key as a
/// string, then the value, then `Oadd`.
pub open spec fn obj_tail_insns(e: Seq<(Seq<u8>, ValueView)>) -> Seq<Insn>
    decreases e,
{
    if e.len() == 0 {
        Seq::empty()
    } else {
        seq![Insn::Snew] + str_tail_insns(e[0].0) + insns_of(e[0].1) + seq![Insn::Oadd]
            + obj_tail_insns(e.skip(1))
    }
}

/// The instructions that append each element of `a` in order.
pub open spec fn arr_tail_insns(a: Seq<ValueView>) -> Seq<Insn>
    decreases a,
{
    if a.len() == 0 {
        Seq::empty()
    } else {
        insns_of(a[0]) + seq![Insn::Aadd] + arr_tail_insns(a.skip(1))
    }
}

/// [`str_tail_insns`] of a byte list held in reverse, consumed from the
/// end: the form the generator's task stack stores.
pub open spec fn str_rev_insns(r: Seq<u8>) -> Seq<Insn>
    decreases r.len(),
{
    if r.len() == 0 {
        Seq::empty()
    } else {
        byte_insns(r.last()) + str_rev_insns(r.drop_last())
    }
}

/// [`obj_tail_insns`] of an entry list held in reverse.
pub open spec fn obj_rev_insns(r: Seq<(Seq<u8>, ValueView)>) -> Seq<Insn>
    decreases r.len(),
{
    if r.len() == 0 {
        Seq::empty()
    } else {
        seq![Insn::Snew] + str_tail_insns(r.last().0) + insns_of(r.last().1) + seq![Insn::Oadd]
            + obj_rev_insns(r.drop_last())
    }
}

/// [`arr_tail_insns`] of an element list held in reverse.
pub open spec fn arr_rev_insns(r: Seq<ValueView>) -> Seq<Insn>
    decreases r.len(),
{
    if r.len() == 0 {
        Seq::empty()
    } else {
        insns_of(r.last()) + seq![Insn::Aadd] + arr_rev_insns(r.drop_last())
    }
}

/// Reversing a byte list turns the reversed form back into the ordered one.
pub proof fn lemma_str_rev(s: Seq<u8>)
    ensures
        str_rev_insns(s.reverse()) == str_tail_insns(s),
    decreases s.len(),
{
    if s.len() == 0 {
        assert(s.reverse().len() == 0);
    } else {
        lemma_str_rev(s.skip(1));
        assert(s.reverse().last() == s[0]);
        assert(s.reverse().drop_last() =~= s.skip(1).reverse());
    }
}

/// Reversing an entry list turns the reversed form back into the ordered
/// one.
pub proof fn lemma_obj_rev(e: Seq<(Seq<u8>, ValueView)>)
    ensures
        obj_rev_insns(e.reverse()) == obj_tail_insns(e),
    decreases e.len(),
{
    if e.len() == 0 {
        assert(e.reverse().len() == 0);
    } else {
        lemma_obj_rev(e.skip(1));
        assert(e.reverse().last() == e[0]);
        assert(e.reverse().drop_last() =~= e.skip(1).reverse());
    }
}

/// Reversing an element list turns the reversed form back into the ordered
/// one.
pub proof fn lemma_arr_rev(a: Seq<ValueView>)
    ensures
        arr_rev_insns(a.reverse()) == arr_tail_insns(a),
    decreases a.len(),
{
    if a.len() == 0 {
        assert(a.reverse().len() == 0);
    } else {
        lemma_arr_rev(a.skip(1));
        assert(a.reverse().last() == a[0]);
        assert(a.reverse().drop_last() =~= a.skip(1).reverse());
    }
}

/// One saved resume point of the generator: either a single instruction
/// ready to emit, or a partially emitted compound value.  The list-carrying
/// tasks hold their remainders in reverse so that the next part can be
/// popped off the end.
#[allow(inconsistent_fields)]
enum Task {
    /// Emit this instruction.
    Emit(Insn),
    /// Emit a whole value.
    Val(Value),
    /// Emit the remaining bit scan of an integer: magnitude `m`, lowest
    /// bit at position `shift`.
    IntBits { m: u64, shift: u8 },
    /// Emit `k` more `Ishl` instructions.
    Shls { k: u8 },
    /// Emit the remaining bytes of a string, reversed.
    Str { rev: Vec<u8> },
    /// Emit the remaining entries of an object, reversed.
    Obj { rev: Vec<(Bytes, Value)> },
    /// Emit the remaining elements of an array, reversed.
    Arr { rev: Vec<Value> },
}

/// The instructions a task still stands for.
spec fn task_insns(t: Task) -> Seq<Insn> {
    match t {
        Task::Emit(i) => seq![i],
        Task::Val(v) => insns_of(v@),
        Task::IntBits { m, shift } => int_tail_insns(m, shift as nat),
        Task::Shls { k } => ishl_seq(k as nat),
        Task::Str { rev } => str_rev_insns(rev@),
        Task::Obj { rev } => obj_rev_insns(entry_views(rev@)),
        Task::Arr { rev } => arr_rev_insns(elem_views(rev@)),
    }
}

/// The instructions a whole task stack still stands for: the top of the
/// stack (the end of the vector) comes first.
spec fn tasks_insns(ts: Seq<Task>) -> Seq<Insn>
    decreases ts.len(),
{
    if ts.len() == 0 {
        Seq::empty()
    } else {
        task_insns(ts.last()) + tasks_insns(ts.drop_last())
    }
}

/// A bit-scan task never runs past bit 63: its magnitude fits below the
/// bits that are left.
spec fn task_wf(t: Task) -> bool {
    match t {
        Task::IntBits { m, shift } => shift <= 64 && (m as nat) < pow2((64 - shift) as nat),
        _ => true,
    }
}

/// All tasks on the stack are well formed.
spec fn tasks_wf(ts: Seq<Task>) -> bool {
    forall|i: int| 0 <= i < ts.len() ==> task_wf(#[trigger] ts[i])
}

/// An upper bound on the cost of emitting one byte of a string, used by
/// the measures.
spec fn byte_cost() -> nat {
    25600
}

/// How much work a value still is, counted so that every generator step
/// strictly decreases the total.
spec fn vmeasure(v: ValueView) -> nat
    decreases v,
{
    match v {
        ValueView::Int(n) => 100 * (bits_of_i64(n) as nat) + 3,
        ValueView::Uint(u) => 100 * (u as nat) + 4,
        ValueView::Float(b) => 100 * (b as nat) + 4,
        ValueView::String(s) => byte_cost() * s.len() + 3,
        ValueView::Object(e) => obj_weight(e) + 3,
        ValueView::Array(a) => arr_weight(a) + 3,
        ValueView::Bool(b) => 3,
        ValueView::Nil => 2,
    }
}

/// The work in an object's entries.
spec fn obj_weight(e: Seq<(Seq<u8>, ValueView)>) -> nat
    decreases e,
{
    if e.len() == 0 {
        0
    } else {
        obj_weight(e.drop_last()) + byte_cost() * e.last().0.len() + vmeasure(e.last().1) + 5
    }
}

/// The work in an array's elements.
spec fn arr_weight(a: Seq<ValueView>) -> nat
    decreases a,
{
    if a.len() == 0 {
        0
    } else {
        arr_weight(a.drop_last()) + vmeasure(a.last()) + 3
    }
}

/// The object weight of a concatenation is the sum of the weights.
proof fn lemma_obj_weight_add(x: Seq<(Seq<u8>, ValueView)>, y: Seq<(Seq<u8>, ValueView)>)
    ensures
        obj_weight(x + y) == obj_weight(x) + obj_weight(y),
    decreases y.len(),
{
    if y.len() == 0 {
        assert(x + y =~= x);
    } else {
        lemma_obj_weight_add(x, y.drop_last());
        assert((x + y).drop_last() =~= x + y.drop_last());
        assert((x + y).last() == y.last());
    }
}

/// Splitting the first entry off the back-recursive object weight.
proof fn lemma_obj_weight_first(e: Seq<(Seq<u8>, ValueView)>)
    requires
        e.len() > 0,
    ensures
        obj_weight(e) == byte_cost() * e[0].0.len() + vmeasure(e[0].1) + 5 + obj_weight(e.skip(1)),
{
    lemma_obj_weight_add(seq![e[0]], e.skip(1));
    assert(seq![e[0]] + e.skip(1) =~= e);
    assert(seq![e[0]].drop_last().len() == 0);
    assert(obj_weight(seq![e[0]].drop_last()) == 0);
    assert(obj_weight(seq![e[0]]) == byte_cost() * e[0].0.len() + vmeasure(e[0].1) + 5);
}

/// An object's weight does not depend on the order of its entries'
/// sequence.
proof fn lemma_obj_weight_rev(e: Seq<(Seq<u8>, ValueView)>)
    ensures
        obj_weight(e.reverse()) == obj_weight(e),
    decreases e.len(),
{
    if e.len() > 0 {
        lemma_obj_weight_rev(e.skip(1));
        assert(e.reverse().last() == e[0]);
        assert(e.reverse().drop_last() =~= e.skip(1).reverse());
        lemma_obj_weight_first(e);
    }
}

/// The array weight of a concatenation is the sum of the weights.
proof fn lemma_arr_weight_add(x: Seq<ValueView>, y: Seq<ValueView>)
    ensures
        arr_weight(x + y) == arr_weight(x) + arr_weight(y),
    decreases y.len(),
{
    if y.len() == 0 {
        assert(x + y =~= x);
    } else {
        lemma_arr_weight_add(x, y.drop_last());
        assert((x + y).drop_last() =~= x + y.drop_last());
        assert((x + y).last() == y.last());
    }
}

/// Splitting the first element off the back-recursive array weight.
proof fn lemma_arr_weight_first(a: Seq<ValueView>)
    requires
        a.len() > 0,
    ensures
        arr_weight(a) == vmeasure(a[0]) + 3 + arr_weight(a.skip(1)),
{
    lemma_arr_weight_add(seq![a[0]], a.skip(1));
    assert(seq![a[0]] + a.skip(1) =~= a);
    assert(seq![a[0]].drop_last().len() == 0);
    assert(arr_weight(seq![a[0]].drop_last()) == 0);
    assert(arr_weight(seq![a[0]]) == vmeasure(a[0]) + 3);
}

/// An array's weight does not depend on the order of its elements'
/// sequence.
proof fn lemma_arr_weight_rev(a: Seq<ValueView>)
    ensures
        arr_weight(a.reverse()) == arr_weight(a),
    decreases a.len(),
{
    if a.len() > 0 {
        lemma_arr_weight_rev(a.skip(1));
        assert(a.reverse().last() == a[0]);
        assert(a.reverse().drop_last() =~= a.skip(1).reverse());
        lemma_arr_weight_first(a);
    }
}

/// How much work a task still is.
spec fn task_measure(t: Task) -> nat {
    match t {
        Task::Emit(i) => 1,
        Task::Val(v) => vmeasure(v@),
        Task::IntBits { m, shift } => 100 * (m as nat) + 1,
        Task::Shls { k } => k as nat + 2,
        Task::Str { rev } => byte_cost() * rev@.len() + 1,
        Task::Obj { rev } => obj_weight(entry_views(rev@)) + 1,
        Task::Arr { rev } => arr_weight(elem_views(rev@)) + 1,
    }
}

/// How much work a whole task stack still is.
spec fn tasks_measure(ts: Seq<Task>) -> nat
    decreases ts.len(),
{
    if ts.len() == 0 {
        0
    } else {
        tasks_measure(ts.drop_last()) + task_measure(ts.last())
    }
}

/// Pushes one task, keeping the stack's remaining instructions, measure
/// and well-formedness in step.
fn push_task(tasks: &mut Vec<Task>, t: Task)
    requires
        tasks_wf(old(tasks)@),
        task_wf(t),
    ensures
        tasks_insns(final(tasks)@) == task_insns(t) + tasks_insns(old(tasks)@),
        tasks_measure(final(tasks)@) == tasks_measure(old(tasks)@) + task_measure(t),
        tasks_wf(final(tasks)@),
{
    proof {
        let ts = tasks@;
        assert(ts.push(t).drop_last() =~= ts);
        assert forall|i: int| 0 <= i < ts.push(t).len() implies task_wf(#[trigger] ts.push(t)[i]) by {
            if i < ts.len() {
                assert(ts.push(t)[i] == ts[i]);
            }
        }
    }
    tasks.push(t);
}

/// Reverses a vector.
fn reverse_vec<T>(v: Vec<T>) -> (r: Vec<T>)
    ensures
        r@ == v@.reverse(),
{
    let ghost orig = v@;
    let mut src = v;
    let mut r: Vec<T> = Vec::new();
    proof {
        assert(orig.take(orig.len() as int) =~= orig);
    }
    #[verifier::loop_isolation(false)]
    loop
        invariant
            src@ == orig.take(src@.len() as int),
            r@.len() + src@.len() == orig.len(),
            forall|i: int| 0 <= i < r@.len() ==> r@[i] == orig[orig.len() - 1 - i],
        decreases src@.len(),
    {
        match src.pop() {
            Option::Some(x) => {
                proof {
                    assert(orig.take(src@.len() as int + 1).last() == orig[src@.len() as int]);
                    assert(orig.take(src@.len() as int + 1).drop_last() =~= orig.take(
                        src@.len() as int,
                    ));
                }
                r.push(x);
            },
            Option::None => {
                proof {
                    assert(r@ =~= orig.reverse());
                }
                return r;
            },
        }
    }
}

/// Converts a `Value` into the sequence of instructions [`insns_of`]
/// prescribes, one instruction per [`Serializer::next_insn`] call.
pub struct Serializer {
    tasks: Vec<Task>,
}

impl View for Serializer {
    type V = Seq<Insn>;

    /// The instructions not yet handed out.
    closed spec fn view(&self) -> Seq<Insn> {
        tasks_insns(self.tasks@)
    }
}

impl Serializer {
    /// The generator's internal bookkeeping is intact.  [`Serializer::new`]
    /// establishes this and every call keeps it.
    pub closed spec fn wf(self) -> bool {
        tasks_wf(self.tasks@)
    }

    /// Returns a generator whose remaining output is exactly the
    /// instruction stream of `v`.
    pub fn new(v: Value) -> (r: Serializer)
        ensures
            r.wf(),
            r@ == insns_of(v@),
    {
        let mut tasks: Vec<Task> = Vec::new();
        proof {
            assert(tasks_wf(tasks@));
        }
        push_task(&mut tasks, Task::Val(v));
        proof {
            assert(task_insns(Task::Val(v)) + tasks_insns(Seq::<Task>::empty()) =~= insns_of(v@));
        }
        Serializer { tasks }
    }

    /// Returns the next instruction of the stream, or `None` once the
    /// value is exhausted.
    pub fn next_insn(&mut self) -> (r: Option<Insn>)
        requires
            old(self).wf(),
        ensures
            final(self).wf(),
            match r {
                Option::Some(i) => old(self)@.len() > 0 && i == old(self)@[0] && final(self)@
                    == old(self)@.skip(1),
                Option::None => old(self)@.len() == 0 && final(self)@.len() == 0,
            },
    {
        #[verifier::loop_isolation(false)]
        loop
            invariant
                tasks_wf(self.tasks@),
                tasks_insns(self.tasks@) == old(self)@,
            decreases tasks_measure(self.tasks@),
        {
            let ghost ts0 = self.tasks@;
            proof {
                if ts0.len() > 0 {
                    assert(task_wf(ts0[ts0.len() - 1]));
                    assert forall|i: int| 0 <= i < ts0.drop_last().len() implies task_wf(
                        #[trigger] ts0.drop_last()[i],
                    ) by {
                        assert(ts0.drop_last()[i] == ts0[i]);
                    }
                }
            }
            let task = match self.tasks.pop() {
                Option::Some(task) => task,
                Option::None => {
                    return None;
                },
            };
            match task {
                Task::Emit(i) => {
                    proof {
                        assert(old(self)@ == seq![i] + tasks_insns(self.tasks@));
                        assert(old(self)@.skip(1) =~= tasks_insns(self.tasks@));
                    }
                    return Some(i);
                },
                Task::Val(v) => {
                    self.expand_value(v);
                },
                Task::IntBits { m, shift } => {
                    self.step_int_bits(m, shift);
                },
                Task::Shls { k } => {
                    if k == 0 {
                    } else {
                        push_task(&mut self.tasks, Task::Shls { k: k - 1 });
                        proof {
                            assert(old(self)@ == seq![Insn::Ishl] + tasks_insns(self.tasks@));
                            assert(old(self)@.skip(1) =~= tasks_insns(self.tasks@));
                        }
                        return Some(Insn::Ishl);
                    }
                },
                Task::Str { rev } => {
                    self.step_str(rev);
                },
                Task::Obj { rev } => {
                    self.step_obj(rev);
                },
                Task::Arr { rev } => {
                    self.step_arr(rev);
                },
            }
        }
    }

    /// Advances a bit-scan task by one bit; emits nothing by itself.
    fn step_int_bits(&mut self, m: u64, shift: u8)
        requires
            tasks_wf(old(self).tasks@),
            task_wf(Task::IntBits { m, shift }),
        ensures
            tasks_wf(final(self).tasks@),
            tasks_insns(final(self).tasks@) == int_tail_insns(m, shift as nat) + tasks_insns(
                old(self).tasks@,
            ),
            tasks_measure(final(self).tasks@) < 100 * (m as nat) + 1 + tasks_measure(
                old(self).tasks@,
            ),
    {
        let ghost ts0 = self.tasks@;
        if m == 0 {
            proof {
                assert(int_tail_insns(0, shift as nat) + tasks_insns(ts0) =~= tasks_insns(ts0));
            }
        } else {
            proof {
                lemma2_to64();
                if shift >= 64 {
                    assert((64 - shift) as nat == 0);
                    assert(pow2(0) == 1);
                }
                assert(shift < 64);
                lemma_pow2_unfold((64 - shift) as nat);
                assert(((m / 2) as nat) < pow2((64 - (shift + 1)) as nat));
            }
            if m % 2 == 1 {
                push_task(&mut self.tasks, Task::IntBits { m: m / 2, shift: shift + 1 });
                push_task(&mut self.tasks, Task::Emit(Insn::Iadd));
                push_task(&mut self.tasks, Task::Shls { k: shift });
                push_task(&mut self.tasks, Task::Emit(Insn::Iinc));
                push_task(&mut self.tasks, Task::Emit(Insn::Inew));
                proof {
                    assert(tasks_insns(self.tasks@) =~= int_tail_insns(m, shift as nat)
                        + tasks_insns(ts0));
                }
            } else {
                push_task(&mut self.tasks, Task::IntBits { m: m / 2, shift: shift + 1 });
            }
        }
    }

    /// Advances a string task by one byte; emits nothing by itself.
    fn step_str(&mut self, rev: Vec<u8>)
        requires
            tasks_wf(old(self).tasks@),
        ensures
            tasks_wf(final(self).tasks@),
            tasks_insns(final(self).tasks@) == str_rev_insns(rev@) + tasks_insns(
                old(self).tasks@,
            ),
            tasks_measure(final(self).tasks@) < byte_cost() * rev@.len() + 1 + tasks_measure(
                old(self).tasks@,
            ),
    {
        let ghost ts0 = self.tasks@;
        let ghost rev0 = rev@;
        let mut remaining = rev;
        match remaining.pop() {
            Option::Some(b) => {
                push_task(&mut self.tasks, Task::Str { rev: remaining });
                push_task(&mut self.tasks, Task::Emit(Insn::Sadd));
                proof {
                    lemma2_to64();
                    lemma2_to64_rest();
                }
                push_task(&mut self.tasks, Task::IntBits { m: b as u64, shift: 0 });
                push_task(&mut self.tasks, Task::Emit(Insn::Inew));
                proof {
                    assert(rev0.last() == b && rev0.drop_last() =~= remaining@);
                    assert(tasks_insns(self.tasks@) =~= str_rev_insns(rev0) + tasks_insns(ts0));
                }
            },
            Option::None => {
                proof {
                    assert(str_rev_insns(rev0) + tasks_insns(ts0) =~= tasks_insns(ts0));
                }
            },
        }
    }

    /// Advances an object task by one entry; emits nothing by itself.
    fn step_obj(&mut self, rev: Vec<(Bytes, Value)>)
        requires
            tasks_wf(old(self).tasks@),
        ensures
            tasks_wf(final(self).tasks@),
            tasks_insns(final(self).tasks@) == obj_rev_insns(entry_views(rev@)) + tasks_insns(
                old(self).tasks@,
            ),
            tasks_measure(final(self).tasks@) < obj_weight(entry_views(rev@)) + 1 + tasks_measure(
                old(self).tasks@,
            ),
    {
        let ghost ts0 = self.tasks@;
        let ghost rev0 = rev@;
        let mut remaining = rev;
        match remaining.pop() {
            Option::Some((k, v)) => {
                proof {
                    lemma_entry_views(rev0);
                    lemma_entry_views(remaining@);
                    assert(entry_views(remaining@) =~= entry_views(rev0).drop_last());
                    assert(entry_views(rev0).last() == (k@, v@));
                }
                push_task(&mut self.tasks, Task::Obj { rev: remaining });
                push_task(&mut self.tasks, Task::Emit(Insn::Oadd));
                push_task(&mut self.tasks, Task::Val(v));
                let ghost kv = k@;
                let krev = reverse_vec(k);
                proof {
                    lemma_str_rev(kv);
                }
                push_task(&mut self.tasks, Task::Str { rev: krev });
                push_task(&mut self.tasks, Task::Emit(Insn::Snew));
                proof {
                    assert(tasks_insns(self.tasks@) =~= obj_rev_insns(entry_views(rev0))
                        + tasks_insns(ts0));
                }
            },
            Option::None => {
                proof {
                    lemma_entry_views(rev0);
                    assert(obj_rev_insns(entry_views(rev0)) + tasks_insns(ts0) =~= tasks_insns(
                        ts0,
                    ));
                }
            },
        }
    }

    /// Advances an array task by one element; emits nothing by itself.
    fn step_arr(&mut self, rev: Vec<Value>)
        requires
            tasks_wf(old(self).tasks@),
        ensures
            tasks_wf(final(self).tasks@),
            tasks_insns(final(self).tasks@) == arr_rev_insns(elem_views(rev@)) + tasks_insns(
                old(self).tasks@,
            ),
            tasks_measure(final(self).tasks@) < arr_weight(elem_views(rev@)) + 1 + tasks_measure(
                old(self).tasks@,
            ),
    {
        let ghost ts0 = self.tasks@;
        let ghost rev0 = rev@;
        let mut remaining = rev;
        match remaining.pop() {
            Option::Some(v) => {
                proof {
                    lemma_elem_views(rev0);
                    lemma_elem_views(remaining@);
                    assert(elem_views(remaining@) =~= elem_views(rev0).drop_last());
                    assert(elem_views(rev0).last() == v@);
                }
                push_task(&mut self.tasks, Task::Arr { rev: remaining });
                push_task(&mut self.tasks, Task::Emit(Insn::Aadd));
                push_task(&mut self.tasks, Task::Val(v));
                proof {
                    assert(tasks_insns(self.tasks@) =~= arr_rev_insns(elem_views(rev0))
                        + tasks_insns(ts0));
                }
            },
            Option::None => {
                proof {
                    lemma_elem_views(rev0);
                    assert(arr_rev_insns(elem_views(rev0)) + tasks_insns(ts0) =~= tasks_insns(
                        ts0,
                    ));
                }
            },
        }
    }

    /// Expands a value task into its parts; emits nothing by itself.
    fn expand_value(&mut self, v: Value)
        requires
            tasks_wf(old(self).tasks@),
        ensures
            tasks_wf(final(self).tasks@),
            tasks_insns(final(self).tasks@) == insns_of(v@) + tasks_insns(old(self).tasks@),
            tasks_measure(final(self).tasks@) < vmeasure(v@) + tasks_measure(old(self).tasks@),
    {
        let ghost ts0 = self.tasks@;
        proof {
            lemma2_to64();
            lemma2_to64_rest();
        }
        match v {
            Value::Int(n) => {
                proof {
                    lemma_cast_i64_to_u64(n);
                }
                push_task(
                    &mut self.tasks,
                    Task::IntBits { m: #[verifier::truncate] (n as u64), shift: 0 },
                );
                push_task(&mut self.tasks, Task::Emit(Insn::Inew));
                proof {
                    assert(tasks_insns(self.tasks@) =~= insns_of(v@) + tasks_insns(ts0));
                }
            },
            Value::Uint(u) => {
                push_task(&mut self.tasks, Task::Emit(Insn::Itou));
                push_task(&mut self.tasks, Task::IntBits { m: u, shift: 0 });
                push_task(&mut self.tasks, Task::Emit(Insn::Inew));
                proof {
                    assert(tasks_insns(self.tasks@) =~= insns_of(v@) + tasks_insns(ts0));
                }
            },
            Value::Float(b) => {
                let exponent = (b >> 52) & 0x7ff;
                let fraction = b & 0xf_ffff_ffff_ffff;
                if exponent == 0x7ff && fraction != 0 {
                    push_task(&mut self.tasks, Task::Emit(Insn::Fnan));
                    proof {
                        assert(tasks_insns(self.tasks@) =~= insns_of(v@) + tasks_insns(ts0));
                    }
                } else if exponent == 0x7ff {
                    if (b >> 63) == 1 {
                        push_task(&mut self.tasks, Task::Emit(Insn::Fneg));
                        push_task(&mut self.tasks, Task::Emit(Insn::Finf));
                    } else {
                        push_task(&mut self.tasks, Task::Emit(Insn::Finf));
                    }
                    proof {
                        assert(tasks_insns(self.tasks@) =~= insns_of(v@) + tasks_insns(ts0));
                    }
                } else {
                    push_task(&mut self.tasks, Task::Emit(Insn::Itof));
                    push_task(&mut self.tasks, Task::IntBits { m: b, shift: 0 });
                    push_task(&mut self.tasks, Task::Emit(Insn::Inew));
                    proof {
                        assert(tasks_insns(self.tasks@) =~= insns_of(v@) + tasks_insns(ts0));
                    }
                }
            },
            Value::String(s) => {
                let ghost sv = s@;
                let rev = reverse_vec(s);
                proof {
                    lemma_str_rev(sv);
                }
                push_task(&mut self.tasks, Task::Str { rev });
                push_task(&mut self.tasks, Task::Emit(Insn::Snew));
                proof {
                    assert(tasks_insns(self.tasks@) =~= insns_of(v@) + tasks_insns(ts0));
                }
            },
            Value::Object(e) => {
                let ghost evs = entry_views(e@);
                let ghost ev0 = e@;
                let rev = reverse_vec(e);
                proof {
                    lemma_entry_views(ev0);
                    lemma_entry_views(rev@);
                    assert(entry_views(rev@) =~= evs.reverse());
                    lemma_obj_rev(evs);
                    lemma_obj_weight_rev(evs);
                }
                push_task(&mut self.tasks, Task::Obj { rev });
                push_task(&mut self.tasks, Task::Emit(Insn::Onew));
                proof {
                    assert(tasks_insns(self.tasks@) =~= insns_of(v@) + tasks_insns(ts0));
                }
            },
            Value::Array(a) => {
                let ghost avs = elem_views(a@);
                let ghost av0 = a@;
                let rev = reverse_vec(a);
                proof {
                    lemma_elem_views(av0);
                    lemma_elem_views(rev@);
                    assert(elem_views(rev@) =~= avs.reverse());
                    lemma_arr_rev(avs);
                    lemma_arr_weight_rev(avs);
                }
                push_task(&mut self.tasks, Task::Arr { rev });
                push_task(&mut self.tasks, Task::Emit(Insn::Anew));
                proof {
                    assert(tasks_insns(self.tasks@) =~= insns_of(v@) + tasks_insns(ts0));
                }
            },
            Value::Bool(b) => {
                if b {
                    push_task(&mut self.tasks, Task::Emit(Insn::Bneg));
                }
                push_task(&mut self.tasks, Task::Emit(Insn::Bnew));
                proof {
                    assert(tasks_insns(self.tasks@) =~= insns_of(v@) + tasks_insns(ts0));
                }
            },
            Value::Nil => {
                push_task(&mut self.tasks, Task::Emit(Insn::Nnew));
                proof {
                    assert(tasks_insns(self.tasks@) =~= insns_of(v@) + tasks_insns(ts0));
                }
            },
        }
    }

    /// Drives the generator to completion and returns the whole stream.
    pub fn serialize(self) -> (r: Vec<Insn>)
        requires
            self.wf(),
        ensures
            r@ == self@,
    {
        let ghost total = self@;
        let mut s = self;
        let mut out: Vec<Insn> = Vec::new();
        proof {
            assert(out@ + s@ =~= total);
        }
        #[verifier::loop_isolation(false)]
        loop
            invariant
                s.wf(),
                out@ + s@ == total,
            decreases s@.len(),
        {
            match s.next_insn() {
                Option::Some(i) => {
                    out.push(i);
                    proof {
                        assert(out@ + s@ =~= total);
                    }
                },
                Option::None => {
                    proof {
                        assert(out@ =~= total);
                    }
                    return out;
                },
            }
        }
    }
}

} // verus!
