//! The round trip: decoding undoes encoding.
//!
//! [`run`] executes a whole instruction sequence on the VM's stack model.
//! The central results are [`lemma_run_insns_of`] — replaying a value's
//! instruction stream pushes exactly that value, NaNs canonicalized — and
//! [`lemma_unlex_lex`] — writing any instruction sequence with the unlexer
//! and reading it back with the lexer reproduces the sequence, whatever the
//! wrap width.  [`encode`] and [`decode`] drive the components over whole
//! in-memory buffers.

use crate::bits::{
    bits_of_i64, i64_of_bits, lemma_add_bits, lemma_bits_roundtrip, lemma_double_bits, low_byte,
    wrap_i64,
};
use crate::error::{Error, ErrorKind};
use crate::language::{
    advance_mode, byte_of_insn, insn_of_byte, lemma_alphabet_roundtrip, lemma_newline_is_filler,
    Insn, Location, Mode,
};
use crate::lexer::{lemma_scan_lex, lex_insns, scan, Lexer, ScanStep};
use crate::serializer::Serializer;
use crate::unlexer::{unlex_bytes, unlexer_wf, Unlexer};
use crate::value::Value;
use crate::vm::VM;
use crate::serializer::{
    arr_tail_insns, byte_insns, float_insns, insns_of, int_insns, int_tail_insns, ishl_seq,
    obj_tail_insns, str_tail_insns,
};
use crate::value::{
    canon, canon_elems, canon_entries, float_is_infinite, float_is_nan, float_is_negative,
    lemma_canon_elems, lemma_canon_entries, obj_insert, obj_keys_unique, value_wf, ValueView,
    INFINITY_BITS, NAN_BITS, SIGN_BIT,
};
use crate::vm::{lemma_step_preserves_wf, stack_wf, step};
use vstd::arithmetic::power2::{
    lemma2_to64, lemma2_to64_rest, lemma_pow2_pos, lemma_pow2_strictly_increases,
    lemma_pow2_unfold, pow2,
};
use vstd::prelude::*;

verus! {

/// Executes a whole instruction sequence on a stack model: the final stack,
/// or the error of the first failing instruction.
pub open spec fn run(s: Seq<ValueView>, insns: Seq<Insn>) -> Result<Seq<ValueView>, ErrorKind>
    decreases insns.len(),
{
    if insns.len() == 0 {
        Ok(s)
    } else {
        match step(s, insns[0]) {
            Ok(s2) => run(s2, insns.skip(1)),
            Err(e) => Err(e),
        }
    }
}

/// Running a concatenation runs the parts in order.
pub proof fn lemma_run_append(s: Seq<ValueView>, a: Seq<Insn>, b: Seq<Insn>)
    ensures
        run(s, a + b) == (match run(s, a) {
            Ok(s2) => run(s2, b),
            Err(e) => Err(e),
        }),
    decreases a.len(),
{
    if a.len() == 0 {
        assert(a + b =~= b);
    } else {
        assert((a + b)[0] == a[0]);
        assert((a + b).skip(1) =~= a.skip(1) + b);
        match step(s, a[0]) {
            Ok(s2) => {
                lemma_run_append(s2, a.skip(1), b);
            },
            Err(e) => {},
        }
    }
}

/// Running a single instruction is one step.
pub proof fn lemma_run_one(s: Seq<ValueView>, i: Insn)
    ensures
        run(s, seq![i]) == (match step(s, i) {
            Ok(s2) => Ok::<Seq<ValueView>, ErrorKind>(s2),
            Err(e) => Err(e),
        }),
{
    assert(seq![i][0] == i);
    assert(seq![i].skip(1) =~= Seq::<Insn>::empty());
    match step(s, i) {
        Ok(s2) => {
            assert(run(s2, seq![i].skip(1)) == Ok::<Seq<ValueView>, ErrorKind>(s2));
        },
        Err(e) => {},
    }
}

/// Running `k` shifts doubles the top `k` times: a value whose pattern is
/// `m` becomes the value whose pattern is `m * 2^k`, as long as that stays
/// a 64-bit pattern reachable without wrapping past the sign bit.
proof fn lemma_run_ishl(s: Seq<ValueView>, m: u64, k: nat)
    requires
        (m as nat) * pow2(k) <= pow2(63),
    ensures
        run(s.push(ValueView::Int(i64_of_bits(m))), ishl_seq(k)) == Ok::<_, ErrorKind>(
            s.push(ValueView::Int(i64_of_bits(((m as nat) * pow2(k)) as u64))),
        ),
    decreases k,
{
    lemma2_to64();
    lemma2_to64_rest();
    if k == 0 {
        assert((m as nat) * pow2(0) == m as nat);
    } else {
        let s1 = s.push(ValueView::Int(i64_of_bits(m)));
        assert(ishl_seq(k)[0] == Insn::Ishl);
        assert(ishl_seq(k).skip(1) =~= ishl_seq((k - 1) as nat));
        lemma_pow2_unfold(k);
        assert((m as nat) * pow2(k) == ((2 * m) as nat) * pow2((k - 1) as nat))
            by (nonlinear_arith)
            requires
                pow2(k) == 2 * pow2((k - 1) as nat),
        ;
        assert(pow2((k - 1) as nat) >= 1) by {
            lemma_pow2_pos((k - 1) as nat);
        }
        assert((2 * m) as nat <= ((2 * m) as nat) * pow2((k - 1) as nat)) by (nonlinear_arith)
            requires
                pow2((k - 1) as nat) >= 1,
        ;
        assert(m < 0x8000_0000_0000_0000);
        lemma_double_bits(m);
        assert(step(s1, Insn::Ishl) == Ok::<_, ErrorKind>(
            s.push(ValueView::Int(i64_of_bits((2 * m) as u64))),
        )) by {
            assert(s1.last() == ValueView::Int(i64_of_bits(m)));
            assert(s1.drop_last() =~= s);
        }
        lemma_run_ishl(s, (2 * m) as u64, (k - 1) as nat);
    }
}

/// Running the bit-scan tail adds `m * 2^shift` into the accumulated
/// integer's bit pattern.
proof fn lemma_run_int_tail(s: Seq<ValueView>, acc: u64, m: u64, shift: nat)
    requires
        (acc as nat) < pow2(shift),
        (m as nat) * pow2(shift) + acc < pow2(64),
    ensures
        run(s.push(ValueView::Int(i64_of_bits(acc))), int_tail_insns(m, shift)) == Ok::<
            _,
            ErrorKind,
        >(s.push(ValueView::Int(i64_of_bits(((m as nat) * pow2(shift) + acc) as u64)))),
    decreases m,
{
    lemma2_to64();
    lemma2_to64_rest();
    let s1 = s.push(ValueView::Int(i64_of_bits(acc)));
    if m == 0 {
        assert((0 as nat) * pow2(shift) + acc == acc as nat) by (nonlinear_arith);
    } else {
        assert(pow2(shift) <= (m as nat) * pow2(shift)) by (nonlinear_arith)
            requires
                m >= 1,
                pow2(shift) >= 0,
        ;
        assert(shift < 64) by {
            if shift > 64 {
                lemma_pow2_strictly_increases(64, shift);
            }
            if shift >= 64 {
                assert(pow2(shift) >= pow2(64));
            }
        }
        lemma_pow2_unfold(shift + 1);
        assert((m / 2) as nat * pow2(shift + 1) + (if m % 2 == 1 {
            (acc + pow2(shift)) as int
        } else {
            acc as int
        }) == (m as nat) * pow2(shift) + acc) by (nonlinear_arith)
            requires
                pow2(shift + 1) == 2 * pow2(shift),
                m >= 1,
        ;
        if m % 2 == 1 {
            // The literal one is pushed, shifted into place, and merged.
            let prefix = seq![Insn::Inew, Insn::Iinc];
            let shifts = ishl_seq(shift);
            let merge = seq![Insn::Iadd];
            let rest = int_tail_insns(m / 2, shift + 1);
            assert(int_tail_insns(m, shift) == prefix + shifts + merge + rest);

            // After `Inew, Iinc` the top is the literal one.
            let s2 = s1.push(ValueView::Int(1));
            assert(run(s1, prefix) == Ok::<_, ErrorKind>(s2)) by {
                let sa = s1.push(ValueView::Int(0));
                assert(prefix =~= seq![Insn::Inew] + seq![Insn::Iinc]);
                lemma_run_append(s1, seq![Insn::Inew], seq![Insn::Iinc]);
                lemma_run_one(s1, Insn::Inew);
                lemma_run_one(sa, Insn::Iinc);
                assert(step(s1, Insn::Inew) == Ok::<_, ErrorKind>(sa));
                assert(sa.last() == ValueView::Int(0));
                assert(sa.drop_last() =~= s1);
                assert(wrap_i64(0int + 1) == 1i64);
                assert(step(sa, Insn::Iinc) == Ok::<_, ErrorKind>(s2));
            }

            // The shifts move it to bit `shift`.
            let p = ((1 as nat) * pow2(shift)) as u64;
            let s3 = s1.push(ValueView::Int(i64_of_bits(p)));
            assert(run(s2, shifts) == Ok::<_, ErrorKind>(s3)) by {
                assert(pow2(shift) <= pow2(63)) by {
                    if shift < 63 {
                        lemma_pow2_strictly_increases(shift, 63);
                    }
                }
                assert(i64_of_bits(1) == 1i64);
                lemma_run_ishl(s1, 1, shift);
            }

            // The merge adds it into the accumulator.
            let acc2 = (acc + pow2(shift)) as u64;
            let s4 = s.push(ValueView::Int(i64_of_bits(acc2)));
            assert(run(s3, merge) == Ok::<_, ErrorKind>(s4)) by {
                lemma_run_one(s3, Insn::Iadd);
                assert(s3.last() == ValueView::Int(i64_of_bits(p)));
                assert(s3.drop_last() =~= s1);
                assert(s1.last() == ValueView::Int(i64_of_bits(acc)));
                assert(s1.drop_last() =~= s);
                assert(acc + p < pow2(64));
                lemma_add_bits(acc, p);
                assert(step(s3, Insn::Iadd) == Ok::<_, ErrorKind>(s4));
            }

            // The remaining bits land on top of the new accumulator.
            assert((acc2 as nat) < pow2(shift + 1));
            lemma_run_int_tail(s, acc2, m / 2, shift + 1);

            lemma_run_append(s1, prefix, shifts);
            lemma_run_append(s1, prefix + shifts, merge);
            lemma_run_append(s1, prefix + shifts + merge, rest);
        } else {
            lemma_run_int_tail(s, acc, m / 2, shift + 1);
        }
    }
}

/// Running the instructions of an integer pushes the value whose 64-bit
/// pattern is `m`.
proof fn lemma_run_int(s: Seq<ValueView>, m: u64)
    ensures
        run(s, int_insns(m)) == Ok::<_, ErrorKind>(s.push(ValueView::Int(i64_of_bits(m)))),
{
    lemma2_to64();
    lemma2_to64_rest();
    assert(int_insns(m) == seq![Insn::Inew] + int_tail_insns(m, 0));
    assert(step(s, Insn::Inew) == Ok::<_, ErrorKind>(s.push(ValueView::Int(0))));
    assert(i64_of_bits(0) == 0i64);
    assert((m as nat) * pow2(0) + 0 == m as nat) by (nonlinear_arith)
        requires
            pow2(0) == 1,
    ;
    lemma_run_int_tail(s, 0, m, 0);
    lemma_run_append(s, seq![Insn::Inew], int_tail_insns(m, 0));
    lemma_run_one(s, Insn::Inew);
}

/// Appending one byte's instructions to a string accumulator appends the
/// byte.
proof fn lemma_run_byte(s: Seq<ValueView>, t: Seq<u8>, b: u8)
    ensures
        run(s.push(ValueView::String(t)), byte_insns(b)) == Ok::<_, ErrorKind>(
            s.push(ValueView::String(t.push(b))),
        ),
{
    let s1 = s.push(ValueView::String(t));
    lemma_run_int(s1, b as u64);
    let s2 = s1.push(ValueView::Int(i64_of_bits(b as u64)));
    assert(i64_of_bits(b as u64) == b as i64);
    lemma_run_one(s2, Insn::Sadd);
    assert(s2.last() == ValueView::Int(b as i64));
    assert(s2.drop_last() =~= s1);
    assert(s1.last() == ValueView::String(t));
    assert(s1.drop_last() =~= s);
    assert(low_byte(b as i64) == b);
    lemma_run_append(s1, int_insns(b as u64), seq![Insn::Sadd]);
}

/// Running a byte list's instructions appends those bytes to the string
/// accumulator.
proof fn lemma_run_str_tail(s: Seq<ValueView>, t: Seq<u8>, u: Seq<u8>)
    ensures
        run(s.push(ValueView::String(t)), str_tail_insns(u)) == Ok::<_, ErrorKind>(
            s.push(ValueView::String(t + u)),
        ),
    decreases u.len(),
{
    if u.len() == 0 {
        assert(t + u =~= t);
    } else {
        lemma_run_byte(s, t, u[0]);
        lemma_run_str_tail(s, t.push(u[0]), u.skip(1));
        assert(t.push(u[0]) + u.skip(1) =~= t + u);
        lemma_run_append(s.push(ValueView::String(t)), byte_insns(u[0]), str_tail_insns(u.skip(1)));
    }
}

/// Running a float's instructions pushes the float, with NaN
/// canonicalized.
proof fn lemma_run_float(s: Seq<ValueView>, b: u64)
    ensures
        run(s, float_insns(b)) == Ok::<_, ErrorKind>(
            s.push(ValueView::Float(if float_is_nan(b) {
                NAN_BITS
            } else {
                b
            })),
        ),
{
    if float_is_nan(b) {
        lemma_run_one(s, Insn::Fnan);
    } else if float_is_infinite(b) {
        if float_is_negative(b) {
            assert((b >> 52) & 0x7ff == 0x7ff && b & 0xf_ffff_ffff_ffff == 0 && (b >> 63) == 1
                ==> b == 0xfff0_0000_0000_0000u64) by (bit_vector);
            assert(0x7ff0_0000_0000_0000u64 ^ 0x8000_0000_0000_0000u64
                == 0xfff0_0000_0000_0000u64) by (bit_vector);
            assert(float_insns(b) =~= seq![Insn::Finf] + seq![Insn::Fneg]);
            lemma_run_one(s, Insn::Finf);
            let s1 = s.push(ValueView::Float(INFINITY_BITS));
            lemma_run_one(s1, Insn::Fneg);
            assert(s1.last() == ValueView::Float(INFINITY_BITS));
            assert(s1.drop_last() =~= s);
            lemma_run_append(s, seq![Insn::Finf], seq![Insn::Fneg]);
        } else {
            assert((b >> 52) & 0x7ff == 0x7ff && b & 0xf_ffff_ffff_ffff == 0 && (b >> 63) != 1
                ==> b == 0x7ff0_0000_0000_0000u64) by (bit_vector);
            assert((b >> 63) == 1 || (b >> 63) != 1);
            lemma_run_one(s, Insn::Finf);
        }
    } else {
        lemma_run_int(s, b);
        let s1 = s.push(ValueView::Int(i64_of_bits(b)));
        lemma_run_one(s1, Insn::Itof);
        assert(s1.last() == ValueView::Int(i64_of_bits(b)));
        assert(s1.drop_last() =~= s);
        lemma_bits_roundtrip(0, b);
        lemma_run_append(s, int_insns(b), seq![Insn::Itof]);
    }
}

/// Inserting a fresh key appends the entry.
proof fn lemma_obj_insert_fresh(
    entries: Seq<(Seq<u8>, ValueView)>,
    k: Seq<u8>,
    v: ValueView,
)
    requires
        forall|i: int| 0 <= i < entries.len() ==> (#[trigger] entries[i]).0 != k,
    ensures
        obj_insert(entries, k, v) == entries.push((k, v)),
    decreases entries.len(),
{
    if entries.len() == 0 {
        assert(obj_insert(entries, k, v) =~= entries.push((k, v)));
    } else {
        assert(entries[0].0 != k);
        lemma_obj_insert_fresh(entries.skip(1), k, v);
        assert(seq![entries[0]] + entries.skip(1).push((k, v)) =~= entries.push((k, v)));
    }
}

/// Replaying a value's instruction stream pushes exactly that value onto
/// the stack, with every NaN canonicalized: the serializer is an exact
/// left inverse of VM execution.
pub proof fn lemma_run_insns_of(s: Seq<ValueView>, v: ValueView)
    requires
        value_wf(v),
    ensures
        run(s, insns_of(v)) == Ok::<_, ErrorKind>(s.push(canon(v))),
    decreases v,
{
    match v {
        ValueView::Int(n) => {
            lemma_run_int(s, bits_of_i64(n));
            lemma_bits_roundtrip(n, 0);
        },
        ValueView::Uint(u) => {
            lemma_run_int(s, u);
            let s1 = s.push(ValueView::Int(i64_of_bits(u)));
            lemma_run_one(s1, Insn::Itou);
            assert(s1.last() == ValueView::Int(i64_of_bits(u)));
            assert(s1.drop_last() =~= s);
            lemma_bits_roundtrip(0, u);
            lemma_run_append(s, int_insns(u), seq![Insn::Itou]);
        },
        ValueView::Float(b) => {
            lemma_run_float(s, b);
        },
        ValueView::String(t) => {
            lemma_run_one(s, Insn::Snew);
            let s1 = s.push(ValueView::String(Seq::empty()));
            lemma_run_str_tail(s, Seq::empty(), t);
            assert(Seq::<u8>::empty() + t =~= t);
            lemma_run_append(s, seq![Insn::Snew], str_tail_insns(t));
        },
        ValueView::Object(e) => {
            lemma_run_one(s, Insn::Onew);
            lemma_canon_entries(e);
            assert(obj_keys_unique(Seq::<(Seq<u8>, ValueView)>::empty() + canon_entries(e))) by {
                let ce = Seq::<(Seq<u8>, ValueView)>::empty() + canon_entries(e);
                assert(ce =~= canon_entries(e));
                assert forall|i: int, j: int| 0 <= i < j < ce.len() implies ce[i].0 != ce[j].0 by {
                    assert(ce[i].0 == e[i].0 && ce[j].0 == e[j].0);
                }
            }
            lemma_run_obj_tail(s, Seq::empty(), e);
            assert(Seq::<(Seq<u8>, ValueView)>::empty() + canon_entries(e) =~= canon_entries(e));
            lemma_run_append(s, seq![Insn::Onew], obj_tail_insns(e));
        },
        ValueView::Array(a) => {
            lemma_run_one(s, Insn::Anew);
            lemma_run_arr_tail(s, Seq::empty(), a);
            assert(Seq::<ValueView>::empty() + canon_elems(a) =~= canon_elems(a));
            lemma_run_append(s, seq![Insn::Anew], arr_tail_insns(a));
        },
        ValueView::Bool(bv) => {
            lemma_run_one(s, Insn::Bnew);
            if bv {
                assert(insns_of(v) =~= seq![Insn::Bnew] + seq![Insn::Bneg]);
                let s1 = s.push(ValueView::Bool(false));
                lemma_run_one(s1, Insn::Bneg);
                assert(s1.last() == ValueView::Bool(false));
                assert(s1.drop_last() =~= s);
                lemma_run_append(s, seq![Insn::Bnew], seq![Insn::Bneg]);
            }
        },
        ValueView::Nil => {
            lemma_run_one(s, Insn::Nnew);
        },
    }
}

/// Running an object tail's instructions inserts each entry, in order,
/// into the accumulated object.
proof fn lemma_run_obj_tail(
    s: Seq<ValueView>,
    acc: Seq<(Seq<u8>, ValueView)>,
    e: Seq<(Seq<u8>, ValueView)>,
)
    requires
        obj_keys_unique(acc + canon_entries(e)),
        forall|i: int| 0 <= i < e.len() ==> value_wf(#[trigger] e[i].1),
    ensures
        run(s.push(ValueView::Object(acc)), obj_tail_insns(e)) == Ok::<_, ErrorKind>(
            s.push(ValueView::Object(acc + canon_entries(e))),
        ),
    decreases e,
{
    lemma_canon_entries(e);
    let s1 = s.push(ValueView::Object(acc));
    if e.len() == 0 {
        assert(acc + canon_entries(e) =~= acc);
    } else {
        let k = e[0].0;
        let v0 = e[0].1;
        let ka = seq![Insn::Snew];
        let kb = str_tail_insns(k);
        let kc = insns_of(v0);
        let kd = seq![Insn::Oadd];
        let ke = obj_tail_insns(e.skip(1));
        assert(obj_tail_insns(e) == ka + kb + kc + kd + ke);

        lemma_run_one(s1, Insn::Snew);
        let s2 = s1.push(ValueView::String(Seq::empty()));
        lemma_run_str_tail(s1, Seq::empty(), k);
        assert(Seq::<u8>::empty() + k =~= k);
        let s3 = s1.push(ValueView::String(k));
        assert(value_wf(v0));
        lemma_run_insns_of(s3, v0);
        let s4 = s3.push(canon(v0));

        // `Oadd` inserts the fresh key at the end.
        lemma_run_one(s4, Insn::Oadd);
        assert(s4.last() == canon(v0));
        assert(s4.drop_last() =~= s3);
        assert(s3.last() == ValueView::String(k));
        assert(s3.drop_last() =~= s1);
        assert(s1.last() == ValueView::Object(acc));
        assert(s1.drop_last() =~= s);
        assert forall|i: int| 0 <= i < acc.len() implies (#[trigger] acc[i]).0 != k by {
            let all = acc + canon_entries(e);
            assert(all[i] == acc[i]);
            assert(all[acc.len() as int] == canon_entries(e)[0]);
            assert(canon_entries(e)[0].0 == k);
        }
        lemma_obj_insert_fresh(acc, k, canon(v0));
        let acc2 = acc.push((k, canon(v0)));
        let s5 = s.push(ValueView::Object(acc2));

        // The remaining entries continue on the grown object.
        lemma_canon_entries(e.skip(1));
        assert(acc2 + canon_entries(e.skip(1)) =~= acc + canon_entries(e)) by {
            assert forall|i: int| 0 <= i < canon_entries(e.skip(1)).len() implies canon_entries(
                e.skip(1),
            )[i] == canon_entries(e)[i + 1] by {
                assert(e.skip(1)[i] == e[i + 1]);
            }
        }
        assert forall|i: int| 0 <= i < e.skip(1).len() implies value_wf(
            #[trigger] e.skip(1)[i].1,
        ) by {
            assert(e.skip(1)[i] == e[i + 1]);
        }
        lemma_run_obj_tail(s, acc2, e.skip(1));

        lemma_run_append(s1, ka, kb);
        lemma_run_append(s1, ka + kb, kc);
        lemma_run_append(s1, ka + kb + kc, kd);
        lemma_run_append(s1, ka + kb + kc + kd, ke);
    }
}

/// Running an array tail's instructions appends each element, in order,
/// to the accumulated array.
proof fn lemma_run_arr_tail(s: Seq<ValueView>, acc: Seq<ValueView>, a: Seq<ValueView>)
    requires
        forall|i: int| 0 <= i < a.len() ==> value_wf(#[trigger] a[i]),
    ensures
        run(s.push(ValueView::Array(acc)), arr_tail_insns(a)) == Ok::<_, ErrorKind>(
            s.push(ValueView::Array(acc + canon_elems(a))),
        ),
    decreases a,
{
    lemma_canon_elems(a);
    let s1 = s.push(ValueView::Array(acc));
    if a.len() == 0 {
        assert(acc + canon_elems(a) =~= acc);
    } else {
        let ka = insns_of(a[0]);
        let kb = seq![Insn::Aadd];
        let kc = arr_tail_insns(a.skip(1));
        assert(arr_tail_insns(a) == ka + kb + kc);

        assert(value_wf(a[0]));
        lemma_run_insns_of(s1, a[0]);
        let s2 = s1.push(canon(a[0]));
        lemma_run_one(s2, Insn::Aadd);
        assert(s2.last() == canon(a[0]));
        assert(s2.drop_last() =~= s1);
        assert(s1.last() == ValueView::Array(acc));
        assert(s1.drop_last() =~= s);
        let acc2 = acc.push(canon(a[0]));
        let s3 = s.push(ValueView::Array(acc2));

        lemma_canon_elems(a.skip(1));
        assert(acc2 + canon_elems(a.skip(1)) =~= acc + canon_elems(a)) by {
            assert forall|i: int| 0 <= i < canon_elems(a.skip(1)).len() implies canon_elems(
                a.skip(1),
            )[i] == canon_elems(a)[i + 1] by {
                assert(a.skip(1)[i] == a[i + 1]);
            }
        }
        assert forall|i: int| 0 <= i < a.skip(1).len() implies value_wf(#[trigger] a.skip(1)[i]) by {
            assert(a.skip(1)[i] == a[i + 1]);
        }
        lemma_run_arr_tail(s, acc2, a.skip(1));

        lemma_run_append(s1, ka, kb);
        lemma_run_append(s1, ka + kb, kc);
    }
}

/// Running any instruction sequence keeps every stack value well formed.
pub proof fn lemma_run_preserves_wf(s: Seq<ValueView>, insns: Seq<Insn>)
    requires
        stack_wf(s),
        run(s, insns) is Ok,
    ensures
        stack_wf(run(s, insns)->Ok_0),
    decreases insns.len(),
{
    if insns.len() > 0 {
        match step(s, insns[0]) {
            Ok(s2) => {
                lemma_step_preserves_wf(s, insns[0]);
                lemma_run_preserves_wf(s2, insns.skip(1));
            },
            Err(e) => {},
        }
    }
}

/// Mode mirroring: writing any instruction sequence with the unlexer and
/// reading the bytes back with the lexer, starting in the same mode,
/// reproduces the sequence exactly — whatever the wrap width, since wrap
/// newlines are filler in every mode.
pub proof fn lemma_unlex_lex(insns: Seq<Insn>, m: Mode, width: int, column: int)
    requires
        width > 0 ==> column < width,
    ensures
        lex_insns(unlex_bytes(insns, m, width, column), m) == insns,
    decreases insns.len(),
{
    if insns.len() == 0 {
    } else {
        let b = byte_of_insn(m, insns[0]);
        let m2 = advance_mode(m, insns[0]);
        lemma_alphabet_roundtrip(m, insns[0]);
        if width > 0 && column + 1 >= width {
            let rest = unlex_bytes(insns.skip(1), m2, width, 0);
            let bytes = seq![b, 10u8] + rest;
            assert(unlex_bytes(insns, m, width, column) == bytes);
            assert(bytes[0] == b);
            assert(bytes.skip(1) =~= seq![10u8] + rest);
            lemma_newline_is_filler(m2);
            assert((seq![10u8] + rest)[0] == 10u8);
            assert((seq![10u8] + rest).skip(1) =~= rest);
            lemma_unlex_lex(insns.skip(1), m2, width, 0);
            assert(lex_insns(seq![10u8] + rest, m2) == lex_insns(rest, m2));
            assert(lex_insns(bytes, m) == seq![insns[0]] + lex_insns(seq![10u8] + rest, m2));
            assert(lex_insns(bytes, m) =~= insns);
        } else {
            let col2 = if width > 0 { column + 1 } else { column };
            let rest = unlex_bytes(insns.skip(1), m2, width, col2);
            let bytes = seq![b] + rest;
            assert(unlex_bytes(insns, m, width, column) == bytes);
            assert(bytes[0] == b);
            assert(bytes.skip(1) =~= rest);
            lemma_unlex_lex(insns.skip(1), m2, width, col2);
            assert(lex_insns(bytes, m) == seq![insns[0]] + lex_insns(rest, m2));
            assert(lex_insns(bytes, m) =~= insns);
        }
    }
}

/// The round trip: encoding a well-formed value — serializer, then
/// unlexer with any wrap width — and decoding the bytes — lexer, then VM,
/// starting in the same mode — yields exactly the value, with every NaN
/// canonicalized.
pub proof fn lemma_round_trip(v: ValueView, m: Mode, width: int)
    requires
        value_wf(v),
    ensures
        run(Seq::empty(), lex_insns(unlex_bytes(insns_of(v), m, width, 0), m)) == Ok::<
            _,
            ErrorKind,
        >(seq![canon(v)]),
{
    lemma_unlex_lex(insns_of(v), m, width, 0);
    lemma_run_insns_of(Seq::empty(), v);
    assert(Seq::<ValueView>::empty().push(canon(v)) =~= seq![canon(v)]);
}

/// The unlexer's mode after writing `insns` from mode `m`: flipped once
/// per `Snew`.
pub open spec fn mode_after(insns: Seq<Insn>, m: Mode) -> Mode
    decreases insns.len(),
{
    if insns.len() == 0 {
        m
    } else {
        mode_after(insns.skip(1), advance_mode(m, insns[0]))
    }
}

/// The unlexer's column after writing `insns` with wrap width `width`,
/// starting at `column`.
pub open spec fn column_after(insns: Seq<Insn>, width: int, column: int) -> int
    decreases insns.len(),
{
    if insns.len() == 0 {
        column
    } else {
        column_after(insns.skip(1), width, if width > 0 && column + 1 >= width {
            0
        } else if width > 0 {
            column + 1
        } else {
            column
        })
    }
}

/// Writing one more instruction extends the emitted bytes by that
/// instruction's bytes at the state reached so far.
proof fn lemma_unlex_snoc(insns: Seq<Insn>, x: Insn, m: Mode, width: int, column: int)
    ensures
        unlex_bytes(insns.push(x), m, width, column) == unlex_bytes(insns, m, width, column)
            + unlex_bytes(seq![x], mode_after(insns, m), width, column_after(insns, width, column)),
        mode_after(insns.push(x), m) == advance_mode(mode_after(insns, m), x),
        column_after(insns.push(x), width, column) == ({
            let cc = column_after(insns, width, column);
            if width > 0 && cc + 1 >= width {
                0int
            } else if width > 0 {
                cc + 1
            } else {
                cc
            }
        }),
    decreases insns.len(),
{
    if insns.len() == 0 {
        assert(insns.push(x) =~= seq![x]);
        assert(seq![x].skip(1) =~= Seq::<Insn>::empty());
        assert(unlex_bytes(insns, m, width, column) + unlex_bytes(seq![x], m, width, column)
            =~= unlex_bytes(seq![x], m, width, column));
        assert(mode_after(seq![x], m) == mode_after(Seq::<Insn>::empty(), advance_mode(m, x)));
        assert(column_after(seq![x], width, column) == column_after(
            Seq::<Insn>::empty(),
            width,
            if width > 0 && column + 1 >= width {
                0int
            } else if width > 0 {
                column + 1
            } else {
                column
            },
        ));
    } else {
        let b = byte_of_insn(m, insns[0]);
        let m2 = advance_mode(m, insns[0]);
        let col2 = if width > 0 && column + 1 >= width {
            0int
        } else if width > 0 {
            column + 1
        } else {
            column
        };
        assert(insns.push(x)[0] == insns[0]);
        assert(insns.push(x).skip(1) =~= insns.skip(1).push(x));
        lemma_unlex_snoc(insns.skip(1), x, m2, width, col2);
        if width > 0 && column + 1 >= width {
            assert(seq![b, 10u8] + (unlex_bytes(insns.skip(1), m2, width, 0) + unlex_bytes(
                seq![x],
                mode_after(insns.skip(1), m2),
                width,
                column_after(insns.skip(1), width, 0),
            )) =~= (seq![b, 10u8] + unlex_bytes(insns.skip(1), m2, width, 0)) + unlex_bytes(
                seq![x],
                mode_after(insns.skip(1), m2),
                width,
                column_after(insns.skip(1), width, 0),
            ));
        } else {
            assert(seq![b] + (unlex_bytes(insns.skip(1), m2, width, col2) + unlex_bytes(
                seq![x],
                mode_after(insns.skip(1), m2),
                width,
                column_after(insns.skip(1), width, col2),
            )) =~= (seq![b] + unlex_bytes(insns.skip(1), m2, width, col2)) + unlex_bytes(
                seq![x],
                mode_after(insns.skip(1), m2),
                width,
                column_after(insns.skip(1), width, col2),
            ));
        }
    }
}

/// Encodes a value: serializes it to instructions and writes them with an
/// unlexer configured by `conf`.  The result is exactly the byte stream
/// the specification prescribes for the value's instruction stream.
pub fn encode(v: Value, conf: crate::unlexer::Config) -> (r: Vec<u8>)
    ensures
        r@ == unlex_bytes(insns_of(v@), conf.initial_mode, conf.chars_per_line as int, 0),
{
    let ghost vv = v@;
    let ghost m0 = conf.initial_mode;
    let ghost w = conf.chars_per_line as int;
    let insns = Serializer::new(v).serialize();
    let mut u = conf.build();
    let n = insns.len();
    let mut i: usize = 0;
    proof {
        assert(insns@.take(0) =~= Seq::<Insn>::empty());
    }
    #[verifier::loop_isolation(false)]
    while i < n
        invariant
            i <= n,
            unlexer_wf(u),
            u.chars_per_line == conf.chars_per_line,
            u.out@ == unlex_bytes(insns@.take(i as int), m0, w, 0),
            u.mode == mode_after(insns@.take(i as int), m0),
            u.column as int == column_after(insns@.take(i as int), w, 0),
        decreases n - i,
    {
        proof {
            lemma_unlex_snoc(insns@.take(i as int), insns@[i as int], m0, w, 0);
            assert(insns@.take(i as int).push(insns@[i as int]) =~= insns@.take(i as int + 1));
            assert(seq![insns@[i as int]].skip(1) =~= Seq::<Insn>::empty());
        }
        u.write(insns[i]);
        i = i + 1;
    }
    proof {
        assert(insns@.take(n as int) =~= insns@);
    }
    u.take_bytes()
}

/// Lexes and executes from a mid-stream state: scans for tokens from
/// `pos` and executes each on the stack.  Yields the final stack, or the
/// first execution error together with the location of the failing token
/// — its byte, the display `path`, and the line and column the scan had
/// reached.
pub open spec fn run_bytes(
    bytes: Seq<u8>,
    pos: int,
    mode: Mode,
    line: int,
    column: int,
    path: Option<String>,
    stack: Seq<ValueView>,
) -> Result<Seq<ValueView>, Error>
    decreases bytes.len() - pos,
    via run_bytes_decreases
{
    match scan(bytes, pos, mode, line, column) {
        ScanStep::End { .. } => Ok(stack),
        ScanStep::Found { insn, byte, pos: pos2, line: line2, column: column2 } => match step(
            stack,
            insn,
        ) {
            Ok(s2) => run_bytes(
                bytes,
                pos2,
                advance_mode(mode, insn),
                line2,
                column2,
                path,
                s2,
            ),
            Err(k) => Err(
                Error {
                    kind: k,
                    location: Location {
                        byte,
                        path,
                        line: line2 as usize,
                        column: column2 as usize,
                    },
                },
            ),
        },
    }
}

#[via_fn]
proof fn run_bytes_decreases(
    bytes: Seq<u8>,
    pos: int,
    mode: Mode,
    line: int,
    column: int,
    path: Option<String>,
    stack: Seq<ValueView>,
) {
    if 0 <= pos <= bytes.len() {
        lemma_scan_lex(bytes, pos, mode, line, column);
    } else {
        assert(scan(bytes, pos, mode, line, column) is End);
    }
}

/// Decodes a byte stream: lexes it with a lexer configured by `conf` and
/// executes every token on a fresh VM.  Succeeds with the final top of
/// the stack exactly when the specification's run over the decoded
/// instructions succeeds on a nonempty stack.  An execution error passes
/// through unchanged, location included, as [`run_bytes`] states it; a
/// run that ends with an empty stack reports `EmptyStack` at the unknown
/// location.
pub fn decode(bytes: Vec<u8>, conf: crate::lexer::Config) -> (r: Result<Value, Error>)
    ensures
        match r {
            Ok(v) => run(Seq::empty(), lex_insns(bytes@, conf.initial_mode)) matches Ok(st)
                && st.len() > 0 && v@ == st.last() && value_wf(v@),
            Err(e) => {
                &&& ({
                    ||| (run(Seq::empty(), lex_insns(bytes@, conf.initial_mode)) matches Err(k)
                        && k == e.kind)
                    ||| (run(Seq::empty(), lex_insns(bytes@, conf.initial_mode)) == Ok::<
                        _,
                        ErrorKind,
                    >(Seq::<ValueView>::empty()) && e.kind == ErrorKind::EmptyStack)
                })
                &&& match run_bytes(
                    bytes@,
                    0,
                    conf.initial_mode,
                    1,
                    0,
                    conf.file_path,
                    Seq::empty(),
                ) {
                    Err(e2) => e == e2,
                    Ok(st) => {
                        &&& st.len() == 0
                        &&& e.kind == ErrorKind::EmptyStack
                        &&& e.location.byte == 0
                        &&& e.location.path is None
                        &&& e.location.line == 0
                        &&& e.location.column == 0
                    },
                }
            },
        },
{
    let ghost m0 = conf.initial_mode;
    let ghost bs = bytes@;
    let ghost path0 = conf.file_path;
    let mut lexer = Lexer::new_with_config(bytes, conf);
    let mut vm = VM::new();
    let ghost mut done: Seq<Insn> = Seq::empty();
    proof {
        assert(bs.skip(0) =~= bs);
        assert(Seq::<Insn>::empty() + lex_insns(bs, m0) =~= lex_insns(bs, m0));
    }
    #[verifier::loop_isolation(false)]
    loop
        invariant
            lexer.bytes@ == bs,
            lexer.path == path0,
            lexer.pos <= bs.len(),
            run(Seq::empty(), done) == Ok::<_, ErrorKind>(vm@),
            lex_insns(bs, m0) == done + lex_insns(
                bs.skip(lexer.pos as int),
                lexer.mode,
            ),
            run_bytes(bs, 0, m0, 1, 0, path0, Seq::empty()) == run_bytes(
                bs,
                lexer.pos as int,
                lexer.mode,
                lexer.line as int,
                lexer.column as int,
                path0,
                vm@,
            ),
        decreases bs.len() - lexer.pos,
    {
        let ghost pos0 = lexer.pos;
        let ghost mode0 = lexer.mode;
        let ghost line0 = lexer.line;
        let ghost col0 = lexer.column;
        match lexer.next_token() {
            Option::Some(t) => {
                proof {
                    lemma_scan_lex(bs, pos0 as int, mode0, line0 as int, col0 as int);
                }
                let ghost insn = t.insn;
                let ghost vm0 = vm@;
                let result = vm.execute(t);
                proof {
                    lemma_run_append(Seq::empty(), done, seq![insn]);
                    lemma_run_one(vm0, insn);
                    assert(lex_insns(bs, m0) =~= (done + seq![insn]) + lex_insns(
                        bs.skip(lexer.pos as int),
                        lexer.mode,
                    ));
                }
                match result {
                    Ok(()) => {
                        proof {
                            done = done + seq![insn];
                            assert(run_bytes(
                                bs,
                                pos0 as int,
                                mode0,
                                line0 as int,
                                col0 as int,
                                path0,
                                vm0,
                            ) == run_bytes(
                                bs,
                                lexer.pos as int,
                                lexer.mode,
                                lexer.line as int,
                                lexer.column as int,
                                path0,
                                vm@,
                            ));
                        }
                    },
                    Err(e) => {
                        proof {
                            let rest = lex_insns(bs.skip(lexer.pos as int), lexer.mode);
                            lemma_run_append(Seq::empty(), done, seq![insn] + rest);
                            assert((seq![insn] + rest)[0] == insn);
                            assert(lex_insns(bs, m0) =~= done + (seq![insn] + rest));
                            // The error carries the failing token's location,
                            // which is exactly what the spec's mid-stream run
                            // names for this state.
                            assert((lexer.line as int) as usize == lexer.line);
                            assert((lexer.column as int) as usize == lexer.column);
                            assert(run_bytes(
                                bs,
                                pos0 as int,
                                mode0,
                                line0 as int,
                                col0 as int,
                                path0,
                                vm0,
                            ) == Err::<Seq<ValueView>, Error>(e));
                        }
                        return Err(e);
                    },
                }
            },
            Option::None => {
                proof {
                    lemma_scan_lex(bs, pos0 as int, mode0, line0 as int, col0 as int);
                    assert(lex_insns(bs, m0) =~= done);
                    assert(run_bytes(
                        bs,
                        pos0 as int,
                        mode0,
                        line0 as int,
                        col0 as int,
                        path0,
                        vm@,
                    ) == Ok::<Seq<ValueView>, Error>(vm@));
                }
                let ghost st = vm@;
                proof {
                    lemma_run_preserves_wf(Seq::empty(), lex_insns(bs, m0));
                    if st.len() > 0 {
                        assert(st.last() == st[st.len() - 1]);
                        assert(value_wf(st[st.len() - 1]));
                    }
                }
                match vm.into_top() {
                    Option::Some(v) => {
                        return Ok(v);
                    },
                    Option::None => {
                        proof {
                            assert(st =~= Seq::<ValueView>::empty());
                        }
                        return Err(
                            Error { kind: ErrorKind::EmptyStack, location: Location::unknown() },
                        );
                    },
                }
            },
        }
    }
}

} // verus!
