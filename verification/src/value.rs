//! The WATSON value model.
//!
//! [`Value`] is the tagged union transported by the system.  Floating-point
//! values are carried as their IEEE-754 64-bit pattern, which is what both
//! the virtual machine (`Itof`) and the serializer read and write; a caller
//! that wants an `f64` converts with `f64::from_bits` outside the library.
//! Objects keep their entries in insertion order with unique keys.
//!
//! [`ValueView`] is the mathematical model of a value: the same tree with
//! every vector abstracted to a sequence.  All contracts speak of it.

use vstd::prelude::*;
use vstd::string::StringSliceAdditionalSpecFns;

verus! {

/// A byte array: the payload of a WATSON string.
pub type Bytes = Vec<u8>;

/// A value of the WATSON data model.
#[derive(Debug)]
pub enum Value {
    /// A signed 64-bit integer.
    Int(i64),
    /// An unsigned 64-bit integer.
    Uint(u64),
    /// An IEEE-754 double, carried as its 64-bit pattern.
    Float(u64),
    /// A byte string (not required to be UTF-8).
    String(Bytes),
    /// An associative map with byte-string keys, unique, in insertion order.
    Object(Vec<(Bytes, Value)>),
    /// An ordered sequence of values.
    Array(Vec<Value>),
    /// A boolean.
    Bool(bool),
    /// The unit value.
    Nil,
}

/// The mathematical model of a [`Value`].
pub enum ValueView {
    Int(i64),
    Uint(u64),
    Float(u64),
    String(Seq<u8>),
    Object(Seq<(Seq<u8>, ValueView)>),
    Array(Seq<ValueView>),
    Bool(bool),
    Nil,
}

impl View for Value {
    type V = ValueView;

    open spec fn view(&self) -> ValueView
        decreases self,
    {
        match self {
            Value::Int(n) => ValueView::Int(*n),
            Value::Uint(u) => ValueView::Uint(*u),
            Value::Float(b) => ValueView::Float(*b),
            Value::String(s) => ValueView::String(s@),
            Value::Object(entries) => ValueView::Object(entry_views(entries@)),
            Value::Array(a) => ValueView::Array(elem_views(a@)),
            Value::Bool(b) => ValueView::Bool(*b),
            Value::Nil => ValueView::Nil,
        }
    }
}

/// The views of an object's entries, key bytes and values abstracted.
pub open spec fn entry_views(s: Seq<(Bytes, Value)>) -> Seq<(Seq<u8>, ValueView)>
    decreases s,
{
    if s.len() == 0 {
        Seq::empty()
    } else {
        entry_views(s.drop_last()).push((s.last().0@, s.last().1@))
    }
}

/// The views of an array's elements.
pub open spec fn elem_views(s: Seq<Value>) -> Seq<ValueView>
    decreases s,
{
    if s.len() == 0 {
        Seq::empty()
    } else {
        elem_views(s.drop_last()).push(s.last()@)
    }
}

/// `entry_views` maps the entry list pointwise.
pub proof fn lemma_entry_views(s: Seq<(Bytes, Value)>)
    ensures
        entry_views(s).len() == s.len(),
        forall|i: int|
            0 <= i < s.len() ==> #[trigger] entry_views(s)[i] == (s[i].0@, s[i].1@),
    decreases s.len(),
{
    if s.len() > 0 {
        lemma_entry_views(s.drop_last());
        assert(entry_views(s) == entry_views(s.drop_last()).push((s.last().0@, s.last().1@)));
        assert forall|i: int| 0 <= i < s.len() implies #[trigger] entry_views(s)[i] == (
        s[i].0@,
        s[i].1@,
        ) by {
            if i < s.len() - 1 {
                assert(s.drop_last()[i] == s[i]);
                assert(entry_views(s)[i] == entry_views(s.drop_last())[i]);
            }
        }
    }
}

/// `elem_views` maps the element list pointwise.
pub proof fn lemma_elem_views(s: Seq<Value>)
    ensures
        elem_views(s).len() == s.len(),
        forall|i: int| 0 <= i < s.len() ==> #[trigger] elem_views(s)[i] == s[i]@,
    decreases s.len(),
{
    if s.len() > 0 {
        lemma_elem_views(s.drop_last());
        assert(elem_views(s) == elem_views(s.drop_last()).push(s.last()@));
        assert forall|i: int| 0 <= i < s.len() implies #[trigger] elem_views(s)[i] == s[i]@ by {
            if i < s.len() - 1 {
                assert(s.drop_last()[i] == s[i]);
                assert(elem_views(s)[i] == elem_views(s.drop_last())[i]);
            }
        }
    }
}

/// The IEEE-754 exponent bits of a 64-bit float pattern.
pub open spec fn float_exponent(b: u64) -> u64 {
    (b >> 52) & 0x7ff
}

/// The IEEE-754 fraction bits of a 64-bit float pattern.
pub open spec fn float_fraction(b: u64) -> u64 {
    b & 0xf_ffff_ffff_ffff
}

/// Whether the pattern's sign bit is set.
pub open spec fn float_is_negative(b: u64) -> bool {
    (b >> 63) == 1
}

/// Whether the 64-bit pattern denotes a NaN.
pub open spec fn float_is_nan(b: u64) -> bool {
    float_exponent(b) == 0x7ff && float_fraction(b) != 0
}

/// Whether the 64-bit pattern denotes an infinity (of either sign).
pub open spec fn float_is_infinite(b: u64) -> bool {
    float_exponent(b) == 0x7ff && float_fraction(b) == 0
}

/// The pattern of the canonical quiet NaN, the one NaN the system produces.
pub const NAN_BITS: u64 = 0x7ff8_0000_0000_0000;

/// The pattern of positive infinity.
pub const INFINITY_BITS: u64 = 0x7ff0_0000_0000_0000;

/// The pattern with only the sign bit set; XOR with it negates a float.
pub const SIGN_BIT: u64 = 0x8000_0000_0000_0000;

/// A value is NaN-canonical when every NaN in it carries [`NAN_BITS`].
/// Decoding an encoded value reproduces it exactly up to this
/// canonicalization, since every NaN is written as the single instruction
/// `Fnan`.
pub open spec fn canon(v: ValueView) -> ValueView
    decreases v,
{
    match v {
        ValueView::Float(b) => if float_is_nan(b) {
            ValueView::Float(NAN_BITS)
        } else {
            ValueView::Float(b)
        },
        ValueView::Object(entries) => ValueView::Object(canon_entries(entries)),
        ValueView::Array(a) => ValueView::Array(canon_elems(a)),
        _ => v,
    }
}

/// `canon` applied to each entry's value.
pub open spec fn canon_entries(s: Seq<(Seq<u8>, ValueView)>) -> Seq<(Seq<u8>, ValueView)>
    decreases s,
{
    if s.len() == 0 {
        Seq::empty()
    } else {
        canon_entries(s.drop_last()).push((s.last().0, canon(s.last().1)))
    }
}

/// `canon` applied to each element.
pub open spec fn canon_elems(s: Seq<ValueView>) -> Seq<ValueView>
    decreases s,
{
    if s.len() == 0 {
        Seq::empty()
    } else {
        canon_elems(s.drop_last()).push(canon(s.last()))
    }
}

/// `canon_entries` maps the entry list pointwise.
pub proof fn lemma_canon_entries(s: Seq<(Seq<u8>, ValueView)>)
    ensures
        canon_entries(s).len() == s.len(),
        forall|i: int|
            0 <= i < s.len() ==> #[trigger] canon_entries(s)[i] == (s[i].0, canon(s[i].1)),
    decreases s.len(),
{
    if s.len() > 0 {
        lemma_canon_entries(s.drop_last());
        assert(canon_entries(s) == canon_entries(s.drop_last()).push((s.last().0, canon(s.last().1))));
        assert forall|i: int| 0 <= i < s.len() implies #[trigger] canon_entries(s)[i] == (
        s[i].0,
        canon(s[i].1),
        ) by {
            if i < s.len() - 1 {
                assert(s.drop_last()[i] == s[i]);
                assert(canon_entries(s)[i] == canon_entries(s.drop_last())[i]);
            }
        }
    }
}

/// `canon_elems` maps the element list pointwise.
pub proof fn lemma_canon_elems(s: Seq<ValueView>)
    ensures
        canon_elems(s).len() == s.len(),
        forall|i: int| 0 <= i < s.len() ==> #[trigger] canon_elems(s)[i] == canon(s[i]),
    decreases s.len(),
{
    if s.len() > 0 {
        lemma_canon_elems(s.drop_last());
        assert(canon_elems(s) == canon_elems(s.drop_last()).push(canon(s.last())));
        assert forall|i: int| 0 <= i < s.len() implies #[trigger] canon_elems(s)[i] == canon(
            s[i],
        ) by {
            if i < s.len() - 1 {
                assert(s.drop_last()[i] == s[i]);
                assert(canon_elems(s)[i] == canon_elems(s.drop_last())[i]);
            }
        }
    }
}

/// Appending an element appends its view.
pub proof fn lemma_elem_views_push(s: Seq<Value>, x: Value)
    ensures
        elem_views(s.push(x)) == elem_views(s).push(x@),
{
    assert(s.push(x).drop_last() =~= s);
    assert(s.push(x).last() == x);
}

/// Appending an entry appends its view.
pub proof fn lemma_entry_views_push(s: Seq<(Bytes, Value)>, k: Bytes, v: Value)
    ensures
        entry_views(s.push((k, v))) == entry_views(s).push((k@, v@)),
{
    assert(s.push((k, v)).drop_last() =~= s);
    assert(s.push((k, v)).last() == (k, v));
}

/// Copies a byte string.
pub fn clone_bytes(s: &Vec<u8>) -> (r: Vec<u8>)
    ensures
        r@ == s@,
{
    let r = s.clone();
    proof {
        assert(r@ =~= s@);
    }
    r
}

/// Compares two byte strings by content.
pub fn bytes_eq(a: &Vec<u8>, b: &Vec<u8>) -> (r: bool)
    ensures
        r == (a@ == b@),
{
    if a.len() != b.len() {
        proof {
            assert(a@.len() != b@.len());
        }
        return false;
    }
    let n = a.len();
    let mut i: usize = 0;
    while i < n
        invariant
            n == a@.len() == b@.len(),
            i <= n,
            forall|j: int| 0 <= j < i ==> a@[j] == b@[j],
        decreases n - i,
    {
        if a[i] != b[i] {
            return false;
        }
        i = i + 1;
    }
    proof {
        assert(a@ =~= b@);
    }
    true
}

impl Clone for Value {
    /// Deep copy: the copy has the same view as the original.
    fn clone(&self) -> (res: Value)
        ensures
            res@ == self@,
        decreases self,
    {
        broadcast use vstd::std_specs::vec::axiom_vec_index_decreases;

        match self {
            Value::Int(n) => Value::Int(*n),
            Value::Uint(u) => Value::Uint(*u),
            Value::Float(b) => Value::Float(*b),
            Value::Bool(b) => Value::Bool(*b),
            Value::Nil => Value::Nil,
            Value::String(s) => Value::String(clone_bytes(s)),
            Value::Array(a) => {
                let n = a.len();
                let mut out: Vec<Value> = Vec::new();
                let mut i: usize = 0;
                #[verifier::loop_isolation(false)]
                while i < n
                    invariant
                        n == a@.len(),
                        i <= n,
                        out@.len() == i,
                        forall|j: int| 0 <= j < i ==> #[trigger] out@[j]@ == a@[j]@,
                    decreases n - i,
                {
                    out.push(a[i].clone());
                    i = i + 1;
                }
                proof {
                    lemma_elem_views(out@);
                    lemma_elem_views(a@);
                    assert(elem_views(out@) =~= elem_views(a@));
                }
                Value::Array(out)
            },
            Value::Object(entries) => {
                let n = entries.len();
                let mut out: Vec<(Bytes, Value)> = Vec::new();
                let mut i: usize = 0;
                #[verifier::loop_isolation(false)]
                while i < n
                    invariant
                        n == entries@.len(),
                        i <= n,
                        out@.len() == i,
                        forall|j: int|
                            0 <= j < i ==> #[trigger] out@[j].0@ == entries@[j].0@ && out@[j].1@
                                == entries@[j].1@,
                    decreases n - i,
                {
                    let k = clone_bytes(&entries[i].0);
                    let v = entries[i].1.clone();
                    out.push((k, v));
                    i = i + 1;
                }
                proof {
                    lemma_entry_views(out@);
                    lemma_entry_views(entries@);
                    assert(entry_views(out@) =~= entry_views(entries@));
                }
                Value::Object(out)
            },
        }
    }
}

/// Inserts `k -> v` into an ordered entry list: overwrites the value in
/// place if the key is present, else appends the new entry at the end.
/// This is the meaning of the VM's `Oadd` instruction.
pub open spec fn obj_insert(
    entries: Seq<(Seq<u8>, ValueView)>,
    k: Seq<u8>,
    v: ValueView,
) -> Seq<(Seq<u8>, ValueView)>
    decreases entries.len(),
{
    if entries.len() == 0 {
        seq![(k, v)]
    } else if entries[0].0 == k {
        seq![(k, v)] + entries.skip(1)
    } else {
        seq![entries[0]] + obj_insert(entries.skip(1), k, v)
    }
}

/// Whether an entry list holds a given key.
pub open spec fn obj_has_key(entries: Seq<(Seq<u8>, ValueView)>, k: Seq<u8>) -> bool {
    exists|i: int| 0 <= i < entries.len() && entries[i].0 == k
}

/// The keys of an entry list are unique.
pub open spec fn obj_keys_unique(entries: Seq<(Seq<u8>, ValueView)>) -> bool {
    forall|i: int, j: int|
        0 <= i < j < entries.len() ==> entries[i].0 != entries[j].0
}

/// A value is well formed when the keys of every object in it are unique.
/// The VM only ever builds well-formed values.
pub open spec fn value_wf(v: ValueView) -> bool
    decreases v,
{
    match v {
        ValueView::Object(entries) => obj_keys_unique(entries) && forall|i: int|
            0 <= i < entries.len() ==> value_wf(#[trigger] entries[i].1),
        ValueView::Array(a) => forall|i: int| 0 <= i < a.len() ==> value_wf(#[trigger] a[i]),
        _ => true,
    }
}

/// Inserting preserves key uniqueness.
pub proof fn lemma_obj_insert_unique(entries: Seq<(Seq<u8>, ValueView)>, k: Seq<u8>, v: ValueView)
    requires
        obj_keys_unique(entries),
    ensures
        obj_keys_unique(obj_insert(entries, k, v)),
        forall|i: int|
            0 <= i < obj_insert(entries, k, v).len() ==> #[trigger] obj_insert(entries, k, v)[i].1
                == v || exists|j: int|
                0 <= j < entries.len() && entries[j].1 == obj_insert(entries, k, v)[i].1,
    decreases entries.len(),
{
    if entries.len() == 0 {
    } else if entries[0].0 == k {
        let r = obj_insert(entries, k, v);
        assert forall|i: int, j: int| 0 <= i < j < r.len() implies r[i].0 != r[j].0 by {
            if i == 0 {
                assert(r[j] == entries[j]);
            } else {
                assert(r[i] == entries[i] && r[j] == entries[j]);
            }
        }
    } else {
        lemma_obj_insert_unique(entries.skip(1), k, v);
        let rest = obj_insert(entries.skip(1), k, v);
        let r = obj_insert(entries, k, v);
        assert(r == seq![entries[0]] + rest);
        assert forall|i: int, j: int| 0 <= i < j < r.len() implies r[i].0 != r[j].0 by {
            if i == 0 {
                assert(r[j] == rest[j - 1]);
                lemma_obj_insert_key_source(entries.skip(1), k, v, j - 1);
            } else {
                assert(r[i] == rest[i - 1] && r[j] == rest[j - 1]);
            }
        }
        assert forall|i: int| 0 <= i < r.len() implies r[i].1 == v || exists|j: int|
            0 <= j < entries.len() && entries[j].1 == r[i].1 by {
            if i > 0 {
                assert(r[i] == rest[i - 1]);
                if rest[i - 1].1 != v {
                    let j = choose|j: int|
                        0 <= j < entries.skip(1).len() && entries.skip(1)[j].1 == rest[i - 1].1;
                    assert(entries[j + 1].1 == r[i].1);
                }
            } else {
                assert(entries[0].1 == r[0].1);
            }
        }
    }
}

/// Every key of an inserted list is either `k` or a key of the original.
pub proof fn lemma_obj_insert_key_source(
    entries: Seq<(Seq<u8>, ValueView)>,
    k: Seq<u8>,
    v: ValueView,
    i: int,
)
    requires
        0 <= i < obj_insert(entries, k, v).len(),
    ensures
        obj_insert(entries, k, v)[i].0 == k || obj_has_key(entries, obj_insert(entries, k, v)[i].0),
    decreases entries.len(),
{
    if entries.len() == 0 {
    } else if entries[0].0 == k {
        if i > 0 {
            assert(obj_insert(entries, k, v)[i] == entries[i]);
        }
    } else {
        if i > 0 {
            lemma_obj_insert_key_source(entries.skip(1), k, v, i - 1);
            let key = obj_insert(entries, k, v)[i].0;
            assert(obj_insert(entries, k, v)[i] == obj_insert(entries.skip(1), k, v)[i - 1]);
            if key != k {
                let j = choose|j: int|
                    0 <= j < entries.skip(1).len() && entries.skip(1)[j].0 == key;
                assert(entries[j + 1].0 == key);
            }
        }
    }
}

impl PartialEq for Value {
    /// Deep structural equality: two values are equal exactly when their
    /// models are.  Object entries compare in order, so two objects built
    /// by the same insertions are equal.
    fn eq(&self, other: &Value) -> (r: bool)
        decreases self,
    {
        broadcast use vstd::std_specs::vec::axiom_vec_index_decreases;

        match (self, other) {
            (Value::Int(a), Value::Int(b)) => a == b,
            (Value::Uint(a), Value::Uint(b)) => a == b,
            (Value::Float(a), Value::Float(b)) => a == b,
            (Value::Bool(a), Value::Bool(b)) => a == b,
            (Value::Nil, Value::Nil) => true,
            (Value::String(a), Value::String(b)) => bytes_eq(a, b),
            (Value::Array(a), Value::Array(b)) => {
                proof {
                    lemma_elem_views(a@);
                    lemma_elem_views(b@);
                }
                if a.len() != b.len() {
                    return false;
                }
                let n = a.len();
                let mut i: usize = 0;
                #[verifier::loop_isolation(false)]
                while i < n
                    invariant
                        i <= n,
                        forall|j: int| 0 <= j < i ==> #[trigger] a@[j]@ == b@[j]@,
                    decreases n - i,
                {
                    if !(a[i] == b[i]) {
                        proof {
                            assert(elem_views(a@)[i as int] != elem_views(b@)[i as int]);
                        }
                        return false;
                    }
                    i = i + 1;
                }
                proof {
                    assert(elem_views(a@) =~= elem_views(b@));
                }
                true
            },
            (Value::Object(a), Value::Object(b)) => {
                proof {
                    lemma_entry_views(a@);
                    lemma_entry_views(b@);
                }
                if a.len() != b.len() {
                    return false;
                }
                let n = a.len();
                let mut i: usize = 0;
                #[verifier::loop_isolation(false)]
                while i < n
                    invariant
                        i <= n,
                        forall|j: int| 0 <= j < i ==> (#[trigger] a@[j]).0@ == b@[j].0@,
                        forall|j: int| 0 <= j < i ==> (#[trigger] a@[j]).1@ == b@[j].1@,
                    decreases n - i,
                {
                    if !bytes_eq(&a[i].0, &b[i].0) {
                        proof {
                            assert(entry_views(a@)[i as int] != entry_views(b@)[i as int]);
                        }
                        return false;
                    }
                    proof {
                        assert(a@[i as int].0@ == b@[i as int].0@);
                    }
                    if !(a[i].1 == b[i].1) {
                        proof {
                            assert(entry_views(a@)[i as int] != entry_views(b@)[i as int]);
                        }
                        return false;
                    }
                    proof {
                        assert(a@[i as int].1@ == b@[i as int].1@);
                    }
                    i = i + 1;
                }
                proof {
                    assert(entry_views(a@) =~= entry_views(b@));
                }
                true
            },
            _ => false,
        }
    }
}

impl vstd::std_specs::cmp::PartialEqSpecImpl for Value {
    open spec fn obeys_eq_spec() -> bool {
        true
    }

    open spec fn eq_spec(&self, other: &Value) -> bool {
        self@ == other@
    }
}

impl From<i8> for Value {
    fn from(v: i8) -> (r: Value) {
        Value::Int(v as i64)
    }
}

impl vstd::std_specs::convert::FromSpecImpl<i8> for Value {
    open spec fn obeys_from_spec() -> bool {
        true
    }

    open spec fn from_spec(v: i8) -> Value {
        Value::Int(v as i64)
    }
}

impl From<i16> for Value {
    fn from(v: i16) -> (r: Value) {
        Value::Int(v as i64)
    }
}

impl vstd::std_specs::convert::FromSpecImpl<i16> for Value {
    open spec fn obeys_from_spec() -> bool {
        true
    }

    open spec fn from_spec(v: i16) -> Value {
        Value::Int(v as i64)
    }
}

impl From<i32> for Value {
    fn from(v: i32) -> (r: Value) {
        Value::Int(v as i64)
    }
}

impl vstd::std_specs::convert::FromSpecImpl<i32> for Value {
    open spec fn obeys_from_spec() -> bool {
        true
    }

    open spec fn from_spec(v: i32) -> Value {
        Value::Int(v as i64)
    }
}

impl From<i64> for Value {
    fn from(v: i64) -> (r: Value) {
        Value::Int(v)
    }
}

impl vstd::std_specs::convert::FromSpecImpl<i64> for Value {
    open spec fn obeys_from_spec() -> bool {
        true
    }

    open spec fn from_spec(v: i64) -> Value {
        Value::Int(v)
    }
}

impl From<i128> for Value {
    fn from(v: i128) -> (r: Value) {
        Value::Int(#[verifier::truncate] (v as i64))
    }
}

impl vstd::std_specs::convert::FromSpecImpl<i128> for Value {
    open spec fn obeys_from_spec() -> bool {
        true
    }

    open spec fn from_spec(v: i128) -> Value {
        Value::Int(v as i64)
    }
}

impl From<isize> for Value {
    fn from(v: isize) -> (r: Value) {
        Value::Int(v as i64)
    }
}

impl vstd::std_specs::convert::FromSpecImpl<isize> for Value {
    open spec fn obeys_from_spec() -> bool {
        true
    }

    open spec fn from_spec(v: isize) -> Value {
        Value::Int(v as i64)
    }
}

impl From<u8> for Value {
    fn from(v: u8) -> (r: Value) {
        Value::Uint(v as u64)
    }
}

impl vstd::std_specs::convert::FromSpecImpl<u8> for Value {
    open spec fn obeys_from_spec() -> bool {
        true
    }

    open spec fn from_spec(v: u8) -> Value {
        Value::Uint(v as u64)
    }
}

impl From<u16> for Value {
    fn from(v: u16) -> (r: Value) {
        Value::Uint(v as u64)
    }
}

impl vstd::std_specs::convert::FromSpecImpl<u16> for Value {
    open spec fn obeys_from_spec() -> bool {
        true
    }

    open spec fn from_spec(v: u16) -> Value {
        Value::Uint(v as u64)
    }
}

impl From<u32> for Value {
    fn from(v: u32) -> (r: Value) {
        Value::Uint(v as u64)
    }
}

impl vstd::std_specs::convert::FromSpecImpl<u32> for Value {
    open spec fn obeys_from_spec() -> bool {
        true
    }

    open spec fn from_spec(v: u32) -> Value {
        Value::Uint(v as u64)
    }
}

impl From<u64> for Value {
    fn from(v: u64) -> (r: Value) {
        Value::Uint(v)
    }
}

impl vstd::std_specs::convert::FromSpecImpl<u64> for Value {
    open spec fn obeys_from_spec() -> bool {
        true
    }

    open spec fn from_spec(v: u64) -> Value {
        Value::Uint(v)
    }
}

impl From<u128> for Value {
    fn from(v: u128) -> (r: Value) {
        Value::Uint(#[verifier::truncate] (v as u64))
    }
}

impl vstd::std_specs::convert::FromSpecImpl<u128> for Value {
    open spec fn obeys_from_spec() -> bool {
        true
    }

    open spec fn from_spec(v: u128) -> Value {
        Value::Uint(v as u64)
    }
}

impl From<usize> for Value {
    fn from(v: usize) -> (r: Value) {
        Value::Uint(v as u64)
    }
}

impl vstd::std_specs::convert::FromSpecImpl<usize> for Value {
    open spec fn obeys_from_spec() -> bool {
        true
    }

    open spec fn from_spec(v: usize) -> Value {
        Value::Uint(v as u64)
    }
}

impl From<bool> for Value {
    fn from(v: bool) -> (r: Value) {
        Value::Bool(v)
    }
}

impl vstd::std_specs::convert::FromSpecImpl<bool> for Value {
    open spec fn obeys_from_spec() -> bool {
        true
    }

    open spec fn from_spec(v: bool) -> Value {
        Value::Bool(v)
    }
}

impl From<Bytes> for Value {
    fn from(v: Bytes) -> (r: Value) {
        Value::String(v)
    }
}

impl vstd::std_specs::convert::FromSpecImpl<Bytes> for Value {
    open spec fn obeys_from_spec() -> bool {
        true
    }

    open spec fn from_spec(v: Bytes) -> Value {
        Value::String(v)
    }
}

impl From<Vec<(Bytes, Value)>> for Value {
    fn from(v: Vec<(Bytes, Value)>) -> (r: Value) {
        Value::Object(v)
    }
}

impl vstd::std_specs::convert::FromSpecImpl<Vec<(Bytes, Value)>> for Value {
    open spec fn obeys_from_spec() -> bool {
        true
    }

    open spec fn from_spec(v: Vec<(Bytes, Value)>) -> Value {
        Value::Object(v)
    }
}

impl From<Vec<Value>> for Value {
    fn from(v: Vec<Value>) -> (r: Value) {
        Value::Array(v)
    }
}

impl vstd::std_specs::convert::FromSpecImpl<Vec<Value>> for Value {
    open spec fn obeys_from_spec() -> bool {
        true
    }

    open spec fn from_spec(v: Vec<Value>) -> Value {
        Value::Array(v)
    }
}

impl From<()> for Value {
    fn from(v: ()) -> (r: Value) {
        Value::Nil
    }
}

impl vstd::std_specs::convert::FromSpecImpl<()> for Value {
    open spec fn obeys_from_spec() -> bool {
        true
    }

    open spec fn from_spec(v: ()) -> Value {
        Value::Nil
    }
}

/// A type whose content can be taken as the bytes of a WATSON string.
pub trait ToBytes: Sized {
    /// The byte content.
    spec fn byte_model(&self) -> Seq<u8>;

    /// Converts `self` to bytes.
    fn to_bytes(self) -> (r: Bytes)
        ensures
            r@ == self.byte_model(),
    ;
}

impl ToBytes for Bytes {
    open spec fn byte_model(&self) -> Seq<u8> {
        self@
    }

    fn to_bytes(self) -> (r: Bytes) {
        self
    }
}

impl ToBytes for &[u8] {
    open spec fn byte_model(&self) -> Seq<u8> {
        self@
    }

    fn to_bytes(self) -> (r: Bytes) {
        let mut out: Vec<u8> = Vec::new();
        let n = self.len();
        let mut i: usize = 0;
        while i < n
            invariant
                n == self@.len(),
                i <= n,
                out@ == self@.take(i as int),
            decreases n - i,
        {
            out.push(self[i]);
            proof {
                assert(out@ =~= self@.take(i as int + 1));
            }
            i = i + 1;
        }
        proof {
            assert(out@ =~= self@);
        }
        out
    }
}

impl ToBytes for &str {
    open spec fn byte_model(&self) -> Seq<u8> {
        self.spec_bytes()
    }

    fn to_bytes(self) -> (r: Bytes) {
        self.as_bytes().to_bytes()
    }
}

impl ToBytes for u8 {
    open spec fn byte_model(&self) -> Seq<u8> {
        seq![*self]
    }

    fn to_bytes(self) -> (r: Bytes) {
        let mut out: Vec<u8> = Vec::new();
        out.push(self);
        proof {
            assert(out@ =~= seq![self]);
        }
        out
    }
}

} // verus!
