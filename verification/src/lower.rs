//! Writing values into their canonical-ABI byte encoding and into the
//! JavaScript arguments of a function call.

use vstd::prelude::*;
use vstd::bytes::*;

use crate::layout::SizeDescription;
use crate::js::{lemma_i32_js_round_trip, lemma_u32_js_round_trip, FromJsValue, JsValue, ToJsValue};
use crate::lift::{
    chunk, lemma_lift_seq_all, lift_seq, models, spec_lift_at, spec_lift_ptr, spec_read_vec,
    AbiError, AbiValue, JsArgsReader,
};
use crate::memory::{agree_on, changed_only_in, ByteBuffer, WriteableMemory};

verus! {

/// The bytes that a write appended to a buffer that held `before`.
pub open spec fn appended(before: Seq<u8>, after: Seq<u8>) -> Seq<u8> {
    after.subrange(before.len() as int, after.len() as int)
}


/// `a` is a prefix of `b`.
pub open spec fn is_prefix(a: Seq<u8>, b: Seq<u8>) -> bool {
    a.len() <= b.len() && b.subrange(0, a.len() as int) == a
}

/// Being a prefix is transitive.
proof fn lemma_prefix_trans(a: Seq<u8>, b: Seq<u8>, c: Seq<u8>)
    requires
        is_prefix(a, b),
        is_prefix(b, c),
    ensures
        is_prefix(a, c),
{
    assert forall|k: int| 0 <= k < a.len() implies c.subrange(0, a.len() as int)[k] == a[k] by {
        assert(c.subrange(0, b.len() as int)[k] == b[k]);
        assert(b.subrange(0, a.len() as int)[k] == a[k]);
    }
    assert(c.subrange(0, a.len() as int) =~= a);
}

/// Appending to a buffer keeps what it held as a prefix.
proof fn lemma_prefix_append(a: Seq<u8>, tail: Seq<u8>)
    ensures
        is_prefix(a, a + tail),
{
    assert((a + tail).subrange(0, a.len() as int) =~= a);
}

/// The bytes appended between `bi` and `bj` sit at their offsets within
/// everything appended after `b0`.
proof fn lemma_appended_piece(b0: Seq<u8>, bi: Seq<u8>, bj: Seq<u8>, fin: Seq<u8>)
    requires
        b0.len() <= bi.len(),
        is_prefix(bi, bj),
        is_prefix(bj, fin),
    ensures
        appended(b0, fin).subrange(bi.len() - b0.len(), bj.len() - b0.len()) == appended(bi, bj),
{
    let lhs = appended(b0, fin).subrange(bi.len() - b0.len(), bj.len() - b0.len());
    assert forall|k: int| 0 <= k < lhs.len() implies lhs[k] == appended(bi, bj)[k] by {
        assert(fin.subrange(0, bj.len() as int)[bi.len() + k] == bj[bi.len() + k]);
    }
    assert(lhs =~= appended(bi, bj));
}

/// A lowering that ended with `r` failed exactly where a list size
/// overflowed (`overflows`) or where the memory refused an allocation: its
/// count of refusals went from `before` to `after`.
pub open spec fn fails_only_for_cause<X>(
    r: Result<X, AbiError>,
    overflows: bool,
    before: nat,
    after: nat,
) -> bool {
    &&& before <= after
    &&& r is Ok <==> !overflows && after == before
    &&& r matches Err(e) ==> (e == AbiError::SizeOverflow && overflows) || (e
        == AbiError::OutOfMemory && before < after)
}

/// Converts a value of the canonical ABI to its byte encoding.
pub trait Lower: AbiValue {
    /// Every list inside the value has a length that fits in 32 bits.
    spec fn lowerable(&self) -> bool;

    /// Lowering a value of this type writes nothing to memory: the type
    /// holds no list.
    spec fn lowers_in_place() -> bool;

    /// Some list inside the value needs more bytes than a `usize` counts.
    spec fn size_overflows(&self) -> bool;

    /// `args` are the JavaScript arguments that `self` flattens to: each
    /// integer as the number it converts to, and each list as some 32-bit
    /// address, the one its allocation got, followed by its length.
    spec fn flattens_to(&self, args: Seq<JsValue>) -> bool;

    /// Lifting `bytes` follows pointers only into `lo..hi`, which `memory` holds.
    spec fn reads_within(bytes: Seq<u8>, memory: Seq<u8>, lo: nat, hi: nat) -> bool;

    /// Lifting gives the same result from two memories that agree on the bytes it reads.
    proof fn lemma_reads_stable(bytes: Seq<u8>, m1: Seq<u8>, m2: Seq<u8>, lo: nat, hi: nat)
        requires
            Self::size_fits(),
            Self::reads_within(bytes, m1, lo, hi),
            agree_on(m1, m2, lo, hi),
        ensures
            Self::spec_lift(bytes, m1) == Self::spec_lift(bytes, m2),
            Self::reads_within(bytes, m2, lo, hi),
    ;

    /// Reading within a range means reading within any larger range the memory holds.
    proof fn lemma_reads_widen(bytes: Seq<u8>, m: Seq<u8>, lo: nat, hi: nat, lo2: nat, hi2: nat)
        requires
            Self::size_fits(),
            Self::reads_within(bytes, m, lo, hi),
            lo2 <= lo,
            hi <= hi2 <= m.len(),
        ensures
            Self::reads_within(bytes, m, lo2, hi2),
    ;

    /// Lifting from the arguments `args` follows pointers only into `lo..hi`,
    /// which `memory` holds.
    spec fn args_read_within(args: Seq<JsValue>, memory: Seq<u8>, lo: nat, hi: nat) -> bool;

    /// Lifting from arguments gives the same result from two memories that
    /// agree on the bytes it reads.
    proof fn lemma_args_reads_stable(args: Seq<JsValue>, m1: Seq<u8>, m2: Seq<u8>, lo: nat, hi: nat)
        requires
            Self::size_fits(),
            Self::args_read_within(args, m1, lo, hi),
            agree_on(m1, m2, lo, hi),
        ensures
            Self::spec_from_js_args(args, m1) == Self::spec_from_js_args(args, m2),
            Self::args_read_within(args, m2, lo, hi),
    ;

    /// Reading arguments within a range means reading within any larger
    /// range the memory holds.
    proof fn lemma_args_reads_widen(
        args: Seq<JsValue>,
        m: Seq<u8>,
        lo: nat,
        hi: nat,
        lo2: nat,
        hi2: nat,
    )
        requires
            Self::size_fits(),
            Self::args_read_within(args, m, lo, hi),
            lo2 <= lo,
            hi <= hi2 <= m.len(),
        ensures
            Self::args_read_within(args, m, lo2, hi2),
    ;

    /// Lifting from arguments looks only at the arguments the type flattens to.
    proof fn lemma_args_prefix(args: Seq<JsValue>, more: Seq<JsValue>, memory: Seq<u8>, lo: nat, hi: nat)
        requires
            Self::size_fits(),
            args.len() >= Self::spec_num_args(),
        ensures
            Self::spec_from_js_args(args + more, memory) == Self::spec_from_js_args(args, memory),
            Self::args_read_within(args + more, memory, lo, hi) == Self::args_read_within(
                args,
                memory,
                lo,
                hi,
            ),
    ;

    /// Appends the arguments that `self` flattens to, first writing whatever
    /// they point to into fresh allocations of `memory`. On success exactly
    /// `num_args` arguments are appended, and lifting them gives `self` back.
    fn to_js_args<M: WriteableMemory>(&self, args: &mut Vec<JsValue>, memory: &mut M) -> (r: Result<
        (),
        AbiError,
    >)
        requires
            Self::size_fits(),
            old(memory).memory_wf(),
        ensures
            final(memory).memory_wf(),
            old(memory).allocated() <= final(memory).allocated(),
            changed_only_in(
                old(memory).written_bytes(),
                final(memory).written_bytes(),
                old(memory).allocated(),
                final(memory).allocated(),
            ),
            fails_only_for_cause(r, self.size_overflows(), old(memory).refused(), final(memory).refused()),
            Self::lowers_in_place() ==> r is Ok && *final(memory) == *old(memory),
            r is Ok ==> {
                &&& final(args)@.len() == old(args)@.len() + Self::spec_num_args()
                &&& final(args)@.subrange(0, old(args)@.len() as int) == old(args)@
                &&& self.lowerable() ==> {
                    &&& self.flattens_to(final(args)@.skip(old(args)@.len() as int))
                    &&& Self::spec_from_js_args(
                        final(args)@.skip(old(args)@.len() as int),
                        final(memory).written_bytes(),
                    ) == Ok::<(Self::Model, nat), AbiError>((self.model(), Self::spec_num_args()))
                    &&& Self::args_read_within(
                        final(args)@.skip(old(args)@.len() as int),
                        final(memory).written_bytes(),
                        old(memory).allocated(),
                        final(memory).allocated(),
                    )
                }
            },
    ;

    /// Appends the encoding of `self` to `buffer`, first writing whatever it
    /// points to into fresh allocations of `memory`. On success exactly
    /// `byte_size` bytes are appended, and lifting them gives `self` back.
    fn write_to<M: WriteableMemory>(&self, buffer: &mut ByteBuffer, memory: &mut M) -> (r: Result<
        (),
        AbiError,
    >)
        requires
            Self::size_fits(),
            old(memory).memory_wf(),
        ensures
            final(memory).memory_wf(),
            old(memory).allocated() <= final(memory).allocated(),
            changed_only_in(
                old(memory).written_bytes(),
                final(memory).written_bytes(),
                old(memory).allocated(),
                final(memory).allocated(),
            ),
            final(buffer).spec_address() == old(buffer).spec_address(),
            fails_only_for_cause(r, self.size_overflows(), old(memory).refused(), final(memory).refused()),
            Self::lowers_in_place() ==> r is Ok && *final(memory) == *old(memory),
            r is Ok ==> {
                &&& final(buffer)@.len() == old(buffer)@.len() + Self::spec_byte_size()
                &&& final(buffer)@.subrange(0, old(buffer)@.len() as int) == old(buffer)@
                &&& self.lowerable() ==> {
                    &&& Self::spec_lift(
                        appended(old(buffer)@, final(buffer)@),
                        final(memory).written_bytes(),
                    ) == Ok::<Self::Model, AbiError>(self.model())
                    &&& Self::reads_within(
                        appended(old(buffer)@, final(buffer)@),
                        final(memory).written_bytes(),
                        old(memory).allocated(),
                        final(memory).allocated(),
                    )
                }
            },
    ;
}

impl ByteBuffer {
    /// Appends the encoding of `value`.
    pub fn write<T: Lower, M: WriteableMemory>(&mut self, value: &T, memory: &mut M) -> (r: Result<
        (),
        AbiError,
    >)
        requires
            T::size_fits(),
            old(memory).memory_wf(),
        ensures
            final(memory).memory_wf(),
            old(memory).allocated() <= final(memory).allocated(),
            changed_only_in(
                old(memory).written_bytes(),
                final(memory).written_bytes(),
                old(memory).allocated(),
                final(memory).allocated(),
            ),
            final(self).spec_address() == old(self).spec_address(),
            fails_only_for_cause(r, value.size_overflows(), old(memory).refused(), final(memory).refused()),
            T::lowers_in_place() ==> r is Ok && *final(memory) == *old(memory),
            r is Ok ==> {
                &&& final(self)@.len() == old(self)@.len() + T::spec_byte_size()
                &&& final(self)@.subrange(0, old(self)@.len() as int) == old(self)@
                &&& value.lowerable() ==> {
                    &&& T::spec_lift(appended(old(self)@, final(self)@), final(memory).written_bytes())
                        == Ok::<T::Model, AbiError>(value.model())
                    &&& T::reads_within(
                        appended(old(self)@, final(self)@),
                        final(memory).written_bytes(),
                        old(memory).allocated(),
                        final(memory).allocated(),
                    )
                }
            },
    {
        value.write_to(self, memory)
    }
}

impl Lower for u32 {
    open spec fn lowerable(&self) -> bool {
        true
    }

    open spec fn lowers_in_place() -> bool {
        true
    }

    open spec fn size_overflows(&self) -> bool {
        false
    }

    open spec fn flattens_to(&self, args: Seq<JsValue>) -> bool {
        args == seq![self.spec_to_js_value()]
    }

    open spec fn reads_within(bytes: Seq<u8>, memory: Seq<u8>, lo: nat, hi: nat) -> bool {
        true
    }

    proof fn lemma_reads_stable(bytes: Seq<u8>, m1: Seq<u8>, m2: Seq<u8>, lo: nat, hi: nat) {
    }

    proof fn lemma_reads_widen(bytes: Seq<u8>, m: Seq<u8>, lo: nat, hi: nat, lo2: nat, hi2: nat) {
    }

    open spec fn args_read_within(args: Seq<JsValue>, memory: Seq<u8>, lo: nat, hi: nat) -> bool {
        true
    }

    proof fn lemma_args_reads_stable(
        args: Seq<JsValue>,
        m1: Seq<u8>,
        m2: Seq<u8>,
        lo: nat,
        hi: nat,
    ) {
    }

    proof fn lemma_args_reads_widen(
        args: Seq<JsValue>,
        m: Seq<u8>,
        lo: nat,
        hi: nat,
        lo2: nat,
        hi2: nat,
    ) {
    }

    proof fn lemma_args_prefix(
        args: Seq<JsValue>,
        more: Seq<JsValue>,
        memory: Seq<u8>,
        lo: nat,
        hi: nat,
    ) {
        assert((args + more)[0] == args[0]);
    }

    fn to_js_args<M: WriteableMemory>(&self, args: &mut Vec<JsValue>, memory: &mut M) -> (r: Result<
        (),
        AbiError,
    >)
        ensures
            r is Ok,
            *final(memory) == *old(memory),
    {
        let ghost before = args@;
        args.push(self.to_js_value());
        proof {
            lemma_u32_js_round_trip(*self);
            assert(args@.skip(before.len() as int) =~= seq![self.spec_to_js_value()]);
            assert(args@.subrange(0, before.len() as int) =~= before);
        }
        Ok(())
    }

    fn write_to<M: WriteableMemory>(&self, buffer: &mut ByteBuffer, memory: &mut M) -> (r: Result<
        (),
        AbiError,
    >)
        ensures
            r is Ok,
            *final(memory) == *old(memory),
    {
        let bytes = u32_to_le_bytes(*self);
        buffer.write_bytes(bytes.as_slice());
        proof {
            lemma_auto_spec_u32_to_from_le_bytes();
            assert(appended(old(buffer)@, buffer@) =~= bytes@);
            assert(buffer@.subrange(0, old(buffer)@.len() as int) =~= old(buffer)@);
        }
        Ok(())
    }
}

impl Lower for i32 {
    open spec fn lowerable(&self) -> bool {
        true
    }

    open spec fn lowers_in_place() -> bool {
        true
    }

    open spec fn size_overflows(&self) -> bool {
        false
    }

    open spec fn flattens_to(&self, args: Seq<JsValue>) -> bool {
        args == seq![self.spec_to_js_value()]
    }

    open spec fn reads_within(bytes: Seq<u8>, memory: Seq<u8>, lo: nat, hi: nat) -> bool {
        true
    }

    proof fn lemma_reads_stable(bytes: Seq<u8>, m1: Seq<u8>, m2: Seq<u8>, lo: nat, hi: nat) {
    }

    proof fn lemma_reads_widen(bytes: Seq<u8>, m: Seq<u8>, lo: nat, hi: nat, lo2: nat, hi2: nat) {
    }

    open spec fn args_read_within(args: Seq<JsValue>, memory: Seq<u8>, lo: nat, hi: nat) -> bool {
        true
    }

    proof fn lemma_args_reads_stable(
        args: Seq<JsValue>,
        m1: Seq<u8>,
        m2: Seq<u8>,
        lo: nat,
        hi: nat,
    ) {
    }

    proof fn lemma_args_reads_widen(
        args: Seq<JsValue>,
        m: Seq<u8>,
        lo: nat,
        hi: nat,
        lo2: nat,
        hi2: nat,
    ) {
    }

    proof fn lemma_args_prefix(
        args: Seq<JsValue>,
        more: Seq<JsValue>,
        memory: Seq<u8>,
        lo: nat,
        hi: nat,
    ) {
        assert((args + more)[0] == args[0]);
    }

    fn to_js_args<M: WriteableMemory>(&self, args: &mut Vec<JsValue>, memory: &mut M) -> (r: Result<
        (),
        AbiError,
    >)
        ensures
            r is Ok,
            *final(memory) == *old(memory),
    {
        let ghost before = args@;
        args.push(self.to_js_value());
        proof {
            lemma_i32_js_round_trip(*self);
            assert(args@.skip(before.len() as int) =~= seq![self.spec_to_js_value()]);
            assert(args@.subrange(0, before.len() as int) =~= before);
        }
        Ok(())
    }

    fn write_to<M: WriteableMemory>(&self, buffer: &mut ByteBuffer, memory: &mut M) -> (r: Result<
        (),
        AbiError,
    >)
        ensures
            r is Ok,
            *final(memory) == *old(memory),
    {
        let bits: u32 = *self as u32;
        let bytes = u32_to_le_bytes(bits);
        buffer.write_bytes(bytes.as_slice());
        proof {
            lemma_auto_spec_u32_to_from_le_bytes();
            assert(appended(old(buffer)@, buffer@) =~= bytes@);
            assert(buffer@.subrange(0, old(buffer)@.len() as int) =~= old(buffer)@);
            let x: i32 = *self;
            assert((x as u32) as i32 == x) by (bit_vector);
        }
        Ok(())
    }
}

impl Lower for () {
    open spec fn lowerable(&self) -> bool {
        true
    }

    open spec fn lowers_in_place() -> bool {
        true
    }

    open spec fn size_overflows(&self) -> bool {
        false
    }

    open spec fn flattens_to(&self, args: Seq<JsValue>) -> bool {
        args == Seq::<JsValue>::empty()
    }

    open spec fn reads_within(bytes: Seq<u8>, memory: Seq<u8>, lo: nat, hi: nat) -> bool {
        true
    }

    proof fn lemma_reads_stable(bytes: Seq<u8>, m1: Seq<u8>, m2: Seq<u8>, lo: nat, hi: nat) {
    }

    proof fn lemma_reads_widen(bytes: Seq<u8>, m: Seq<u8>, lo: nat, hi: nat, lo2: nat, hi2: nat) {
    }

    open spec fn args_read_within(args: Seq<JsValue>, memory: Seq<u8>, lo: nat, hi: nat) -> bool {
        true
    }

    proof fn lemma_args_reads_stable(
        args: Seq<JsValue>,
        m1: Seq<u8>,
        m2: Seq<u8>,
        lo: nat,
        hi: nat,
    ) {
    }

    proof fn lemma_args_reads_widen(
        args: Seq<JsValue>,
        m: Seq<u8>,
        lo: nat,
        hi: nat,
        lo2: nat,
        hi2: nat,
    ) {
    }

    proof fn lemma_args_prefix(
        args: Seq<JsValue>,
        more: Seq<JsValue>,
        memory: Seq<u8>,
        lo: nat,
        hi: nat,
    ) {
    }

    fn to_js_args<M: WriteableMemory>(&self, args: &mut Vec<JsValue>, memory: &mut M) -> (r: Result<
        (),
        AbiError,
    >)
        ensures
            r is Ok,
            *final(memory) == *old(memory),
    {
        assert(args@.subrange(0, args@.len() as int) =~= args@);
        assert(args@.skip(args@.len() as int) =~= Seq::<JsValue>::empty());
        Ok(())
    }

    fn write_to<M: WriteableMemory>(&self, buffer: &mut ByteBuffer, memory: &mut M) -> (r: Result<
        (),
        AbiError,
    >)
        ensures
            r is Ok,
            *final(memory) == *old(memory),
    {
        assert(buffer@.subrange(0, old(buffer)@.len() as int) =~= old(buffer)@);
        Ok(())
    }
}

impl<T: Lower> Lower for (T,) {
    open spec fn lowerable(&self) -> bool {
        self.0.lowerable()
    }

    open spec fn lowers_in_place() -> bool {
        T::lowers_in_place()
    }

    open spec fn size_overflows(&self) -> bool {
        self.0.size_overflows()
    }

    open spec fn flattens_to(&self, args: Seq<JsValue>) -> bool {
        self.0.flattens_to(args)
    }

    open spec fn reads_within(bytes: Seq<u8>, memory: Seq<u8>, lo: nat, hi: nat) -> bool {
        T::reads_within(bytes, memory, lo, hi)
    }

    proof fn lemma_reads_stable(bytes: Seq<u8>, m1: Seq<u8>, m2: Seq<u8>, lo: nat, hi: nat) {
        T::lemma_reads_stable(bytes, m1, m2, lo, hi);
    }

    proof fn lemma_reads_widen(bytes: Seq<u8>, m: Seq<u8>, lo: nat, hi: nat, lo2: nat, hi2: nat) {
        T::lemma_reads_widen(bytes, m, lo, hi, lo2, hi2);
    }

    open spec fn args_read_within(args: Seq<JsValue>, memory: Seq<u8>, lo: nat, hi: nat) -> bool {
        T::args_read_within(args, memory, lo, hi)
    }

    proof fn lemma_args_reads_stable(
        args: Seq<JsValue>,
        m1: Seq<u8>,
        m2: Seq<u8>,
        lo: nat,
        hi: nat,
    ) {
        T::lemma_args_reads_stable(args, m1, m2, lo, hi);
    }

    proof fn lemma_args_reads_widen(
        args: Seq<JsValue>,
        m: Seq<u8>,
        lo: nat,
        hi: nat,
        lo2: nat,
        hi2: nat,
    ) {
        T::lemma_args_reads_widen(args, m, lo, hi, lo2, hi2);
    }

    proof fn lemma_args_prefix(
        args: Seq<JsValue>,
        more: Seq<JsValue>,
        memory: Seq<u8>,
        lo: nat,
        hi: nat,
    ) {
        T::lemma_args_prefix(args, more, memory, lo, hi);
    }

    fn to_js_args<M: WriteableMemory>(&self, args: &mut Vec<JsValue>, memory: &mut M) -> (r: Result<
        (),
        AbiError,
    >) {
        self.0.to_js_args(args, memory)
    }

    fn write_to<M: WriteableMemory>(&self, buffer: &mut ByteBuffer, memory: &mut M) -> (r: Result<
        (),
        AbiError,
    >) {
        self.0.write_to(buffer, memory)
    }
}


impl<T: Lower, U: Lower> Lower for (T, U) {
    open spec fn lowerable(&self) -> bool {
        self.0.lowerable() && self.1.lowerable()
    }

    open spec fn lowers_in_place() -> bool {
        T::lowers_in_place() && U::lowers_in_place()
    }

    open spec fn size_overflows(&self) -> bool {
        self.0.size_overflows() || self.1.size_overflows()
    }

    open spec fn flattens_to(&self, args: Seq<JsValue>) -> bool {
        &&& args.len() == T::spec_num_args() + U::spec_num_args()
        &&& self.0.flattens_to(args.take(T::spec_num_args() as int))
        &&& self.1.flattens_to(args.skip(T::spec_num_args() as int))
    }

    open spec fn reads_within(bytes: Seq<u8>, memory: Seq<u8>, lo: nat, hi: nat) -> bool {
        let l = Self::spec_layout();
        &&& T::reads_within(bytes.subrange(l[0] as int, l[1] as int), memory, lo, hi)
        &&& U::reads_within(bytes.subrange(l[2] as int, l[3] as int), memory, lo, hi)
    }

    proof fn lemma_reads_stable(bytes: Seq<u8>, m1: Seq<u8>, m2: Seq<u8>, lo: nat, hi: nat) {
        let l = Self::spec_layout();
        T::lemma_reads_stable(bytes.subrange(l[0] as int, l[1] as int), m1, m2, lo, hi);
        U::lemma_reads_stable(bytes.subrange(l[2] as int, l[3] as int), m1, m2, lo, hi);
    }

    proof fn lemma_reads_widen(bytes: Seq<u8>, m: Seq<u8>, lo: nat, hi: nat, lo2: nat, hi2: nat) {
        let l = Self::spec_layout();
        T::lemma_reads_widen(bytes.subrange(l[0] as int, l[1] as int), m, lo, hi, lo2, hi2);
        U::lemma_reads_widen(bytes.subrange(l[2] as int, l[3] as int), m, lo, hi, lo2, hi2);
    }

    open spec fn args_read_within(args: Seq<JsValue>, memory: Seq<u8>, lo: nat, hi: nat) -> bool {
        &&& T::args_read_within(args, memory, lo, hi)
        &&& U::args_read_within(args.skip(T::spec_num_args() as int), memory, lo, hi)
    }

    proof fn lemma_args_reads_stable(
        args: Seq<JsValue>,
        m1: Seq<u8>,
        m2: Seq<u8>,
        lo: nat,
        hi: nat,
    ) {
        T::lemma_args_reads_stable(args, m1, m2, lo, hi);
        T::lemma_from_js_args_count(args, m1);
        U::lemma_args_reads_stable(args.skip(T::spec_num_args() as int), m1, m2, lo, hi);
    }

    proof fn lemma_args_reads_widen(
        args: Seq<JsValue>,
        m: Seq<u8>,
        lo: nat,
        hi: nat,
        lo2: nat,
        hi2: nat,
    ) {
        T::lemma_args_reads_widen(args, m, lo, hi, lo2, hi2);
        U::lemma_args_reads_widen(args.skip(T::spec_num_args() as int), m, lo, hi, lo2, hi2);
    }

    proof fn lemma_args_prefix(
        args: Seq<JsValue>,
        more: Seq<JsValue>,
        memory: Seq<u8>,
        lo: nat,
        hi: nat,
    ) {
        let k = T::spec_num_args();
        T::lemma_args_prefix(args, more, memory, lo, hi);
        T::lemma_from_js_args_count(args, memory);
        assert((args + more).skip(k as int) =~= args.skip(k as int) + more);
        U::lemma_args_prefix(args.skip(k as int), more, memory, lo, hi);
    }

    fn to_js_args<M: WriteableMemory>(&self, args: &mut Vec<JsValue>, memory: &mut M) -> (r: Result<
        (),
        AbiError,
    >) {
        let ghost a0 = args@;
        let ghost al0 = memory.allocated();
        self.0.to_js_args(args, memory)?;
        let ghost a1 = args@;
        let ghost m1 = memory.written_bytes();
        let ghost al1 = memory.allocated();
        proof {
            memory.lemma_memory_wf();
        }
        self.1.to_js_args(args, memory)?;
        proof {
            let a2 = args@;
            let m2 = memory.written_bytes();
            let al2 = memory.allocated();
            memory.lemma_memory_wf();
            let p1 = a1.skip(a0.len() as int);
            let p2 = a2.skip(a1.len() as int);
            assert(a1 =~= a0 + p1);
            assert(a2 =~= a1 + p2);
            assert(a2.skip(a0.len() as int) =~= p1 + p2);
            assert(a2.subrange(0, a0.len() as int) =~= a0);
            if self.lowerable() {
                assert(agree_on(m1, m2, al0, al1));
                T::lemma_args_reads_stable(p1, m1, m2, al0, al1);
                T::lemma_args_reads_widen(p1, m2, al0, al1, al0, al2);
                T::lemma_args_prefix(p1, p2, m2, al0, al2);
                assert((p1 + p2).skip(T::spec_num_args() as int) =~= p2);
                assert((p1 + p2).take(T::spec_num_args() as int) =~= p1);
                U::lemma_args_reads_widen(p2, m2, al1, al2, al0, al2);
            }
        }
        Ok(())
    }

    fn write_to<M: WriteableMemory>(&self, buffer: &mut ByteBuffer, memory: &mut M) -> (r: Result<
        (),
        AbiError,
    >) {
        proof {
            crate::layout::lemma_pair_layout::<T, U>();
        }
        // Every byte of the pair is written or skipped, so that the fields
        // that follow it are not shifted.
        let layout = Self::layout();
        let ghost b0 = buffer@;
        let ghost m0 = memory.written_bytes();
        let ghost a0 = memory.allocated();

        self.0.write_to(buffer, memory)?;
        let ghost b1 = buffer@;
        let ghost m1 = memory.written_bytes();
        let ghost a1 = memory.allocated();
        proof {
            memory.lemma_memory_wf();
        }
        buffer.skip(layout[2] - layout[1]);
        let ghost b2 = buffer@;

        self.1.write_to(buffer, memory)?;
        let ghost b3 = buffer@;
        buffer.skip(layout[4] - layout[3]);

        proof {
            let l = Self::spec_layout();
            let m2 = memory.written_bytes();
            let a2 = memory.allocated();
            memory.lemma_memory_wf();
            let fin = buffer@;
            lemma_prefix_append(b1, b2.subrange(b1.len() as int, b2.len() as int));
            assert(b1 + b2.subrange(b1.len() as int, b2.len() as int) =~= b2);
            lemma_prefix_append(b3, fin.subrange(b3.len() as int, fin.len() as int));
            assert(b3 + fin.subrange(b3.len() as int, fin.len() as int) =~= fin);
            lemma_prefix_trans(b2, b3, fin);
            lemma_prefix_trans(b1, b2, fin);
            lemma_prefix_trans(b0, b1, fin);
            lemma_appended_piece(b0, b0, b1, fin);
            lemma_appended_piece(b0, b2, b3, fin);
            assert(fin.len() == b0.len() + l[4]);
            if self.lowerable() {
                assert(agree_on(m1, m2, a0, a1));
                T::lemma_reads_stable(appended(b0, b1), m1, m2, a0, a1);
                T::lemma_reads_widen(appended(b0, b1), m2, a0, a1, a0, a2);
                U::lemma_reads_widen(appended(b2, b3), m2, a1, a2, a0, a2);
            }
        }
        Ok(())
    }
}

impl<T: Lower, U: Lower, V: Lower> Lower for (T, U, V) {
    open spec fn lowerable(&self) -> bool {
        self.0.lowerable() && self.1.lowerable() && self.2.lowerable()
    }

    open spec fn lowers_in_place() -> bool {
        T::lowers_in_place() && U::lowers_in_place() && V::lowers_in_place()
    }

    open spec fn size_overflows(&self) -> bool {
        self.0.size_overflows() || self.1.size_overflows() || self.2.size_overflows()
    }

    open spec fn flattens_to(&self, args: Seq<JsValue>) -> bool {
        &&& args.len() == T::spec_num_args() + U::spec_num_args() + V::spec_num_args()
        &&& self.0.flattens_to(args.take(T::spec_num_args() as int))
        &&& self.1.flattens_to(
            args.subrange(
                T::spec_num_args() as int,
                (T::spec_num_args() + U::spec_num_args()) as int,
            ),
        )
        &&& self.2.flattens_to(args.skip((T::spec_num_args() + U::spec_num_args()) as int))
    }

    open spec fn reads_within(bytes: Seq<u8>, memory: Seq<u8>, lo: nat, hi: nat) -> bool {
        let l = Self::spec_layout();
        &&& T::reads_within(bytes.subrange(l[0] as int, l[1] as int), memory, lo, hi)
        &&& U::reads_within(bytes.subrange(l[2] as int, l[3] as int), memory, lo, hi)
        &&& V::reads_within(bytes.subrange(l[4] as int, l[5] as int), memory, lo, hi)
    }

    proof fn lemma_reads_stable(bytes: Seq<u8>, m1: Seq<u8>, m2: Seq<u8>, lo: nat, hi: nat) {
        let l = Self::spec_layout();
        T::lemma_reads_stable(bytes.subrange(l[0] as int, l[1] as int), m1, m2, lo, hi);
        U::lemma_reads_stable(bytes.subrange(l[2] as int, l[3] as int), m1, m2, lo, hi);
        V::lemma_reads_stable(bytes.subrange(l[4] as int, l[5] as int), m1, m2, lo, hi);
    }

    proof fn lemma_reads_widen(bytes: Seq<u8>, m: Seq<u8>, lo: nat, hi: nat, lo2: nat, hi2: nat) {
        let l = Self::spec_layout();
        T::lemma_reads_widen(bytes.subrange(l[0] as int, l[1] as int), m, lo, hi, lo2, hi2);
        U::lemma_reads_widen(bytes.subrange(l[2] as int, l[3] as int), m, lo, hi, lo2, hi2);
        V::lemma_reads_widen(bytes.subrange(l[4] as int, l[5] as int), m, lo, hi, lo2, hi2);
    }

    open spec fn args_read_within(args: Seq<JsValue>, memory: Seq<u8>, lo: nat, hi: nat) -> bool {
        let k1 = T::spec_num_args();
        let k2 = k1 + U::spec_num_args();
        &&& T::args_read_within(args, memory, lo, hi)
        &&& U::args_read_within(args.skip(k1 as int), memory, lo, hi)
        &&& V::args_read_within(args.skip(k2 as int), memory, lo, hi)
    }

    proof fn lemma_args_reads_stable(
        args: Seq<JsValue>,
        m1: Seq<u8>,
        m2: Seq<u8>,
        lo: nat,
        hi: nat,
    ) {
        let k1 = T::spec_num_args();
        let k2 = k1 + U::spec_num_args();
        T::lemma_args_reads_stable(args, m1, m2, lo, hi);
        T::lemma_from_js_args_count(args, m1);
        U::lemma_args_reads_stable(args.skip(k1 as int), m1, m2, lo, hi);
        U::lemma_from_js_args_count(args.skip(k1 as int), m1);
        V::lemma_args_reads_stable(args.skip(k2 as int), m1, m2, lo, hi);
    }

    proof fn lemma_args_reads_widen(
        args: Seq<JsValue>,
        m: Seq<u8>,
        lo: nat,
        hi: nat,
        lo2: nat,
        hi2: nat,
    ) {
        let k1 = T::spec_num_args();
        let k2 = k1 + U::spec_num_args();
        T::lemma_args_reads_widen(args, m, lo, hi, lo2, hi2);
        U::lemma_args_reads_widen(args.skip(k1 as int), m, lo, hi, lo2, hi2);
        V::lemma_args_reads_widen(args.skip(k2 as int), m, lo, hi, lo2, hi2);
    }

    proof fn lemma_args_prefix(
        args: Seq<JsValue>,
        more: Seq<JsValue>,
        memory: Seq<u8>,
        lo: nat,
        hi: nat,
    ) {
        let k1 = T::spec_num_args();
        let k2 = k1 + U::spec_num_args();
        T::lemma_args_prefix(args, more, memory, lo, hi);
        T::lemma_from_js_args_count(args, memory);
        assert((args + more).skip(k1 as int) =~= args.skip(k1 as int) + more);
        U::lemma_args_prefix(args.skip(k1 as int), more, memory, lo, hi);
        U::lemma_from_js_args_count(args.skip(k1 as int), memory);
        assert((args + more).skip(k2 as int) =~= args.skip(k2 as int) + more);
        assert(args.skip(k1 as int).skip(U::spec_num_args() as int) =~= args.skip(k2 as int));
        V::lemma_args_prefix(args.skip(k2 as int), more, memory, lo, hi);
    }

    fn to_js_args<M: WriteableMemory>(&self, args: &mut Vec<JsValue>, memory: &mut M) -> (r: Result<
        (),
        AbiError,
    >) {
        let ghost a0 = args@;
        let ghost al0 = memory.allocated();
        self.0.to_js_args(args, memory)?;
        let ghost a1 = args@;
        let ghost m1 = memory.written_bytes();
        let ghost al1 = memory.allocated();
        proof {
            memory.lemma_memory_wf();
        }
        self.1.to_js_args(args, memory)?;
        let ghost a2 = args@;
        let ghost m2 = memory.written_bytes();
        let ghost al2 = memory.allocated();
        proof {
            memory.lemma_memory_wf();
        }
        self.2.to_js_args(args, memory)?;
        proof {
            let a3 = args@;
            let m3 = memory.written_bytes();
            let al3 = memory.allocated();
            memory.lemma_memory_wf();
            let p1 = a1.skip(a0.len() as int);
            let p2 = a2.skip(a1.len() as int);
            let p3 = a3.skip(a2.len() as int);
            let k1 = T::spec_num_args();
            assert(a1 =~= a0 + p1);
            assert(a2 =~= a1 + p2);
            assert(a3 =~= a2 + p3);
            assert(a3.skip(a0.len() as int) =~= p1 + (p2 + p3));
            assert(a3.subrange(0, a0.len() as int) =~= a0);
            if self.lowerable() {
                assert(forall|k: int| al0 <= k < al1 ==> m2[k] == m1[k]);
                assert(agree_on(m1, m3, al0, al1));
                assert(agree_on(m2, m3, al1, al2));
                T::lemma_args_reads_stable(p1, m1, m3, al0, al1);
                T::lemma_args_reads_widen(p1, m3, al0, al1, al0, al3);
                T::lemma_args_prefix(p1, p2 + p3, m3, al0, al3);
                U::lemma_args_reads_stable(p2, m2, m3, al1, al2);
                U::lemma_args_reads_widen(p2, m3, al1, al2, al0, al3);
                U::lemma_args_prefix(p2, p3, m3, al0, al3);
                V::lemma_args_reads_widen(p3, m3, al2, al3, al0, al3);
                assert((p1 + (p2 + p3)).skip(k1 as int) =~= p2 + p3);
                assert((p1 + (p2 + p3)).skip((k1 + U::spec_num_args()) as int) =~= p3);
                assert((p2 + p3).skip(U::spec_num_args() as int) =~= p3);
                assert((p1 + (p2 + p3)).take(k1 as int) =~= p1);
                assert((p1 + (p2 + p3)).subrange(k1 as int, (k1 + U::spec_num_args()) as int) =~= p2);
            }
        }
        Ok(())
    }

    fn write_to<M: WriteableMemory>(&self, buffer: &mut ByteBuffer, memory: &mut M) -> (r: Result<
        (),
        AbiError,
    >) {
        proof {
            crate::layout::lemma_triple_layout::<T, U, V>();
        }
        // Every byte of the triple is written or skipped, so that the fields
        // that follow it are not shifted.
        let layout = Self::layout();
        let ghost b0 = buffer@;
        let ghost a0 = memory.allocated();

        self.0.write_to(buffer, memory)?;
        let ghost b1 = buffer@;
        let ghost m1 = memory.written_bytes();
        let ghost a1 = memory.allocated();
        proof {
            memory.lemma_memory_wf();
        }
        buffer.skip(layout[2] - layout[1]);
        let ghost b2 = buffer@;

        self.1.write_to(buffer, memory)?;
        let ghost b3 = buffer@;
        let ghost m2 = memory.written_bytes();
        let ghost a2 = memory.allocated();
        proof {
            memory.lemma_memory_wf();
        }
        buffer.skip(layout[4] - layout[3]);
        let ghost b4 = buffer@;

        self.2.write_to(buffer, memory)?;
        let ghost b5 = buffer@;
        buffer.skip(layout[6] - layout[5]);

        proof {
            let l = Self::spec_layout();
            let m3 = memory.written_bytes();
            let a3 = memory.allocated();
            memory.lemma_memory_wf();
            let fin = buffer@;
            lemma_prefix_append(b1, b2.subrange(b1.len() as int, b2.len() as int));
            assert(b1 + b2.subrange(b1.len() as int, b2.len() as int) =~= b2);
            lemma_prefix_append(b3, b4.subrange(b3.len() as int, b4.len() as int));
            assert(b3 + b4.subrange(b3.len() as int, b4.len() as int) =~= b4);
            lemma_prefix_append(b5, fin.subrange(b5.len() as int, fin.len() as int));
            assert(b5 + fin.subrange(b5.len() as int, fin.len() as int) =~= fin);
            lemma_prefix_trans(b4, b5, fin);
            lemma_prefix_trans(b3, b4, fin);
            lemma_prefix_trans(b2, b3, fin);
            lemma_prefix_trans(b1, b2, fin);
            lemma_prefix_trans(b0, b1, fin);
            lemma_appended_piece(b0, b0, b1, fin);
            lemma_appended_piece(b0, b2, b3, fin);
            lemma_appended_piece(b0, b4, b5, fin);
            assert(fin.len() == b0.len() + l[6]);
            if self.lowerable() {
                assert(forall|k: int| a0 <= k < a1 ==> m2[k] == m1[k]);
                assert(agree_on(m1, m3, a0, a1));
                assert(agree_on(m2, m3, a1, a2));
                T::lemma_reads_stable(appended(b0, b1), m1, m3, a0, a1);
                T::lemma_reads_widen(appended(b0, b1), m3, a0, a1, a0, a3);
                U::lemma_reads_stable(appended(b2, b3), m2, m3, a1, a2);
                U::lemma_reads_widen(appended(b2, b3), m3, a1, a2, a0, a3);
                V::lemma_reads_widen(appended(b4, b5), m3, a2, a3, a0, a3);
            }
        }
        Ok(())
    }
}

/// Lifting the first `n` elements gives the same result from two memories
/// that agree on everything those elements read.
pub proof fn lemma_lift_seq_stable<T: Lower>(
    data: Seq<u8>,
    m1: Seq<u8>,
    m2: Seq<u8>,
    size: nat,
    n: nat,
    lo: nat,
    hi: nat,
)
    requires
        T::size_fits(),
        agree_on(m1, m2, lo, hi),
        forall|k: nat| k < n ==> #[trigger] T::reads_within(chunk(data, size, k), m1, lo, hi),
    ensures
        lift_seq::<T>(data, m1, size, n) == lift_seq::<T>(data, m2, size, n),
        forall|k: nat| k < n ==> #[trigger] T::reads_within(chunk(data, size, k), m2, lo, hi),
    decreases n,
{
    assert forall|k: nat| k < n implies #[trigger] T::reads_within(chunk(data, size, k), m2, lo, hi) by {
        T::lemma_reads_stable(chunk(data, size, k), m1, m2, lo, hi);
    }
    if n > 0 {
        lemma_lift_seq_stable::<T>(data, m1, m2, size, (n - 1) as nat, lo, hi);
        T::lemma_reads_stable(chunk(data, size, (n - 1) as nat), m1, m2, lo, hi);
    }
}

/// The address of the elements of a list, from its 8-byte header.
pub open spec fn list_addr(header: Seq<u8>) -> nat {
    spec_u32_from_le_bytes(header.subrange(0, 4)) as nat
}

/// The element count of a list, from its 8-byte header.
pub open spec fn list_len(header: Seq<u8>) -> nat {
    spec_u32_from_le_bytes(header.subrange(4, 8)) as nat
}

/// Lifting the list of `len` elements at `addr` follows pointers only into
/// `lo..hi`, which `memory` holds, and the elements lie there too.
pub open spec fn list_reads_within<T: Lower>(
    addr: nat,
    len: nat,
    memory: Seq<u8>,
    lo: nat,
    hi: nat,
) -> bool {
    let size = T::spec_byte_size();
    let total = size * len;
    let region = memory.subrange(addr as int, (addr + total) as int);
    &&& hi <= memory.len()
    &&& addr + total <= hi
    &&& total > 0 ==> lo <= addr
    &&& forall|k: nat|
        k < len ==> #[trigger] T::reads_within(chunk(region, size, k), memory, lo, hi)
}

/// A list reads the same from two memories that agree on everything it reads.
proof fn lemma_list_reads_stable<T: Lower>(
    addr: nat,
    len: nat,
    m1: Seq<u8>,
    m2: Seq<u8>,
    lo: nat,
    hi: nat,
)
    requires
        T::size_fits(),
        list_reads_within::<T>(addr, len, m1, lo, hi),
        agree_on(m1, m2, lo, hi),
    ensures
        spec_read_vec::<T>(addr, len, m1) == spec_read_vec::<T>(addr, len, m2),
        list_reads_within::<T>(addr, len, m2, lo, hi),
{
    let size = T::spec_byte_size();
    let total = size * len;
    let r1 = m1.subrange(addr as int, (addr + total) as int);
    let r2 = m2.subrange(addr as int, (addr + total) as int);
    assert(r1 =~= r2);
    lemma_lift_seq_stable::<T>(r1, m1, m2, size, len, lo, hi);
}

/// A list that reads within a range reads within any larger one the memory holds.
proof fn lemma_list_reads_widen<T: Lower>(
    addr: nat,
    len: nat,
    m: Seq<u8>,
    lo: nat,
    hi: nat,
    lo2: nat,
    hi2: nat,
)
    requires
        T::size_fits(),
        list_reads_within::<T>(addr, len, m, lo, hi),
        lo2 <= lo,
        hi <= hi2 <= m.len(),
    ensures
        list_reads_within::<T>(addr, len, m, lo2, hi2),
{
    let size = T::spec_byte_size();
    let region = m.subrange(addr as int, (addr + size * len) as int);
    assert forall|k: nat| k < len implies #[trigger] T::reads_within(
        chunk(region, size, k),
        m,
        lo2,
        hi2,
    ) by {
        T::lemma_reads_widen(chunk(region, size, k), m, lo, hi, lo2, hi2);
    }
}

/// Writes the elements of `data` into a fresh allocation and returns its address.
pub fn write_vec_data<T: Lower, M: WriteableMemory>(data: &[T], memory: &mut M) -> (r: Result<
    usize,
    AbiError,
>)
    requires
        T::size_fits(),
        old(memory).memory_wf(),
    ensures
        final(memory).memory_wf(),
        old(memory).allocated() <= final(memory).allocated(),
        changed_only_in(
            old(memory).written_bytes(),
            final(memory).written_bytes(),
            old(memory).allocated(),
            final(memory).allocated(),
        ),
        fails_only_for_cause(r, list_overflows(data@), old(memory).refused(), final(memory).refused()),
        T::spec_byte_size() * data@.len() > usize::MAX ==> r == Err::<usize, AbiError>(
            AbiError::SizeOverflow,
        ),
        T::spec_byte_size() * data@.len() <= usize::MAX && !old(memory).grants(
            T::spec_alignment(),
            T::spec_byte_size() * data@.len(),
        ) ==> r == Err::<usize, AbiError>(AbiError::OutOfMemory),
        T::spec_byte_size() * data@.len() <= usize::MAX && old(memory).grants(
            T::spec_alignment(),
            T::spec_byte_size() * data@.len(),
        ) && T::lowers_in_place() ==> r is Ok,
        r matches Ok(addr) ==> {
            let size = T::spec_byte_size();
            let total = size * data@.len();
            let mem = final(memory).written_bytes();
            let region = mem.subrange(addr as int, (addr + total) as int);
            &&& old(memory).allocated() <= addr
            &&& (addr as nat) % T::spec_alignment() == 0
            &&& addr + total <= final(memory).allocated()
            &&& (forall|k: int| 0 <= k < data@.len() ==> #[trigger] data@[k].lowerable()) ==> {
                &&& lift_seq::<T>(region, mem, size, data@.len()) == Ok::<Seq<T::Model>, AbiError>(models(data@))
                &&& forall|k: nat|
                    k < data@.len() ==> #[trigger] T::reads_within(
                        chunk(region, size, k),
                        mem,
                        old(memory).allocated(),
                        final(memory).allocated(),
                    )
            }
        },
{
    proof {
        T::lemma_size_description();
        old(memory).lemma_memory_wf();
    }
    let size: usize = T::flat_byte_size();
    let len: usize = data.len();
    // Room for all the elements.
    let total: usize = match size.checked_mul(len) {
        Some(t) => t,
        None => {
            return Err(AbiError::SizeOverflow);
        },
    };
    let mut buffer = match memory.allocate(T::alignment(), total) {
        Ok(b) => b,
        Err(_) => {
            return Err(AbiError::OutOfMemory);
        },
    };
    let ghost old_alloc = old(memory).allocated();
    let ghost lo0 = memory.allocated();
    let ghost addr: nat = buffer.spec_address();

    // Then the elements go into the buffer.
    let mut i: usize = 0;
    while i < len
        invariant
            i <= len,
            len == data@.len(),
            size == T::spec_byte_size(),
            total == size * len,
            T::size_fits(),
            buffer.spec_address() == addr,
            addr % T::spec_alignment() == 0,
            old(memory).grants(T::spec_alignment(), total as nat),
            memory.refused() == old(memory).refused(),
            forall|k: int| 0 <= k < i ==> !(#[trigger] data@[k]).size_overflows(),
            buffer@.len() == i * size,
            memory.memory_wf(),
            old_alloc == old(memory).allocated(),
            old_alloc <= addr,
            addr + total <= lo0,
            lo0 <= memory.allocated(),
            changed_only_in(
                old(memory).written_bytes(),
                memory.written_bytes(),
                old_alloc,
                memory.allocated(),
            ),
            forall|k: nat|
                k < i && (#[trigger] data@[k as int]).lowerable() ==> {
                    &&& T::spec_lift(chunk(buffer@, size as nat, k), memory.written_bytes()) == Ok::<T::Model, AbiError>(data@[k as int].model())
                    &&& T::reads_within(
                        chunk(buffer@, size as nat, k),
                        memory.written_bytes(),
                        lo0,
                        memory.allocated(),
                    )
                },
        decreases len - i,
    {
        let ghost b_before = buffer@;
        let ghost m_before = memory.written_bytes();
        let ghost a_before = memory.allocated();
        proof {
            memory.lemma_memory_wf();
        }
        match data[i].write_to(&mut buffer, memory) {
            Ok(()) => {},
            Err(e) => {
                proof {
                    let m_after = memory.written_bytes();
                    if e == AbiError::SizeOverflow {
                        assert(data@[i as int].size_overflows());
                    }
                    assert(forall|k: int|
                        0 <= k < old(memory).written_bytes().len() && !(old_alloc <= k
                            < memory.allocated()) ==> m_after[k] == m_before[k]);
                }
                return Err(e);
            },
        }
        proof {
            let m_after = memory.written_bytes();
            let a_after = memory.allocated();
            memory.lemma_memory_wf();
            assert((i + 1) * size == i * size + size) by (nonlinear_arith);
            assert(agree_on(m_before, m_after, lo0, a_before));
            assert forall|k: nat|
                k < i + 1 && (#[trigger] data@[k as int]).lowerable() implies {
                &&& T::spec_lift(chunk(buffer@, size as nat, k), m_after) == Ok::<T::Model, AbiError>(data@[k as int].model())
                &&& T::reads_within(chunk(buffer@, size as nat, k), m_after, lo0, a_after)
            } by {
                if k < i {
                    assert(k * size + size <= i * size) by (nonlinear_arith)
                        requires
                            k < i,
                    ;
                    assert(k * size + size == (k + 1) * size) by (nonlinear_arith);
                    assert(chunk(buffer@, size as nat, k) =~= chunk(b_before, size as nat, k)) by {
                        assert forall|j: int|
                            0 <= j < size implies chunk(buffer@, size as nat, k)[j] == chunk(
                                b_before,
                                size as nat,
                                k,
                            )[j] by {
                            assert(buffer@.subrange(0, b_before.len() as int)[k * size + j]
                                == b_before[k * size + j]);
                        }
                    }
                    T::lemma_reads_stable(
                        chunk(b_before, size as nat, k),
                        m_before,
                        m_after,
                        lo0,
                        a_before,
                    );
                    T::lemma_reads_widen(
                        chunk(b_before, size as nat, k),
                        m_after,
                        lo0,
                        a_before,
                        lo0,
                        a_after,
                    );
                } else {
                    assert(k == i);
                    assert(chunk(buffer@, size as nat, k) =~= appended(b_before, buffer@));
                    T::lemma_reads_widen(
                        appended(b_before, buffer@),
                        m_after,
                        a_before,
                        a_after,
                        lo0,
                        a_after,
                    );
                }
            }
        }
        i = i + 1;
    }

    // Then the buffer goes to memory, and its address is the list's address.
    let ghost m_before = memory.written_bytes();
    let ghost a_fin = memory.allocated();
    let ghost buf = buffer@;
    proof {
        memory.lemma_memory_wf();
        assert(len * size == total) by (nonlinear_arith)
            requires
                total == size * len,
        ;
    }
    let address: usize = memory.flush(buffer);
    proof {
        let mem = memory.written_bytes();
        memory.lemma_memory_wf();
        let region = mem.subrange(address as int, address + total);
        assert(region =~= buf);
        assert(agree_on(m_before, mem, lo0, a_fin));
        if forall|k: int| 0 <= k < data@.len() ==> #[trigger] data@[k].lowerable() {
            assert forall|k: nat| k < len implies {
                &&& #[trigger] T::spec_lift(chunk(region, size as nat, k), mem) == Ok::<T::Model, AbiError>(data@[k as int].model())
                &&& T::reads_within(chunk(region, size as nat, k), mem, old_alloc, a_fin)
            } by {
                assert(data@[k as int].lowerable());
                T::lemma_reads_stable(chunk(buf, size as nat, k), m_before, mem, lo0, a_fin);
                T::lemma_reads_widen(chunk(buf, size as nat, k), mem, lo0, a_fin, old_alloc, a_fin);
            }
            assert forall|k: nat| k < len implies #[trigger] T::reads_within(
                chunk(region, size as nat, k),
                mem,
                old_alloc,
                a_fin,
            ) by {
                assert(data@[k as int].lowerable());
                T::lemma_reads_stable(chunk(buf, size as nat, k), m_before, mem, lo0, a_fin);
                T::lemma_reads_widen(chunk(buf, size as nat, k), mem, lo0, a_fin, old_alloc, a_fin);
            }
            lemma_lift_seq_all::<T>(region, mem, size as nat, len as nat, data@);
            assert(data@.take(len as int) =~= data@);
        }
    }
    Ok(address)
}

/// A borrowed slice is lowered as a list: its elements go into a fresh
/// allocation, and the buffer gets their address and count.
/// The number that the 32-bit integer `a` converts to.
pub open spec fn u32_number(a: u32) -> JsValue {
    a.spec_to_js_value()
}

/// The elements need more bytes than a `usize` counts, or one of them holds
/// such a list.
pub open spec fn list_overflows<T: Lower>(elems: Seq<T>) -> bool {
    ||| T::spec_byte_size() * elems.len() > usize::MAX
    ||| exists|k: int| 0 <= k < elems.len() && #[trigger] elems[k].size_overflows()
}

/// `args` are a list of `len` elements: some 32-bit address, then the length.
pub open spec fn list_flattens_to(len: nat, args: Seq<JsValue>) -> bool {
    &&& args.len() == 2
    &&& exists|a: u32| args[0] == #[trigger] u32_number(a)
    &&& args[1] == u32_number(len as u32)
}

impl<T: Lower> Lower for &[T] {
    open spec fn lowerable(&self) -> bool {
        &&& self@.len() <= u32::MAX
        &&& forall|k: int| 0 <= k < self@.len() ==> #[trigger] self@[k].lowerable()
    }

    open spec fn lowers_in_place() -> bool {
        false
    }

    open spec fn size_overflows(&self) -> bool {
        list_overflows(self@)
    }

    open spec fn flattens_to(&self, args: Seq<JsValue>) -> bool {
        list_flattens_to(self@.len(), args)
    }

    open spec fn reads_within(bytes: Seq<u8>, memory: Seq<u8>, lo: nat, hi: nat) -> bool {
        bytes.len() == 8 ==> list_reads_within::<T>(list_addr(bytes), list_len(bytes), memory, lo, hi)
    }

    proof fn lemma_reads_stable(bytes: Seq<u8>, m1: Seq<u8>, m2: Seq<u8>, lo: nat, hi: nat) {
        if bytes.len() == 8 {
            lemma_list_reads_stable::<T>(list_addr(bytes), list_len(bytes), m1, m2, lo, hi);
        }
    }

    proof fn lemma_reads_widen(bytes: Seq<u8>, m: Seq<u8>, lo: nat, hi: nat, lo2: nat, hi2: nat) {
        if bytes.len() == 8 {
            lemma_list_reads_widen::<T>(list_addr(bytes), list_len(bytes), m, lo, hi, lo2, hi2);
        }
    }

    open spec fn args_read_within(args: Seq<JsValue>, memory: Seq<u8>, lo: nat, hi: nat) -> bool {
        args.len() >= 2 ==> match u32::spec_from_js_value(args[0]) {
            Ok(addr) => match u32::spec_from_js_value(args[1]) {
                Ok(len) => list_reads_within::<T>(addr as nat, len as nat, memory, lo, hi),
                Err(_) => true,
            },
            Err(_) => true,
        }
    }

    proof fn lemma_args_reads_stable(
        args: Seq<JsValue>,
        m1: Seq<u8>,
        m2: Seq<u8>,
        lo: nat,
        hi: nat,
    ) {
        if args.len() >= 2 {
            match u32::spec_from_js_value(args[0]) {
                Ok(addr) => match u32::spec_from_js_value(args[1]) {
                    Ok(len) => {
                        lemma_list_reads_stable::<T>(addr as nat, len as nat, m1, m2, lo, hi);
                    },
                    Err(_) => {},
                },
                Err(_) => {},
            }
        }
    }

    proof fn lemma_args_reads_widen(
        args: Seq<JsValue>,
        m: Seq<u8>,
        lo: nat,
        hi: nat,
        lo2: nat,
        hi2: nat,
    ) {
        if args.len() >= 2 {
            match u32::spec_from_js_value(args[0]) {
                Ok(addr) => match u32::spec_from_js_value(args[1]) {
                    Ok(len) => {
                        lemma_list_reads_widen::<T>(addr as nat, len as nat, m, lo, hi, lo2, hi2);
                    },
                    Err(_) => {},
                },
                Err(_) => {},
            }
        }
    }

    proof fn lemma_args_prefix(
        args: Seq<JsValue>,
        more: Seq<JsValue>,
        memory: Seq<u8>,
        lo: nat,
        hi: nat,
    ) {
        assert((args + more)[0] == args[0]);
        assert((args + more)[1] == args[1]);
    }

    fn to_js_args<M: WriteableMemory>(&self, args: &mut Vec<JsValue>, memory: &mut M) -> (r: Result<
        (),
        AbiError,
    >)
        ensures
            T::spec_byte_size() * self@.len() > usize::MAX ==> r == Err::<(), AbiError>(
                AbiError::SizeOverflow,
            ),
            T::spec_byte_size() * self@.len() <= usize::MAX && !old(memory).grants(
                T::spec_alignment(),
                T::spec_byte_size() * self@.len(),
            ) ==> r == Err::<(), AbiError>(AbiError::OutOfMemory),
            T::spec_byte_size() * self@.len() <= usize::MAX && old(memory).grants(
                T::spec_alignment(),
                T::spec_byte_size() * self@.len(),
            ) && T::lowers_in_place() ==> r is Ok,
    {
        let elems: &[T] = *self;
        let addr: usize = write_vec_data(elems, memory)?;
        // First the address, then the element count.
        let addr32: u32 = #[verifier::truncate] (addr as u64) as u32;
        let len32: u32 = #[verifier::truncate] (self.len() as u64) as u32;
        let ghost a0 = args@;
        args.push(addr32.to_js_value());
        args.push(len32.to_js_value());
        proof {
            lemma_u32_js_round_trip(addr32);
            lemma_u32_js_round_trip(len32);
            memory.lemma_memory_wf();
            let pushed = args@.skip(a0.len() as int);
            assert(pushed =~= seq![addr32.spec_to_js_value(), len32.spec_to_js_value()]);
            assert(args@.subrange(0, a0.len() as int) =~= a0);
            if self.lowerable() {
                let size = T::spec_byte_size();
                let len = self@.len();
                let total = size * len;
                let mem = memory.written_bytes();
                let a64: u64 = addr as u64;
                let l64: u64 = self@.len() as u64;
                assert(l64 <= 0xffff_ffffu64 ==> (l64 as u32) as u64 == l64) by (bit_vector);
                assert(a64 < 0x1_0000_0000u64 ==> (a64 as u32) as u64 == a64) by (bit_vector);
                assert(a64 == 0x1_0000_0000u64 ==> (a64 as u32) == 0u32) by (bit_vector);
                assert(len32 == len);
                assert(elems@ == self@);
                assert(pushed[0] == u32_number(addr32));
                if addr >= 0x1_0000_0000 {
                    assert(addr == 0x1_0000_0000);
                    assert(total == 0);
                    assert(addr32 == 0);
                    assert(mem.subrange(0, 0) =~= mem.subrange(addr as int, addr as int));
                }
            }
        }
        Ok(())
    }

    fn write_to<M: WriteableMemory>(&self, buffer: &mut ByteBuffer, memory: &mut M) -> (r: Result<
        (),
        AbiError,
    >)
        ensures
            T::spec_byte_size() * self@.len() > usize::MAX ==> r == Err::<(), AbiError>(
                AbiError::SizeOverflow,
            ),
            T::spec_byte_size() * self@.len() <= usize::MAX && !old(memory).grants(
                T::spec_alignment(),
                T::spec_byte_size() * self@.len(),
            ) ==> r == Err::<(), AbiError>(AbiError::OutOfMemory),
            T::spec_byte_size() * self@.len() <= usize::MAX && old(memory).grants(
                T::spec_alignment(),
                T::spec_byte_size() * self@.len(),
            ) && T::lowers_in_place() ==> r is Ok,
    {
        let elems: &[T] = *self;
        let addr: usize = write_vec_data(elems, memory)?;
        // First the address, then the element count.
        let addr32: u32 = #[verifier::truncate] (addr as u64) as u32;
        let len32: u32 = #[verifier::truncate] (self.len() as u64) as u32;
        let ghost b0 = buffer@;
        let addr_bytes = u32_to_le_bytes(addr32);
        buffer.write_bytes(addr_bytes.as_slice());
        let len_bytes = u32_to_le_bytes(len32);
        buffer.write_bytes(len_bytes.as_slice());
        proof {
            lemma_auto_spec_u32_to_from_le_bytes();
            memory.lemma_memory_wf();
            let w = appended(b0, buffer@);
            assert(w =~= addr_bytes@ + len_bytes@);
            assert(w.subrange(0, 4) =~= addr_bytes@);
            assert(w.subrange(4, 8) =~= len_bytes@);
            assert(buffer@.subrange(0, b0.len() as int) =~= b0);
            if self.lowerable() {
                let size = T::spec_byte_size();
                let len = self@.len();
                let total = size * len;
                let mem = memory.written_bytes();
                let a64: u64 = addr as u64;
                let l64: u64 = self@.len() as u64;
                assert(l64 <= 0xffff_ffffu64 ==> (l64 as u32) as u64 == l64) by (bit_vector);
                assert(a64 < 0x1_0000_0000u64 ==> (a64 as u32) as u64 == a64) by (bit_vector);
                assert(a64 == 0x1_0000_0000u64 ==> (a64 as u32) == 0u32) by (bit_vector);
                assert(list_len(w) == len);
                if addr < 0x1_0000_0000 {
                    assert(list_addr(w) == addr);
                } else {
                    assert(addr == 0x1_0000_0000);
                    assert(total == 0);
                    assert(list_addr(w) == 0);
                    assert(mem.subrange(0, 0) =~= mem.subrange(addr as int, addr as int));
                }
                assert(elems@ == self@);
            }
        }
        Ok(())
    }
}

/// A vec is lowered as the slice of its elements.
impl<T: Lower> Lower for Vec<T> {
    open spec fn lowerable(&self) -> bool {
        &&& self@.len() <= u32::MAX
        &&& forall|k: int| 0 <= k < self@.len() ==> #[trigger] self@[k].lowerable()
    }

    open spec fn lowers_in_place() -> bool {
        false
    }

    open spec fn size_overflows(&self) -> bool {
        list_overflows(self@)
    }

    open spec fn flattens_to(&self, args: Seq<JsValue>) -> bool {
        list_flattens_to(self@.len(), args)
    }

    open spec fn reads_within(bytes: Seq<u8>, memory: Seq<u8>, lo: nat, hi: nat) -> bool {
        <&[T]>::reads_within(bytes, memory, lo, hi)
    }

    proof fn lemma_reads_stable(bytes: Seq<u8>, m1: Seq<u8>, m2: Seq<u8>, lo: nat, hi: nat) {
        <&[T]>::lemma_reads_stable(bytes, m1, m2, lo, hi);
    }

    proof fn lemma_reads_widen(bytes: Seq<u8>, m: Seq<u8>, lo: nat, hi: nat, lo2: nat, hi2: nat) {
        <&[T]>::lemma_reads_widen(bytes, m, lo, hi, lo2, hi2);
    }

    open spec fn args_read_within(args: Seq<JsValue>, memory: Seq<u8>, lo: nat, hi: nat) -> bool {
        <&[T]>::args_read_within(args, memory, lo, hi)
    }

    proof fn lemma_args_reads_stable(
        args: Seq<JsValue>,
        m1: Seq<u8>,
        m2: Seq<u8>,
        lo: nat,
        hi: nat,
    ) {
        <&[T]>::lemma_args_reads_stable(args, m1, m2, lo, hi);
    }

    proof fn lemma_args_reads_widen(
        args: Seq<JsValue>,
        m: Seq<u8>,
        lo: nat,
        hi: nat,
        lo2: nat,
        hi2: nat,
    ) {
        <&[T]>::lemma_args_reads_widen(args, m, lo, hi, lo2, hi2);
    }

    proof fn lemma_args_prefix(
        args: Seq<JsValue>,
        more: Seq<JsValue>,
        memory: Seq<u8>,
        lo: nat,
        hi: nat,
    ) {
        <&[T]>::lemma_args_prefix(args, more, memory, lo, hi);
    }

    fn to_js_args<M: WriteableMemory>(&self, args: &mut Vec<JsValue>, memory: &mut M) -> (r: Result<
        (),
        AbiError,
    >)
        ensures
            T::spec_byte_size() * self@.len() > usize::MAX ==> r == Err::<(), AbiError>(
                AbiError::SizeOverflow,
            ),
            T::spec_byte_size() * self@.len() <= usize::MAX && !old(memory).grants(
                T::spec_alignment(),
                T::spec_byte_size() * self@.len(),
            ) ==> r == Err::<(), AbiError>(AbiError::OutOfMemory),
            T::spec_byte_size() * self@.len() <= usize::MAX && old(memory).grants(
                T::spec_alignment(),
                T::spec_byte_size() * self@.len(),
            ) && T::lowers_in_place() ==> r is Ok,
    {
        self.as_slice().to_js_args(args, memory)
    }

    fn write_to<M: WriteableMemory>(&self, buffer: &mut ByteBuffer, memory: &mut M) -> (r: Result<
        (),
        AbiError,
    >)
        ensures
            T::spec_byte_size() * self@.len() > usize::MAX ==> r == Err::<(), AbiError>(
                AbiError::SizeOverflow,
            ),
            T::spec_byte_size() * self@.len() <= usize::MAX && !old(memory).grants(
                T::spec_alignment(),
                T::spec_byte_size() * self@.len(),
            ) ==> r == Err::<(), AbiError>(AbiError::OutOfMemory),
            T::spec_byte_size() * self@.len() <= usize::MAX && old(memory).grants(
                T::spec_alignment(),
                T::spec_byte_size() * self@.len(),
            ) && T::lowers_in_place() ==> r is Ok,
    {
        self.as_slice().write_to(buffer, memory)
    }
}

/// The value of type `T` stored at `addr` lies in `lo..hi`, which `memory`
/// holds, and lifting it follows pointers only into `lo..hi`.
pub open spec fn stored_within<T: Lower>(addr: nat, memory: Seq<u8>, lo: nat, hi: nat) -> bool {
    let size = T::spec_byte_size();
    &&& hi <= memory.len()
    &&& addr + size <= hi
    &&& size > 0 ==> lo <= addr
    &&& T::reads_within(memory.subrange(addr as int, (addr + size) as int), memory, lo, hi)
}

/// A value stored in `lo..hi` reads back the same after any change that
/// touches only memory from `hi` on, such as a later lowering's fresh
/// allocations.
pub proof fn lemma_stored_value_survives<T: Lower>(
    addr: nat,
    m1: Seq<u8>,
    m2: Seq<u8>,
    lo: nat,
    hi: nat,
    later: nat,
)
    requires
        T::size_fits(),
        stored_within::<T>(addr, m1, lo, hi),
        changed_only_in(m1, m2, hi, later),
    ensures
        spec_lift_at::<T>(addr, m2) == spec_lift_at::<T>(addr, m1),
        stored_within::<T>(addr, m2, lo, hi),
{
    let size = T::spec_byte_size();
    assert(agree_on(m1, m2, lo, hi));
    let b1 = m1.subrange(addr as int, (addr + size) as int);
    let b2 = m2.subrange(addr as int, (addr + size) as int);
    assert(b1 =~= b2);
    T::lemma_reads_stable(b1, m1, m2, lo, hi);
}

/// Writes `value` into a fresh allocation and returns its address.
pub fn store_value<T: Lower, M: WriteableMemory>(value: &T, memory: &mut M) -> (r: Result<
    u32,
    AbiError,
>)
    requires
        T::size_fits(),
        old(memory).memory_wf(),
    ensures
        final(memory).memory_wf(),
        old(memory).allocated() <= final(memory).allocated(),
        changed_only_in(
            old(memory).written_bytes(),
            final(memory).written_bytes(),
            old(memory).allocated(),
            final(memory).allocated(),
        ),
        fails_only_for_cause(r, value.size_overflows(), old(memory).refused(), final(memory).refused()),
        !old(memory).grants(T::spec_alignment(), T::spec_byte_size()) ==> r == Err::<u32, AbiError>(
            AbiError::OutOfMemory,
        ),
        old(memory).grants(T::spec_alignment(), T::spec_byte_size()) && T::lowers_in_place() ==> r is Ok,
        r matches Ok(addr) ==> (addr as nat) % T::spec_alignment() == 0,
        r matches Ok(addr) ==> value.lowerable() ==> {
            &&& spec_lift_at::<T>(addr as nat, final(memory).written_bytes()) == Ok::<
                T::Model,
                AbiError,
            >(value.model())
            &&& stored_within::<T>(
                addr as nat,
                final(memory).written_bytes(),
                old(memory).allocated(),
                final(memory).allocated(),
            )
        },
{
    proof {
        T::lemma_size_description();
    }
    let mut buffer = match memory.allocate(T::alignment(), T::flat_byte_size()) {
        Ok(b) => b,
        Err(_) => {
            return Err(AbiError::OutOfMemory);
        },
    };
    let ghost a1 = memory.allocated();
    let ghost b0 = buffer@;
    value.write_to(&mut buffer, memory)?;
    let ghost m2 = memory.written_bytes();
    let ghost a2 = memory.allocated();
    let ghost w = buffer@;
    proof {
        memory.lemma_memory_wf();
        assert(appended(b0, w) =~= w);
    }
    let address: usize = memory.flush(buffer);
    let addr32: u32 = #[verifier::truncate] (address as u64) as u32;
    proof {
        let mem = memory.written_bytes();
        memory.lemma_memory_wf();
        let a64: u64 = address as u64;
        assert(a64 < 0x1_0000_0000u64 ==> (a64 as u32) as u64 == a64) by (bit_vector);
        assert(a64 == 0x1_0000_0000u64 ==> (a64 as u32) == 0u32) by (bit_vector);
        let size = T::spec_byte_size();
        assert(mem.subrange(address as int, address + size) =~= w);
        if value.lowerable() {
            assert(agree_on(m2, mem, a1, a2));
            T::lemma_reads_stable(w, m2, mem, a1, a2);
            T::lemma_reads_widen(w, mem, a1, a2, old(memory).allocated(), a2);
            let a64: u64 = address as u64;
            assert(a64 < 0x1_0000_0000u64 ==> (a64 as u32) as u64 == a64) by (bit_vector);
            assert(a64 == 0x1_0000_0000u64 ==> (a64 as u32) == 0u32) by (bit_vector);
            if address >= 0x1_0000_0000 {
                assert(addr32 == 0);
                assert(mem.subrange(0, 0) =~= w);
            }
        }
    }
    Ok(addr32)
}

/// Writes `value` into a fresh allocation and returns its address as a
/// JavaScript number, for an exported function to return.
pub fn to_js_ptr_return<T: Lower, M: WriteableMemory>(value: &T, memory: &mut M) -> (r: Result<
    JsValue,
    AbiError,
>)
    requires
        T::size_fits(),
        old(memory).memory_wf(),
    ensures
        final(memory).memory_wf(),
        old(memory).allocated() <= final(memory).allocated(),
        changed_only_in(
            old(memory).written_bytes(),
            final(memory).written_bytes(),
            old(memory).allocated(),
            final(memory).allocated(),
        ),
        fails_only_for_cause(r, value.size_overflows(), old(memory).refused(), final(memory).refused()),
        !old(memory).grants(T::spec_alignment(), T::spec_byte_size()) ==> r == Err::<JsValue, AbiError>(
            AbiError::OutOfMemory,
        ),
        old(memory).grants(T::spec_alignment(), T::spec_byte_size()) && T::lowers_in_place() ==> r is Ok,
        r matches Ok(js) ==> exists|a: u32| js == #[trigger] u32_number(a),
        r matches Ok(js) ==> value.lowerable() ==> spec_lift_ptr::<T>(
            js,
            final(memory).written_bytes(),
        ) == Ok::<T::Model, AbiError>(value.model()),
{
    let addr: u32 = store_value(value, memory)?;
    proof {
        lemma_u32_js_round_trip(addr);
        assert(addr.spec_to_js_value() == u32_number(addr));
    }
    Ok(addr.to_js_value())
}

/// The most flattened arguments that a call passes directly.
pub open spec fn max_flat_params() -> nat {
    16
}

/// The JavaScript arguments of a call of an exported function with
/// `params`: the flattened arguments when there are at most 16 of them,
/// otherwise the address of the parameters, written into a fresh allocation.
pub fn lower_params<T: Lower, M: WriteableMemory>(params: &T, memory: &mut M) -> (r: Result<
    Vec<JsValue>,
    AbiError,
>)
    requires
        T::size_fits(),
        old(memory).memory_wf(),
    ensures
        final(memory).memory_wf(),
        old(memory).allocated() <= final(memory).allocated(),
        changed_only_in(
            old(memory).written_bytes(),
            final(memory).written_bytes(),
            old(memory).allocated(),
            final(memory).allocated(),
        ),
        fails_only_for_cause(r, params.size_overflows(), old(memory).refused(), final(memory).refused()),
        T::spec_num_args() > max_flat_params() && !old(memory).grants(
            T::spec_alignment(),
            T::spec_byte_size(),
        ) ==> r == Err::<Vec<JsValue>, AbiError>(AbiError::OutOfMemory),
        T::spec_num_args() > max_flat_params() && old(memory).grants(
            T::spec_alignment(),
            T::spec_byte_size(),
        ) && T::lowers_in_place() ==> r is Ok,
        T::spec_num_args() <= max_flat_params() && T::lowers_in_place() ==> r is Ok
            && *final(memory) == *old(memory),
        r matches Ok(args) ==> if T::spec_num_args() <= max_flat_params() {
            &&& args@.len() == T::spec_num_args()
            &&& params.lowerable() ==> params.flattens_to(args@)
            &&& params.lowerable() ==> T::spec_from_js_args(args@, final(memory).written_bytes())
                == Ok::<(T::Model, nat), AbiError>((params.model(), T::spec_num_args()))
        } else {
            &&& args@.len() == 1
            &&& exists|a: u32| args@[0] == #[trigger] u32_number(a)
            &&& params.lowerable() ==> spec_lift_ptr::<T>(args@[0], final(memory).written_bytes())
                == Ok::<T::Model, AbiError>(params.model())
        },
{
    proof {
        T::lemma_size_description();
    }
    if T::num_args() <= 16 {
        let mut args: Vec<JsValue> = Vec::new();
        params.to_js_args(&mut args, memory)?;
        assert(args@.skip(0) =~= args@);
        Ok(args)
    } else {
        let pointer = to_js_ptr_return(params, memory)?;
        let mut args: Vec<JsValue> = Vec::new();
        args.push(pointer);
        Ok(args)
    }
}

/// The address that follows the parameters of an imported function whose
/// result flattens to more than one value leaves room for the result
/// within the allocated memory.
pub open spec fn result_slot_fits<R: Lower>(rest: Seq<JsValue>, allocated: nat) -> bool {
    R::spec_num_args() > 1 && rest.len() > 0 ==> match u32::spec_from_js_value(rest[0]) {
        Ok(addr) => addr + R::spec_byte_size() <= allocated,
        Err(_) => true,
    }
}

/// `after` differs from `before` only in the slot `slot..slot + len` and in
/// the fresh allocations `lo..hi`.
pub open spec fn changed_only_in_slot(
    before: Seq<u8>,
    after: Seq<u8>,
    slot: nat,
    len: nat,
    lo: nat,
    hi: nat,
) -> bool {
    &&& before.len() <= after.len()
    &&& forall|i: int|
        0 <= i < before.len() && !(slot <= i < slot + len) && !(lo <= i < hi) ==> after[i]
            == before[i]
}

/// What an imported function hands back to JavaScript for its `result`. A
/// result that flattens to at most one value is returned as that value
/// (`undefined` for none). A larger one is written at the address that the
/// caller passed after the parameters, the next argument of `rest`, and
/// `undefined` is returned.
pub fn lower_import_result<R: Lower, M: WriteableMemory>(
    result: &R,
    rest: &mut JsArgsReader,
    memory: &mut M,
) -> (r: Result<JsValue, AbiError>)
    requires
        R::size_fits(),
        old(memory).memory_wf(),
        result_slot_fits::<R>(old(rest).remaining(), old(memory).allocated()),
    ensures
        final(memory).memory_wf(),
        old(memory).allocated() <= final(memory).allocated(),
        R::spec_num_args() <= 1 ==> {
            &&& final(rest).remaining() == old(rest).remaining()
            &&& changed_only_in(
                old(memory).written_bytes(),
                final(memory).written_bytes(),
                old(memory).allocated(),
                final(memory).allocated(),
            )
            &&& fails_only_for_cause(r, result.size_overflows(), old(memory).refused(), final(memory).refused())
            &&& R::lowers_in_place() ==> r is Ok && *final(memory) == *old(memory)
            &&& r matches Ok(v) ==> {
                &&& R::spec_num_args() == 0 ==> v == JsValue::Undefined
                &&& result.lowerable() ==> result.flattens_to(
                    seq![v].take(R::spec_num_args() as int),
                )
                &&& result.lowerable() ==> R::spec_from_js_args(
                    seq![v].take(R::spec_num_args() as int),
                    final(memory).written_bytes(),
                ) == Ok::<(R::Model, nat), AbiError>((result.model(), R::spec_num_args()))
            }
        },
        R::spec_num_args() > 1 ==> if old(rest).remaining().len() == 0 {
            &&& r == Err::<JsValue, AbiError>(AbiError::MissingArgument)
            &&& *final(memory) == *old(memory)
        } else {
            &&& final(rest).remaining() == old(rest).remaining().skip(1)
            &&& match u32::spec_from_js_value(old(rest).remaining()[0]) {
                Err(e) => r == Err::<JsValue, AbiError>(e) && *final(memory) == *old(memory),
                Ok(addr) => {
                    &&& changed_only_in_slot(
                        old(memory).written_bytes(),
                        final(memory).written_bytes(),
                        addr as nat,
                        R::spec_byte_size(),
                        old(memory).allocated(),
                        final(memory).allocated(),
                    )
                    &&& fails_only_for_cause(
                        r,
                        result.size_overflows(),
                        old(memory).refused(),
                        final(memory).refused(),
                    )
                    &&& R::lowers_in_place() ==> r is Ok
                    &&& r matches Ok(v) ==> {
                        &&& v == JsValue::Undefined
                        &&& result.lowerable() ==> spec_lift_at::<R>(
                            addr as nat,
                            final(memory).written_bytes(),
                        ) == Ok::<R::Model, AbiError>(result.model())
                    }
                },
            }
        },
{
    proof {
        R::lemma_size_description();
    }
    if R::num_args() <= 1 {
        let mut args: Vec<JsValue> = Vec::new();
        result.to_js_args(&mut args, memory)?;
        assert(args@.skip(0) =~= args@);
        if args.len() == 0 {
            assert(seq![JsValue::Undefined].take(0) =~= args@);
            Ok(JsValue::Undefined)
        } else {
            assert(seq![args@[0]].take(1) =~= args@);
            Ok(args[0])
        }
    } else {
        let addr_value = match rest.next() {
            Some(v) => v,
            None => {
                return Err(AbiError::MissingArgument);
            },
        };
        let addr: u32 = u32::from_js_value(&addr_value)?;
        let ghost a0 = memory.allocated();
        let ghost m0 = memory.written_bytes();
        let mut buffer = ByteBuffer::new(addr as usize, R::flat_byte_size());
        let ghost b0 = buffer@;
        result.write_to(&mut buffer, memory)?;
        let ghost m1 = memory.written_bytes();
        let ghost a1 = memory.allocated();
        let ghost w = buffer@;
        proof {
            memory.lemma_memory_wf();
            assert(appended(b0, w) =~= w);
        }
        memory.flush(buffer);
        proof {
            let mem = memory.written_bytes();
            memory.lemma_memory_wf();
            let size = R::spec_byte_size();
            assert(mem.subrange(addr as int, addr + size) =~= w);
            if result.lowerable() {
                assert(agree_on(m1, mem, a0, a1));
                R::lemma_reads_stable(w, m1, mem, a0, a1);
            }
        }
        Ok(JsValue::Undefined)
    }
}

/// In the flat arguments of a result, the payload of an error starts right
/// after the tag 1, and any unused arguments follow it: lifting the tag,
/// the arguments an error lowers to and the padding gives the error back,
/// having taken all of them.
pub proof fn lemma_result_err_args<T: AbiValue, E: Lower>(
    tag: JsValue,
    payload: Seq<JsValue>,
    padding: Seq<JsValue>,
    memory: Seq<u8>,
    err: E::Model,
)
    requires
        <Result<T, E>>::size_fits(),
        u8::spec_from_js_value(tag) == Ok::<u8, AbiError>(1u8),
        payload.len() == E::spec_num_args(),
        E::spec_from_js_args(payload, memory) == Ok::<(E::Model, nat), AbiError>(
            (err, E::spec_num_args()),
        ),
        padding.len() + E::spec_num_args() + 1 == <Result<T, E>>::spec_num_args(),
    ensures
        <Result<T, E>>::spec_from_js_args(seq![tag] + payload + padding, memory) == Ok::<
            (Result<T::Model, E::Model>, nat),
            AbiError,
        >((Err(err), <Result<T, E>>::spec_num_args())),
{
    <Result<T, E>>::lemma_size_description();
    E::lemma_args_prefix(payload, padding, memory, 0, 0);
    let args = seq![tag] + payload + padding;
    assert(args.skip(1) =~= payload + padding);
}

/// In the flat arguments of a result, the payload of a success starts right
/// after the tag 0, and any unused arguments follow it: lifting the tag, the
/// arguments a value lowers to and the padding gives the value back, having
/// taken all of them.
pub proof fn lemma_result_ok_args<T: Lower, E: AbiValue>(
    tag: JsValue,
    payload: Seq<JsValue>,
    padding: Seq<JsValue>,
    memory: Seq<u8>,
    ok: T::Model,
)
    requires
        <Result<T, E>>::size_fits(),
        u8::spec_from_js_value(tag) == Ok::<u8, AbiError>(0u8),
        payload.len() == T::spec_num_args(),
        T::spec_from_js_args(payload, memory) == Ok::<(T::Model, nat), AbiError>(
            (ok, T::spec_num_args()),
        ),
        padding.len() + T::spec_num_args() + 1 == <Result<T, E>>::spec_num_args(),
    ensures
        <Result<T, E>>::spec_from_js_args(seq![tag] + payload + padding, memory) == Ok::<
            (Result<T::Model, E::Model>, nat),
            AbiError,
        >((Ok(ok), <Result<T, E>>::spec_num_args())),
{
    <Result<T, E>>::lemma_size_description();
    T::lemma_args_prefix(payload, padding, memory, 0, 0);
    let args = seq![tag] + payload + padding;
    assert(args.skip(1) =~= payload + padding);
}

/// In the flat arguments of an option, the payload of `Some` starts right
/// after the tag 1: lifting the tag and the arguments a value lowers to gives
/// the value back, having taken all of them; the tag 0 gives `None`, taking
/// as many arguments.
pub proof fn lemma_option_args<T: Lower>(
    tag: JsValue,
    payload: Seq<JsValue>,
    memory: Seq<u8>,
    x: T::Model,
)
    requires
        <Option<T>>::size_fits(),
        payload.len() == T::spec_num_args(),
        T::spec_from_js_args(payload, memory) == Ok::<(T::Model, nat), AbiError>(
            (x, T::spec_num_args()),
        ),
    ensures
        u8::spec_from_js_value(tag) == Ok::<u8, AbiError>(1u8) ==> <Option<T>>::spec_from_js_args(
            seq![tag] + payload,
            memory,
        ) == Ok::<(Option<T::Model>, nat), AbiError>((Some(x), <Option<T>>::spec_num_args())),
        u8::spec_from_js_value(tag) == Ok::<u8, AbiError>(0u8) ==> <Option<T>>::spec_from_js_args(
            seq![tag] + payload,
            memory,
        ) == Ok::<(Option<T::Model>, nat), AbiError>((None, <Option<T>>::spec_num_args())),
{
    let args = seq![tag] + payload;
    assert(args.skip(1) =~= payload);
}

} // verus!
