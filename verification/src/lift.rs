//! Reading values back out of their canonical-ABI byte encoding, out of the
//! value an exported function returns, and out of the arguments of an
//! imported function.

use vstd::prelude::*;
use vstd::bytes::*;
use vstd::utf8::*;

use crate::js::{FromJsValue, JsValue};
use crate::layout::{lemma_next_multiple_of, spec_max, SizeDescription};
use crate::memory::ReadableMemory;

verus! {

/// Why a value could not be converted to or from its byte encoding.
#[derive(Debug, Clone, Copy, PartialEq, Eq)]
pub enum AbiError {
    /// A primitive was read from a slice of the wrong length.
    WrongLength,
    /// A boolean byte other than 0 or 1.
    InvalidBool(u8),
    /// A code that is not a Unicode scalar value.
    InvalidChar(u32),
    /// String bytes that are not UTF-8.
    InvalidUtf8,
    /// An option or result tag other than 0 or 1.
    InvalidTag(u8),
    /// A list's address and length were not 8 bytes.
    BadListHeader,
    /// Bytes outside the memory were asked for.
    OutOfBounds,
    /// A size does not fit in a `usize`.
    SizeOverflow,
    /// The memory could not allocate.
    OutOfMemory,
    /// A JavaScript value of the wrong kind, or out of range.
    UnexpectedJsValue,
    /// Fewer JavaScript arguments than the type flattens to.
    MissingArgument,
}

/// The bytes of the `i`-th element of a list of `size`-byte elements.
pub open spec fn chunk(data: Seq<u8>, size: nat, i: nat) -> Seq<u8> {
    data.subrange((i * size) as int, ((i + 1) * size) as int)
}

/// Lifts the first `n` elements of `data`, or gives the error of the first
/// element that fails.
pub open spec fn lift_seq<T: AbiValue>(data: Seq<u8>, memory: Seq<u8>, size: nat, n: nat) -> Result<
    Seq<T::Model>,
    AbiError,
>
    decreases n,
{
    if n == 0 {
        Ok(Seq::empty())
    } else {
        match lift_seq::<T>(data, memory, size, (n - 1) as nat) {
            Ok(s) => match T::spec_lift(chunk(data, size, (n - 1) as nat), memory) {
                Ok(x) => Ok(s.push(x)),
                Err(e) => Err(e),
            },
            Err(e) => Err(e),
        }
    }
}

/// Lifts a list of `len` elements stored at `addr`: `OutOfBounds` if the list
/// does not lie inside the memory, else the elements or the error of the
/// first one that fails.
pub open spec fn spec_read_vec<T: AbiValue>(addr: nat, len: nat, memory: Seq<u8>) -> Result<
    Seq<T::Model>,
    AbiError,
> {
    let size = T::spec_byte_size();
    if addr + size * len > memory.len() {
        Err(AbiError::OutOfBounds)
    } else {
        lift_seq::<T>(memory.subrange(addr as int, (addr + size * len) as int), memory, size, len)
    }
}

/// Lifts the value of type `T` stored at `addr`, or `OutOfBounds` if it does
/// not lie inside the memory.
pub open spec fn spec_lift_at<T: AbiValue>(addr: nat, memory: Seq<u8>) -> Result<T::Model, AbiError> {
    let size = T::spec_byte_size();
    if addr + size > memory.len() {
        Err(AbiError::OutOfBounds)
    } else {
        T::spec_lift(memory.subrange(addr as int, (addr + size) as int), memory)
    }
}

/// The models of the elements of a vec.
pub open spec fn models<T: AbiValue>(v: Seq<T>) -> Seq<T::Model> {
    v.map_values(|x: T| x.model())
}

/// Once an element fails to lift, every longer prefix fails with its error.
pub proof fn lemma_lift_seq_err<T: AbiValue>(data: Seq<u8>, memory: Seq<u8>, size: nat, n: nat, m: nat)
    requires
        n <= m,
        lift_seq::<T>(data, memory, size, n) is Err,
    ensures
        lift_seq::<T>(data, memory, size, m) == lift_seq::<T>(data, memory, size, n),
    decreases m - n,
{
    if n < m {
        lemma_lift_seq_err::<T>(data, memory, size, n, (m - 1) as nat);
    }
}

/// When every element lifts to the model of the matching value, the list
/// lifts to the models of those values.
pub proof fn lemma_lift_seq_all<T: AbiValue>(
    data: Seq<u8>,
    memory: Seq<u8>,
    size: nat,
    n: nat,
    vals: Seq<T>,
)
    requires
        n <= vals.len(),
        forall|k: nat|
            k < n ==> #[trigger] T::spec_lift(chunk(data, size, k), memory) == Ok::<T::Model, AbiError>(
                vals[k as int].model(),
            ),
    ensures
        lift_seq::<T>(data, memory, size, n) == Ok::<Seq<T::Model>, AbiError>(models(vals.take(n as int))),
    decreases n,
{
    if n > 0 {
        lemma_lift_seq_all::<T>(data, memory, size, (n - 1) as nat, vals);
        assert(T::spec_lift(chunk(data, size, (n - 1) as nat), memory) == Ok::<T::Model, AbiError>(
            vals[n - 1].model(),
        ));
        assert(models(vals.take(n as int)) =~= models(vals.take(n - 1)).push(vals[n - 1].model()));
    } else {
        assert(models(vals.take(0)) =~= Seq::<T::Model>::empty());
    }
}

/// A type with a byte encoding in the canonical ABI, and the mathematical
/// value that each encoding stands for.
pub trait AbiValue: SizeDescription {
    /// The mathematical value that a value of this type stands for.
    type Model;

    /// The mathematical value that `self` stands for.
    spec fn model(&self) -> Self::Model;

    /// `read_from` takes a byte slice of any length and answers an error
    /// where the length is wrong; otherwise the slice must hold at least
    /// the byte size of the type.
    spec fn reads_any_length() -> bool;

    /// The value that `bytes` encode, with `memory` holding whatever the
    /// bytes point to, or why they encode no value.
    spec fn spec_lift(bytes: Seq<u8>, memory: Seq<u8>) -> Result<Self::Model, AbiError>;

    /// The value that `value`, returned by an exported function, stands for.
    spec fn spec_from_js_return(value: JsValue, memory: Seq<u8>) -> Result<Self::Model, AbiError>;

    /// The value that the first of the flattened arguments `args` stand for,
    /// and how many of them it takes.
    spec fn spec_from_js_args(args: Seq<JsValue>, memory: Seq<u8>) -> Result<
        (Self::Model, nat),
        AbiError,
    >;

    /// A value takes exactly as many arguments as its type flattens to.
    proof fn lemma_from_js_args_count(args: Seq<JsValue>, memory: Seq<u8>)
        requires
            Self::size_fits(),
        ensures
            match Self::spec_from_js_args(args, memory) {
                Ok((_, n)) => n == Self::spec_num_args() && n <= args.len(),
                Err(_) => true,
            },
    ;
}

/// Converts a value of the canonical ABI from its byte encoding, from the
/// value an exported function returns, or from the arguments of an
/// imported function.
pub trait Lift: AbiValue + Sized {
    /// Converts the value returned by an exported function.
    fn from_js_return<M: ReadableMemory>(value: &JsValue, memory: &M) -> (r: Result<
        Self,
        AbiError,
    >)
        requires
            Self::size_fits(),
        ensures
            match r {
                Ok(v) => Self::spec_from_js_return(*value, memory.readable_bytes()) == Ok::<
                    Self::Model,
                    AbiError,
                >(v.model()),
                Err(e) => Self::spec_from_js_return(*value, memory.readable_bytes()) == Err::<
                    Self::Model,
                    AbiError,
                >(e),
            },
    ;

    /// Converts the next arguments of an imported function.
    fn from_js_args<M: ReadableMemory>(args: &mut JsArgsReader, memory: &M) -> (r: Result<
        Self,
        AbiError,
    >)
        requires
            Self::size_fits(),
        ensures
            match r {
                Ok(v) => match Self::spec_from_js_args(old(args).remaining(), memory.readable_bytes()) {
                    Ok((m, n)) => {
                        &&& m == v.model()
                        &&& n <= old(args).remaining().len()
                        &&& final(args).remaining() == old(args).remaining().skip(n as int)
                    },
                    Err(_) => false,
                },
                Err(e) => Self::spec_from_js_args(old(args).remaining(), memory.readable_bytes())
                    == Err::<(Self::Model, nat), AbiError>(e),
            },
    ;

    /// Reads a value from its byte encoding `slice`, following pointers into `memory`.
    fn read_from<M: ReadableMemory>(slice: &[u8], memory: &M) -> (r: Result<Self, AbiError>)
        requires
            Self::size_fits(),
            Self::reads_any_length() || slice@.len() >= Self::spec_byte_size(),
        ensures
            match r {
                Ok(v) => Self::spec_lift(slice@, memory.readable_bytes()) == Ok::<
                    Self::Model,
                    AbiError,
                >(v.model()),
                Err(e) => Self::spec_lift(slice@, memory.readable_bytes()) == Err::<
                    Self::Model,
                    AbiError,
                >(e),
            },
    ;
}

/// The arguments of an imported function, read one by one.
pub struct JsArgsReader {
    args: Vec<JsValue>,
    index: usize,
}

impl JsArgsReader {
    #[verifier::type_invariant]
    spec fn inv(&self) -> bool {
        self.index <= self.args@.len()
    }

    /// The arguments not read yet.
    pub closed spec fn remaining(&self) -> Seq<JsValue> {
        self.args@.skip(self.index as int)
    }

    /// A reader at the first of `args`.
    pub fn new(args: Vec<JsValue>) -> (r: JsArgsReader)
        ensures
            r.remaining() == args@,
    {
        let r = JsArgsReader { args, index: 0 };
        assert(r.args@.skip(0) =~= r.args@);
        r
    }

    /// The next argument, if any is left.
    pub fn next(&mut self) -> (r: Option<JsValue>)
        ensures
            match r {
                Some(v) => {
                    &&& old(self).remaining().len() > 0
                    &&& v == old(self).remaining()[0]
                    &&& final(self).remaining() == old(self).remaining().skip(1)
                },
                None => {
                    &&& old(self).remaining().len() == 0
                    &&& final(self).remaining() == old(self).remaining()
                },
            },
    {
        proof {
            use_type_invariant(&*self);
        }
        if self.index < self.args.len() {
            let v = self.args[self.index];
            let ghost before = self.args@.skip(self.index as int);
            self.index = self.index + 1;
            assert(self.args@.skip(self.index as int) =~= before.skip(1));
            Some(v)
        } else {
            None
        }
    }
}

/// The first of `args`, converted, and the one argument it takes.
pub open spec fn spec_first_arg<T: FromJsValue>(args: Seq<JsValue>) -> Result<(T, nat), AbiError> {
    if args.len() == 0 {
        Err(AbiError::MissingArgument)
    } else {
        match T::spec_from_js_value(args[0]) {
            Ok(x) => Ok((x, 1)),
            Err(e) => Err(e),
        }
    }
}

/// Converts the next argument.
fn first_arg<T: FromJsValue>(args: &mut JsArgsReader) -> (r: Result<T, AbiError>)
    ensures
        match r {
            Ok(v) => {
                &&& spec_first_arg::<T>(old(args).remaining()) == Ok::<(T, nat), AbiError>((v, 1))
                &&& final(args).remaining() == old(args).remaining().skip(1)
            },
            Err(e) => spec_first_arg::<T>(old(args).remaining()) == Err::<(T, nat), AbiError>(e),
        },
{
    match args.next() {
        Some(v) => T::from_js_value(&v),
        None => Err(AbiError::MissingArgument),
    }
}

/// Skips `count` arguments; `MissingArgument` if fewer are left.
fn skip_args(args: &mut JsArgsReader, count: usize) -> (r: Result<(), AbiError>)
    ensures
        r is Ok <==> count <= old(args).remaining().len(),
        r is Ok ==> final(args).remaining() == old(args).remaining().skip(count as int),
        r matches Err(e) ==> e == AbiError::MissingArgument,
{
    let ghost start = args.remaining();
    let mut i: usize = 0;
    assert(start.skip(0) =~= start);
    while i < count
        invariant
            i <= count,
            i <= start.len(),
            start == old(args).remaining(),
            args.remaining() == start.skip(i as int),
        decreases count - i,
    {
        match args.next() {
            Some(_) => {},
            None => {
                assert(start.skip(i as int).len() == start.len() - i);
                return Err(AbiError::MissingArgument);
            },
        }
        assert(start.skip(i as int).skip(1) =~= start.skip(i + 1));
        i = i + 1;
    }
    Ok(())
}

/// The `size` bytes at the address that `value` holds: `OutOfBounds` if they
/// do not lie inside the memory.
pub open spec fn spec_ptr_bytes(value: JsValue, size: nat, memory: Seq<u8>) -> Result<
    Seq<u8>,
    AbiError,
> {
    match u32::spec_from_js_value(value) {
        Ok(addr) => if addr + size > memory.len() {
            Err(AbiError::OutOfBounds)
        } else {
            Ok(memory.subrange(addr as int, addr + size))
        },
        Err(e) => Err(e),
    }
}

/// Reads the `size` bytes at the address that `value` holds.
fn read_ptr_bytes<M: ReadableMemory>(value: &JsValue, size: usize, memory: &M) -> (r: Result<
    Vec<u8>,
    AbiError,
>)
    ensures
        match r {
            Ok(b) => spec_ptr_bytes(*value, size as nat, memory.readable_bytes()) == Ok::<
                Seq<u8>,
                AbiError,
            >(b@),
            Err(e) => spec_ptr_bytes(*value, size as nat, memory.readable_bytes()) == Err::<
                Seq<u8>,
                AbiError,
            >(e),
        },
{
    let addr: u32 = u32::from_js_value(value)?;
    let a: usize = addr as usize;
    let len: usize = memory.byte_len();
    if size > len || a > len - size {
        return Err(AbiError::OutOfBounds);
    }
    Ok(memory.read_to_vec(a, size))
}

/// The value of type `T` stored at the address that `value` holds.
pub open spec fn spec_lift_ptr<T: AbiValue>(value: JsValue, memory: Seq<u8>) -> Result<
    T::Model,
    AbiError,
> {
    match u32::spec_from_js_value(value) {
        Ok(addr) => spec_lift_at::<T>(addr as nat, memory),
        Err(e) => Err(e),
    }
}

/// A result that flattens to more than one value is returned by an
/// exported function as the address where it is stored: lifting the
/// returned value reads the result from memory there.
pub proof fn lemma_result_returned_by_address<T: AbiValue, E: AbiValue>(
    value: JsValue,
    memory: Seq<u8>,
)
    requires
        <Result<T, E>>::spec_num_args() > 1,
    ensures
        <Result<T, E>>::spec_from_js_return(value, memory) == spec_lift_ptr::<Result<T, E>>(
            value,
            memory,
        ),
{
}

/// An option is always returned by an exported function as the address
/// where it is stored: lifting the returned value reads it from memory there.
pub proof fn lemma_option_returned_by_address<T: AbiValue>(value: JsValue, memory: Seq<u8>)
    ensures
        <Option<T>>::spec_from_js_return(value, memory) == spec_lift_ptr::<Option<T>>(value, memory),
{
}

/// Reads the value of type `T` stored at the address that `value` holds.
pub fn from_js_ptr_return<T: Lift, M: ReadableMemory>(value: &JsValue, memory: &M) -> (r: Result<
    T,
    AbiError,
>)
    requires
        T::size_fits(),
    ensures
        match r {
            Ok(v) => spec_lift_ptr::<T>(*value, memory.readable_bytes()) == Ok::<T::Model, AbiError>(
                v.model(),
            ),
            Err(e) => spec_lift_ptr::<T>(*value, memory.readable_bytes()) == Err::<
                T::Model,
                AbiError,
            >(e),
        },
{
    proof {
        T::lemma_size_description();
    }
    let data = read_ptr_bytes(value, T::flat_byte_size(), memory)?;
    T::read_from(data.as_slice(), memory)
}

/// The parameters of an imported function, lifted from its JavaScript
/// arguments: from the flattened arguments when there are at most 16 of
/// them, otherwise from memory at the address passed as the one argument.
pub fn lift_import_args<P: Lift, M: ReadableMemory>(args: &mut JsArgsReader, memory: &M) -> (r:
    Result<P, AbiError>)
    requires
        P::size_fits(),
    ensures
        P::spec_num_args() <= 16 ==> match r {
            Ok(v) => match P::spec_from_js_args(old(args).remaining(), memory.readable_bytes()) {
                Ok((m, n)) => {
                    &&& m == v.model()
                    &&& n == P::spec_num_args()
                    &&& final(args).remaining() == old(args).remaining().skip(n as int)
                },
                Err(_) => false,
            },
            Err(e) => P::spec_from_js_args(old(args).remaining(), memory.readable_bytes()) == Err::<
                (P::Model, nat),
                AbiError,
            >(e),
        },
        P::spec_num_args() > 16 ==> if old(args).remaining().len() == 0 {
            &&& r == Err::<P, AbiError>(AbiError::MissingArgument)
            &&& final(args).remaining() == old(args).remaining()
        } else {
            &&& final(args).remaining() == old(args).remaining().skip(1)
            &&& match r {
                Ok(v) => spec_lift_ptr::<P>(old(args).remaining()[0], memory.readable_bytes())
                    == Ok::<P::Model, AbiError>(v.model()),
                Err(e) => spec_lift_ptr::<P>(old(args).remaining()[0], memory.readable_bytes())
                    == Err::<P::Model, AbiError>(e),
            }
        },
{
    if P::num_args() <= 16 {
        let r = P::from_js_args(args, memory);
        proof {
            P::lemma_from_js_args_count(old(args).remaining(), memory.readable_bytes());
        }
        r
    } else {
        match args.next() {
            Some(addr) => from_js_ptr_return(&addr, memory),
            None => Err(AbiError::MissingArgument),
        }
    }
}

/// Reads a boolean from its byte: 0 is false, 1 is true, anything else an error.
pub fn u8_to_bool(value: u8) -> (r: Result<bool, AbiError>)
    ensures
        r == spec_u8_to_bool(value),
{
    match value {
        0 => Ok(false),
        1 => Ok(true),
        n => Err(AbiError::InvalidBool(n)),
    }
}

/// 0 is false, 1 is true, anything else an error.
pub open spec fn spec_u8_to_bool(value: u8) -> Result<bool, AbiError> {
    if value == 0 {
        Ok(false)
    } else if value == 1 {
        Ok(true)
    } else {
        Err(AbiError::InvalidBool(value))
    }
}

impl AbiValue for u8 {
    type Model = u8;

    open spec fn reads_any_length() -> bool {
        true
    }

    open spec fn model(&self) -> u8 {
        *self
    }

    open spec fn spec_lift(bytes: Seq<u8>, memory: Seq<u8>) -> Result<u8, AbiError> {
        if bytes.len() == 1 {
            Ok(bytes[0])
        } else {
            Err(AbiError::WrongLength)
        }
    }

    open spec fn spec_from_js_return(value: JsValue, memory: Seq<u8>) -> Result<u8, AbiError> {
        u8::spec_from_js_value(value)
    }

    open spec fn spec_from_js_args(args: Seq<JsValue>, memory: Seq<u8>) -> Result<(u8, nat), AbiError> {
        spec_first_arg::<u8>(args)
    }

    proof fn lemma_from_js_args_count(args: Seq<JsValue>, memory: Seq<u8>) {
    }
}

impl Lift for u8 {
    fn from_js_return<M: ReadableMemory>(value: &JsValue, memory: &M) -> (r: Result<u8, AbiError>) {
        u8::from_js_value(value)
    }

    fn from_js_args<M: ReadableMemory>(args: &mut JsArgsReader, memory: &M) -> (r: Result<
        u8,
        AbiError,
    >) {
        first_arg::<u8>(args)
    }

    fn read_from<M: ReadableMemory>(slice: &[u8], memory: &M) -> (r: Result<u8, AbiError>) {
        if slice.len() != 1 {
            return Err(AbiError::WrongLength);
        }
        Ok(slice[0])
    }
}

impl AbiValue for i8 {
    type Model = i8;

    open spec fn reads_any_length() -> bool {
        true
    }

    open spec fn model(&self) -> i8 {
        *self
    }

    open spec fn spec_lift(bytes: Seq<u8>, memory: Seq<u8>) -> Result<i8, AbiError> {
        if bytes.len() == 1 {
            Ok(bytes[0] as i8)
        } else {
            Err(AbiError::WrongLength)
        }
    }

    open spec fn spec_from_js_return(value: JsValue, memory: Seq<u8>) -> Result<i8, AbiError> {
        i8::spec_from_js_value(value)
    }

    open spec fn spec_from_js_args(args: Seq<JsValue>, memory: Seq<u8>) -> Result<(i8, nat), AbiError> {
        spec_first_arg::<i8>(args)
    }

    proof fn lemma_from_js_args_count(args: Seq<JsValue>, memory: Seq<u8>) {
    }
}

impl Lift for i8 {
    fn from_js_return<M: ReadableMemory>(value: &JsValue, memory: &M) -> (r: Result<i8, AbiError>) {
        i8::from_js_value(value)
    }

    fn from_js_args<M: ReadableMemory>(args: &mut JsArgsReader, memory: &M) -> (r: Result<
        i8,
        AbiError,
    >) {
        first_arg::<i8>(args)
    }

    fn read_from<M: ReadableMemory>(slice: &[u8], memory: &M) -> (r: Result<i8, AbiError>) {
        if slice.len() != 1 {
            return Err(AbiError::WrongLength);
        }
        Ok(slice[0] as i8)
    }
}

impl AbiValue for u16 {
    type Model = u16;

    open spec fn reads_any_length() -> bool {
        true
    }

    open spec fn model(&self) -> u16 {
        *self
    }

    open spec fn spec_lift(bytes: Seq<u8>, memory: Seq<u8>) -> Result<u16, AbiError> {
        if bytes.len() == 2 {
            Ok(spec_u16_from_le_bytes(bytes))
        } else {
            Err(AbiError::WrongLength)
        }
    }

    open spec fn spec_from_js_return(value: JsValue, memory: Seq<u8>) -> Result<u16, AbiError> {
        u16::spec_from_js_value(value)
    }

    open spec fn spec_from_js_args(args: Seq<JsValue>, memory: Seq<u8>) -> Result<(u16, nat), AbiError> {
        spec_first_arg::<u16>(args)
    }

    proof fn lemma_from_js_args_count(args: Seq<JsValue>, memory: Seq<u8>) {
    }
}

impl Lift for u16 {
    fn from_js_return<M: ReadableMemory>(value: &JsValue, memory: &M) -> (r: Result<u16, AbiError>) {
        u16::from_js_value(value)
    }

    fn from_js_args<M: ReadableMemory>(args: &mut JsArgsReader, memory: &M) -> (r: Result<
        u16,
        AbiError,
    >) {
        first_arg::<u16>(args)
    }

    fn read_from<M: ReadableMemory>(slice: &[u8], memory: &M) -> (r: Result<u16, AbiError>) {
        if slice.len() != 2 {
            return Err(AbiError::WrongLength);
        }
        Ok(u16_from_le_bytes(slice))
    }
}

impl AbiValue for i16 {
    type Model = i16;

    open spec fn reads_any_length() -> bool {
        true
    }

    open spec fn model(&self) -> i16 {
        *self
    }

    open spec fn spec_lift(bytes: Seq<u8>, memory: Seq<u8>) -> Result<i16, AbiError> {
        if bytes.len() == 2 {
            Ok(spec_u16_from_le_bytes(bytes) as i16)
        } else {
            Err(AbiError::WrongLength)
        }
    }

    open spec fn spec_from_js_return(value: JsValue, memory: Seq<u8>) -> Result<i16, AbiError> {
        i16::spec_from_js_value(value)
    }

    open spec fn spec_from_js_args(args: Seq<JsValue>, memory: Seq<u8>) -> Result<(i16, nat), AbiError> {
        spec_first_arg::<i16>(args)
    }

    proof fn lemma_from_js_args_count(args: Seq<JsValue>, memory: Seq<u8>) {
    }
}

impl Lift for i16 {
    fn from_js_return<M: ReadableMemory>(value: &JsValue, memory: &M) -> (r: Result<i16, AbiError>) {
        i16::from_js_value(value)
    }

    fn from_js_args<M: ReadableMemory>(args: &mut JsArgsReader, memory: &M) -> (r: Result<
        i16,
        AbiError,
    >) {
        first_arg::<i16>(args)
    }

    fn read_from<M: ReadableMemory>(slice: &[u8], memory: &M) -> (r: Result<i16, AbiError>) {
        if slice.len() != 2 {
            return Err(AbiError::WrongLength);
        }
        Ok(u16_from_le_bytes(slice) as i16)
    }
}

impl AbiValue for u32 {
    type Model = u32;

    open spec fn reads_any_length() -> bool {
        true
    }

    open spec fn model(&self) -> u32 {
        *self
    }

    open spec fn spec_lift(bytes: Seq<u8>, memory: Seq<u8>) -> Result<u32, AbiError> {
        if bytes.len() == 4 {
            Ok(spec_u32_from_le_bytes(bytes))
        } else {
            Err(AbiError::WrongLength)
        }
    }

    open spec fn spec_from_js_return(value: JsValue, memory: Seq<u8>) -> Result<u32, AbiError> {
        u32::spec_from_js_value(value)
    }

    open spec fn spec_from_js_args(args: Seq<JsValue>, memory: Seq<u8>) -> Result<(u32, nat), AbiError> {
        spec_first_arg::<u32>(args)
    }

    proof fn lemma_from_js_args_count(args: Seq<JsValue>, memory: Seq<u8>) {
    }
}

impl Lift for u32 {
    fn from_js_return<M: ReadableMemory>(value: &JsValue, memory: &M) -> (r: Result<u32, AbiError>) {
        u32::from_js_value(value)
    }

    fn from_js_args<M: ReadableMemory>(args: &mut JsArgsReader, memory: &M) -> (r: Result<
        u32,
        AbiError,
    >) {
        first_arg::<u32>(args)
    }

    fn read_from<M: ReadableMemory>(slice: &[u8], memory: &M) -> (r: Result<u32, AbiError>) {
        if slice.len() != 4 {
            return Err(AbiError::WrongLength);
        }
        Ok(u32_from_le_bytes(slice))
    }
}

impl AbiValue for i32 {
    type Model = i32;

    open spec fn reads_any_length() -> bool {
        true
    }

    open spec fn model(&self) -> i32 {
        *self
    }

    open spec fn spec_lift(bytes: Seq<u8>, memory: Seq<u8>) -> Result<i32, AbiError> {
        if bytes.len() == 4 {
            Ok(spec_u32_from_le_bytes(bytes) as i32)
        } else {
            Err(AbiError::WrongLength)
        }
    }

    open spec fn spec_from_js_return(value: JsValue, memory: Seq<u8>) -> Result<i32, AbiError> {
        i32::spec_from_js_value(value)
    }

    open spec fn spec_from_js_args(args: Seq<JsValue>, memory: Seq<u8>) -> Result<(i32, nat), AbiError> {
        spec_first_arg::<i32>(args)
    }

    proof fn lemma_from_js_args_count(args: Seq<JsValue>, memory: Seq<u8>) {
    }
}

impl Lift for i32 {
    fn from_js_return<M: ReadableMemory>(value: &JsValue, memory: &M) -> (r: Result<i32, AbiError>) {
        i32::from_js_value(value)
    }

    fn from_js_args<M: ReadableMemory>(args: &mut JsArgsReader, memory: &M) -> (r: Result<
        i32,
        AbiError,
    >) {
        first_arg::<i32>(args)
    }

    fn read_from<M: ReadableMemory>(slice: &[u8], memory: &M) -> (r: Result<i32, AbiError>) {
        if slice.len() != 4 {
            return Err(AbiError::WrongLength);
        }
        Ok(u32_from_le_bytes(slice) as i32)
    }
}

impl AbiValue for u64 {
    type Model = u64;

    open spec fn reads_any_length() -> bool {
        true
    }

    open spec fn model(&self) -> u64 {
        *self
    }

    open spec fn spec_lift(bytes: Seq<u8>, memory: Seq<u8>) -> Result<u64, AbiError> {
        if bytes.len() == 8 {
            Ok(spec_u64_from_le_bytes(bytes))
        } else {
            Err(AbiError::WrongLength)
        }
    }

    open spec fn spec_from_js_return(value: JsValue, memory: Seq<u8>) -> Result<u64, AbiError> {
        u64::spec_from_js_value(value)
    }

    open spec fn spec_from_js_args(args: Seq<JsValue>, memory: Seq<u8>) -> Result<(u64, nat), AbiError> {
        spec_first_arg::<u64>(args)
    }

    proof fn lemma_from_js_args_count(args: Seq<JsValue>, memory: Seq<u8>) {
    }
}

impl Lift for u64 {
    fn from_js_return<M: ReadableMemory>(value: &JsValue, memory: &M) -> (r: Result<u64, AbiError>) {
        u64::from_js_value(value)
    }

    fn from_js_args<M: ReadableMemory>(args: &mut JsArgsReader, memory: &M) -> (r: Result<
        u64,
        AbiError,
    >) {
        first_arg::<u64>(args)
    }

    fn read_from<M: ReadableMemory>(slice: &[u8], memory: &M) -> (r: Result<u64, AbiError>) {
        if slice.len() != 8 {
            return Err(AbiError::WrongLength);
        }
        Ok(u64_from_le_bytes(slice))
    }
}

impl AbiValue for i64 {
    type Model = i64;

    open spec fn reads_any_length() -> bool {
        true
    }

    open spec fn model(&self) -> i64 {
        *self
    }

    open spec fn spec_lift(bytes: Seq<u8>, memory: Seq<u8>) -> Result<i64, AbiError> {
        if bytes.len() == 8 {
            Ok(spec_u64_from_le_bytes(bytes) as i64)
        } else {
            Err(AbiError::WrongLength)
        }
    }

    open spec fn spec_from_js_return(value: JsValue, memory: Seq<u8>) -> Result<i64, AbiError> {
        i64::spec_from_js_value(value)
    }

    open spec fn spec_from_js_args(args: Seq<JsValue>, memory: Seq<u8>) -> Result<(i64, nat), AbiError> {
        spec_first_arg::<i64>(args)
    }

    proof fn lemma_from_js_args_count(args: Seq<JsValue>, memory: Seq<u8>) {
    }
}

impl Lift for i64 {
    fn from_js_return<M: ReadableMemory>(value: &JsValue, memory: &M) -> (r: Result<i64, AbiError>) {
        i64::from_js_value(value)
    }

    fn from_js_args<M: ReadableMemory>(args: &mut JsArgsReader, memory: &M) -> (r: Result<
        i64,
        AbiError,
    >) {
        first_arg::<i64>(args)
    }

    fn read_from<M: ReadableMemory>(slice: &[u8], memory: &M) -> (r: Result<i64, AbiError>) {
        if slice.len() != 8 {
            return Err(AbiError::WrongLength);
        }
        Ok(u64_from_le_bytes(slice) as i64)
    }
}

impl AbiValue for bool {
    type Model = bool;

    open spec fn reads_any_length() -> bool {
        false
    }

    open spec fn model(&self) -> bool {
        *self
    }

    open spec fn spec_lift(bytes: Seq<u8>, memory: Seq<u8>) -> Result<bool, AbiError> {
        spec_u8_to_bool(bytes[0])
    }

    open spec fn spec_from_js_return(value: JsValue, memory: Seq<u8>) -> Result<bool, AbiError> {
        match u8::spec_from_js_value(value) {
            Ok(b) => spec_u8_to_bool(b),
            Err(e) => Err(e),
        }
    }

    open spec fn spec_from_js_args(args: Seq<JsValue>, memory: Seq<u8>) -> Result<(bool, nat), AbiError> {
        if args.len() == 0 {
            Err(AbiError::MissingArgument)
        } else {
            match Self::spec_from_js_return(args[0], memory) {
                Ok(b) => Ok((b, 1)),
                Err(e) => Err(e),
            }
        }
    }

    proof fn lemma_from_js_args_count(args: Seq<JsValue>, memory: Seq<u8>) {
    }
}

impl Lift for bool {
    fn from_js_return<M: ReadableMemory>(value: &JsValue, memory: &M) -> (r: Result<bool, AbiError>) {
        let b: u8 = u8::from_js_value(value)?;
        u8_to_bool(b)
    }

    fn from_js_args<M: ReadableMemory>(args: &mut JsArgsReader, memory: &M) -> (r: Result<
        bool,
        AbiError,
    >) {
        match args.next() {
            Some(v) => Self::from_js_return(&v, memory),
            None => Err(AbiError::MissingArgument),
        }
    }

    fn read_from<M: ReadableMemory>(slice: &[u8], memory: &M) -> (r: Result<bool, AbiError>) {
        let value: u8 = slice[0];
        u8_to_bool(value)
    }
}

/// The character with code `code`, if `code` is a Unicode scalar value.
#[verifier::external_body]
fn char_from_u32(code: u32) -> (r: Option<char>)
    ensures
        r == if is_scalar(code) {
            Some(code as char)
        } else {
            None::<char>
        },
{
    char::from_u32(code)
}

/// A string holding the characters that `bytes` encode, if they are UTF-8.
#[verifier::external_body]
fn string_from_utf8(bytes: Vec<u8>) -> (r: Option<String>)
    ensures
        r is Some <==> valid_utf8(bytes@),
        r matches Some(s) ==> s@ == decode_utf8(bytes@),
{
    String::from_utf8(bytes).ok()
}

impl AbiValue for char {
    type Model = char;

    open spec fn reads_any_length() -> bool {
        true
    }

    open spec fn model(&self) -> char {
        *self
    }

    open spec fn spec_lift(bytes: Seq<u8>, memory: Seq<u8>) -> Result<char, AbiError> {
        match u32::spec_lift(bytes, memory) {
            Ok(code) => if is_scalar(code) {
                Ok(code as char)
            } else {
                Err(AbiError::InvalidChar(code))
            },
            Err(e) => Err(e),
        }
    }

    open spec fn spec_from_js_return(value: JsValue, memory: Seq<u8>) -> Result<char, AbiError> {
        match u32::spec_from_js_return(value, memory) {
            Ok(code) => if is_scalar(code) {
                Ok(code as char)
            } else {
                Err(AbiError::InvalidChar(code))
            },
            Err(e) => Err(e),
        }
    }

    open spec fn spec_from_js_args(args: Seq<JsValue>, memory: Seq<u8>) -> Result<(char, nat), AbiError> {
        if args.len() == 0 {
            Err(AbiError::MissingArgument)
        } else {
            match Self::spec_from_js_return(args[0], memory) {
                Ok(c) => Ok((c, 1)),
                Err(e) => Err(e),
            }
        }
    }

    proof fn lemma_from_js_args_count(args: Seq<JsValue>, memory: Seq<u8>) {
    }
}

impl Lift for char {
    fn from_js_return<M: ReadableMemory>(value: &JsValue, memory: &M) -> (r: Result<char, AbiError>) {
        let code: u32 = u32::from_js_return(value, memory)?;
        match char_from_u32(code) {
            Some(c) => Ok(c),
            None => Err(AbiError::InvalidChar(code)),
        }
    }

    fn from_js_args<M: ReadableMemory>(args: &mut JsArgsReader, memory: &M) -> (r: Result<
        char,
        AbiError,
    >) {
        match args.next() {
            Some(v) => Self::from_js_return(&v, memory),
            None => Err(AbiError::MissingArgument),
        }
    }

    fn read_from<M: ReadableMemory>(slice: &[u8], memory: &M) -> (r: Result<char, AbiError>) {
        let code: u32 = u32::read_from(slice, memory)?;
        match char_from_u32(code) {
            Some(c) => Ok(c),
            None => Err(AbiError::InvalidChar(code)),
        }
    }
}

/// Reads `len` elements of type `T` stored at `addr`.
pub fn read_vec_from<T: Lift, M: ReadableMemory>(addr: usize, len: usize, memory: &M) -> (r: Result<
    Vec<T>,
    AbiError,
>)
    requires
        T::size_fits(),
    ensures
        match r {
            Ok(v) => spec_read_vec::<T>(addr as nat, len as nat, memory.readable_bytes()) == Ok::<
                Seq<T::Model>,
                AbiError,
            >(models(v@)),
            Err(e) => spec_read_vec::<T>(addr as nat, len as nat, memory.readable_bytes()) == Err::<
                Seq<T::Model>,
                AbiError,
            >(e),
        },
{
    proof {
        T::lemma_size_description();
    }
    let ghost mem = memory.readable_bytes();
    let size: usize = T::flat_byte_size();
    let mem_len: usize = memory.byte_len();
    let total: usize = match size.checked_mul(len) {
        Some(t) => t,
        None => {
            return Err(AbiError::OutOfBounds);
        },
    };
    if total > mem_len || addr > mem_len - total {
        return Err(AbiError::OutOfBounds);
    }
    let data = memory.read_to_vec(addr, total);
    let mut result: Vec<T> = Vec::new();
    let mut i: usize = 0;
    assert(models(result@) =~= Seq::<T::Model>::empty());
    while i < len
        invariant
            i <= len,
            total == size * len,
            size == T::spec_byte_size(),
            T::size_fits(),
            data@.len() == total,
            data@ == mem.subrange(addr as int, addr + total),
            addr + total <= mem.len(),
            mem == memory.readable_bytes(),
            lift_seq::<T>(data@, mem, size as nat, i as nat) == Ok::<Seq<T::Model>, AbiError>(models(result@)),
        decreases len - i,
    {
        assert((i + 1) * size <= len * size) by (nonlinear_arith)
            requires
                i < len,
        ;
        assert(i * size + size == (i + 1) * size) by (nonlinear_arith);
        let start: usize = i * size;
        let end: usize = start + size;
        let piece = &data.as_slice()[start..end];
        assert(piece@ == chunk(data@, size as nat, i as nat));
        match T::read_from(piece, memory) {
            Ok(v) => {
                let ghost before = models(result@);
                result.push(v);
                i = i + 1;
                assert(models(result@) =~= before.push(v.model()));
            },
            Err(e) => {
                proof {
                    assert(lift_seq::<T>(data@, mem, size as nat, (i + 1) as nat) == Err::<
                        Seq<T::Model>,
                        AbiError,
                    >(e));
                    lemma_lift_seq_err::<T>(data@, mem, size as nat, (i + 1) as nat, len as nat);
                }
                return Err(e);
            },
        }
    }
    Ok(result)
}

impl<T: AbiValue> AbiValue for Vec<T> {
    type Model = Seq<T::Model>;

    open spec fn reads_any_length() -> bool {
        true
    }

    open spec fn model(&self) -> Seq<T::Model> {
        models(self@)
    }

    open spec fn spec_lift(bytes: Seq<u8>, memory: Seq<u8>) -> Result<Seq<T::Model>, AbiError> {
        if bytes.len() != 8 {
            Err(AbiError::BadListHeader)
        } else {
            spec_read_vec::<T>(
                spec_u32_from_le_bytes(bytes.subrange(0, 4)) as nat,
                spec_u32_from_le_bytes(bytes.subrange(4, 8)) as nat,
                memory,
            )
        }
    }

    open spec fn spec_from_js_return(value: JsValue, memory: Seq<u8>) -> Result<Seq<T::Model>, AbiError> {
        match spec_ptr_bytes(value, Self::spec_byte_size(), memory) {
            Ok(bytes) => Self::spec_lift(bytes, memory),
            Err(e) => Err(e),
        }
    }

    open spec fn spec_from_js_args(args: Seq<JsValue>, memory: Seq<u8>) -> Result<
        (Seq<T::Model>, nat),
        AbiError,
    > {
        if args.len() < 2 {
            Err(AbiError::MissingArgument)
        } else {
            match u32::spec_from_js_value(args[0]) {
                Err(e) => Err(e),
                Ok(addr) => match u32::spec_from_js_value(args[1]) {
                    Err(e) => Err(e),
                    Ok(len) => match spec_read_vec::<T>(addr as nat, len as nat, memory) {
                        Ok(s) => Ok((s, 2)),
                        Err(e) => Err(e),
                    },
                },
            }
        }
    }

    proof fn lemma_from_js_args_count(args: Seq<JsValue>, memory: Seq<u8>) {
    }
}

/// A borrowed slice is encoded as a list.
impl<T: AbiValue> AbiValue for &[T] {
    type Model = Seq<T::Model>;

    open spec fn reads_any_length() -> bool {
        true
    }

    open spec fn model(&self) -> Seq<T::Model> {
        models(self@)
    }

    open spec fn spec_lift(bytes: Seq<u8>, memory: Seq<u8>) -> Result<Seq<T::Model>, AbiError> {
        Vec::<T>::spec_lift(bytes, memory)
    }

    open spec fn spec_from_js_return(value: JsValue, memory: Seq<u8>) -> Result<Seq<T::Model>, AbiError> {
        Vec::<T>::spec_from_js_return(value, memory)
    }

    open spec fn spec_from_js_args(args: Seq<JsValue>, memory: Seq<u8>) -> Result<
        (Seq<T::Model>, nat),
        AbiError,
    > {
        Vec::<T>::spec_from_js_args(args, memory)
    }

    proof fn lemma_from_js_args_count(args: Seq<JsValue>, memory: Seq<u8>) {
    }
}

impl<T: Lift> Lift for Vec<T> {
    fn from_js_return<M: ReadableMemory>(value: &JsValue, memory: &M) -> (r: Result<
        Vec<T>,
        AbiError,
    >) {
        let data = read_ptr_bytes(value, 8, memory)?;
        Self::read_from(data.as_slice(), memory)
    }

    fn from_js_args<M: ReadableMemory>(args: &mut JsArgsReader, memory: &M) -> (r: Result<
        Vec<T>,
        AbiError,
    >) {
        let addr_value = match args.next() {
            Some(v) => v,
            None => {
                return Err(AbiError::MissingArgument);
            },
        };
        let len_value = match args.next() {
            Some(v) => v,
            None => {
                return Err(AbiError::MissingArgument);
            },
        };
        let addr: u32 = u32::from_js_value(&addr_value)?;
        let len: u32 = u32::from_js_value(&len_value)?;
        read_vec_from(addr as usize, len as usize, memory)
    }

    fn read_from<M: ReadableMemory>(addr_and_len: &[u8], memory: &M) -> (r: Result<
        Vec<T>,
        AbiError,
    >) {
        if addr_and_len.len() != 8 {
            return Err(AbiError::BadListHeader);
        }
        let addr: u32 = u32_from_le_bytes(&addr_and_len[0..4]);
        let len: u32 = u32_from_le_bytes(&addr_and_len[4..8]);
        read_vec_from(addr as usize, len as usize, memory)
    }
}

impl AbiValue for String {
    type Model = Seq<char>;

    open spec fn reads_any_length() -> bool {
        true
    }

    open spec fn model(&self) -> Seq<char> {
        self@
    }

    open spec fn spec_lift(bytes: Seq<u8>, memory: Seq<u8>) -> Result<Seq<char>, AbiError> {
        match Vec::<u8>::spec_lift(bytes, memory) {
            Ok(s) => if valid_utf8(s) {
                Ok(decode_utf8(s))
            } else {
                Err(AbiError::InvalidUtf8)
            },
            Err(e) => Err(e),
        }
    }

    open spec fn spec_from_js_return(value: JsValue, memory: Seq<u8>) -> Result<Seq<char>, AbiError> {
        match Vec::<u8>::spec_from_js_return(value, memory) {
            Ok(s) => if valid_utf8(s) {
                Ok(decode_utf8(s))
            } else {
                Err(AbiError::InvalidUtf8)
            },
            Err(e) => Err(e),
        }
    }

    open spec fn spec_from_js_args(args: Seq<JsValue>, memory: Seq<u8>) -> Result<
        (Seq<char>, nat),
        AbiError,
    > {
        match Vec::<u8>::spec_from_js_args(args, memory) {
            Ok((s, n)) => if valid_utf8(s) {
                Ok((decode_utf8(s), n))
            } else {
                Err(AbiError::InvalidUtf8)
            },
            Err(e) => Err(e),
        }
    }

    proof fn lemma_from_js_args_count(args: Seq<JsValue>, memory: Seq<u8>) {
    }
}

impl Lift for String {
    fn from_js_return<M: ReadableMemory>(value: &JsValue, memory: &M) -> (r: Result<
        String,
        AbiError,
    >) {
        let bytes: Vec<u8> = Vec::<u8>::from_js_return(value, memory)?;
        assert(models(bytes@) =~= bytes@);
        match string_from_utf8(bytes) {
            Some(s) => Ok(s),
            None => Err(AbiError::InvalidUtf8),
        }
    }

    fn from_js_args<M: ReadableMemory>(args: &mut JsArgsReader, memory: &M) -> (r: Result<
        String,
        AbiError,
    >) {
        let bytes: Vec<u8> = Vec::<u8>::from_js_args(args, memory)?;
        assert(models(bytes@) =~= bytes@);
        match string_from_utf8(bytes) {
            Some(s) => Ok(s),
            None => Err(AbiError::InvalidUtf8),
        }
    }

    fn read_from<M: ReadableMemory>(slice: &[u8], memory: &M) -> (r: Result<String, AbiError>) {
        let bytes: Vec<u8> = Vec::<u8>::read_from(slice, memory)?;
        assert(models(bytes@) =~= bytes@);
        match string_from_utf8(bytes) {
            Some(s) => Ok(s),
            None => Err(AbiError::InvalidUtf8),
        }
    }
}

impl<T: AbiValue> AbiValue for Option<T> {
    type Model = Option<T::Model>;

    open spec fn reads_any_length() -> bool {
        false
    }

    open spec fn model(&self) -> Option<T::Model> {
        match self {
            Some(x) => Some(x.model()),
            None => None,
        }
    }

    open spec fn spec_lift(bytes: Seq<u8>, memory: Seq<u8>) -> Result<Option<T::Model>, AbiError> {
        if bytes[0] == 0 {
            Ok(None)
        } else if bytes[0] == 1 {
            match T::spec_lift(bytes.subrange(T::spec_alignment() as int, bytes.len() as int), memory) {
                Ok(x) => Ok(Some(x)),
                Err(e) => Err(e),
            }
        } else {
            Err(AbiError::InvalidTag(bytes[0]))
        }
    }

    open spec fn spec_from_js_return(value: JsValue, memory: Seq<u8>) -> Result<
        Option<T::Model>,
        AbiError,
    > {
        match spec_ptr_bytes(value, Self::spec_byte_size(), memory) {
            Ok(bytes) => Self::spec_lift(bytes, memory),
            Err(e) => Err(e),
        }
    }

    open spec fn spec_from_js_args(args: Seq<JsValue>, memory: Seq<u8>) -> Result<
        (Option<T::Model>, nat),
        AbiError,
    > {
        if args.len() == 0 {
            Err(AbiError::MissingArgument)
        } else {
            match u8::spec_from_js_value(args[0]) {
                Err(e) => Err(e),
                Ok(tag) => if tag == 0 {
                    if args.len() < 1 + T::spec_num_args() {
                        Err(AbiError::MissingArgument)
                    } else {
                        Ok((None, 1 + T::spec_num_args()))
                    }
                } else if tag == 1 {
                    match T::spec_from_js_args(args.skip(1), memory) {
                        Ok((x, n)) => Ok((Some(x), 1 + n)),
                        Err(e) => Err(e),
                    }
                } else {
                    Err(AbiError::InvalidTag(tag))
                },
            }
        }
    }

    proof fn lemma_from_js_args_count(args: Seq<JsValue>, memory: Seq<u8>) {
        T::lemma_from_js_args_count(args.skip(1), memory);
    }
}

impl<T: Lift> Lift for Option<T> {
    fn from_js_return<M: ReadableMemory>(value: &JsValue, memory: &M) -> (r: Result<
        Option<T>,
        AbiError,
    >) {
        proof {
            Self::lemma_size_description();
        }
        let data = read_ptr_bytes(value, Self::flat_byte_size(), memory)?;
        Self::read_from(data.as_slice(), memory)
    }

    fn from_js_args<M: ReadableMemory>(args: &mut JsArgsReader, memory: &M) -> (r: Result<
        Option<T>,
        AbiError,
    >) {
        let ghost start = args.remaining();
        let tag_value = match args.next() {
            Some(v) => v,
            None => {
                return Err(AbiError::MissingArgument);
            },
        };
        let tag: u8 = u8::from_js_value(&tag_value)?;
        match tag {
            0 => {
                skip_args(args, T::num_args())?;
                assert(start.skip(1).skip(T::spec_num_args() as int) =~= start.skip(
                    (1 + T::spec_num_args()) as int,
                ));
                Ok(None)
            },
            1 => {
                let x = T::from_js_args(args, memory)?;
                proof {
                    let n = match T::spec_from_js_args(start.skip(1), memory.readable_bytes()) {
                        Ok((_, n)) => n,
                        Err(_) => 0,
                    };
                    assert(start.skip(1).skip(n as int) =~= start.skip((1 + n) as int));
                }
                Ok(Some(x))
            },
            other => Err(AbiError::InvalidTag(other)),
        }
    }

    fn read_from<M: ReadableMemory>(slice: &[u8], memory: &M) -> (r: Result<Option<T>, AbiError>) {
        proof {
            T::lemma_size_description();
        }
        let variant: u8 = slice[0];
        match variant {
            0 => Ok(None),
            1 => {
                let align: usize = Self::alignment();
                let v = T::read_from(&slice[align..slice.len()], memory)?;
                Ok(Some(v))
            },
            other => Err(AbiError::InvalidTag(other)),
        }
    }
}

impl<T: AbiValue, E: AbiValue> AbiValue for Result<T, E> {
    type Model = Result<T::Model, E::Model>;

    open spec fn reads_any_length() -> bool {
        false
    }

    open spec fn model(&self) -> Result<T::Model, E::Model> {
        match self {
            Ok(x) => Ok(x.model()),
            Err(e) => Err(e.model()),
        }
    }

    open spec fn spec_lift(bytes: Seq<u8>, memory: Seq<u8>) -> Result<
        Result<T::Model, E::Model>,
        AbiError,
    > {
        let a = Self::spec_alignment();
        if bytes[0] == 0 {
            match T::spec_lift(bytes.subrange(a as int, (a + T::spec_byte_size()) as int), memory) {
                Ok(x) => Ok(Ok(x)),
                Err(err) => Err(err),
            }
        } else if bytes[0] == 1 {
            match E::spec_lift(bytes.subrange(a as int, (a + E::spec_byte_size()) as int), memory) {
                Ok(e) => Ok(Err(e)),
                Err(err) => Err(err),
            }
        } else {
            Err(AbiError::InvalidTag(bytes[0]))
        }
    }

    open spec fn spec_from_js_return(value: JsValue, memory: Seq<u8>) -> Result<
        Result<T::Model, E::Model>,
        AbiError,
    > {
        if Self::spec_num_args() == 1 {
            match u8::spec_from_js_value(value) {
                Err(err) => Err(err),
                Ok(tag) => if tag == 0 {
                    match T::spec_from_js_return(value, memory) {
                        Ok(x) => Ok(Ok(x)),
                        Err(err) => Err(err),
                    }
                } else if tag == 1 {
                    match E::spec_from_js_return(value, memory) {
                        Ok(e) => Ok(Err(e)),
                        Err(err) => Err(err),
                    }
                } else {
                    Err(AbiError::InvalidTag(tag))
                },
            }
        } else {
            match spec_ptr_bytes(value, Self::spec_byte_size(), memory) {
                Ok(bytes) => Self::spec_lift(bytes, memory),
                Err(e) => Err(e),
            }
        }
    }

    open spec fn spec_from_js_args(args: Seq<JsValue>, memory: Seq<u8>) -> Result<
        (Result<T::Model, E::Model>, nat),
        AbiError,
    > {
        if args.len() == 0 {
            Err(AbiError::MissingArgument)
        } else {
            match u8::spec_from_js_value(args[0]) {
                Err(err) => Err(err),
                Ok(tag) => if tag == 0 {
                    match T::spec_from_js_args(args.skip(1), memory) {
                        Err(err) => Err(err),
                        Ok((x, n)) => {
                            let unused = (Self::spec_num_args() - T::spec_num_args() - 1) as nat;
                            if 1 + n + unused > args.len() {
                                Err(AbiError::MissingArgument)
                            } else {
                                Ok((Ok(x), 1 + n + unused))
                            }
                        },
                    }
                } else if tag == 1 {
                    match E::spec_from_js_args(args.skip(1), memory) {
                        Err(err) => Err(err),
                        Ok((e, n)) => {
                            let unused = (Self::spec_num_args() - E::spec_num_args() - 1) as nat;
                            if 1 + n + unused > args.len() {
                                Err(AbiError::MissingArgument)
                            } else {
                                Ok((Err(e), 1 + n + unused))
                            }
                        },
                    }
                } else {
                    Err(AbiError::InvalidTag(tag))
                },
            }
        }
    }

    proof fn lemma_from_js_args_count(args: Seq<JsValue>, memory: Seq<u8>) {
        T::lemma_from_js_args_count(args.skip(1), memory);
        E::lemma_from_js_args_count(args.skip(1), memory);
    }
}

impl<T: Lift, E: Lift> Lift for Result<T, E> {
    fn from_js_return<M: ReadableMemory>(value: &JsValue, memory: &M) -> (r: Result<
        Result<T, E>,
        AbiError,
    >) {
        proof {
            Self::lemma_size_description();
        }
        if Self::num_args() == 1 {
            let tag: u8 = u8::from_js_value(value)?;
            match tag {
                0 => {
                    let x = T::from_js_return(value, memory)?;
                    Ok(Ok(x))
                },
                1 => {
                    let e = E::from_js_return(value, memory)?;
                    Ok(Err(e))
                },
                other => Err(AbiError::InvalidTag(other)),
            }
        } else {
            let data = read_ptr_bytes(value, Self::flat_byte_size(), memory)?;
            Self::read_from(data.as_slice(), memory)
        }
    }

    fn from_js_args<M: ReadableMemory>(args: &mut JsArgsReader, memory: &M) -> (r: Result<
        Result<T, E>,
        AbiError,
    >) {
        proof {
            Self::lemma_size_description();
            T::lemma_size_description();
            E::lemma_size_description();
        }
        let ghost start = args.remaining();
        let ghost mem = memory.readable_bytes();
        let tag_value = match args.next() {
            Some(v) => v,
            None => {
                return Err(AbiError::MissingArgument);
            },
        };
        let tag: u8 = u8::from_js_value(&tag_value)?;
        match tag {
            0 => {
                let x = T::from_js_args(args, memory)?;
                let ghost n = match T::spec_from_js_args(start.skip(1), mem) {
                    Ok((_, n)) => n,
                    Err(_) => 0,
                };
                skip_args(args, Self::num_args() - T::num_args() - 1)?;
                proof {
                    let unused = (Self::spec_num_args() - T::spec_num_args() - 1) as nat;
                    assert(start.skip(1).skip(n as int) =~= start.skip((1 + n) as int));
                    assert(start.skip((1 + n) as int).skip(unused as int) =~= start.skip((1 + n + unused) as int));
                }
                Ok(Ok(x))
            },
            1 => {
                let e = E::from_js_args(args, memory)?;
                let ghost n = match E::spec_from_js_args(start.skip(1), mem) {
                    Ok((_, n)) => n,
                    Err(_) => 0,
                };
                skip_args(args, Self::num_args() - E::num_args() - 1)?;
                proof {
                    let unused = (Self::spec_num_args() - E::spec_num_args() - 1) as nat;
                    assert(start.skip(1).skip(n as int) =~= start.skip((1 + n) as int));
                    assert(start.skip((1 + n) as int).skip(unused as int) =~= start.skip((1 + n + unused) as int));
                }
                Ok(Err(e))
            },
            other => Err(AbiError::InvalidTag(other)),
        }
    }

    fn read_from<M: ReadableMemory>(slice: &[u8], memory: &M) -> (r: Result<
        Result<T, E>,
        AbiError,
    >) {
        proof {
            T::lemma_size_description();
            E::lemma_size_description();
            lemma_next_multiple_of(
                Self::spec_alignment() + spec_max(T::spec_byte_size(), E::spec_byte_size()),
                Self::spec_alignment(),
            );
        }
        let variant: u8 = slice[0];
        let align: usize = Self::alignment();
        match variant {
            0 => {
                let end: usize = align + T::flat_byte_size();
                let v = T::read_from(&slice[align..end], memory)?;
                Ok(Ok(v))
            },
            1 => {
                let end: usize = align + E::flat_byte_size();
                let e = E::read_from(&slice[align..end], memory)?;
                Ok(Err(e))
            },
            other => Err(AbiError::InvalidTag(other)),
        }
    }
}

impl AbiValue for () {
    type Model = ();

    open spec fn reads_any_length() -> bool {
        true
    }

    open spec fn model(&self) -> () {
        ()
    }

    open spec fn spec_lift(bytes: Seq<u8>, memory: Seq<u8>) -> Result<(), AbiError> {
        Ok(())
    }

    open spec fn spec_from_js_return(value: JsValue, memory: Seq<u8>) -> Result<(), AbiError> {
        Ok(())
    }

    open spec fn spec_from_js_args(args: Seq<JsValue>, memory: Seq<u8>) -> Result<((), nat), AbiError> {
        Ok(((), 0))
    }

    proof fn lemma_from_js_args_count(args: Seq<JsValue>, memory: Seq<u8>) {
    }
}

impl Lift for () {
    fn from_js_return<M: ReadableMemory>(value: &JsValue, memory: &M) -> (r: Result<(), AbiError>) {
        Ok(())
    }

    fn from_js_args<M: ReadableMemory>(args: &mut JsArgsReader, memory: &M) -> (r: Result<
        (),
        AbiError,
    >) {
        assert(args.remaining().skip(0) =~= args.remaining());
        Ok(())
    }

    fn read_from<M: ReadableMemory>(slice: &[u8], memory: &M) -> (r: Result<(), AbiError>) {
        Ok(())
    }
}

impl<T: AbiValue> AbiValue for (T,) {
    type Model = (T::Model,);

    open spec fn reads_any_length() -> bool {
        false
    }

    open spec fn model(&self) -> (T::Model,) {
        (self.0.model(),)
    }

    open spec fn spec_lift(bytes: Seq<u8>, memory: Seq<u8>) -> Result<(T::Model,), AbiError> {
        match T::spec_lift(bytes, memory) {
            Ok(x) => Ok((x,)),
            Err(e) => Err(e),
        }
    }

    open spec fn spec_from_js_return(value: JsValue, memory: Seq<u8>) -> Result<(T::Model,), AbiError> {
        match T::spec_from_js_return(value, memory) {
            Ok(x) => Ok((x,)),
            Err(e) => Err(e),
        }
    }

    open spec fn spec_from_js_args(args: Seq<JsValue>, memory: Seq<u8>) -> Result<
        ((T::Model,), nat),
        AbiError,
    > {
        match T::spec_from_js_args(args, memory) {
            Ok((x, n)) => Ok(((x,), n)),
            Err(e) => Err(e),
        }
    }

    proof fn lemma_from_js_args_count(args: Seq<JsValue>, memory: Seq<u8>) {
        T::lemma_from_js_args_count(args, memory);
    }
}

impl<T: Lift> Lift for (T,) {
    fn from_js_return<M: ReadableMemory>(value: &JsValue, memory: &M) -> (r: Result<
        (T,),
        AbiError,
    >) {
        let v = T::from_js_return(value, memory)?;
        Ok((v,))
    }

    fn from_js_args<M: ReadableMemory>(args: &mut JsArgsReader, memory: &M) -> (r: Result<
        (T,),
        AbiError,
    >) {
        let v = T::from_js_args(args, memory)?;
        Ok((v,))
    }

    fn read_from<M: ReadableMemory>(slice: &[u8], memory: &M) -> (r: Result<(T,), AbiError>) {
        let v = T::read_from(slice, memory)?;
        Ok((v,))
    }
}

impl<T: AbiValue, U: AbiValue> AbiValue for (T, U) {
    type Model = (T::Model, U::Model);

    open spec fn reads_any_length() -> bool {
        false
    }

    open spec fn model(&self) -> (T::Model, U::Model) {
        (self.0.model(), self.1.model())
    }

    open spec fn spec_lift(bytes: Seq<u8>, memory: Seq<u8>) -> Result<(T::Model, U::Model), AbiError> {
        let l = Self::spec_layout();
        match T::spec_lift(bytes.subrange(l[0] as int, l[1] as int), memory) {
            Err(e) => Err(e),
            Ok(t) => match U::spec_lift(bytes.subrange(l[2] as int, l[3] as int), memory) {
                Err(e) => Err(e),
                Ok(u) => Ok((t, u)),
            },
        }
    }

    open spec fn spec_from_js_return(value: JsValue, memory: Seq<u8>) -> Result<
        (T::Model, U::Model),
        AbiError,
    > {
        match spec_ptr_bytes(value, Self::spec_byte_size(), memory) {
            Ok(bytes) => Self::spec_lift(bytes, memory),
            Err(e) => Err(e),
        }
    }

    open spec fn spec_from_js_args(args: Seq<JsValue>, memory: Seq<u8>) -> Result<
        ((T::Model, U::Model), nat),
        AbiError,
    > {
        match T::spec_from_js_args(args, memory) {
            Err(e) => Err(e),
            Ok((t, n1)) => match U::spec_from_js_args(args.skip(n1 as int), memory) {
                Err(e) => Err(e),
                Ok((u, n2)) => Ok(((t, u), n1 + n2)),
            },
        }
    }

    proof fn lemma_from_js_args_count(args: Seq<JsValue>, memory: Seq<u8>) {
        T::lemma_from_js_args_count(args, memory);
        match T::spec_from_js_args(args, memory) {
            Ok((_, n1)) => {
                U::lemma_from_js_args_count(args.skip(n1 as int), memory);
            },
            Err(_) => {},
        }
    }
}

impl<T: Lift, U: Lift> Lift for (T, U) {
    fn from_js_return<M: ReadableMemory>(value: &JsValue, memory: &M) -> (r: Result<
        (T, U),
        AbiError,
    >) {
        proof {
            Self::lemma_size_description();
        }
        let data = read_ptr_bytes(value, Self::flat_byte_size(), memory)?;
        Self::read_from(data.as_slice(), memory)
    }

    fn from_js_args<M: ReadableMemory>(args: &mut JsArgsReader, memory: &M) -> (r: Result<
        (T, U),
        AbiError,
    >) {
        let ghost start = args.remaining();
        let ghost mem = memory.readable_bytes();
        let t = T::from_js_args(args, memory)?;
        let ghost n1 = match T::spec_from_js_args(start, mem) {
            Ok((_, n)) => n,
            Err(_) => 0,
        };
        let u = U::from_js_args(args, memory)?;
        proof {
            let n2 = match U::spec_from_js_args(start.skip(n1 as int), mem) {
                Ok((_, n)) => n,
                Err(_) => 0,
            };
            assert(start.skip(n1 as int).skip(n2 as int) =~= start.skip((n1 + n2) as int));
        }
        Ok((t, u))
    }

    fn read_from<M: ReadableMemory>(slice: &[u8], memory: &M) -> (r: Result<(T, U), AbiError>) {
        proof {
            Self::lemma_size_description();
        }
        let layout = Self::layout();
        let t = T::read_from(&slice[layout[0]..layout[1]], memory)?;
        let u = U::read_from(&slice[layout[2]..layout[3]], memory)?;
        Ok((t, u))
    }
}

impl<T: AbiValue, U: AbiValue, V: AbiValue> AbiValue for (T, U, V) {
    type Model = (T::Model, U::Model, V::Model);

    open spec fn reads_any_length() -> bool {
        false
    }

    open spec fn model(&self) -> (T::Model, U::Model, V::Model) {
        (self.0.model(), self.1.model(), self.2.model())
    }

    open spec fn spec_lift(bytes: Seq<u8>, memory: Seq<u8>) -> Result<
        (T::Model, U::Model, V::Model),
        AbiError,
    > {
        let l = Self::spec_layout();
        match T::spec_lift(bytes.subrange(l[0] as int, l[1] as int), memory) {
            Err(e) => Err(e),
            Ok(t) => match U::spec_lift(bytes.subrange(l[2] as int, l[3] as int), memory) {
                Err(e) => Err(e),
                Ok(u) => match V::spec_lift(bytes.subrange(l[4] as int, l[5] as int), memory) {
                    Err(e) => Err(e),
                    Ok(v) => Ok((t, u, v)),
                },
            },
        }
    }

    open spec fn spec_from_js_return(value: JsValue, memory: Seq<u8>) -> Result<
        (T::Model, U::Model, V::Model),
        AbiError,
    > {
        match spec_ptr_bytes(value, Self::spec_byte_size(), memory) {
            Ok(bytes) => Self::spec_lift(bytes, memory),
            Err(e) => Err(e),
        }
    }

    open spec fn spec_from_js_args(args: Seq<JsValue>, memory: Seq<u8>) -> Result<
        ((T::Model, U::Model, V::Model), nat),
        AbiError,
    > {
        match T::spec_from_js_args(args, memory) {
            Err(e) => Err(e),
            Ok((t, n1)) => match U::spec_from_js_args(args.skip(n1 as int), memory) {
                Err(e) => Err(e),
                Ok((u, n2)) => match V::spec_from_js_args(args.skip((n1 + n2) as int), memory) {
                    Err(e) => Err(e),
                    Ok((v, n3)) => Ok(((t, u, v), n1 + n2 + n3)),
                },
            },
        }
    }

    proof fn lemma_from_js_args_count(args: Seq<JsValue>, memory: Seq<u8>) {
        T::lemma_from_js_args_count(args, memory);
        match T::spec_from_js_args(args, memory) {
            Ok((_, n1)) => {
                U::lemma_from_js_args_count(args.skip(n1 as int), memory);
                match U::spec_from_js_args(args.skip(n1 as int), memory) {
                    Ok((_, n2)) => {
                        V::lemma_from_js_args_count(args.skip((n1 + n2) as int), memory);
                    },
                    Err(_) => {},
                }
            },
            Err(_) => {},
        }
    }
}

impl<T: Lift, U: Lift, V: Lift> Lift for (T, U, V) {
    fn from_js_return<M: ReadableMemory>(value: &JsValue, memory: &M) -> (r: Result<
        (T, U, V),
        AbiError,
    >) {
        proof {
            Self::lemma_size_description();
        }
        let data = read_ptr_bytes(value, Self::flat_byte_size(), memory)?;
        Self::read_from(data.as_slice(), memory)
    }

    fn from_js_args<M: ReadableMemory>(args: &mut JsArgsReader, memory: &M) -> (r: Result<
        (T, U, V),
        AbiError,
    >) {
        let ghost start = args.remaining();
        let ghost mem = memory.readable_bytes();
        let t = T::from_js_args(args, memory)?;
        let ghost n1 = match T::spec_from_js_args(start, mem) {
            Ok((_, n)) => n,
            Err(_) => 0,
        };
        let u = U::from_js_args(args, memory)?;
        let ghost n2 = match U::spec_from_js_args(start.skip(n1 as int), mem) {
            Ok((_, n)) => n,
            Err(_) => 0,
        };
        proof {
            assert(start.skip(n1 as int).skip(n2 as int) =~= start.skip((n1 + n2) as int));
        }
        let v = V::from_js_args(args, memory)?;
        proof {
            let n3 = match V::spec_from_js_args(start.skip((n1 + n2) as int), mem) {
                Ok((_, n)) => n,
                Err(_) => 0,
            };
            assert(start.skip((n1 + n2) as int).skip(n3 as int) =~= start.skip((n1 + n2 + n3) as int));
        }
        Ok((t, u, v))
    }

    fn read_from<M: ReadableMemory>(slice: &[u8], memory: &M) -> (r: Result<(T, U, V), AbiError>) {
        proof {
            Self::lemma_size_description();
        }
        let layout = Self::layout();
        let t = T::read_from(&slice[layout[0]..layout[1]], memory)?;
        let u = U::read_from(&slice[layout[2]..layout[3]], memory)?;
        let v = V::read_from(&slice[layout[4]..layout[5]], memory)?;
        Ok((t, u, v))
    }
}

} // verus!
