//! Sizes, alignments and struct layouts of the types that cross the
//! component boundary.

use vstd::prelude::*;

verus! {

/// The smallest multiple of `multiple` that is at least `num`.
pub open spec fn spec_next_multiple_of(num: nat, multiple: nat) -> nat
    recommends
        multiple > 0,
{
    (((num + multiple - 1) as nat / multiple) * multiple) as nat
}

/// The larger of two integers.
pub open spec fn spec_max(a: nat, b: nat) -> nat {
    if a >= b {
        a
    } else {
        b
    }
}

/// Rounding up gives a multiple of `multiple` that is at least `num` and
/// less than `num + multiple`, and no smaller multiple is at least `num`.
pub proof fn lemma_next_multiple_of(num: nat, multiple: nat)
    requires
        multiple > 0,
    ensures
        spec_next_multiple_of(num, multiple) % multiple == 0,
        num <= spec_next_multiple_of(num, multiple) < num + multiple,
        forall|k: nat|
            #![trigger k % multiple]
            k % multiple == 0 && num <= k ==> spec_next_multiple_of(num, multiple) <= k,
{
    let x: int = num + multiple - 1;
    let m: int = multiple as int;
    let q: int = x / m;
    let rem: int = x % m;
    vstd::arithmetic::div_mod::lemma_fundamental_div_mod(x, m);
    assert(0 <= rem < m);
    assert(q >= 0) by (nonlinear_arith)
        requires
            x >= 0,
            m > 0,
            q == x / m,
    ;
    assert(q * m >= 0) by (nonlinear_arith)
        requires
            q >= 0,
            m > 0,
    ;
    assert(spec_next_multiple_of(num, multiple) == q * m);
    assert((q * m) % m == 0) by (nonlinear_arith)
        requires
            m > 0,
    ;
    assert forall|k: nat| #![trigger k % multiple] k % multiple == 0 && num <= k implies q * m <= k by {
        let kq: int = k as int / m;
        vstd::arithmetic::div_mod::lemma_fundamental_div_mod(k as int, m);
        assert(k == kq * m);
        // q * m > num - 1 and k >= num, both multiples of m
        assert(q * m <= k) by (nonlinear_arith)
            requires
                k == kq * m,
                x == q * m + rem,
                0 <= rem < m,
                x == num + m - 1,
                num <= k,
                m > 0,
        ;
    }
}

/// The smallest multiple of `multiple` that is at least `num`.
pub fn next_multiple_of(num: usize, multiple: usize) -> (r: usize)
    requires
        multiple > 0,
        num + multiple - 1 <= usize::MAX,
    ensures
        r == spec_next_multiple_of(num as nat, multiple as nat),
        r % multiple == 0,
        num <= r < num + multiple,
{
    proof {
        lemma_next_multiple_of(num as nat, multiple as nat);
    }
    let sum: usize = num + (multiple - 1);
    let q: usize = sum / multiple;
    assert(q * multiple <= sum) by (nonlinear_arith)
        requires
            q == sum / multiple,
            multiple > 0,
    ;
    q * multiple
}

/// The larger of `a` and `b`.
pub fn usize_max(a: usize, b: usize) -> (r: usize)
    ensures
        r == spec_max(a as nat, b as nat),
        r >= a,
        r >= b,
        r == a || r == b,
{
    if a >= b {
        a
    } else {
        b
    }
}


/// A struct layout is well formed when it starts at zero, ends at the struct's
/// byte size, never goes backwards and has an odd number of boundaries
/// (a start and an end for each field, then the end of the struct).
pub open spec fn layout_well_formed(layout: Seq<nat>, byte_size: nat) -> bool {
    &&& layout.len() >= 1
    &&& layout.len() % 2 == 1
    &&& layout[0] == 0
    &&& layout[layout.len() - 1] == byte_size
    &&& forall|i: int, j: int| 0 <= i <= j < layout.len() ==> layout[i] <= layout[j]
}

/// An executable layout holds the same boundaries as a spec layout.
pub open spec fn same_layout(exec_layout: Seq<usize>, layout: Seq<nat>) -> bool {
    &&& exec_layout.len() == layout.len()
    &&& forall|i: int| 0 <= i < layout.len() ==> exec_layout[i] as nat == layout[i]
}

/// The layout of a value that is a single field of `byte_size` bytes.
pub open spec fn spec_simple_layout(byte_size: nat) -> Seq<nat> {
    seq![0, byte_size, byte_size]
}

/// The layout of a value that is a single field of `byte_size` bytes.
pub fn simple_layout(byte_size: usize) -> (r: [usize; 3])
    ensures
        same_layout(r@, spec_simple_layout(byte_size as nat)),
{
    let r: [usize; 3] = [0, byte_size, byte_size];
    assert(r@[0] == 0 && r@[1] == byte_size && r@[2] == byte_size);
    r
}

/// Size and alignment of a type in the canonical ABI, and how many flat
/// arguments it takes in a function call.
pub trait SizeDescription: Sized {
    /// Alignment in bytes.
    spec fn spec_alignment() -> nat;

    /// How many bytes a field of this type takes in a struct or a vec.
    spec fn spec_byte_size() -> nat;

    /// How many arguments this type flattens to for a function call.
    spec fn spec_num_args() -> nat;

    /// Layout in memory: `2*n` is the start of the n-th field, `2*n + 1` its
    /// end, and the last entry is the end of the whole value.
    spec fn spec_layout() -> Seq<nat>;

    /// Every size computed for this type, and for the types it is made of,
    /// fits in a `usize`.
    spec fn size_fits() -> bool;

    /// The alignment is positive, every quantity fits in a `usize`, the layout
    /// is well formed, and the byte size is a multiple of
    /// its alignment.
    proof fn lemma_size_description()
        requires
            Self::size_fits(),
        ensures
            1 <= Self::spec_alignment() <= usize::MAX,
            Self::spec_byte_size() <= usize::MAX,
            Self::spec_num_args() <= usize::MAX,
            layout_well_formed(Self::spec_layout(), Self::spec_byte_size()),
            Self::spec_byte_size() % Self::spec_alignment() == 0,
    ;

    type StructLayout: View<V = Seq<usize>>;

    /// Alignment in bytes.
    fn alignment() -> (r: usize)
        requires
            Self::size_fits(),
        ensures
            r == Self::spec_alignment(),
    ;

    /// How many bytes a field of this type takes in a struct or a vec.
    fn flat_byte_size() -> (r: usize)
        requires
            Self::size_fits(),
        ensures
            r == Self::spec_byte_size(),
    ;

    /// How many arguments this type flattens to for a function call.
    fn num_args() -> (r: usize)
        requires
            Self::size_fits(),
        ensures
            r == Self::spec_num_args(),
    ;

    /// Layout of this type in memory.
    fn layout() -> (r: Self::StructLayout)
        requires
            Self::size_fits(),
        ensures
            same_layout(r@, Self::spec_layout()),
    ;
}

/// `u8` is a primitive of 1 byte(s), passed as one argument.
impl SizeDescription for u8 {
    open spec fn spec_alignment() -> nat {
        1
    }

    open spec fn spec_byte_size() -> nat {
        1
    }

    open spec fn spec_num_args() -> nat {
        1
    }

    open spec fn spec_layout() -> Seq<nat> {
        spec_simple_layout(1)
    }

    open spec fn size_fits() -> bool {
        true
    }

    proof fn lemma_size_description() {
    }

    type StructLayout = [usize; 3];

    fn alignment() -> (r: usize) {
        1
    }

    fn flat_byte_size() -> (r: usize) {
        1
    }

    fn num_args() -> (r: usize) {
        1
    }

    fn layout() -> (r: [usize; 3]) {
        simple_layout(1)
    }
}

/// `u16` is a primitive of 2 byte(s), passed as one argument.
impl SizeDescription for u16 {
    open spec fn spec_alignment() -> nat {
        2
    }

    open spec fn spec_byte_size() -> nat {
        2
    }

    open spec fn spec_num_args() -> nat {
        1
    }

    open spec fn spec_layout() -> Seq<nat> {
        spec_simple_layout(2)
    }

    open spec fn size_fits() -> bool {
        true
    }

    proof fn lemma_size_description() {
    }

    type StructLayout = [usize; 3];

    fn alignment() -> (r: usize) {
        2
    }

    fn flat_byte_size() -> (r: usize) {
        2
    }

    fn num_args() -> (r: usize) {
        1
    }

    fn layout() -> (r: [usize; 3]) {
        simple_layout(2)
    }
}

/// `u32` is a primitive of 4 byte(s), passed as one argument.
impl SizeDescription for u32 {
    open spec fn spec_alignment() -> nat {
        4
    }

    open spec fn spec_byte_size() -> nat {
        4
    }

    open spec fn spec_num_args() -> nat {
        1
    }

    open spec fn spec_layout() -> Seq<nat> {
        spec_simple_layout(4)
    }

    open spec fn size_fits() -> bool {
        true
    }

    proof fn lemma_size_description() {
    }

    type StructLayout = [usize; 3];

    fn alignment() -> (r: usize) {
        4
    }

    fn flat_byte_size() -> (r: usize) {
        4
    }

    fn num_args() -> (r: usize) {
        1
    }

    fn layout() -> (r: [usize; 3]) {
        simple_layout(4)
    }
}

/// `u64` is a primitive of 8 byte(s), passed as one argument.
impl SizeDescription for u64 {
    open spec fn spec_alignment() -> nat {
        8
    }

    open spec fn spec_byte_size() -> nat {
        8
    }

    open spec fn spec_num_args() -> nat {
        1
    }

    open spec fn spec_layout() -> Seq<nat> {
        spec_simple_layout(8)
    }

    open spec fn size_fits() -> bool {
        true
    }

    proof fn lemma_size_description() {
    }

    type StructLayout = [usize; 3];

    fn alignment() -> (r: usize) {
        8
    }

    fn flat_byte_size() -> (r: usize) {
        8
    }

    fn num_args() -> (r: usize) {
        1
    }

    fn layout() -> (r: [usize; 3]) {
        simple_layout(8)
    }
}

/// `i8` is a primitive of 1 byte(s), passed as one argument.
impl SizeDescription for i8 {
    open spec fn spec_alignment() -> nat {
        1
    }

    open spec fn spec_byte_size() -> nat {
        1
    }

    open spec fn spec_num_args() -> nat {
        1
    }

    open spec fn spec_layout() -> Seq<nat> {
        spec_simple_layout(1)
    }

    open spec fn size_fits() -> bool {
        true
    }

    proof fn lemma_size_description() {
    }

    type StructLayout = [usize; 3];

    fn alignment() -> (r: usize) {
        1
    }

    fn flat_byte_size() -> (r: usize) {
        1
    }

    fn num_args() -> (r: usize) {
        1
    }

    fn layout() -> (r: [usize; 3]) {
        simple_layout(1)
    }
}

/// `i16` is a primitive of 2 byte(s), passed as one argument.
impl SizeDescription for i16 {
    open spec fn spec_alignment() -> nat {
        2
    }

    open spec fn spec_byte_size() -> nat {
        2
    }

    open spec fn spec_num_args() -> nat {
        1
    }

    open spec fn spec_layout() -> Seq<nat> {
        spec_simple_layout(2)
    }

    open spec fn size_fits() -> bool {
        true
    }

    proof fn lemma_size_description() {
    }

    type StructLayout = [usize; 3];

    fn alignment() -> (r: usize) {
        2
    }

    fn flat_byte_size() -> (r: usize) {
        2
    }

    fn num_args() -> (r: usize) {
        1
    }

    fn layout() -> (r: [usize; 3]) {
        simple_layout(2)
    }
}

/// `i32` is a primitive of 4 byte(s), passed as one argument.
impl SizeDescription for i32 {
    open spec fn spec_alignment() -> nat {
        4
    }

    open spec fn spec_byte_size() -> nat {
        4
    }

    open spec fn spec_num_args() -> nat {
        1
    }

    open spec fn spec_layout() -> Seq<nat> {
        spec_simple_layout(4)
    }

    open spec fn size_fits() -> bool {
        true
    }

    proof fn lemma_size_description() {
    }

    type StructLayout = [usize; 3];

    fn alignment() -> (r: usize) {
        4
    }

    fn flat_byte_size() -> (r: usize) {
        4
    }

    fn num_args() -> (r: usize) {
        1
    }

    fn layout() -> (r: [usize; 3]) {
        simple_layout(4)
    }
}

/// `i64` is a primitive of 8 byte(s), passed as one argument.
impl SizeDescription for i64 {
    open spec fn spec_alignment() -> nat {
        8
    }

    open spec fn spec_byte_size() -> nat {
        8
    }

    open spec fn spec_num_args() -> nat {
        1
    }

    open spec fn spec_layout() -> Seq<nat> {
        spec_simple_layout(8)
    }

    open spec fn size_fits() -> bool {
        true
    }

    proof fn lemma_size_description() {
    }

    type StructLayout = [usize; 3];

    fn alignment() -> (r: usize) {
        8
    }

    fn flat_byte_size() -> (r: usize) {
        8
    }

    fn num_args() -> (r: usize) {
        1
    }

    fn layout() -> (r: [usize; 3]) {
        simple_layout(8)
    }
}

/// `bool` is a primitive of 1 byte(s), passed as one argument.
impl SizeDescription for bool {
    open spec fn spec_alignment() -> nat {
        1
    }

    open spec fn spec_byte_size() -> nat {
        1
    }

    open spec fn spec_num_args() -> nat {
        1
    }

    open spec fn spec_layout() -> Seq<nat> {
        spec_simple_layout(1)
    }

    open spec fn size_fits() -> bool {
        true
    }

    proof fn lemma_size_description() {
    }

    type StructLayout = [usize; 3];

    fn alignment() -> (r: usize) {
        1
    }

    fn flat_byte_size() -> (r: usize) {
        1
    }

    fn num_args() -> (r: usize) {
        1
    }

    fn layout() -> (r: [usize; 3]) {
        simple_layout(1)
    }
}

/// `char` is a primitive of 4 byte(s), passed as one argument.
impl SizeDescription for char {
    open spec fn spec_alignment() -> nat {
        4
    }

    open spec fn spec_byte_size() -> nat {
        4
    }

    open spec fn spec_num_args() -> nat {
        1
    }

    open spec fn spec_layout() -> Seq<nat> {
        spec_simple_layout(4)
    }

    open spec fn size_fits() -> bool {
        true
    }

    proof fn lemma_size_description() {
    }

    type StructLayout = [usize; 3];

    fn alignment() -> (r: usize) {
        4
    }

    fn flat_byte_size() -> (r: usize) {
        4
    }

    fn num_args() -> (r: usize) {
        1
    }

    fn layout() -> (r: [usize; 3]) {
        simple_layout(4)
    }
}

/// A list is a 32-bit address and a 32-bit element count.
impl<T: SizeDescription> SizeDescription for Vec<T> {
    open spec fn spec_alignment() -> nat {
        4
    }

    open spec fn spec_byte_size() -> nat {
        8
    }

    open spec fn spec_num_args() -> nat {
        2
    }

    open spec fn spec_layout() -> Seq<nat> {
        spec_simple_layout(8)
    }

    open spec fn size_fits() -> bool {
        T::size_fits()
    }

    proof fn lemma_size_description() {
        assert(8nat % 4nat == 0) by (nonlinear_arith);
    }

    type StructLayout = [usize; 3];

    fn alignment() -> (r: usize) {
        4
    }

    fn flat_byte_size() -> (r: usize) {
        8
    }

    fn num_args() -> (r: usize) {
        2
    }

    fn layout() -> (r: [usize; 3]) {
        simple_layout(8)
    }
}

/// A string is a 32-bit address and a 32-bit byte count.
impl SizeDescription for String {
    open spec fn spec_alignment() -> nat {
        4
    }

    open spec fn spec_byte_size() -> nat {
        8
    }

    open spec fn spec_num_args() -> nat {
        2
    }

    open spec fn spec_layout() -> Seq<nat> {
        spec_simple_layout(8)
    }

    open spec fn size_fits() -> bool {
        true
    }

    proof fn lemma_size_description() {
        assert(8nat % 4nat == 0) by (nonlinear_arith);
    }

    type StructLayout = [usize; 3];

    fn alignment() -> (r: usize) {
        4
    }

    fn flat_byte_size() -> (r: usize) {
        8
    }

    fn num_args() -> (r: usize) {
        2
    }

    fn layout() -> (r: [usize; 3]) {
        simple_layout(8)
    }
}

/// A borrowed slice is laid out as a list.
impl<T: SizeDescription> SizeDescription for &[T] {
    open spec fn spec_alignment() -> nat {
        4
    }

    open spec fn spec_byte_size() -> nat {
        8
    }

    open spec fn spec_num_args() -> nat {
        2
    }

    open spec fn spec_layout() -> Seq<nat> {
        spec_simple_layout(8)
    }

    open spec fn size_fits() -> bool {
        T::size_fits()
    }

    proof fn lemma_size_description() {
        assert(8nat % 4nat == 0) by (nonlinear_arith);
    }

    type StructLayout = [usize; 3];

    fn alignment() -> (r: usize) {
        4
    }

    fn flat_byte_size() -> (r: usize) {
        8
    }

    fn num_args() -> (r: usize) {
        2
    }

    fn layout() -> (r: [usize; 3]) {
        simple_layout(8)
    }
}

/// A borrowed string is laid out as a string.
impl SizeDescription for &str {
    open spec fn spec_alignment() -> nat {
        4
    }

    open spec fn spec_byte_size() -> nat {
        8
    }

    open spec fn spec_num_args() -> nat {
        2
    }

    open spec fn spec_layout() -> Seq<nat> {
        spec_simple_layout(8)
    }

    open spec fn size_fits() -> bool {
        true
    }

    proof fn lemma_size_description() {
        assert(8nat % 4nat == 0) by (nonlinear_arith);
    }

    type StructLayout = [usize; 3];

    fn alignment() -> (r: usize) {
        4
    }

    fn flat_byte_size() -> (r: usize) {
        8
    }

    fn num_args() -> (r: usize) {
        2
    }

    fn layout() -> (r: [usize; 3]) {
        simple_layout(8)
    }
}

/// A reference is laid out as what it refers to.
impl<T: SizeDescription> SizeDescription for &T {
    open spec fn spec_alignment() -> nat {
        T::spec_alignment()
    }

    open spec fn spec_byte_size() -> nat {
        T::spec_byte_size()
    }

    open spec fn spec_num_args() -> nat {
        T::spec_num_args()
    }

    open spec fn spec_layout() -> Seq<nat> {
        T::spec_layout()
    }

    open spec fn size_fits() -> bool {
        T::size_fits()
    }

    proof fn lemma_size_description() {
        T::lemma_size_description();
    }

    type StructLayout = T::StructLayout;

    fn alignment() -> (r: usize) {
        T::alignment()
    }

    fn flat_byte_size() -> (r: usize) {
        T::flat_byte_size()
    }

    fn num_args() -> (r: usize) {
        T::num_args()
    }

    fn layout() -> (r: T::StructLayout) {
        T::layout()
    }
}

/// An option is a tag padded to the payload's alignment, then the payload.
impl<T: SizeDescription> SizeDescription for Option<T> {
    open spec fn spec_alignment() -> nat {
        T::spec_alignment()
    }

    open spec fn spec_byte_size() -> nat {
        T::spec_alignment() + T::spec_byte_size()
    }

    open spec fn spec_num_args() -> nat {
        1 + T::spec_num_args()
    }

    open spec fn spec_layout() -> Seq<nat> {
        spec_simple_layout(Self::spec_byte_size())
    }

    open spec fn size_fits() -> bool {
        &&& T::size_fits()
        &&& T::spec_alignment() + T::spec_byte_size() <= usize::MAX
        &&& 1 + T::spec_num_args() <= usize::MAX
    }

    proof fn lemma_size_description() {
        T::lemma_size_description();
        let a: int = T::spec_alignment() as int;
        let s: int = T::spec_byte_size() as int;
        assert((a + s) % a == 0) by (nonlinear_arith)
            requires
                a >= 1,
                s % a == 0,
        {
            vstd::arithmetic::div_mod::lemma_mod_adds(a, s, a);
            vstd::arithmetic::div_mod::lemma_mod_self_0(a);
        }
    }

    type StructLayout = [usize; 3];

    fn alignment() -> (r: usize) {
        T::alignment()
    }

    fn flat_byte_size() -> (r: usize) {
        T::alignment() + T::flat_byte_size()
    }

    fn num_args() -> (r: usize) {
        1 + T::num_args()
    }

    fn layout() -> (r: [usize; 3]) {
        simple_layout(Self::flat_byte_size())
    }
}

/// A result is a tag padded to the larger alignment of its two cases, then
/// room for the larger of the two payloads, the whole padded to that
/// alignment.
impl<T: SizeDescription, E: SizeDescription> SizeDescription for Result<T, E> {
    open spec fn spec_alignment() -> nat {
        spec_max(T::spec_alignment(), E::spec_alignment())
    }

    open spec fn spec_byte_size() -> nat {
        spec_next_multiple_of(
            Self::spec_alignment() + spec_max(T::spec_byte_size(), E::spec_byte_size()),
            Self::spec_alignment(),
        )
    }

    open spec fn spec_num_args() -> nat {
        1 + spec_max(T::spec_num_args(), E::spec_num_args())
    }

    open spec fn spec_layout() -> Seq<nat> {
        spec_simple_layout(Self::spec_byte_size())
    }

    open spec fn size_fits() -> bool {
        &&& T::size_fits()
        &&& E::size_fits()
        &&& 2 * Self::spec_alignment() + spec_max(T::spec_byte_size(), E::spec_byte_size()) - 1
            <= usize::MAX
        &&& Self::spec_num_args() <= usize::MAX
    }

    proof fn lemma_size_description() {
        T::lemma_size_description();
        E::lemma_size_description();
        lemma_next_multiple_of(
            Self::spec_alignment() + spec_max(T::spec_byte_size(), E::spec_byte_size()),
            Self::spec_alignment(),
        );
    }

    type StructLayout = [usize; 3];

    fn alignment() -> (r: usize) {
        usize_max(T::alignment(), E::alignment())
    }

    fn flat_byte_size() -> (r: usize) {
        proof {
            T::lemma_size_description();
            E::lemma_size_description();
        }
        let align: usize = Self::alignment();
        next_multiple_of(align + usize_max(T::flat_byte_size(), E::flat_byte_size()), align)
    }

    fn num_args() -> (r: usize) {
        1 + usize_max(T::num_args(), E::num_args())
    }

    fn layout() -> (r: [usize; 3]) {
        simple_layout(Self::flat_byte_size())
    }
}

/// The unit type takes no bytes and no arguments.
impl SizeDescription for () {
    open spec fn spec_alignment() -> nat {
        1
    }

    open spec fn spec_byte_size() -> nat {
        0
    }

    open spec fn spec_num_args() -> nat {
        0
    }

    open spec fn spec_layout() -> Seq<nat> {
        seq![0]
    }

    open spec fn size_fits() -> bool {
        true
    }

    proof fn lemma_size_description() {
    }

    type StructLayout = [usize; 1];

    fn alignment() -> (r: usize) {
        1
    }

    fn flat_byte_size() -> (r: usize) {
        0
    }

    fn num_args() -> (r: usize) {
        0
    }

    fn layout() -> (r: [usize; 1]) {
        let r: [usize; 1] = [0];
        assert(r@[0] == 0);
        r
    }
}

/// A one-element tuple is laid out as its element.
impl<T: SizeDescription> SizeDescription for (T,) {
    open spec fn spec_alignment() -> nat {
        T::spec_alignment()
    }

    open spec fn spec_byte_size() -> nat {
        T::spec_byte_size()
    }

    open spec fn spec_num_args() -> nat {
        T::spec_num_args()
    }

    open spec fn spec_layout() -> Seq<nat> {
        T::spec_layout()
    }

    open spec fn size_fits() -> bool {
        T::size_fits()
    }

    proof fn lemma_size_description() {
        T::lemma_size_description();
    }

    type StructLayout = T::StructLayout;

    fn alignment() -> (r: usize) {
        T::alignment()
    }

    fn flat_byte_size() -> (r: usize) {
        T::flat_byte_size()
    }

    fn num_args() -> (r: usize) {
        T::num_args()
    }

    fn layout() -> (r: T::StructLayout) {
        T::layout()
    }
}

/// Layout of a pair: the first field at offset zero, the second at the next
/// multiple of its alignment, and the whole padded to the pair's alignment.
pub open spec fn pair_layout(s0: nat, a1: nat, s1: nat, a: nat) -> Seq<nat> {
    let end0 = s0;
    let start1 = spec_next_multiple_of(end0, a1);
    let end1 = start1 + s1;
    let start2 = spec_next_multiple_of(end1, a);
    seq![0, end0, start1, end1, start2]
}

/// A pair is a struct of two fields.
impl<T0: SizeDescription, T1: SizeDescription> SizeDescription for (T0, T1) {
    open spec fn spec_alignment() -> nat {
        spec_max(T0::spec_alignment(), T1::spec_alignment())
    }

    open spec fn spec_byte_size() -> nat {
        Self::spec_layout()[4]
    }

    open spec fn spec_num_args() -> nat {
        T0::spec_num_args() + T1::spec_num_args()
    }

    open spec fn spec_layout() -> Seq<nat> {
        pair_layout(
            T0::spec_byte_size(),
            T1::spec_alignment(),
            T1::spec_byte_size(),
            Self::spec_alignment(),
        )
    }

    open spec fn size_fits() -> bool {
        &&& T0::size_fits()
        &&& T1::size_fits()
        &&& T0::spec_byte_size() + T1::spec_alignment() - 1 <= usize::MAX
        &&& Self::spec_layout()[3] + Self::spec_alignment() - 1 <= usize::MAX
        &&& Self::spec_num_args() <= usize::MAX
    }

    proof fn lemma_size_description() {
        T0::lemma_size_description();
        T1::lemma_size_description();
        lemma_next_multiple_of(T0::spec_byte_size(), T1::spec_alignment());
        lemma_next_multiple_of(Self::spec_layout()[3], Self::spec_alignment());
        let l = Self::spec_layout();
        assert(forall|i: int, j: int| 0 <= i <= j < l.len() ==> l[i] <= l[j]);
    }

    type StructLayout = [usize; 5];

    fn alignment() -> (r: usize) {
        usize_max(T0::alignment(), T1::alignment())
    }

    fn flat_byte_size() -> (r: usize) {
        let l = Self::layout();
        l[4]
    }

    fn num_args() -> (r: usize) {
        T0::num_args() + T1::num_args()
    }

    fn layout() -> (r: [usize; 5]) {
        proof {
            T0::lemma_size_description();
            T1::lemma_size_description();
            lemma_next_multiple_of(T0::spec_byte_size(), T1::spec_alignment());
        }
        let start0: usize = 0;
        let end0: usize = start0 + T0::flat_byte_size();

        let start1: usize = next_multiple_of(end0, T1::alignment());
        let end1: usize = start1 + T1::flat_byte_size();

        let start2: usize = next_multiple_of(end1, Self::alignment());

        let r: [usize; 5] = [start0, end0, start1, end1, start2];
        assert(r@[0] == start0 && r@[1] == end0 && r@[2] == start1 && r@[3] == end1 && r@[4] == start2);
        r
    }
}

/// Layout of a triple: each field at the next multiple of its alignment,
/// and the whole padded to the triple's alignment.
pub open spec fn triple_layout(s0: nat, a1: nat, s1: nat, a2: nat, s2: nat, a: nat) -> Seq<nat> {
    let end0 = s0;
    let start1 = spec_next_multiple_of(end0, a1);
    let end1 = start1 + s1;
    let start2 = spec_next_multiple_of(end1, a2);
    let end2 = start2 + s2;
    let start3 = spec_next_multiple_of(end2, a);
    seq![0, end0, start1, end1, start2, end2, start3]
}

/// A triple is a struct of three fields.
impl<T0: SizeDescription, T1: SizeDescription, T2: SizeDescription> SizeDescription for (
    T0,
    T1,
    T2,
) {
    open spec fn spec_alignment() -> nat {
        spec_max(T0::spec_alignment(), spec_max(T1::spec_alignment(), T2::spec_alignment()))
    }

    open spec fn spec_byte_size() -> nat {
        Self::spec_layout()[6]
    }

    open spec fn spec_num_args() -> nat {
        T0::spec_num_args() + (T1::spec_num_args() + T2::spec_num_args())
    }

    open spec fn spec_layout() -> Seq<nat> {
        triple_layout(
            T0::spec_byte_size(),
            T1::spec_alignment(),
            T1::spec_byte_size(),
            T2::spec_alignment(),
            T2::spec_byte_size(),
            Self::spec_alignment(),
        )
    }

    open spec fn size_fits() -> bool {
        &&& T0::size_fits()
        &&& T1::size_fits()
        &&& T2::size_fits()
        &&& T0::spec_byte_size() + T1::spec_alignment() - 1 <= usize::MAX
        &&& Self::spec_layout()[3] + T2::spec_alignment() - 1 <= usize::MAX
        &&& Self::spec_layout()[5] + Self::spec_alignment() - 1 <= usize::MAX
        &&& Self::spec_num_args() <= usize::MAX
    }

    proof fn lemma_size_description() {
        T0::lemma_size_description();
        T1::lemma_size_description();
        T2::lemma_size_description();
        lemma_next_multiple_of(T0::spec_byte_size(), T1::spec_alignment());
        lemma_next_multiple_of(Self::spec_layout()[3], T2::spec_alignment());
        lemma_next_multiple_of(Self::spec_layout()[5], Self::spec_alignment());
        let l = Self::spec_layout();
        assert(forall|i: int, j: int| 0 <= i <= j < l.len() ==> l[i] <= l[j]);
    }

    type StructLayout = [usize; 7];

    fn alignment() -> (r: usize) {
        usize_max(T0::alignment(), usize_max(T1::alignment(), T2::alignment()))
    }

    fn flat_byte_size() -> (r: usize) {
        let l = Self::layout();
        l[6]
    }

    fn num_args() -> (r: usize) {
        T0::num_args() + (T1::num_args() + T2::num_args())
    }

    fn layout() -> (r: [usize; 7]) {
        proof {
            T0::lemma_size_description();
            T1::lemma_size_description();
            T2::lemma_size_description();
            lemma_next_multiple_of(T0::spec_byte_size(), T1::spec_alignment());
            lemma_next_multiple_of(Self::spec_layout()[3], T2::spec_alignment());
        }
        let start0: usize = 0;
        let end0: usize = start0 + T0::flat_byte_size();

        let start1: usize = next_multiple_of(end0, T1::alignment());
        let end1: usize = start1 + T1::flat_byte_size();

        let start2: usize = next_multiple_of(end1, T2::alignment());
        let end2: usize = start2 + T2::flat_byte_size();

        let start3: usize = next_multiple_of(end2, Self::alignment());

        let r: [usize; 7] = [start0, end0, start1, end1, start2, end2, start3];
        assert(r@[0] == start0 && r@[1] == end0 && r@[2] == start1 && r@[3] == end1);
        assert(r@[4] == start2 && r@[5] == end2 && r@[6] == start3);
        r
    }
}


/// A pair is aligned as its most aligned field: no field needs more, and
/// one of them needs exactly as much.
pub proof fn lemma_pair_alignment<T0: SizeDescription, T1: SizeDescription>()
    ensures
        T0::spec_alignment() <= <(T0, T1)>::spec_alignment(),
        T1::spec_alignment() <= <(T0, T1)>::spec_alignment(),
        <(T0, T1)>::spec_alignment() == T0::spec_alignment() || <(T0, T1)>::spec_alignment()
            == T1::spec_alignment(),
{
}

/// A result is aligned as the more aligned of its two cases, and an option
/// as its payload.
pub proof fn lemma_variant_alignment<T: SizeDescription, E: SizeDescription>()
    ensures
        T::spec_alignment() <= <Result<T, E>>::spec_alignment(),
        E::spec_alignment() <= <Result<T, E>>::spec_alignment(),
        <Result<T, E>>::spec_alignment() == T::spec_alignment() || <Result<T, E>>::spec_alignment()
            == E::spec_alignment(),
        <Option<T>>::spec_alignment() == T::spec_alignment(),
{
}

/// A result holds its tag, padded to the result's alignment, followed by the
/// larger of its two payloads, and is padded to the smallest multiple of its
/// alignment that holds them; an option holds its tag, padded to the
/// payload's alignment, followed by the payload.
pub proof fn lemma_variant_size<T: SizeDescription, E: SizeDescription>()
    requires
        <Result<T, E>>::size_fits(),
        <Option<T>>::size_fits(),
    ensures
        <Result<T, E>>::spec_alignment() + T::spec_byte_size() <= <Result<T, E>>::spec_byte_size(),
        <Result<T, E>>::spec_alignment() + E::spec_byte_size() <= <Result<T, E>>::spec_byte_size(),
        <Result<T, E>>::spec_byte_size() % <Result<T, E>>::spec_alignment() == 0,
        forall|k: nat|
            #![trigger k % <Result<T, E>>::spec_alignment()]
            k % <Result<T, E>>::spec_alignment() == 0 && <Result<T, E>>::spec_alignment()
                + T::spec_byte_size() <= k && <Result<T, E>>::spec_alignment() + E::spec_byte_size()
                <= k ==> <Result<T, E>>::spec_byte_size() <= k,
        <Option<T>>::spec_byte_size() == T::spec_alignment() + T::spec_byte_size(),
{
    <Result<T, E>>::lemma_size_description();
    let a = <Result<T, E>>::spec_alignment();
    lemma_next_multiple_of(a + spec_max(T::spec_byte_size(), E::spec_byte_size()), a);
}

/// A triple is aligned as its most aligned field: no field needs more, and
/// one of them needs exactly as much.
pub proof fn lemma_triple_alignment<T0: SizeDescription, T1: SizeDescription, T2: SizeDescription>()
    ensures
        T0::spec_alignment() <= <(T0, T1, T2)>::spec_alignment(),
        T1::spec_alignment() <= <(T0, T1, T2)>::spec_alignment(),
        T2::spec_alignment() <= <(T0, T1, T2)>::spec_alignment(),
        <(T0, T1, T2)>::spec_alignment() == T0::spec_alignment() || <(T0, T1, T2)>::spec_alignment()
            == T1::spec_alignment() || <(T0, T1, T2)>::spec_alignment() == T2::spec_alignment(),
{
}

/// Field placement in a pair: the first field at offset zero, the second at
/// the smallest offset past the first that is a multiple of its alignment,
/// and the whole padded to the smallest multiple of the pair's alignment.
pub proof fn lemma_pair_layout<T0: SizeDescription, T1: SizeDescription>()
    requires
        <(T0, T1)>::size_fits(),
    ensures
        ({
            let l = <(T0, T1)>::spec_layout();
            let a1 = T1::spec_alignment();
            let a = <(T0, T1)>::spec_alignment();
            &&& l.len() == 5
            &&& l[0] == 0
            &&& l[1] == T0::spec_byte_size()
            &&& l[2] % a1 == 0
            &&& l[1] <= l[2] < l[1] + a1
            &&& l[3] == l[2] + T1::spec_byte_size()
            &&& l[4] % a == 0
            &&& l[3] <= l[4] < l[3] + a
            &&& l[4] == <(T0, T1)>::spec_byte_size()
        }),
{
    T0::lemma_size_description();
    T1::lemma_size_description();
    <(T0, T1)>::lemma_size_description();
    lemma_next_multiple_of(T0::spec_byte_size(), T1::spec_alignment());
    lemma_next_multiple_of(<(T0, T1)>::spec_layout()[3], <(T0, T1)>::spec_alignment());
}

/// Field placement in a triple: each field at the smallest offset past the
/// previous one that is a multiple of its alignment, and the whole padded to
/// the smallest multiple of the triple's alignment.
pub proof fn lemma_triple_layout<T0: SizeDescription, T1: SizeDescription, T2: SizeDescription>()
    requires
        <(T0, T1, T2)>::size_fits(),
    ensures
        ({
            let l = <(T0, T1, T2)>::spec_layout();
            let a1 = T1::spec_alignment();
            let a2 = T2::spec_alignment();
            let a = <(T0, T1, T2)>::spec_alignment();
            &&& l.len() == 7
            &&& l[0] == 0
            &&& l[1] == T0::spec_byte_size()
            &&& l[2] % a1 == 0
            &&& l[1] <= l[2] < l[1] + a1
            &&& l[3] == l[2] + T1::spec_byte_size()
            &&& l[4] % a2 == 0
            &&& l[3] <= l[4] < l[3] + a2
            &&& l[5] == l[4] + T2::spec_byte_size()
            &&& l[6] % a == 0
            &&& l[5] <= l[6] < l[5] + a
            &&& l[6] == <(T0, T1, T2)>::spec_byte_size()
        }),
{
    T0::lemma_size_description();
    T1::lemma_size_description();
    T2::lemma_size_description();
    <(T0, T1, T2)>::lemma_size_description();
    lemma_next_multiple_of(T0::spec_byte_size(), T1::spec_alignment());
    lemma_next_multiple_of(<(T0, T1, T2)>::spec_layout()[3], T2::spec_alignment());
    lemma_next_multiple_of(<(T0, T1, T2)>::spec_layout()[5], <(T0, T1, T2)>::spec_alignment());
}

/// A multiple of `multiple` is its own next multiple.
pub proof fn lemma_next_multiple_of_exact(num: nat, multiple: nat)
    requires
        multiple > 0,
        num % multiple == 0,
    ensures
        spec_next_multiple_of(num, multiple) == num,
{
    lemma_next_multiple_of(num, multiple);
    assert(num % multiple == 0 && num <= num);
}

/// Rounding up twice is rounding up once.
pub proof fn lemma_next_multiple_of_idempotent(num: nat, multiple: nat)
    requires
        multiple > 0,
    ensures
        spec_next_multiple_of(spec_next_multiple_of(num, multiple), multiple)
            == spec_next_multiple_of(num, multiple),
{
    lemma_next_multiple_of(num, multiple);
    lemma_next_multiple_of_exact(spec_next_multiple_of(num, multiple), multiple);
}

} // verus!
