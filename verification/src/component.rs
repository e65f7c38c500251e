//! Engine configuration, resource handles and the stride description of
//! component-model types.

use vstd::prelude::*;
use std::marker::PhantomData;

verus! {

/// Engine configuration. The web runtime has nothing to configure, so every
/// setting is accepted and ignored.
#[derive(Debug, Default)]
pub struct Config {}

impl Config {
    /// A configuration.
    pub fn new() -> (r: Config)
        ensures
            r == (Config {}),
    {
        Config {}
    }

    /// Accepts the component-model setting and leaves the configuration as it is.
    pub fn wasm_component_model(&mut self, enabled: bool) -> (r: &mut Config)
        ensures
            *r == *old(self),
            *final(self) == *final(r),
    {
        self
    }

    /// Accepts the async setting and leaves the configuration as it is.
    pub fn async_support(&mut self, enabled: bool) -> (r: &mut Config)
        ensures
            *r == *old(self),
            *final(self) == *final(r),
    {
        self
    }
}

/// An owned handle to a resource of type `T`, identified by its representation.
pub struct Resource<T> {
    id: u32,
    _phantom: PhantomData<Box<T>>,
}

impl<T> Resource<T> {
    /// The representation that identifies the resource.
    pub closed spec fn spec_rep(&self) -> u32 {
        self.id
    }

    /// An owned handle with representation `id`.
    pub fn new_own(id: u32) -> (r: Resource<T>)
        ensures
            r.spec_rep() == id,
    {
        Resource { id, _phantom: PhantomData }
    }

    /// The representation that identifies the resource.
    pub fn rep(&self) -> (r: u32)
        ensures
            r == self.spec_rep(),
    {
        self.id
    }
}

/// What a host function is called with: the data of the store it runs in.
pub struct Caller<T> {
    data: T,
}

impl<T> Caller<T> {
    /// The data of the store.
    pub closed spec fn spec_data(&self) -> T {
        self.data
    }

    /// A caller over `data`.
    pub fn new(data: T) -> (r: Caller<T>)
        ensures
            r.spec_data() == data,
    {
        Caller { data }
    }

    /// The data of the store.
    pub fn data(&self) -> (r: &T)
        ensures
            *r == self.spec_data(),
    {
        &self.data
    }

    /// The data of the store, to change: what is written through the
    /// reference is the data from then on.
    pub fn data_mut(&mut self) -> (r: &mut T)
        ensures
            *r == old(self).spec_data(),
            final(self).spec_data() == *final(r),
    {
        &mut self.data
    }
}

/// A handle to a resource whose type is not known statically.
pub struct ResourceAny {
    id: u32,
}

/// What lowering a value into memory needs beyond the value.
pub struct LowerContext {}

/// A component that is linked but not yet instantiated.
pub struct InstancePre<T> {
    _phantom: PhantomData<T>,
}

/// The encoded representation of a Rust type: how many bytes one value
/// takes in a buffer.
pub trait ComponentType {
    /// Bytes per value.
    spec fn spec_stride() -> nat;

    /// The stride, and the strides it is made of, fit in a `usize`.
    spec fn stride_fits() -> bool;

    /// Bytes per value.
    fn stride() -> (r: usize)
        requires
            Self::stride_fits(),
        ensures
            r == Self::spec_stride(),
    ;
}

impl ComponentType for u32 {
    open spec fn spec_stride() -> nat {
        4
    }

    open spec fn stride_fits() -> bool {
        true
    }

    fn stride() -> (r: usize) {
        4
    }
}

impl<T: ComponentType> ComponentType for [T] {
    open spec fn spec_stride() -> nat {
        T::spec_stride()
    }

    open spec fn stride_fits() -> bool {
        T::stride_fits()
    }

    fn stride() -> (r: usize) {
        T::stride()
    }
}

impl<A: ComponentType, B: ComponentType> ComponentType for (A, B) {
    open spec fn spec_stride() -> nat {
        A::spec_stride() + B::spec_stride()
    }

    open spec fn stride_fits() -> bool {
        &&& A::stride_fits()
        &&& B::stride_fits()
        &&& A::spec_stride() + B::spec_stride() <= usize::MAX
    }

    fn stride() -> (r: usize) {
        A::stride() + B::stride()
    }
}

impl<T: ComponentType> ComponentType for (T,) {
    open spec fn spec_stride() -> nat {
        T::spec_stride()
    }

    open spec fn stride_fits() -> bool {
        T::stride_fits()
    }

    fn stride() -> (r: usize) {
        T::stride()
    }
}

} // verus!
