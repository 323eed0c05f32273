//! Type descriptors for the compiled language: machine integers,
//! pointers, and arrays, with their storage sizes in bytes.

use vstd::prelude::*;

verus! {

/// A type of the compiled language. `Int` occupies 4 bytes, `Char` 1 byte,
/// a pointer 8 bytes, and an array the size of its element type times its
/// length.
#[derive(PartialEq, Eq, Debug)]
pub enum Ty {
    Int,
    Char,
    Ptr(Box<Ty>),
    Array(Box<Ty>, u32),
}

impl Ty {
    /// Size of a value of this type in bytes, as an unbounded integer.
    pub open spec fn spec_size(self) -> nat
        decreases self,
    {
        match self {
            Ty::Char => 1,
            Ty::Int => 4,
            Ty::Ptr(_) => 8,
            Ty::Array(ty, len) => (ty.spec_size() * len) as nat,
        }
    }

    /// The size of the type and of every type nested in it fits in a `u32`,
    /// so that `size` can be computed without overflow at any depth.
    pub open spec fn size_fits(self) -> bool
        decreases self,
    {
        match self {
            Ty::Char => true,
            Ty::Int => true,
            Ty::Ptr(ty) => ty.size_fits(),
            Ty::Array(ty, len) => ty.size_fits() && ty.spec_size() * len <= u32::MAX,
        }
    }

    /// Built from `Int` by pointer and array formation alone, as every
    /// type the parser resolves is: `Char` appears nowhere in it.
    pub open spec fn int_based(self) -> bool
        decreases self,
    {
        match self {
            Ty::Int => true,
            Ty::Char => false,
            Ty::Ptr(ty) => ty.int_based(),
            Ty::Array(ty, _) => ty.int_based(),
        }
    }

    /// Size of a value of this type in bytes.
    pub fn size(&self) -> (r: u32)
        requires
            self.size_fits(),
        ensures
            r == self.spec_size(),
        decreases self,
    {
        match self {
            Ty::Char => 1,
            Ty::Int => 4,
            Ty::Ptr(_) => 8,
            Ty::Array(ty, len) => {
                let ty_size = ty.size();
                ty_size * *len
            },
        }
    }

    /// Whether values of this type denote an address of another value:
    /// true exactly for pointers and arrays.
    pub fn is_reference_type(&self) -> (r: bool)
        ensures
            r == (self is Ptr || self is Array),
    {
        matches!(self, Ty::Ptr(_) | Ty::Array(..))
    }

    /// The type a reference type points at.
    pub open spec fn spec_base_ty(self) -> Ty
        recommends
            self is Ptr || self is Array,
    {
        match self {
            Ty::Ptr(ty) => *ty,
            Ty::Array(ty, _) => *ty,
            _ => self,
        }
    }

    /// The type a reference type points at. Asking for the base type of a
    /// non-reference type is a programming error, so it is ruled out here.
    pub fn base_ty(&self) -> (r: Ty)
        requires
            self is Ptr || self is Array,
        ensures
            r == self.spec_base_ty(),
    {
        match self {
            Ty::Ptr(ty) => (**ty).clone(),
            Ty::Array(ty, _) => (**ty).clone(),
            Ty::Int => Ty::Int,
            Ty::Char => Ty::Char,
        }
    }
}

impl Clone for Ty {
    /// Structural copy: the clone is equal to the original.
    fn clone(&self) -> (r: Self)
        ensures
            r == *self,
        decreases self,
    {
        match self {
            Ty::Int => Ty::Int,
            Ty::Char => Ty::Char,
            Ty::Ptr(ty) => Ty::Ptr(Box::new((**ty).clone())),
            Ty::Array(ty, len) => Ty::Array(Box::new((**ty).clone()), *len),
        }
    }
}

} // verus!
