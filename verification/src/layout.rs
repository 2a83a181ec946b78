//! Sizes of types and offsets of their elements. Fields of a struct lie one
//! after the other, each as wide as its type.

use crate::bv::BitVec;
use crate::error::{Error, ErrorKind};
use crate::ir::Type;
use crate::term::{BinOp, Term};
use vstd::arithmetic::power2::pow2;
use vstd::prelude::*;

verus! {

/// The size of a type in bits, where it is known and fits `usize`: an
/// integer has its width, a pointer 64 bits, an array or vector the sum of
/// its elements, a struct the sum of its fields, a named struct the size of
/// its definition.
pub open spec fn type_bits(t: Type) -> Option<usize>
    decreases t, 0nat,
{
    match t {
        Type::Integer { bits } => Some(bits as usize),
        Type::Pointer { .. } => Some(64),
        Type::Array { element, num_elements } => times(type_bits(*element), num_elements),
        Type::Vector { element, num_elements } => times(type_bits(*element), num_elements),
        Type::Struct { elements, .. } => fields_bits(elements@, elements@.len()),
        Type::NamedStruct { ty: Some(inner), .. } => type_bits(*inner),
        _ => None,
    }
}

/// `n` times a size, where that fits `usize`.
pub open spec fn times(size: Option<usize>, n: usize) -> Option<usize> {
    match size {
        Some(s) => if n * s <= usize::MAX {
            Some((n * s) as usize)
        } else {
            None
        },
        None => None,
    }
}

/// The bits of the first `upto` of `fields`, where all are known and the
/// sum fits `usize`.
pub open spec fn fields_bits(fields: Seq<Type>, upto: nat) -> Option<usize>
    decreases fields, upto,
{
    if upto == 0 || upto > fields.len() {
        Some(0)
    } else {
        match (fields_bits(fields, (upto - 1) as nat), type_bits(fields[upto - 1])) {
            (Some(a), Some(b)) => if a + b <= usize::MAX {
                Some((a + b) as usize)
            } else {
                None
            },
            _ => None,
        }
    }
}

/// The size of a type in bits, or nothing where it is not known or does
/// not fit.
pub fn size(ty: &Type) -> (r: Option<usize>)
    ensures
        r == type_bits(*ty),
    decreases *ty, 0nat,
{
    match ty {
        Type::Integer { bits } => Some(*bits as usize),
        Type::Pointer { .. } => Some(64),
        Type::Array { element, num_elements } => match size(element) {
            Some(s) => num_elements.checked_mul(s),
            None => None,
        },
        Type::Vector { element, num_elements } => match size(element) {
            Some(s) => num_elements.checked_mul(s),
            None => None,
        },
        Type::Struct { elements, .. } => size_of_fields(elements, elements.len()),
        Type::NamedStruct { ty: Some(inner), .. } => size(inner),
        _ => None,
    }
}

/// The bits of the first `upto` fields.
pub fn size_of_fields(fields: &Vec<Type>, upto: usize) -> (r: Option<usize>)
    requires
        upto <= fields@.len(),
    ensures
        r == fields_bits(fields@, upto as nat),
    decreases fields@, upto,
{
    let mut total: usize = 0;
    let mut k: usize = 0;
    while k < upto
        invariant
            0 <= k <= upto <= fields@.len(),
            fields_bits(fields@, k as nat) == Some(total),
        decreases upto - k,
    {
        match size(&fields[k]) {
            Some(b) => match total.checked_add(b) {
                Some(t) => {
                    total = t;
                },
                None => {
                    proof {
                        lemma_fields_bits_none(fields@, (k + 1) as nat, upto as nat);
                    }
                    return None;
                },
            },
            None => {
                proof {
                    lemma_fields_bits_none(fields@, (k + 1) as nat, upto as nat);
                }
                return None;
            },
        }
        k = k + 1;
    }
    Some(total)
}

/// Once the sum of the fields is unknown it stays unknown.
proof fn lemma_fields_bits_none(fields: Seq<Type>, k: nat, upto: nat)
    requires
        k <= upto <= fields.len(),
        fields_bits(fields, k) is None,
    ensures
        fields_bits(fields, upto) is None,
    decreases upto - k,
{
    if k < upto {
        lemma_fields_bits_none(fields, k, (upto - 1) as nat);
    }
}

/// The definition behind a type: that of a named struct, the type itself
/// otherwise.
pub open spec fn resolved(t: Type) -> Type
    decreases t,
{
    match t {
        Type::NamedStruct { ty: Some(inner), .. } => resolved(*inner),
        _ => t,
    }
}

/// The type of the elements that an index into `t` reaches, for a pointer,
/// an array or a vector.
pub open spec fn element_type(t: Type) -> Option<Type> {
    match t {
        Type::Pointer { pointee } => Some(*pointee),
        Type::Array { element, .. } => Some(*element),
        Type::Vector { element, .. } => Some(*element),
        _ => None,
    }
}

/// The size of an element in bytes, where the size is known and is a
/// whole number of bytes.
pub open spec fn element_bytes(element: Type) -> Option<usize> {
    match type_bits(element) {
        Some(bits) => if bits % 8 == 0 {
            Some(bits / 8)
        } else {
            None
        },
        None => None,
    }
}

/// The offset in bytes of element `index` of `base`, and that element's
/// type: `index` elements on for a pointer, an array or a vector; the fields
/// before it for a struct. Nothing where the sizes are unknown, are no whole
/// bytes or do not fit, where a struct has no such field, and for any other
/// type.
pub open spec fn constant_offset(base: Type, index: usize) -> Option<(usize, Type)>
    decreases base,
{
    match base {
        Type::Pointer { pointee } => scaled(*pointee, index),
        Type::Array { element, .. } => scaled(*element, index),
        Type::Vector { element, .. } => scaled(*element, index),
        Type::Struct { elements, .. } => if index < elements@.len() {
            match fields_bits(elements@, index as nat) {
                Some(bits) => if bits % 8 == 0 {
                    Some((bits / 8, elements@[index as int]))
                } else {
                    None
                },
                None => None,
            }
        } else {
            None
        },
        Type::NamedStruct { ty: Some(inner), .. } => constant_offset(*inner, index),
        _ => None,
    }
}

/// `index` elements of type `element` on, in bytes.
pub open spec fn scaled(element: Type, index: usize) -> Option<(usize, Type)> {
    match element_bytes(element) {
        Some(bytes) => if index * bytes <= usize::MAX {
            Some(((index * bytes) as usize, element))
        } else {
            None
        },
        None => None,
    }
}

fn bytes_of(element: &Type) -> (r: Option<usize>)
    ensures
        r == element_bytes(*element),
{
    match size(element) {
        Some(bits) => if bits % 8 == 0 {
            Some(bits / 8)
        } else {
            None
        },
        None => None,
    }
}

fn scaled_offset<'t>(element: &'t Type, index: usize) -> (r: Result<(usize, &'t Type), Error>)
    ensures
        match r {
            Ok((offset, ty)) => scaled(*element, index) == Some((offset, *ty)),
            Err(e) => scaled(*element, index) is None && e.kind() == ErrorKind::MalformedInstruction,
        },
{
    match bytes_of(element) {
        Some(bytes) => match index.checked_mul(bytes) {
            Some(offset) => Ok((offset, element)),
            None => Err(Error::malformed("offset of an element does not fit")),
        },
        None => Err(Error::malformed("size of an element is unknown or no whole number of bytes")),
    }
}

/// The offset in bytes of the element at a constant index, and the type of
/// that element. Fails with `MalformedInstruction` exactly where
/// `constant_offset` gives nothing.
pub fn get_offset_constant_index<'t>(base_type: &'t Type, index: usize) -> (r: Result<
    (usize, &'t Type),
    Error,
>)
    ensures
        match r {
            Ok((offset, ty)) => constant_offset(*base_type, index) == Some((offset, *ty)),
            Err(e) => constant_offset(*base_type, index) is None && e.kind()
                == ErrorKind::MalformedInstruction,
        },
    decreases *base_type,
{
    match base_type {
        Type::Pointer { pointee } => scaled_offset(pointee, index),
        Type::Array { element, .. } => scaled_offset(element, index),
        Type::Vector { element, .. } => scaled_offset(element, index),
        Type::Struct { elements, .. } => {
            if index >= elements.len() {
                return Err(Error::malformed("struct has no field at this index"));
            }
            match size_of_fields(elements, index) {
                Some(bits) => if bits % 8 == 0 {
                    Ok((bits / 8, &elements[index]))
                } else {
                    Err(Error::malformed("offset of a field is no whole number of bytes"))
                },
                None => Err(Error::malformed("size of a field is unknown")),
            }
        },
        Type::NamedStruct { ty: Some(inner), .. } => get_offset_constant_index(inner, index),
        Type::NamedStruct { ty: None, .. } => Err(Error::malformed("offset into an opaque struct type")),
        _ => Err(Error::malformed("offset into a type that has no elements")),
    }
}

/// The term for `index` elements on, in bytes: the index times the size of
/// an element, at the width of the index.
pub open spec fn symbolic_offset(index: Term, bytes: usize) -> Term {
    Term::bin(
        BinOp::Mul,
        index,
        Term::Const { value: (bytes as nat) % pow2(index.width()), width: index.width() },
    )
}

/// The offset in bytes of the element at a symbolic index into a pointer,
/// an array or a vector, and the type of that element. Fails with
/// `MalformedInstruction` for any other type and where the size of an
/// element is unknown or no whole number of bytes.
pub fn get_offset_bv_index<'t, 'ctx>(base_type: &'t Type, index: &BitVec<'ctx>) -> (r: Result<
    (BitVec<'ctx>, &'t Type),
    Error,
>)
    ensures
        match r {
            Ok((offset, ty)) => {
                &&& element_type(*base_type) == Some(*ty)
                &&& element_bytes(*ty) is Some
                &&& offset@ == symbolic_offset(index@, element_bytes(*ty).unwrap())
                &&& offset.home() == index.home()
                &&& offset.width() == index.width()
            },
            Err(e) => {
                &&& e.kind() == ErrorKind::MalformedInstruction
                &&& match element_type(*base_type) {
                    Some(ty) => element_bytes(ty) is None,
                    None => true,
                }
            },
        },
{
    let element: &'t Type = match base_type {
        Type::Pointer { pointee } => pointee,
        Type::Array { element, .. } => element,
        Type::Vector { element, .. } => element,
        _ => {
            return Err(Error::malformed("symbolic index into a type that is not indexed"));
        },
    };
    match bytes_of(element) {
        Some(bytes) => {
            let width = index.get_width();
            let scale = BitVec::from_u64(index.context(), bytes as u64, width);
            Ok((index.mul(&scale), element))
        },
        None => Err(Error::malformed("size of an element is unknown or no whole number of bytes")),
    }
}

} // verus!
