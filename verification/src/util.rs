//! Small helpers: type constructors, alignment rounding, and a first-character
//! accessor used by the surrounding stages.

use vstd::prelude::*;
use crate::ast::{CType, Type};

verus! {

/// First character of a string, `'\0'` when it is empty.
pub fn first_char(s: &str) -> (r: char)
    ensures
        s@.len() == 0 ==> r == '\0',
        s@.len() > 0 ==> r == s@[0],
{
    if s.unicode_len() == 0 {
        '\0'
    } else {
        s.get_char(0)
    }
}

/// Rounds `x` up to the next multiple of `align`, which must be a power of
/// two.
pub fn roundup(x: i32, align: i32) -> (r: i32)
    requires
        0 <= x,
        0 < align,
        align & ((align - 1) as i32) == 0,
        x + align - 1 <= i32::MAX,
    ensures
        x <= r < x + align,
        r % align == 0,
{
    let y = x + (align - 1);
    let na = !(align - 1);
    let r = y & na;
    proof {
        assert(y == (x + align - 1) as i32);
        assert(na == !((align - 1) as i32));
        assert(x <= r < x + align && r % align == 0) by (bit_vector)
            requires
                r == ((x + align - 1) as i32) & (!((align - 1) as i32)),
                0 <= x,
                0 < align,
                align & ((align - 1) as i32) == 0,
                x + align - 1 <= i32::MAX,
        ;
    }
    r
}

/// Builds the pointer type to `base`: size 8, alignment 8.
pub fn ptr_to(base: Type) -> (r: Type)
    ensures
        r.ty == CType::Ptr,
        r.size == 8,
        r.align == 8,
        (r.ptr_to matches Some(b) && *b == base),
        r.ary_of is None,
        r.len == 0,
{
    Type {
        ty: CType::Ptr,
        size: 8,
        align: 8,
        ptr_to: Some(Box::new(base)),
        ary_of: None,
        len: 0,
    }
}

/// Builds the array type of `len` elements of `base`: its size is the
/// element size times the count, its alignment is the element alignment.
pub fn ary_of(base: Type, len: i32) -> (r: Type)
    requires
        i32::MIN <= base.size * len <= i32::MAX,
    ensures
        r.ty == CType::Ary,
        r.size == base.size * len,
        r.align == base.align,
        (r.ary_of matches Some(b) && *b == base),
        r.ptr_to is None,
        r.len == len,
{
    let size = base.size * len;
    let align = base.align;
    Type {
        ty: CType::Ary,
        size,
        align,
        ptr_to: None,
        ary_of: Some(Box::new(base)),
        len,
    }
}

} // verus!
