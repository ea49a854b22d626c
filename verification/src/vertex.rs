//! Vertex attributes: where in a vertex a shader input is found, and how
//! the attributes of a nested struct are placed inside the outer one.

use vstd::prelude::*;

verus! {

/// One input of a vertex shader: `format` says how the bytes at `offset`
/// are read, `shader_location` which input they feed.
#[derive(Clone, Copy, Debug, PartialEq, Eq)]
pub struct VertexAttribute<F> {
    pub format: F,
    pub offset: u64,
    pub shader_location: u32,
}

/// An attribute moved by `offset_offset` bytes and `location_offset` inputs.
pub open spec fn moved<F>(
    attribute: VertexAttribute<F>,
    location_offset: u32,
    offset_offset: u64,
) -> VertexAttribute<F> {
    VertexAttribute {
        format: attribute.format,
        offset: (attribute.offset + offset_offset) as u64,
        shader_location: (attribute.shader_location + location_offset) as u32,
    }
}

/// True when the attribute can be moved without leaving the range of its
/// offset and of its location.
pub open spec fn can_move<F>(
    attribute: VertexAttribute<F>,
    location_offset: u32,
    offset_offset: u64,
) -> bool {
    &&& attribute.offset + offset_offset <= u64::MAX
    &&& attribute.shader_location + location_offset <= u32::MAX
}

/// The attributes of a struct, as they are when the struct is a field of
/// another one: each moved by the field's offset, and by the number of
/// inputs that come before the field's.
pub fn map_attributes<F: Copy>(
    attribs: &[VertexAttribute<F>],
    location_offset: u32,
    offset_offset: u64,
) -> (r: Vec<VertexAttribute<F>>)
    requires
        forall|i: int|
            0 <= i < attribs@.len() ==> can_move(#[trigger] attribs@[i], location_offset, offset_offset),
    ensures
        r@.len() == attribs@.len(),
        forall|i: int|
            0 <= i < attribs@.len() ==> #[trigger] r@[i] == moved(
                attribs@[i],
                location_offset,
                offset_offset,
            ),
{
    let mut result: Vec<VertexAttribute<F>> = Vec::new();
    let mut i: usize = 0;
    while i < attribs.len()
        invariant
            i <= attribs@.len(),
            result@.len() == i,
            forall|k: int|
                0 <= k < attribs@.len() ==> can_move(
                    #[trigger] attribs@[k],
                    location_offset,
                    offset_offset,
                ),
            forall|k: int|
                0 <= k < i ==> #[trigger] result@[k] == moved(
                    attribs@[k],
                    location_offset,
                    offset_offset,
                ),
        decreases attribs@.len() - i,
    {
        result.push(
            VertexAttribute {
                format: attribs[i].format,
                offset: attribs[i].offset + offset_offset,
                shader_location: attribs[i].shader_location + location_offset,
            },
        );
        i += 1;
    }
    result
}

/// True when every attribute of `attribs` can be moved.
pub fn can_map_attributes<F: Copy>(
    attribs: &[VertexAttribute<F>],
    location_offset: u32,
    offset_offset: u64,
) -> (r: bool)
    ensures
        r == forall|i: int|
            0 <= i < attribs@.len() ==> can_move(#[trigger] attribs@[i], location_offset, offset_offset),
{
    let mut i: usize = 0;
    while i < attribs.len()
        invariant
            i <= attribs@.len(),
            forall|k: int|
                0 <= k < i ==> can_move(#[trigger] attribs@[k], location_offset, offset_offset),
        decreases attribs@.len() - i,
    {
        if attribs[i].offset > u64::MAX - offset_offset || attribs[i].shader_location > u32::MAX
            - location_offset {
            return false;
        }
        i += 1;
    }
    true
}

} // verus!
