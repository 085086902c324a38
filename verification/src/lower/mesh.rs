//! The mesh of an element of the user interface.

use vstd::prelude::*;

use crate::bytes;
use crate::bytes::{put_u32, take_u32};
use crate::value::{Scalar, ScalarView};

verus! {

/// The index of a definition.
#[derive(Debug, Clone, Copy, PartialEq, Eq, Structural)]
pub struct DefIndex(pub i32);

impl View for DefIndex {
    type V = DefIndex;

    open spec fn view(&self) -> DefIndex {
        *self
    }
}

/// The mesh of an element: the type of the element decides whether it is a mesh
/// of an asset bank or another element. Both are stored as an `i32`.
#[derive(Debug, Clone, Copy, PartialEq, Eq, Structural)]
pub enum MeshRef {
    /// An index into an asset bank.
    Bank(u32),
    /// Another element.
    Def(DefIndex),
}

/// Whether elements of the type refer to another element: lists and scrolling
/// viewports do.
pub open spec fn refers(ui_type: i32) -> bool {
    ui_type == 8 || ui_type == 13
}

/// The mesh of an element of the type.
pub open spec fn mesh_of(ui_type: i32, index: i32) -> MeshRef {
    if refers(ui_type) {
        MeshRef::Def(DefIndex(index))
    } else {
        MeshRef::Bank(index as u32)
    }
}

/// A mesh as a field.
pub open spec fn mesh_scalar(m: MeshRef) -> ScalarView {
    match m {
        MeshRef::Bank(n) => ScalarView::U32(n),
        MeshRef::Def(d) => ScalarView::DefIndex(d.0),
    }
}

/// The number that is stored.
pub open spec fn stored(m: MeshRef) -> i32 {
    match m {
        MeshRef::Bank(n) => n as i32,
        MeshRef::Def(d) => d.0,
    }
}

impl MeshRef {
    /// Whether elements of the type refer to another element.
    pub fn type_is_def_ref(ui_type: i32) -> (r: bool)
        ensures
            r == refers(ui_type),
    {
        ui_type == 8 || ui_type == 13
    }

    /// The mesh of an element of the type, from an index.
    pub fn from_index(ui_type: i32, index: i32) -> (r: MeshRef)
        ensures
            r == mesh_of(ui_type, index),
    {
        if MeshRef::type_is_def_ref(ui_type) {
            MeshRef::Def(DefIndex(index))
        } else {
            MeshRef::Bank(index as u32)
        }
    }

    /// The mesh as a field.
    pub fn scalar(self) -> (r: Scalar)
        ensures
            r@ == mesh_scalar(self),
    {
        match self {
            MeshRef::Bank(n) => Scalar::U32(n),
            MeshRef::Def(d) => Scalar::DefIndex(d.0),
        }
    }

    /// The number that is stored.
    pub fn raw(self) -> (r: i32)
        ensures
            r == stored(self),
    {
        match self {
            MeshRef::Bank(n) => n as i32,
            MeshRef::Def(d) => d.0,
        }
    }

    /// Writes the mesh.
    pub fn serialize(self, out: &mut Vec<u8>)
        ensures
            final(out)@ == old(out)@ + bytes::little_endian(stored(self) as u32),
    {
        put_u32(out, self.raw() as u32);
    }

    /// How many bytes a mesh takes.
    pub fn wire_size(self) -> (r: usize)
        ensures
            r == bytes::little_endian(stored(self) as u32).len(),
    {
        4
    }

    /// Reads the mesh of an element of the type; nothing if the bytes end early.
    pub fn parse_tagged(data: &[u8], ui_type: i32) -> (r: Option<MeshRef>)
        ensures
            r == (if data@.len() >= 4 {
                Some(mesh_of(ui_type, bytes::from_little_endian(data@.subrange(0, 4)) as i32))
            } else {
                None
            }),
    {
        match take_u32(data, 0) {
            Some(n) => Some(MeshRef::from_index(ui_type, n as i32)),
            None => None,
        }
    }
}

/// A mesh that is written and read back for the same type of element is the same.
pub proof fn mesh_reads_back(m: MeshRef, ui_type: i32)
    requires
        (m is Def) == refers(ui_type),
    ensures
        mesh_of(
            ui_type,
            bytes::from_little_endian(bytes::little_endian(stored(m) as u32).subrange(0, 4)) as i32,
        ) == m,
{
    let n = stored(m) as u32;
    assert(bytes::little_endian(n).subrange(0, 4) =~= bytes::little_endian(n));
    bytes::lemma_little_endian(n);
    match m {
        MeshRef::Bank(x) => {
            assert(((x as i32) as u32) as i32 as u32 == x) by (bit_vector);
        },
        MeshRef::Def(d) => {
            let x = d.0;
            assert((x as u32) as i32 == x) by (bit_vector);
        },
    }
}

} // verus!
