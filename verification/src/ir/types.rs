//! Types of values and how they are laid out in memory.
use vstd::prelude::*;

use crate::ir::ids::TypeId;

verus! {

#[derive(Clone, Copy, Debug, PartialEq, Eq, Hash, Structural)]
pub enum Primitive {
    I1,
    I8,
    I16,
    I32,
    I64,
    I128,
    U8,
    U16,
    U32,
    U64,
    U128,
    F32,
    F64,
    Ptr,
}

impl Primitive {
    #[verifier::allow_in_spec]
    pub fn byte_size(self) -> u64
        returns
            (match self {
                Primitive::I1 | Primitive::I8 | Primitive::U8 => 1u64,
                Primitive::I16 | Primitive::U16 => 2u64,
                Primitive::I32 | Primitive::U32 | Primitive::F32 => 4u64,
                Primitive::I64 | Primitive::U64 | Primitive::F64 | Primitive::Ptr => 8u64,
                Primitive::I128 | Primitive::U128 => 16u64,
            }),
    {
        match self {
            Primitive::I1 | Primitive::I8 | Primitive::U8 => 1,
            Primitive::I16 | Primitive::U16 => 2,
            Primitive::I32 | Primitive::U32 | Primitive::F32 => 4,
            Primitive::I64 | Primitive::U64 | Primitive::F64 | Primitive::Ptr => 8,
            Primitive::I128 | Primitive::U128 => 16,
        }
    }

    #[verifier::allow_in_spec]
    pub fn is_float(self) -> bool
        returns
            self == Primitive::F32 || self == Primitive::F64,
    {
        match self {
            Primitive::F32 | Primitive::F64 => true,
            _ => false,
        }
    }

    #[verifier::allow_in_spec]
    pub fn is_int(self) -> bool
        returns
            !(self == Primitive::F32 || self == Primitive::F64 || self == Primitive::Ptr),
    {
        match self {
            Primitive::F32 | Primitive::F64 | Primitive::Ptr => false,
            _ => true,
        }
    }

    #[verifier::allow_in_spec]
    pub fn is_unsigned_int(self) -> bool
        returns
            self == Primitive::U8 || self == Primitive::U16 || self == Primitive::U32 || self
                == Primitive::U64 || self == Primitive::U128,
    {
        match self {
            Primitive::U8
            | Primitive::U16
            | Primitive::U32
            | Primitive::U64
            | Primitive::U128 => true,
            _ => false,
        }
    }

    /// The unsigned integer of the same size.
    #[verifier::allow_in_spec]
    pub fn into_unsigned(self) -> Primitive
        returns
            (match self {
                Primitive::I1 | Primitive::I8 | Primitive::U8 => Primitive::U8,
                Primitive::I16 | Primitive::U16 => Primitive::U16,
                Primitive::I32 | Primitive::U32 | Primitive::F32 => Primitive::U32,
                Primitive::I64 | Primitive::U64 | Primitive::F64 | Primitive::Ptr => Primitive::U64,
                Primitive::I128 | Primitive::U128 => Primitive::U128,
            }),
    {
        match self {
            Primitive::I1 | Primitive::I8 | Primitive::U8 => Primitive::U8,
            Primitive::I16 | Primitive::U16 => Primitive::U16,
            Primitive::I32 | Primitive::U32 | Primitive::F32 => Primitive::U32,
            Primitive::I64 | Primitive::U64 | Primitive::F64 | Primitive::Ptr => Primitive::U64,
            Primitive::I128 | Primitive::U128 => Primitive::U128,
        }
    }

    /// How many registers hold a value.
    #[verifier::allow_in_spec]
    pub fn slot_count(self) -> u32
        returns
            (match self {
                Primitive::I128 | Primitive::U128 => 2u32,
                _ => 1u32,
            }),
    {
        match self {
            Primitive::I128 | Primitive::U128 => 2,
            _ => 1,
        }
    }
}

/// The size and the alignment of values in memory.
#[derive(Clone, Copy, Debug, PartialEq, Eq, Structural)]
pub struct Layout {
    pub size: u64,
    pub align: u64,
}

/// A part of a tuple.
#[derive(Clone, Copy, Debug, PartialEq, Eq, Structural)]
pub struct Element {
    pub ty: TypeId,
    pub offset: u64,
}

/// A primitive value inside a value.
#[derive(Clone, Copy, Debug, PartialEq, Eq, Structural)]
pub struct Leaf {
    pub primitive: Primitive,
    pub offset: u64,
}

#[derive(Debug)]
pub enum Shape {
    Primitive(Primitive),
    Array,
    Tuple(Vec<Element>),
}

/// A type with its layout. The leaves are the primitive values in their order.
#[derive(Debug)]
pub struct TypeInfo {
    pub shape: Shape,
    pub layout: Layout,
    pub leaves: Vec<Leaf>,
}

#[verifier::ext_equal]
pub enum ShapeView {
    Primitive(Primitive),
    Array,
    Tuple(Seq<Element>),
}

/// The mathematical content of a [`TypeInfo`].
#[verifier::ext_equal]
pub struct TypeView {
    pub shape: ShapeView,
    pub layout: Layout,
    pub leaves: Seq<Leaf>,
}

impl View for TypeInfo {
    type V = TypeView;

    open spec fn view(&self) -> TypeView {
        TypeView {
            shape: match self.shape {
                Shape::Primitive(p) => ShapeView::Primitive(p),
                Shape::Array => ShapeView::Array,
                Shape::Tuple(elements) => ShapeView::Tuple(elements@),
            },
            layout: self.layout,
            leaves: self.leaves@,
        }
    }
}

/// The types of a function.
#[derive(Debug)]
pub struct Types {
    pub types: Vec<TypeInfo>,
}

impl View for Types {
    type V = Seq<TypeView>;

    open spec fn view(&self) -> Seq<TypeView> {
        self.types@.map_values(|t: TypeInfo| t@)
    }
}

pub open spec fn primitive_type(p: Primitive) -> TypeView {
    TypeView {
        shape: ShapeView::Primitive(p),
        layout: Layout { size: p.byte_size(), align: p.byte_size() },
        leaves: seq![Leaf { primitive: p, offset: 0 }],
    }
}

/// The primitive that a type is.
pub open spec fn primitive_of(types: Seq<TypeView>, ty: TypeId) -> Option<Primitive> {
    if ty.0 < types.len() {
        match types[ty.0 as int].shape {
            ShapeView::Primitive(p) => Some(p),
            _ => None,
        }
    } else {
        None
    }
}

/// Primitive types have the size of their values.
pub open spec fn layouts_fit(types: Seq<TypeView>) -> bool {
    forall|i: int|
        0 <= i < types.len() ==> {
            let t = #[trigger] types[i];
            t.shape matches ShapeView::Primitive(p) ==> t.layout.size == p.byte_size()
        }
}

impl Types {
    /// Adds a primitive type.
    pub fn add(&mut self, p: Primitive) -> (ty: TypeId)
        ensures
            ty == TypeId(old(self)@.len() as u32),
            final(self)@ == old(self)@.push(primitive_type(p)),
    {
        let ghost before = self@;
        let ty: TypeId = TypeId(self.types.len() as u32);
        let mut leaves: Vec<Leaf> = Vec::new();
        leaves.push(Leaf { primitive: p, offset: 0 });
        let info = TypeInfo {
            shape: Shape::Primitive(p),
            layout: Layout { size: p.byte_size(), align: p.byte_size() },
            leaves,
        };
        assert(info@ =~= primitive_type(p));
        self.types.push(info);
        assert(self@ =~= before.push(primitive_type(p)));
        ty
    }

    /// Adds a type.
    pub fn add_type(&mut self, t: TypeInfo) -> (ty: TypeId)
        ensures
            ty == TypeId(old(self)@.len() as u32),
            final(self)@ == old(self)@.push(t@),
    {
        let ghost before = self@;
        let ghost view = t@;
        let ty: TypeId = TypeId(self.types.len() as u32);
        self.types.push(t);
        assert(self@ =~= before.push(view));
        ty
    }

    /// The primitive that a type is.
    pub fn primitive(&self, ty: TypeId) -> (p: Option<Primitive>)
        ensures
            p == primitive_of(self@, ty),
    {
        if (ty.0 as usize) < self.types.len() {
            assert(self@[ty.0 as int] == self.types@[ty.0 as int]@);
            match &self.types[ty.0 as usize].shape {
                Shape::Primitive(p) => Some(*p),
                _ => None,
            }
        } else {
            None
        }
    }
}

} // verus!
