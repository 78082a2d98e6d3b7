//! C struct layouts: where each field of a struct lies, computed from the
//! types of the fields in their order, and access to the fields of a struct
//! in memory.
//!
//! Fields are placed one after the other in the order of the schema. Each
//! is moved up to the next multiple of its alignment, the struct is as
//! aligned as its most aligned field, and its size is moved up to a multiple
//! of that alignment.

use vstd::prelude::*;
use crate::align::{lemma_padding, padding, spec_align_up};
use crate::errors::FfiError;
use crate::memory::{block, Memory};
use crate::pointer::{
    read_value_at, spec_read_value, spec_write_value, write_value_at, RawPointer,
};
use crate::types::{same, CType};
use crate::value::{HostValue, HostValueModel};

verus! {

/// One entry of a schema: the name of a field, the name of its type, and
/// for a fixed array the number of its elements.
pub struct SchemaField {
    pub name: String,
    pub ctype_name: String,
    pub array_len: Option<usize>,
}

/// What the layout of a field depends on: its type, and for a fixed array
/// the number of its elements.
pub struct FieldShape {
    pub ctype: CType,
    pub array_len: Option<usize>,
}

impl FieldShape {
    /// The bytes of the field: those of its type, for an array as many times
    /// as it has elements.
    pub open spec fn size(self) -> int {
        match self.array_len {
            Some(len) => self.ctype.spec_size() * len,
            None => self.ctype.spec_size() as int,
        }
    }

    /// The alignment of the field: that of its type, also for an array.
    pub open spec fn align(self) -> int {
        self.ctype.spec_alignment() as int
    }
}

/// Where the first `n` fields end: the offset behind the last of them.
pub open spec fn spec_end(shapes: Seq<FieldShape>, n: nat) -> int
    decreases n,
{
    if n == 0 {
        0
    } else {
        spec_align_up(spec_end(shapes, (n - 1) as nat), shapes[n - 1].align()) + shapes[n
            - 1].size()
    }
}

/// The offset of field `i`: the end of the fields before it, moved up to
/// the alignment of the field.
pub open spec fn spec_field_offset(shapes: Seq<FieldShape>, i: nat) -> int {
    spec_align_up(spec_end(shapes, i), shapes[i as int].align())
}

/// The largest alignment among the first `n` fields; 1 for none.
pub open spec fn spec_max_align(shapes: Seq<FieldShape>, n: nat) -> int
    decreases n,
{
    if n == 0 {
        1
    } else if shapes[n - 1].align() > spec_max_align(shapes, (n - 1) as nat) {
        shapes[n - 1].align()
    } else {
        spec_max_align(shapes, (n - 1) as nat)
    }
}

/// The size of the struct: the end of its fields, moved up to its
/// alignment.
pub open spec fn spec_total_size(shapes: Seq<FieldShape>) -> int {
    spec_align_up(spec_end(shapes, shapes.len()), spec_max_align(shapes, shapes.len()))
}

/// A field of a laid-out struct.
#[derive(Debug)]
pub struct StructField {
    pub name: String,
    pub ctype: CType,
    pub offset: usize,
    pub size: usize,
    pub array_len: Option<usize>,
}

impl StructField {
    pub open spec fn shape(&self) -> FieldShape {
        FieldShape { ctype: self.ctype, array_len: self.array_len }
    }
}

/// A laid-out struct: its fields in memory order, its size and its
/// alignment.
#[derive(Debug)]
pub struct StructDefinition {
    pub name: Option<String>,
    pub fields: Vec<StructField>,
    pub size: usize,
    pub alignment: usize,
}

/// The shapes of the entries of a schema, for the entries whose type names
/// are known.
pub open spec fn spec_shapes(schema: Seq<SchemaField>) -> Seq<FieldShape> {
    Seq::new(
        schema.len(),
        |i: int|
            FieldShape {
                ctype: CType::spec_from_str(schema[i].ctype_name@)->Some_0,
                array_len: schema[i].array_len,
            },
    )
}

/// Whether every type name of the schema is known.
pub open spec fn spec_types_known(schema: Seq<SchemaField>) -> bool {
    forall|i: int|
        0 <= i < schema.len() ==> CType::spec_from_str(#[trigger] schema[i].ctype_name@) is Some
}

/// The field of the given name, where several share it the last one; the
/// index of the field in memory order.
pub open spec fn spec_lookup(fields: Seq<StructField>, name: Seq<char>) -> Option<int>
    decreases fields.len(),
{
    if fields.len() == 0 {
        None
    } else if fields.last().name@ == name {
        Some(fields.len() - 1)
    } else {
        spec_lookup(fields.drop_last(), name)
    }
}

/// A lookup finds a field of the name or none: the index is in range and
/// the name matches.
pub proof fn lemma_lookup(fields: Seq<StructField>, name: Seq<char>)
    ensures
        match spec_lookup(fields, name) {
            Some(i) => 0 <= i < fields.len() && fields[i].name@ == name && forall|j: int|
                i < j < fields.len() ==> fields[j].name@ != name,
            None => forall|j: int| 0 <= j < fields.len() ==> fields[j].name@ != name,
        },
    decreases fields.len(),
{
    if fields.len() > 0 && fields.last().name@ != name {
        let shorter = fields.drop_last();
        lemma_lookup(shorter, name);
        assert forall|j: int| 0 <= j < shorter.len() implies shorter[j] == fields[j] by {}
        match spec_lookup(shorter, name) {
            Some(i) => {
                assert forall|j: int| i < j < fields.len() implies fields[j].name@ != name by {
                    if j < shorter.len() {
                        assert(shorter[j].name@ != name);
                    }
                }
            },
            None => {
                assert forall|j: int| 0 <= j < fields.len() implies fields[j].name@ != name by {
                    if j < shorter.len() {
                        assert(shorter[j].name@ != name);
                    }
                }
            },
        }
    }
}

/// The layout is in order and within its size: every field starts on a
/// multiple of its alignment at or behind the end of the field before it,
/// and ends within the size of the struct, which is a multiple of the
/// alignment of the struct.
pub proof fn lemma_layout(shapes: Seq<FieldShape>, i: nat)
    requires
        i < shapes.len(),
        forall|j: int| 0 <= j < shapes.len() ==> shapes[j].size() >= 0,
    ensures
        0 <= spec_end(shapes, i) <= spec_field_offset(shapes, i),
        spec_field_offset(shapes, i) % shapes[i as int].align() == 0,
        spec_field_offset(shapes, i) - spec_end(shapes, i) < shapes[i as int].align(),
        spec_field_offset(shapes, i) + shapes[i as int].size() == spec_end(shapes, i + 1),
        spec_end(shapes, i + 1) <= spec_end(shapes, shapes.len()),
        spec_end(shapes, shapes.len()) <= spec_total_size(shapes),
        spec_total_size(shapes) % spec_max_align(shapes, shapes.len()) == 0,
        1 <= shapes[i as int].align() <= spec_max_align(shapes, shapes.len()),
{
    lemma_ends(shapes, i);
    lemma_ends(shapes, i + 1);
    lemma_ends(shapes, shapes.len());
    lemma_ends_ordered(shapes, i + 1, shapes.len());
    lemma_max_align(shapes, shapes.len(), i as int);
    lemma_padding(spec_end(shapes, i), shapes[i as int].align());
    lemma_padding(spec_end(shapes, shapes.len()), spec_max_align(shapes, shapes.len()));
}

proof fn lemma_ends(shapes: Seq<FieldShape>, n: nat)
    requires
        n <= shapes.len(),
        forall|j: int| 0 <= j < shapes.len() ==> shapes[j].size() >= 0,
    ensures
        spec_end(shapes, n) >= 0,
        n > 0 ==> spec_end(shapes, n) >= spec_field_offset(shapes, (n - 1) as nat) >= spec_end(
            shapes,
            (n - 1) as nat,
        ),
    decreases n,
{
    if n > 0 {
        lemma_ends(shapes, (n - 1) as nat);
        lemma_padding(spec_end(shapes, (n - 1) as nat), shapes[n - 1].align());
    }
}

proof fn lemma_ends_ordered(shapes: Seq<FieldShape>, a: nat, b: nat)
    requires
        a <= b <= shapes.len(),
        forall|j: int| 0 <= j < shapes.len() ==> shapes[j].size() >= 0,
    ensures
        spec_end(shapes, a) <= spec_end(shapes, b),
    decreases b,
{
    if a < b {
        lemma_ends_ordered(shapes, a, (b - 1) as nat);
        lemma_ends(shapes, b);
    }
}

proof fn lemma_max_align(shapes: Seq<FieldShape>, n: nat, i: int)
    requires
        n <= shapes.len(),
    ensures
        spec_max_align(shapes, n) >= 1,
        0 <= i < n ==> 1 <= shapes[i].align() <= spec_max_align(shapes, n),
    decreases n,
{
    if n > 0 {
        lemma_max_align(shapes, (n - 1) as nat, i);
    }
}

impl StructDefinition {
    /// The shapes of the fields.
    pub open spec fn spec_shapes(&self) -> Seq<FieldShape> {
        Seq::new(self.fields@.len(), |i: int| self.fields@[i].shape())
    }

    /// Whether the definition is the layout of its own fields: offsets,
    /// sizes, total size and alignment are those that the layout rule gives.
    pub open spec fn spec_laid_out(&self) -> bool {
        let shapes = self.spec_shapes();
        &&& self.size == spec_total_size(shapes)
        &&& self.alignment == spec_max_align(shapes, shapes.len())
        &&& forall|i: int|
            0 <= i < self.fields@.len() ==> (#[trigger] self.fields@[i]).offset
                == spec_field_offset(shapes, i as nat) && self.fields@[i].size
                == shapes[i].size()
    }

    /// Lays a struct out from its schema.
    ///
    /// Fails with `UnknownType` where a type name is not known, and
    /// otherwise with `InvalidSize` where the size of the struct is beyond
    /// `usize`.
    pub fn from_schema(schema: &Vec<SchemaField>) -> (r: Result<StructDefinition, FfiError>)
        ensures
            match r {
                Ok(def) => {
                    &&& spec_types_known(schema@)
                    &&& def.spec_shapes() == spec_shapes(schema@)
                    &&& def.spec_laid_out()
                    &&& def.name is None
                    &&& def.fields@.len() == schema@.len()
                    &&& forall|i: int|
                        0 <= i < schema@.len() ==> (#[trigger] def.fields@[i]).name@
                            == schema@[i].name@
                },
                Err(e) => if !spec_types_known(schema@) {
                    e == FfiError::UnknownType
                } else {
                    e == FfiError::InvalidSize && spec_total_size(spec_shapes(schema@))
                        > usize::MAX
                },
            },
            r.is_ok() == (spec_types_known(schema@) && spec_total_size(spec_shapes(schema@))
                <= usize::MAX),
    {
        let n = schema.len();
        let mut types: Vec<CType> = Vec::new();
        let mut i: usize = 0;
        while i < n
            invariant
                n == schema@.len(),
                i <= n,
                types@.len() == i,
                forall|j: int|
                    0 <= j < i ==> CType::spec_from_str(#[trigger] schema@[j].ctype_name@) == Some(
                        types@[j],
                    ),
            decreases n - i,
        {
            match CType::from_str(schema[i].ctype_name.as_str()) {
                None => {
                    return Err(FfiError::UnknownType);
                },
                Some(t) => {
                    types.push(t);
                },
            }
            i = i + 1;
        }
        let ghost shapes = spec_shapes(schema@);
        proof {
            assert forall|j: int| 0 <= j < shapes.len() implies shapes[j].size() >= 0 by {
                assert(shapes[j].ctype.spec_size() * shapes[j].array_len.unwrap_or(0) >= 0)
                    by (nonlinear_arith)
                    requires
                        shapes[j].ctype.spec_size() >= 0,
                        shapes[j].array_len.unwrap_or(0) >= 0,
                ;
            }
        }
        let mut fields: Vec<StructField> = Vec::new();
        let mut offset: usize = 0;
        let mut max_align: usize = 1;
        let mut k: usize = 0;
        while k < n
            invariant
                n == schema@.len(),
                k <= n,
                types@.len() == n,
                shapes == spec_shapes(schema@),
                forall|j: int| 0 <= j < shapes.len() ==> shapes[j].size() >= 0,
                forall|j: int|
                    0 <= j < n ==> CType::spec_from_str(#[trigger] schema@[j].ctype_name@) == Some(
                        types@[j],
                    ),
                fields@.len() == k,
                offset == spec_end(shapes, k as nat),
                max_align == spec_max_align(shapes, k as nat),
                forall|j: int|
                    0 <= j < k ==> {
                        &&& (#[trigger] fields@[j]).name@ == schema@[j].name@
                        &&& fields@[j].shape() == shapes[j]
                        &&& fields@[j].offset == spec_field_offset(shapes, j as nat)
                        &&& fields@[j].size == shapes[j].size()
                    },
            decreases n - k,
        {
            let ctype = types[k];
            let array_len = schema[k].array_len;
            let field_align = ctype.alignment();
            proof {
                lemma_layout(shapes, k as nat);
                assert(shapes[k as int].ctype == ctype);
                assert(shapes[k as int].array_len == array_len);
            }
            let actual_size = match array_len {
                Some(len) => match ctype.size().checked_mul(len) {
                    Some(s) => s,
                    None => {
                        return Err(FfiError::InvalidSize);
                    },
                },
                None => ctype.size(),
            };
            let pad = padding(offset, field_align);
            let at = match offset.checked_add(pad) {
                Some(at) => at,
                None => {
                    return Err(FfiError::InvalidSize);
                },
            };
            let end = match at.checked_add(actual_size) {
                Some(end) => end,
                None => {
                    return Err(FfiError::InvalidSize);
                },
            };
            fields.push(
                StructField {
                    name: schema[k].name.clone(),
                    ctype,
                    offset: at,
                    size: actual_size,
                    array_len,
                },
            );
            offset = end;
            if field_align > max_align {
                max_align = field_align;
            }
            k = k + 1;
        }
        proof {
            lemma_max_align(shapes, n as nat, 0);
            lemma_padding(offset as int, max_align as int);
        }
        let pad = padding(offset, max_align);
        let size = match offset.checked_add(pad) {
            Some(size) => size,
            None => {
                return Err(FfiError::InvalidSize);
            },
        };
        let def = StructDefinition { name: None, fields, size, alignment: max_align };
        assert(def.spec_shapes() =~= shapes);
        Ok(def)
    }

    /// A copy of the definition.
    pub fn duplicate(&self) -> (r: StructDefinition)
        ensures
            r.size == self.size,
            r.alignment == self.alignment,
            r.name is Some == self.name is Some,
            r.name is Some ==> r.name->Some_0@ == self.name->Some_0@,
            r.fields@.len() == self.fields@.len(),
            forall|i: int|
                0 <= i < r.fields@.len() ==> {
                    &&& (#[trigger] r.fields@[i]).name@ == self.fields@[i].name@
                    &&& r.fields@[i].ctype == self.fields@[i].ctype
                    &&& r.fields@[i].offset == self.fields@[i].offset
                    &&& r.fields@[i].size == self.fields@[i].size
                    &&& r.fields@[i].array_len == self.fields@[i].array_len
                },
    {
        let mut fields: Vec<StructField> = Vec::new();
        let mut i: usize = 0;
        while i < self.fields.len()
            invariant
                i <= self.fields@.len(),
                fields@.len() == i,
                forall|k: int|
                    0 <= k < i ==> {
                        &&& (#[trigger] fields@[k]).name@ == self.fields@[k].name@
                        &&& fields@[k].ctype == self.fields@[k].ctype
                        &&& fields@[k].offset == self.fields@[k].offset
                        &&& fields@[k].size == self.fields@[k].size
                        &&& fields@[k].array_len == self.fields@[k].array_len
                    },
            decreases self.fields@.len() - i,
        {
            let f = &self.fields[i];
            fields.push(
                StructField {
                    name: f.name.clone(),
                    ctype: f.ctype,
                    offset: f.offset,
                    size: f.size,
                    array_len: f.array_len,
                },
            );
            i = i + 1;
        }
        let name = match &self.name {
            Some(n) => Some(n.clone()),
            None => None,
        };
        StructDefinition { name, fields, size: self.size, alignment: self.alignment }
    }

    /// The names of the fields, in memory order.
    pub fn field_names(&self) -> (r: Vec<String>)
        ensures
            r@.len() == self.fields@.len(),
            forall|i: int| 0 <= i < r@.len() ==> (#[trigger] r@[i])@ == self.fields@[i].name@,
    {
        let mut names: Vec<String> = Vec::new();
        let mut i: usize = 0;
        while i < self.fields.len()
            invariant
                i <= self.fields@.len(),
                names@.len() == i,
                forall|k: int| 0 <= k < i ==> (#[trigger] names@[k])@ == self.fields@[k].name@,
            decreases self.fields@.len() - i,
        {
            names.push(self.fields[i].name.clone());
            i = i + 1;
        }
        names
    }

    /// The field of the given name; where several share the name, the last.
    pub fn get_field(&self, name: &str) -> (r: Option<&StructField>)
        ensures
            match spec_lookup(self.fields@, name@) {
                Some(i) => 0 <= i < self.fields@.len() && r == Some(&self.fields@[i]),
                None => r is None,
            },
    {
        proof {
            lemma_lookup(self.fields@, name@);
        }
        match self.index_of(name) {
            Some(i) => Some(&self.fields[i]),
            None => None,
        }
    }

    /// The index of the field of the given name; where several share the
    /// name, that of the last.
    pub fn index_of(&self, name: &str) -> (r: Option<usize>)
        ensures
            match r {
                Some(i) => spec_lookup(self.fields@, name@) == Some(i as int) && i
                    < self.fields@.len(),
                None => spec_lookup(self.fields@, name@) is None,
            },
    {
        proof {
            lemma_lookup(self.fields@, name@);
        }
        let mut i: usize = self.fields.len();
        assert(self.fields@.subrange(0, i as int) =~= self.fields@);
        while i > 0
            invariant
                i <= self.fields@.len(),
                spec_lookup(self.fields@, name@) == spec_lookup(
                    self.fields@.subrange(0, i as int),
                    name@,
                ),
            decreases i,
        {
            let ghost prefix = self.fields@.subrange(0, i as int);
            proof {
                assert(prefix.last() == self.fields@[i - 1]);
                assert(prefix.drop_last() =~= self.fields@.subrange(0, i - 1));
            }
            if same(self.fields[i - 1].name.as_str(), name) {
                return Some(i - 1);
            }
            i = i - 1;
        }
        None
    }

    /// The field at position `index` in memory order.
    pub fn get_field_by_index(&self, index: usize) -> (r: Option<&StructField>)
        ensures
            r == if index < self.fields@.len() {
                Some(&self.fields@[index as int])
            } else {
                None
            },
    {
        if index < self.fields.len() {
            Some(&self.fields[index])
        } else {
            None
        }
    }

    /// The offset of the field of the given name.
    pub fn offset_of(&self, name: &str) -> (r: Result<usize, FfiError>)
        ensures
            match spec_lookup(self.fields@, name@) {
                Some(i) => r == Ok::<usize, FfiError>(self.fields@[i].offset),
                None => r == Err::<usize, FfiError>(FfiError::UnknownField),
            },
    {
        match self.get_field(name) {
            Some(f) => Ok(f.offset),
            None => Err(FfiError::UnknownField),
        }
    }

    /// The size in bytes of the field of the given name.
    pub fn size_of(&self, name: &str) -> (r: Result<usize, FfiError>)
        ensures
            match spec_lookup(self.fields@, name@) {
                Some(i) => r == Ok::<usize, FfiError>(self.fields@[i].size),
                None => r == Err::<usize, FfiError>(FfiError::UnknownField),
            },
    {
        match self.get_field(name) {
            Some(f) => Ok(f.size),
            None => Err(FfiError::UnknownField),
        }
    }
}

/// A struct in memory: the address where it lies, its layout, and the arena
/// that the memory belongs to (0 for none). The view owns no memory.
pub struct StructView {
    pub ptr: usize,
    pub def: StructDefinition,
    pub arena_id: usize,
}

impl StructView {
    /// A view of the struct that `ptr` leads to.
    pub fn new(ptr: &RawPointer, def: StructDefinition) -> (r: Self)
        ensures
            r.ptr == ptr.addr,
            r.def == def,
            r.arena_id == ptr.arena_id,
    {
        StructView { ptr: ptr.addr, def, arena_id: ptr.arena_id }
    }

    /// The field of the given name and its address, or why there is none:
    /// the layout holds no such field, the view is at the null address, or the
    /// address of the field is beyond the address space.
    pub open spec fn spec_field(&self, name: Seq<char>) -> Result<(int, usize), FfiError> {
        match spec_lookup(self.def.fields@, name) {
            None => Err(FfiError::UnknownField),
            Some(i) => if self.ptr == 0 {
                Err(FfiError::NullDereference)
            } else if self.ptr + self.def.fields@[i].offset > usize::MAX {
                Err(FfiError::OutOfBounds)
            } else {
                Ok((i, (self.ptr + self.def.fields@[i].offset) as usize))
            },
        }
    }

    fn field(&self, name: &str) -> (r: Result<(usize, usize), FfiError>)
        ensures
            match r {
                Ok((i, at)) => self.spec_field(name@) == Ok::<(int, usize), FfiError>(
                    (i as int, at),
                ) && i < self.def.fields@.len(),
                Err(e) => self.spec_field(name@) == Err::<(int, usize), FfiError>(e),
            },
    {
        match self.def.index_of(name) {
            None => Err(FfiError::UnknownField),
            Some(i) => {
                if self.ptr == 0 {
                    return Err(FfiError::NullDereference);
                }
                match self.ptr.checked_add(self.def.fields[i].offset) {
                    None => Err(FfiError::OutOfBounds),
                    Some(at) => Ok((i, at)),
                }
            },
        }
    }

    /// Reads the field of the given name.
    pub fn read_field(&self, mem: &Memory, name: &str) -> (r: Result<HostValue, FfiError>)
        requires
            mem.wf(),
        ensures
            match self.spec_field(name@) {
                Err(e) => r == Err::<HostValue, FfiError>(e),
                Ok((i, at)) => match r {
                    Ok(v) => spec_read_value(mem, at as int, self.def.fields@[i].ctype) == Ok::<
                        HostValueModel,
                        FfiError,
                    >(v@),
                    Err(e) => spec_read_value(mem, at as int, self.def.fields@[i].ctype) == Err::<
                        HostValueModel,
                        FfiError,
                    >(e),
                },
            },
    {
        match self.field(name) {
            Err(e) => Err(e),
            Ok((i, at)) => read_value_at(mem, at, self.def.fields[i].ctype),
        }
    }

    /// Writes `value` to the field of the given name. Nothing but the bytes
    /// of the field changes.
    pub fn write_field(&self, mem: &mut Memory, name: &str, value: &HostValue) -> (r: Result<
        (),
        FfiError,
    >)
        requires
            old(mem).wf(),
        ensures
            final(mem).wf(),
            final(mem).spec_frontier() == old(mem).spec_frontier(),
            final(mem).spec_next_id() == old(mem).spec_next_id(),
            match self.spec_field(name@) {
                Err(e) => r == Err::<(), FfiError>(e) && final(mem)@ == old(mem)@,
                Ok((i, at)) => match r {
                    Ok(()) => spec_write_value(
                        old(mem),
                        at as int,
                        self.def.fields@[i].ctype,
                        value@,
                    ) is Ok && final(mem)@ == old(mem)@.union_prefer_right(
                        block(
                            at as int,
                            spec_write_value(
                                old(mem),
                                at as int,
                                self.def.fields@[i].ctype,
                                value@,
                            )->Ok_0,
                        ),
                    ),
                    Err(e) => spec_write_value(
                        old(mem),
                        at as int,
                        self.def.fields@[i].ctype,
                        value@,
                    ) == Err::<Seq<u8>, FfiError>(e) && final(mem)@ == old(mem)@,
                },
            },
    {
        match self.field(name) {
            Err(e) => Err(e),
            Ok((i, at)) => write_value_at(mem, at, self.def.fields[i].ctype, value),
        }
    }

    /// What the view holds under `key`: its size under `size` and its address
    /// under `addr`, and under any other name the field of that name.
    pub fn index(&self, mem: &Memory, key: &str) -> (r: Result<HostValue, FfiError>)
        requires
            mem.wf(),
        ensures
            if key@ == "size"@ {
                r is Ok && r->Ok_0@ == HostValueModel::Integer(self.def.size as i64)
            } else if key@ == "addr"@ {
                r is Ok && r->Ok_0@ == HostValueModel::Integer(self.ptr as i64)
            } else {
                match self.spec_field(key@) {
                    Err(e) => r == Err::<HostValue, FfiError>(e),
                    Ok((i, at)) => match r {
                        Ok(v) => spec_read_value(mem, at as int, self.def.fields@[i].ctype)
                            == Ok::<HostValueModel, FfiError>(v@),
                        Err(e) => spec_read_value(mem, at as int, self.def.fields@[i].ctype)
                            == Err::<HostValueModel, FfiError>(e),
                    },
                }
            },
    {
        if same(key, "size") {
            Ok(
                HostValue::Integer(
                    #[verifier::truncate]
                    (self.def.size as i64),
                ),
            )
        } else if same(key, "addr") {
            Ok(
                HostValue::Integer(
                    #[verifier::truncate]
                    (self.ptr as i64),
                ),
            )
        } else {
            self.read_field(mem, key)
        }
    }

    /// The pointer to the field of the given name, or that the layout holds
    /// no such field. The pointer lies at the address of the view plus the
    /// offset of the field, which wraps at the end of the address space as
    /// `RawPointer::offset` does; it knows the size of the field and belongs
    /// to the arena of the view. The address is not looked into: a view at
    /// the null address gives the pointer at the offset itself.
    pub open spec fn spec_field_ptr(&self, name: Seq<char>) -> Result<RawPointer, FfiError> {
        match spec_lookup(self.def.fields@, name) {
            None => Err(FfiError::UnknownField),
            Some(i) => Ok(
                RawPointer {
                    addr: self.ptr.wrapping_add(self.def.fields@[i].offset),
                    arena_id: self.arena_id,
                    size_hint: self.def.fields@[i].size,
                },
            ),
        }
    }

    /// A pointer to the field of the given name that knows the size of the
    /// field: it covers the bytes of the field and no more. No memory is read
    /// or written, and the only failure is a name that the layout does not
    /// hold.
    pub fn field_ptr(&self, name: &str) -> (r: Result<RawPointer, FfiError>)
        ensures
            r == self.spec_field_ptr(name@),
            r is Err <==> spec_lookup(self.def.fields@, name@) is None,
            r matches Ok(p) ==> {
                let field = self.def.fields@[spec_lookup(self.def.fields@, name@)->Some_0];
                &&& p.arena_id == self.arena_id
                &&& p.size_hint == field.size
                &&& self.ptr + field.offset <= usize::MAX ==> p.addr == self.ptr + field.offset
            },
    {
        match self.def.index_of(name) {
            None => Err(FfiError::UnknownField),
            Some(i) => {
                let field = &self.def.fields[i];
                let at = self.ptr.wrapping_add(field.offset);
                Ok(RawPointer::managed(at, self.arena_id, field.size))
            },
        }
    }
}

} // verus!
