use vstd::prelude::*;
use id_arena::{Arena, ArenaBehavior, DefaultArenaBehavior};
use crate::error::TdmsError;
use crate::object_path::ObjectPathId;
use crate::reader::{read_u32, read_u64, spec_fits, spec_u32_le, spec_u64_le};
use crate::types::{spec_type_of_code, spec_type_width, TdsType};

verus! {

/// The shape of one object's samples in one chunk of a segment.
#[derive(Debug, Clone, Copy, PartialEq, Eq, Structural)]
pub struct RawDataIndex {
    pub number_of_values: u64,
    pub data_type: TdsType,
    pub data_size: u64,
}

/// Names one shape record of a [`RawDataIndexTable`].
#[derive(Debug, Clone, Copy, PartialEq, Eq, Structural)]
pub struct RawDataIndexId {
    pub index: usize,
}

#[verifier::external_type_specification]
#[verifier::external_body]
#[verifier::reject_recursive_types(T)]
pub struct ExDefaultArenaBehavior<T>(DefaultArenaBehavior<T>);

#[verifier::external_type_specification]
#[verifier::external_body]
#[verifier::reject_recursive_types(T)]
#[verifier::reject_recursive_types(A)]
pub struct ExArena<T, A>(Arena<T, A>);

/// The records an arena holds, in order of allocation.
pub uninterp spec fn arena_items(a: Arena<RawDataIndex>) -> Seq<RawDataIndex>;

/// Relies on `id_arena::Arena::new`: a new arena holds no item.
#[verifier::external_body]
fn arena_new() -> (r: Arena<RawDataIndex>)
    ensures
        arena_items(r) == Seq::<RawDataIndex>::empty(),
{
    Arena::new()
}

/// Relies on `id_arena::Arena::alloc`: the item is appended, and the index of
/// the id it returns is the item's position.
#[verifier::external_body]
fn arena_alloc(a: &mut Arena<RawDataIndex>, item: RawDataIndex) -> (r: usize)
    ensures
        arena_items(*final(a)) == arena_items(*old(a)).push(item),
        r == arena_items(*old(a)).len(),
{
    a.alloc(item).index()
}

/// Relies on `id_arena::Arena::next_id`, `DefaultArenaBehavior::arena_id` and
/// `DefaultArenaBehavior::new_id` to build the id of a position in this arena,
/// and on `Arena`'s `Index` impl, which returns the item at the id's position.
#[verifier::external_body]
fn arena_get(a: &Arena<RawDataIndex>, index: usize) -> (r: RawDataIndex)
    requires
        index < arena_items(*a).len(),
    ensures
        r == arena_items(*a)[index as int],
{
    let arena_id = DefaultArenaBehavior::<RawDataIndex>::arena_id(a.next_id());
    a[DefaultArenaBehavior::<RawDataIndex>::new_id(arena_id, index)]
}

/// The arena of shape records; ids stay valid for the table's lifetime.
pub struct RawDataIndexTable {
    arena: Arena<RawDataIndex>,
}

impl View for RawDataIndexTable {
    type V = Seq<RawDataIndex>;

    closed spec fn view(&self) -> Seq<RawDataIndex> {
        arena_items(self.arena)
    }
}

impl RawDataIndexTable {
    pub fn new() -> (r: RawDataIndexTable)
        ensures
            r@ == Seq::<RawDataIndex>::empty(),
    {
        RawDataIndexTable { arena: arena_new() }
    }

    /// Stores a record and returns its id.
    pub fn allocate(&mut self, record: RawDataIndex) -> (r: RawDataIndexId)
        ensures
            final(self)@ == old(self)@.push(record),
            r.index == old(self)@.len(),
    {
        let index = arena_alloc(&mut self.arena, record);
        RawDataIndexId { index }
    }

    /// The record an id names.
    pub fn get(&self, id: RawDataIndexId) -> (r: RawDataIndex)
        requires
            id.index < self@.len(),
        ensures
            r == self@[id.index as int],
    {
        arena_get(&self.arena, id.index)
    }
}

/// The shape most recently defined for an object, if any.
pub open spec fn spec_cached(s: Seq<Option<RawDataIndexId>>, object: int) -> Option<RawDataIndexId> {
    if 0 <= object < s.len() {
        s[object]
    } else {
        None
    }
}

/// The cache after recording `id` for `object`: the entry is overwritten, or
/// the backing sequence is padded with empty entries up to it.
pub open spec fn spec_cache_set(
    c: Seq<Option<RawDataIndexId>>,
    object: int,
    id: RawDataIndexId,
) -> Seq<Option<RawDataIndexId>> {
    if object < c.len() {
        c.update(object, Some(id))
    } else {
        (c + Seq::new((object - c.len()) as nat, |k: int| None::<RawDataIndexId>)).push(Some(id))
    }
}

/// For each object id, the shape it last defined; grows on demand.
pub struct RawDataIndexCache {
    prev_raw_data_indexes: Vec<Option<RawDataIndexId>>,
}

impl View for RawDataIndexCache {
    type V = Seq<Option<RawDataIndexId>>;

    closed spec fn view(&self) -> Seq<Option<RawDataIndexId>> {
        self.prev_raw_data_indexes@
    }
}

impl RawDataIndexCache {
    pub fn new() -> (r: RawDataIndexCache)
        ensures
            r@ == Seq::<Option<RawDataIndexId>>::empty(),
            forall|k: int| #[trigger] spec_cached(r@, k) is None,
    {
        RawDataIndexCache { prev_raw_data_indexes: Vec::new() }
    }

    /// Records `raw_data_index` as the object's current shape, replacing any earlier one.
    pub fn set_raw_data_index(&mut self, object: ObjectPathId, raw_data_index: RawDataIndexId)
        ensures
            final(self)@ == spec_cache_set(old(self)@, object.id as int, raw_data_index),
            forall|k: int| #[trigger]
                spec_cached(final(self)@, k) == if k == object.id {
                    Some(raw_data_index)
                } else {
                    spec_cached(old(self)@, k)
                },
    {
        let index = object.as_usize();
        if index >= self.prev_raw_data_indexes.len() {
            while self.prev_raw_data_indexes.len() < index
                invariant
                    self.prev_raw_data_indexes.len() <= index,
                    self@.len() >= old(self)@.len(),
                    forall|k: int| 0 <= k < old(self)@.len() ==> #[trigger] self@[k] == old(self)@[k],
                    forall|k: int| old(self)@.len() <= k < self@.len() ==> #[trigger] self@[k] is None,
                    self@ == old(self)@ + Seq::new(
                        (self@.len() - old(self)@.len()) as nat,
                        |k: int| None::<RawDataIndexId>,
                    ),
                decreases index - self.prev_raw_data_indexes.len(),
            {
                let ghost before = self@;
                self.prev_raw_data_indexes.push(None);
                assert(self@ =~= old(self)@ + Seq::new(
                    (self@.len() - old(self)@.len()) as nat,
                    |k: int| None::<RawDataIndexId>,
                ));
            }
            self.prev_raw_data_indexes.push(Some(raw_data_index));
            assert(self@ =~= spec_cache_set(old(self)@, object.id as int, raw_data_index));
            assert forall|k: int| #[trigger]
                spec_cached(self@, k) == if k == object.id {
                    Some(raw_data_index)
                } else {
                    spec_cached(old(self)@, k)
                } by {
                if 0 <= k < self@.len() && k != object.id && k >= old(self)@.len() {
                    assert(self@[k] is None);
                }
            }
        } else {
            self.prev_raw_data_indexes[index] = Some(raw_data_index);
            assert(self@ =~= spec_cache_set(old(self)@, object.id as int, raw_data_index));
        }
    }

    /// The object's current shape, or `None` if it never defined one.
    pub fn get_raw_data_index(&self, object: ObjectPathId) -> (r: Option<RawDataIndexId>)
        ensures
            r == spec_cached(self@, object.id as int),
    {
        if object.as_usize() < self.prev_raw_data_indexes.len() {
            self.prev_raw_data_indexes[object.as_usize()]
        } else {
            None
        }
    }
}

/// The outcome of decoding an inline shape at `p`: the record and the
/// position after it, or the error.
pub open spec fn spec_read_raw_data_index(s: Seq<u8>, p: int) -> Result<(RawDataIndex, int), TdmsError> {
    if !spec_fits(s, p, 4) {
        Err(TdmsError::TruncatedInput { position: p as u64 })
    } else if spec_type_of_code(spec_u32_le(s, p) as u32) is None {
        Err(TdmsError::UnknownType { position: p as u64, code: spec_u32_le(s, p) as u32 })
    } else if !spec_fits(s, p + 4, 4) {
        Err(TdmsError::TruncatedInput { position: (p + 4) as u64 })
    } else if spec_u32_le(s, p + 4) != 1 {
        Err(
            TdmsError::InvalidDimension {
                position: (p + 4) as u64,
                dimension: spec_u32_le(s, p + 4) as u32,
            },
        )
    } else if !spec_fits(s, p + 8, 8) {
        Err(TdmsError::TruncatedInput { position: (p + 8) as u64 })
    } else {
        let t = spec_type_of_code(spec_u32_le(s, p) as u32)->Some_0;
        let n = spec_u64_le(s, p + 8);
        match spec_type_width(t) {
            Some(w) => if w * n > u64::MAX {
                Err(TdmsError::CorruptSegment { position: (p + 8) as u64 })
            } else {
                Ok(
                    (
                        RawDataIndex {
                            number_of_values: n as u64,
                            data_type: t,
                            data_size: (w * n) as u64,
                        },
                        p + 16,
                    ),
                )
            },
            None => if t != TdsType::String {
                Err(TdmsError::NotImplemented { position: p as u64 })
            } else if !spec_fits(s, p + 16, 8) {
                Err(TdmsError::TruncatedInput { position: (p + 16) as u64 })
            } else {
                Ok(
                    (
                        RawDataIndex {
                            number_of_values: n as u64,
                            data_type: t,
                            data_size: spec_u64_le(s, p + 16) as u64,
                        },
                        p + 24,
                    ),
                )
            },
        }
    }
}

/// Decodes an inline shape: type code, dimension (which must be 1), value
/// count, and for strings the total byte length.
pub fn read_raw_data_index(data: &[u8], pos: &mut usize) -> (r: Result<RawDataIndex, TdmsError>)
    ensures
        match (r, spec_read_raw_data_index(data@, *old(pos) as int)) {
            (Ok(v), Ok((w, q))) => v == w && *final(pos) as int == q,
            (Err(e), Err(f)) => e == f,
            _ => false,
        },
        r matches Err(TdmsError::InvalidDimension { .. }) ==> *final(pos) == *old(pos) + 8,
        r matches Err(TdmsError::UnknownType { .. }) ==> *final(pos) == *old(pos) + 4,
{
    let p = *pos;
    let code = read_u32(data, pos)?;
    let data_type = match TdsType::from_u32(code) {
        Some(t) => t,
        None => {
            return Err(TdmsError::UnknownType { position: p as u64, code });
        },
    };
    let dimension = read_u32(data, pos)?;
    if dimension != 1 {
        return Err(TdmsError::InvalidDimension { position: (p + 4) as u64, dimension });
    }
    let number_of_values = read_u64(data, pos)?;
    let data_size = match data_type.size() {
        Some(type_size) => match type_size.checked_mul(number_of_values) {
            Some(size) => size,
            None => {
                return Err(TdmsError::CorruptSegment { position: (p + 8) as u64 });
            },
        },
        None => {
            if data_type == TdsType::String {
                read_u64(data, pos)?
            } else {
                return Err(TdmsError::NotImplemented { position: p as u64 });
            }
        },
    };
    Ok(RawDataIndex { number_of_values, data_type, data_size })
}

/// Shape size law: a fixed-width record's size is its width times its count;
/// a string record's size is the byte length written after the count, whatever
/// the count.
pub proof fn lemma_shape_size(s: Seq<u8>, p: int)
    requires
        spec_read_raw_data_index(s, p) is Ok,
    ensures
        ({
            let (r, q) = spec_read_raw_data_index(s, p)->Ok_0;
            match spec_type_width(r.data_type) {
                Some(w) => r.data_size == w * r.number_of_values,
                None => r.data_type == TdsType::String && q == p + 24 && r.data_size
                    == spec_u64_le(s, p + 16),
            }
        }),
{
}

/// Dimension guard: a shape whose dimension is not 1 fails with
/// `InvalidDimension`, and that outcome depends on no byte after the
/// dimension field.
pub proof fn lemma_dimension_guard(s: Seq<u8>, t: Seq<u8>, p: int)
    requires
        spec_fits(s, p, 8),
        spec_type_of_code(spec_u32_le(s, p) as u32) is Some,
        spec_u32_le(s, p + 4) != 1,
        spec_fits(t, p, 8),
        t.subrange(p, p + 8) == s.subrange(p, p + 8),
    ensures
        spec_read_raw_data_index(s, p) == (Err::<(RawDataIndex, int), TdmsError>(
            TdmsError::InvalidDimension {
                position: (p + 4) as u64,
                dimension: spec_u32_le(s, p + 4) as u32,
            },
        )),
        spec_read_raw_data_index(t, p) == spec_read_raw_data_index(s, p),
{
    assert forall|k: int| p <= k < p + 8 implies t[k] == s[k] by {
        assert(t.subrange(p, p + 8)[k - p] == t[k]);
        assert(s.subrange(p, p + 8)[k - p] == s[k]);
    }
}

} // verus!
