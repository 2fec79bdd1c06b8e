use vstd::prelude::*;
use crate::error::TdmsError;
use crate::object_path::{spec_intern, ObjectPathCache, ObjectPathId};
use crate::properties::{spec_property_at, spec_property_end, TdmsProperty};
use crate::raw_data_index::{
    read_raw_data_index, spec_cache_set, spec_cached, spec_read_raw_data_index, RawDataIndex, RawDataIndexCache,
    RawDataIndexId,
    RawDataIndexTable,
};
use crate::reader::{
    read_i32, read_string, read_u32, read_u64, spec_fits, spec_read_string, spec_u32_le, spec_u64_le,
};
use crate::toc::{TocFlag, TocMask};

verus! {

pub const RAW_DATA_INDEX_NO_DATA: u32 = 0xFFFF_FFFF;

pub const RAW_DATA_INDEX_MATCHES_PREVIOUS: u32 = 0x0000_0000;

pub const FORMAT_CHANGING_SCALER: u32 = 0x0000_1269;

pub const DIGITAL_LINE_SCALER: u32 = 0x0000_126A;

/// Length of a segment lead-in in bytes.
pub const LEAD_IN_LENGTH: u64 = 28;

/// An object declared in a segment, with the shape of its data there if it has any.
#[derive(Debug, Clone, Copy, PartialEq, Eq, Structural)]
pub struct SegmentObject {
    pub object_id: ObjectPathId,
    pub raw_data_index: Option<RawDataIndexId>,
}

impl SegmentObject {
    pub fn no_data(object_id: ObjectPathId) -> (r: SegmentObject)
        ensures
            r == (SegmentObject { object_id, raw_data_index: None }),
    {
        SegmentObject { object_id, raw_data_index: None }
    }

    pub fn with_data(object_id: ObjectPathId, raw_data_index: RawDataIndexId) -> (r: SegmentObject)
        ensures
            r == (SegmentObject { object_id, raw_data_index: Some(raw_data_index) }),
    {
        SegmentObject { object_id, raw_data_index: Some(raw_data_index) }
    }
}

/// One segment: where it starts, where its raw data starts, where the next
/// segment starts, and the objects laid out in its raw data.
#[derive(Debug, Clone)]
pub struct TdmsSegment {
    pub position: u64,
    pub data_position: u64,
    pub next_segment_position: u64,
    pub objects: Vec<SegmentObject>,
}

impl TdmsSegment {
    pub fn new(
        position: u64,
        data_position: u64,
        next_segment_position: u64,
        objects: Vec<SegmentObject>,
    ) -> (r: TdmsSegment)
        ensures
            r.position == position,
            r.data_position == data_position,
            r.next_segment_position == next_segment_position,
            r.objects@ == objects@,
    {
        TdmsSegment { position, data_position, next_segment_position, objects }
    }
}

/// The object ids and shape ids of `o` name entries that exist.
pub open spec fn spec_valid_object(o: SegmentObject, n_paths: int, n_indexes: int) -> bool {
    &&& o.object_id.id < n_paths
    &&& o.raw_data_index matches Some(i) ==> i.index < n_indexes
}

/// The `TDSm` signature stands at `p`.
pub open spec fn spec_magic_at(s: Seq<u8>, p: int) -> bool {
    &&& spec_fits(s, p, 4)
    &&& s[p] == 0x54
    &&& s[p + 1] == 0x44
    &&& s[p + 2] == 0x53
    &&& s[p + 3] == 0x6d
}

/// The table-of-contents mask of the lead-in at `p`.
pub open spec fn spec_toc(s: Seq<u8>, p: int) -> TocMask {
    TocMask { flags: spec_u32_le(s, p + 4) as u32 }
}

/// The lead-in at `p` places the next segment or the raw data past `u64::MAX`.
pub open spec fn spec_offsets_overflow(s: Seq<u8>, p: int) -> bool {
    p + 28 + spec_u64_le(s, p + 12) > u64::MAX || p + 28 + spec_u64_le(s, p + 20) > u64::MAX
}

/// `seg` is described by the lead-in at its own position: the signature is
/// there, both absolute positions come from the two relative offsets, the
/// mask asks for a little-endian metadata section with a new object list, and
/// the object list holds as many objects as its count says.
pub open spec fn spec_lead_in(s: Seq<u8>, seg: TdmsSegment) -> bool {
    let p = seg.position as int;
    &&& spec_magic_at(s, p)
    &&& spec_fits(s, p, 28)
    &&& seg.next_segment_position == p + 28 + spec_u64_le(s, p + 12)
    &&& seg.data_position == p + 28 + spec_u64_le(s, p + 20)
    &&& spec_toc(s, p).spec_has_flag(TocFlag::MetaData)
    &&& spec_toc(s, p).spec_has_flag(TocFlag::NewObjList)
    &&& !spec_toc(s, p).spec_has_flag(TocFlag::BigEndian)
    &&& spec_fits(s, p + 28, 4)
    &&& seg.objects@.len() == spec_u32_le(s, p + 28)
}

/// The lead-in at `position` is complete, signed, placed within `u64` and
/// asks for a decodable metadata section: only then is any session state read.
pub open spec fn spec_lead_in_accepted(s: Seq<u8>, position: int) -> bool {
    let toc = spec_toc(s, position);
    &&& spec_magic_at(s, position)
    &&& spec_fits(s, position, 28)
    &&& !spec_offsets_overflow(s, position)
    &&& toc.spec_has_flag(TocFlag::MetaData)
    &&& toc.spec_has_flag(TocFlag::NewObjList)
    &&& !toc.spec_has_flag(TocFlag::BigEndian)
}

/// Decoding the segment that starts at `position` in session `m`: nothing at
/// the end of the data, else the session afterwards and the segment.
pub open spec fn spec_read_segment(s: Seq<u8>, position: int, m: DecodeModel) -> Result<
    Option<(DecodeModel, SegmentModel)>,
    TdmsError,
> {
    let toc = spec_toc(s, position);
    if position >= s.len() {
        Ok(None)
    } else if !spec_fits(s, position, 4) {
        Err(TdmsError::TruncatedInput { position: position as u64 })
    } else if !spec_magic_at(s, position) {
        Err(
            TdmsError::InvalidSegmentHeader {
                position: position as u64,
                found: spec_u32_le(s, position) as u32,
            },
        )
    } else if !spec_fits(s, position + 4, 4) {
        Err(TdmsError::TruncatedInput { position: (position + 4) as u64 })
    } else if !spec_fits(s, position + 8, 4) {
        Err(TdmsError::TruncatedInput { position: (position + 8) as u64 })
    } else if !spec_fits(s, position + 12, 8) {
        Err(TdmsError::TruncatedInput { position: (position + 12) as u64 })
    } else if !spec_fits(s, position + 20, 8) {
        Err(TdmsError::TruncatedInput { position: (position + 20) as u64 })
    } else if spec_offsets_overflow(s, position) {
        Err(TdmsError::CorruptSegment { position: position as u64 })
    } else if toc.spec_has_flag(TocFlag::BigEndian) || !toc.spec_has_flag(TocFlag::MetaData)
        || !toc.spec_has_flag(TocFlag::NewObjList) {
        Err(TdmsError::NotImplemented { position: position as u64 })
    } else {
        match spec_read_object_list(s, position + 28, m) {
            Err(e) => Err(e),
            Ok((m2, objs, _)) => Ok(
                Some(
                    (
                        m2,
                        SegmentModel {
                            position: position as u64,
                            data_position: (position + 28 + spec_u64_le(s, position + 20)) as u64,
                            next_segment_position: (position + 28 + spec_u64_le(s, position + 12))
                                as u64,
                            objects: objs,
                        },
                    ),
                ),
            ),
        }
    }
}

/// Decoding every segment from `position` on in session `m`: the session at
/// the end and the segments in file order. A segment whose successor would
/// start at or past the end of the data is the last.
pub open spec fn spec_read_segments_from(s: Seq<u8>, position: int, m: DecodeModel) -> Result<
    (DecodeModel, Seq<SegmentModel>),
    TdmsError,
>
    decreases s.len() - position,
{
    match spec_read_segment(s, position, m) {
        Err(e) => Err(e),
        Ok(None) => Ok((m, Seq::empty())),
        Ok(Some((m2, seg))) => if seg.next_segment_position >= s.len()
            || seg.next_segment_position <= position {
            Ok((m2, seq![seg]))
        } else {
            match spec_read_segments_from(s, seg.next_segment_position as int, m2) {
                Err(e) => Err(e),
                Ok((m3, rest)) => Ok((m3, seq![seg] + rest)),
            }
        },
    }
}

/// Decoding a whole file from a fresh session.
pub open spec fn spec_decode(s: Seq<u8>) -> Result<(DecodeModel, Seq<SegmentModel>), TdmsError> {
    spec_read_segments_from(s, 0, spec_empty_model())
}

/// The decoded segments `segs` are the segments `model`, field by field.
pub open spec fn spec_segments_match(segs: Seq<TdmsSegment>, model: Seq<SegmentModel>) -> bool {
    &&& segs.len() == model.len()
    &&& forall|i: int|
        0 <= i < segs.len() ==> {
            &&& (#[trigger] segs[i]).position == model[i].position
            &&& segs[i].data_position == model[i].data_position
            &&& segs[i].next_segment_position == model[i].next_segment_position
            &&& segs[i].objects@ == model[i].objects
        }
}

/// The segments of a file in order: the first starts at 0, each one starts
/// where the one before says the next starts, each starts inside the file,
/// and the last one's successor would start at or past the end.
pub open spec fn spec_segment_chain(s: Seq<u8>, segs: Seq<TdmsSegment>) -> bool {
    &&& forall|i: int| 0 <= i < segs.len() ==> spec_lead_in(s, #[trigger] segs[i])
    &&& segs.len() > 0 ==> segs[0].position == 0
    &&& forall|i: int|
        0 < i < segs.len() ==> (#[trigger] segs[i]).position == segs[i - 1].next_segment_position
    &&& segs.len() == 0 ==> s.len() == 0
    &&& segs.len() > 0 ==> segs[segs.len() - 1].next_segment_position >= s.len()
}

/// The decode session as values: the interned paths, the shape records, the
/// reuse cache, and for each object the positions at which its properties
/// were decoded, in the order they were appended.
pub struct DecodeModel {
    pub paths: Seq<Seq<char>>,
    pub indexes: Seq<RawDataIndex>,
    pub cache: Seq<Option<RawDataIndexId>>,
    pub props: Seq<Seq<int>>,
}

/// The session before anything is decoded.
pub open spec fn spec_empty_model() -> DecodeModel {
    DecodeModel {
        paths: Seq::empty(),
        indexes: Seq::empty(),
        cache: Seq::empty(),
        props: Seq::empty(),
    }
}

/// One decoded segment as values.
pub struct SegmentModel {
    pub position: u64,
    pub data_position: u64,
    pub next_segment_position: u64,
    pub objects: Seq<SegmentObject>,
}

/// Decoding `n` properties from `p`: where each starts, and where the last ends.
pub open spec fn spec_read_properties(s: Seq<u8>, p: int, n: nat) -> Result<(Seq<int>, int), TdmsError>
    decreases n,
{
    if n == 0 {
        Ok((Seq::empty(), p))
    } else {
        match spec_read_properties(s, p, (n - 1) as nat) {
            Err(e) => Err(e),
            Ok((starts, q)) => match spec_property_end(s, q) {
                Err(e) => Err(e),
                Ok(e) => Ok((starts.push(q), e)),
            },
        }
    }
}

/// Decoding a property count at `p` and that many properties.
pub open spec fn spec_read_property_block(s: Seq<u8>, p: int) -> Result<(Seq<int>, int), TdmsError> {
    if !spec_fits(s, p, 4) {
        Err(TdmsError::TruncatedInput { position: p as u64 })
    } else {
        spec_read_properties(s, p + 4, spec_u32_le(s, p) as nat)
    }
}

/// Resolving the raw data index header at `at` for `object`: the shape
/// records and cache afterwards, the segment entry, and where reading goes on.
pub open spec fn spec_resolve(
    s: Seq<u8>,
    at: int,
    indexes: Seq<RawDataIndex>,
    cache: Seq<Option<RawDataIndexId>>,
    object: ObjectPathId,
) -> Result<(Seq<RawDataIndex>, Seq<Option<RawDataIndexId>>, SegmentObject, int), TdmsError> {
    let h = spec_u32_le(s, at) as u32;
    if !spec_fits(s, at, 4) {
        Err(TdmsError::TruncatedInput { position: at as u64 })
    } else if h == RAW_DATA_INDEX_NO_DATA {
        Ok((indexes, cache, SegmentObject { object_id: object, raw_data_index: None }, at + 4))
    } else if h == RAW_DATA_INDEX_MATCHES_PREVIOUS {
        match spec_cached(cache, object.id as int) {
            Some(i) => Ok(
                (indexes, cache, SegmentObject { object_id: object, raw_data_index: Some(i) }, at
                    + 4),
            ),
            None => Err(TdmsError::MissingPreviousIndex { position: at as u64 }),
        }
    } else if h == FORMAT_CHANGING_SCALER || h == DIGITAL_LINE_SCALER {
        Err(TdmsError::NotImplemented { position: at as u64 })
    } else {
        match spec_read_raw_data_index(s, at + 4) {
            Err(e) => Err(e),
            Ok((rec, q)) => {
                let id = RawDataIndexId { index: indexes.len() as usize };
                Ok(
                    (
                        indexes.push(rec),
                        spec_cache_set(cache, object.id as int, id),
                        SegmentObject { object_id: object, raw_data_index: Some(id) },
                        q,
                    ),
                )
            },
        }
    }
}

/// Decoding one object entry at `p` in session `m`.
pub open spec fn spec_read_object(s: Seq<u8>, p: int, m: DecodeModel) -> Result<
    (DecodeModel, SegmentObject, int),
    TdmsError,
> {
    match spec_read_string(s, p) {
        Err(e) => Err(e),
        Ok((name, at)) => {
            let (paths, id) = spec_intern(m.paths, name);
            let props = if m.props.len() < paths.len() {
                m.props.push(Seq::empty())
            } else {
                m.props
            };
            match spec_resolve(s, at, m.indexes, m.cache, ObjectPathId { id: id as usize }) {
                Err(e) => Err(e),
                Ok((indexes, cache, o, q)) => match spec_read_property_block(s, q) {
                    Err(e) => Err(e),
                    Ok((starts, end)) => Ok(
                        (
                            DecodeModel {
                                paths,
                                indexes,
                                cache,
                                props: props.update(id, props[id] + starts),
                            },
                            o,
                            end,
                        ),
                    ),
                },
            }
        },
    }
}

/// Decoding `n` object entries from `p` in session `m`.
pub open spec fn spec_read_objects(s: Seq<u8>, p: int, m: DecodeModel, n: nat) -> Result<
    (DecodeModel, Seq<SegmentObject>, int),
    TdmsError,
>
    decreases n,
{
    if n == 0 {
        Ok((m, Seq::empty(), p))
    } else {
        match spec_read_objects(s, p, m, (n - 1) as nat) {
            Err(e) => Err(e),
            Ok((m1, objs, q)) => match spec_read_object(s, q, m1) {
                Err(e) => Err(e),
                Ok((m2, o, e)) => Ok((m2, objs.push(o), e)),
            },
        }
    }
}

/// The object list at `p`: a count, then that many entries.
pub open spec fn spec_read_object_list(s: Seq<u8>, p: int, m: DecodeModel) -> Result<
    (DecodeModel, Seq<SegmentObject>, int),
    TdmsError,
> {
    if !spec_fits(s, p, 4) {
        Err(TdmsError::TruncatedInput { position: p as u64 })
    } else {
        spec_read_objects(s, p + 4, m, spec_u32_le(s, p) as nat)
    }
}

/// The decode session: interned paths, shape records, the reuse cache, the
/// properties of each object (indexed by object id) and the segments read.
///
/// Properties are append-only: when a later segment lists a property again
/// for the same object, the new entry is appended after the earlier one, and
/// [`TdmsReader::find_property`] answers with the most recent.
pub struct TdmsReader {
    pub properties: Vec<Vec<TdmsProperty>>,
    pub object_paths: ObjectPathCache,
    pub data_indexes: RawDataIndexTable,
    pub raw_data_index_cache: RawDataIndexCache,
    pub segments: Vec<TdmsSegment>,
}

proof fn lemma_properties_error_persists(s: Seq<u8>, p: int, k: nat, n: nat)
    requires
        0 < k <= n,
        spec_read_properties(s, p, k) is Err,
    ensures
        spec_read_properties(s, p, n) == spec_read_properties(s, p, k),
    decreases n - k,
{
    if k < n {
        lemma_properties_error_persists(s, p, k, (n - 1) as nat);
    }
}

proof fn lemma_objects_error_persists(s: Seq<u8>, p: int, m: DecodeModel, k: nat, n: nat)
    requires
        0 < k <= n,
        spec_read_objects(s, p, m, k) is Err,
    ensures
        spec_read_objects(s, p, m, n) == spec_read_objects(s, p, m, k),
    decreases n - k,
{
    if k < n {
        lemma_objects_error_persists(s, p, m, k, (n - 1) as nat);
    }
}

/// `r` with `pre` put in front of its segments.
pub open spec fn spec_prepend(
    pre: Seq<SegmentModel>,
    r: Result<(DecodeModel, Seq<SegmentModel>), TdmsError>,
) -> Result<(DecodeModel, Seq<SegmentModel>), TdmsError> {
    match r {
        Ok((m, rest)) => Ok((m, pre + rest)),
        Err(e) => Err(e),
    }
}

impl TdmsReader {
    /// The reader's state is the session `m` over the data `s`.
    pub open spec fn spec_models(&self, s: Seq<u8>, m: DecodeModel) -> bool {
        &&& self.object_paths@ == m.paths
        &&& self.data_indexes@ == m.indexes
        &&& self.raw_data_index_cache@ == m.cache
        &&& self.properties@.len() == m.props.len()
        &&& forall|o: int|
            0 <= o < m.props.len() ==> (#[trigger] self.properties@[o])@.len() == m.props[o].len()
        &&& forall|o: int, k: int|
            0 <= o < m.props.len() && 0 <= k < m.props[o].len() ==> spec_property_at(
                s,
                m.props[o][k],
                #[trigger] self.properties@[o]@[k],
            )
    }

    pub open spec fn wf(&self) -> bool {
        &&& self.object_paths.wf()
        &&& self.properties@.len() == self.object_paths@.len()
        &&& forall|k: int|
            #[trigger] spec_cached(self.raw_data_index_cache@, k) matches Some(i) ==> i.index
                < self.data_indexes@.len()
        &&& forall|i: int, j: int|
            0 <= i < self.segments@.len() && 0 <= j < self.segments@[i].objects@.len()
                ==> spec_valid_object(
                #[trigger] self.segments@[i].objects@[j],
                self.object_paths@.len() as int,
                self.data_indexes@.len() as int,
            )
    }

    pub fn new() -> (r: TdmsReader)
        ensures
            r.wf(),
            r.segments@.len() == 0,
            r.object_paths@ == Seq::<Seq<char>>::empty(),
            r.data_indexes@ == Seq::<RawDataIndex>::empty(),
            r.raw_data_index_cache@ == Seq::<Option<RawDataIndexId>>::empty(),
            r.properties@.len() == 0,
    {
        let r = TdmsReader {
            properties: Vec::new(),
            object_paths: ObjectPathCache::new(),
            data_indexes: RawDataIndexTable::new(),
            raw_data_index_cache: RawDataIndexCache::new(),
            segments: Vec::new(),
        };
        assert(forall|k: int| #[trigger] spec_cached(r.raw_data_index_cache@, k) is None);
        r
    }

    /// The most recently decoded property of the object with the given name.
    pub fn find_property(&self, object_id: ObjectPathId, name: &String) -> (r: Option<&TdmsProperty>)
        requires
            self.wf(),
        ensures
            match r {
                Some(prop) => object_id.id < self.properties@.len() && exists|k: int|
                    0 <= k < self.properties@[object_id.id as int]@.len() && prop
                        == #[trigger] self.properties@[object_id.id as int]@[k] && prop.name@
                        == name@ && forall|m: int|
                        k < m < self.properties@[object_id.id as int]@.len()
                            ==> (#[trigger] self.properties@[object_id.id as int]@[m]).name@
                            != name@,
                None => object_id.id < self.properties@.len() ==> forall|m: int|
                    0 <= m < self.properties@[object_id.id as int]@.len()
                        ==> (#[trigger] self.properties@[object_id.id as int]@[m]).name@ != name@,
            },
    {
        if object_id.id >= self.properties.len() {
            return None;
        }
        let props = &self.properties[object_id.id];
        let mut i: usize = props.len();
        while i > 0
            invariant
                object_id.id < self.properties@.len(),
                props@ == self.properties@[object_id.id as int]@,
                i <= props@.len(),
                forall|m: int| i <= m < props@.len() ==> (#[trigger] props@[m]).name@ != name@,
            decreases i,
        {
            if props[i - 1].name == *name {
                assert(props@[i - 1] == self.properties@[object_id.id as int]@[i - 1]);
                return Some(&props[i - 1]);
            }
            i = i - 1;
        }
        None
    }

    /// The shape the object most recently defined, if any.
    pub fn current_shape(&self, object_id: ObjectPathId) -> (r: Option<RawDataIndex>)
        requires
            self.wf(),
        ensures
            match spec_cached(self.raw_data_index_cache@, object_id.id as int) {
                Some(i) => r == Some(self.data_indexes@[i.index as int]),
                None => r is None,
            },
    {
        match self.raw_data_index_cache.get_raw_data_index(object_id) {
            Some(id) => Some(self.data_indexes.get(id)),
            None => None,
        }
    }

    /// Works out an object's shape in this segment from its raw data index
    /// header, read at `header_position`; `*pos` stands just after the header.
    pub fn resolve_raw_data_index(
        &mut self,
        object_id: ObjectPathId,
        header: u32,
        header_position: usize,
        data: &[u8],
        pos: &mut usize,
    ) -> (r: Result<SegmentObject, TdmsError>)
        requires
            old(self).wf(),
            object_id.id < old(self).object_paths@.len(),
        ensures
            final(self).wf(),
            final(self).object_paths@ == old(self).object_paths@,
            final(self).properties@ == old(self).properties@,
            final(self).segments@ == old(self).segments@,
            final(self).data_indexes@.len() >= old(self).data_indexes@.len(),
            r matches Ok(o) ==> spec_valid_object(
                o,
                final(self).object_paths@.len() as int,
                final(self).data_indexes@.len() as int,
            ),
            header == RAW_DATA_INDEX_NO_DATA ==> r == Ok::<SegmentObject, TdmsError>(
                SegmentObject { object_id, raw_data_index: None },
            ) && final(self).data_indexes@ == old(self).data_indexes@
                && final(self).raw_data_index_cache@ == old(self).raw_data_index_cache@,
            header == RAW_DATA_INDEX_MATCHES_PREVIOUS ==> final(self).data_indexes@ == old(
                self,
            ).data_indexes@ && final(self).raw_data_index_cache@
                == old(self).raw_data_index_cache@ && r == match spec_cached(
                old(self).raw_data_index_cache@,
                object_id.id as int,
            ) {
                Some(i) => Ok::<SegmentObject, TdmsError>(
                    SegmentObject { object_id, raw_data_index: Some(i) },
                ),
                None => Err(
                    TdmsError::MissingPreviousIndex { position: header_position as u64 },
                ),
            },
            header == FORMAT_CHANGING_SCALER || header == DIGITAL_LINE_SCALER ==> r == Err::<
                SegmentObject,
                TdmsError,
            >(TdmsError::NotImplemented { position: header_position as u64 }),
            header != RAW_DATA_INDEX_NO_DATA && header != RAW_DATA_INDEX_MATCHES_PREVIOUS && header
                != FORMAT_CHANGING_SCALER && header != DIGITAL_LINE_SCALER ==> match (
                r,
                spec_read_raw_data_index(data@, *old(pos) as int),
            ) {
                (Ok(o), Ok((rec, q))) => {
                    &&& o == (SegmentObject {
                        object_id,
                        raw_data_index: Some(
                            RawDataIndexId { index: old(self).data_indexes@.len() as usize },
                        ),
                    })
                    &&& final(self).data_indexes@ == old(self).data_indexes@.push(rec)
                    &&& forall|k: int| #[trigger]
                        spec_cached(final(self).raw_data_index_cache@, k) == if k
                            == object_id.id {
                            o.raw_data_index
                        } else {
                            spec_cached(old(self).raw_data_index_cache@, k)
                        }
                    &&& *final(pos) as int == q
                },
                (Err(e), Err(f)) => e == f,
                _ => false,
            },
            spec_fits(data@, header_position as int, 4) && header == spec_u32_le(
                data@,
                header_position as int,
            ) as u32 && *old(pos) == header_position + 4 ==> match spec_resolve(
                data@,
                header_position as int,
                old(self).data_indexes@,
                old(self).raw_data_index_cache@,
                object_id,
            ) {
                Ok((ix, c, o, q)) => r == Ok::<SegmentObject, TdmsError>(o)
                    && final(self).data_indexes@ == ix && final(self).raw_data_index_cache@ == c
                    && *final(pos) as int == q,
                Err(e) => r == Err::<SegmentObject, TdmsError>(e),
            },
    {
        if header == RAW_DATA_INDEX_NO_DATA {
            Ok(SegmentObject::no_data(object_id))
        } else if header == RAW_DATA_INDEX_MATCHES_PREVIOUS {
            match self.raw_data_index_cache.get_raw_data_index(object_id) {
                Some(raw_data_index_id) => Ok(SegmentObject::with_data(object_id, raw_data_index_id)),
                None => Err(TdmsError::MissingPreviousIndex { position: header_position as u64 }),
            }
        } else if header == FORMAT_CHANGING_SCALER || header == DIGITAL_LINE_SCALER {
            Err(TdmsError::NotImplemented { position: header_position as u64 })
        } else {
            let record = read_raw_data_index(data, pos)?;
            let raw_data_index = self.data_indexes.allocate(record);
            self.raw_data_index_cache.set_raw_data_index(object_id, raw_data_index);
            assert(forall|i: int, j: int|
                0 <= i < self.segments@.len() && 0 <= j < self.segments@[i].objects@.len()
                    ==> spec_valid_object(
                    #[trigger] self.segments@[i].objects@[j],
                    self.object_paths@.len() as int,
                    self.data_indexes@.len() as int,
                ));
            Ok(SegmentObject::with_data(object_id, raw_data_index))
        }
    }

    /// Reads a property count and that many properties, appending each to
    /// the object's list.
    pub fn read_properties(&mut self, object_id: ObjectPathId, data: &[u8], pos: &mut usize) -> (r:
        Result<(), TdmsError>)
        requires
            old(self).wf(),
            object_id.id < old(self).properties@.len(),
        ensures
            final(self).wf(),
            final(self).segments@ == old(self).segments@,
            final(self).object_paths@ == old(self).object_paths@,
            final(self).data_indexes@ == old(self).data_indexes@,
            final(self).raw_data_index_cache@ == old(self).raw_data_index_cache@,
            final(self).properties@.len() == old(self).properties@.len(),
            forall|k: int|
                0 <= k < old(self).properties@.len() ==> old(self).properties@[k]@.is_prefix_of(
                    #[trigger] final(self).properties@[k]@,
                ),
            forall|k: int|
                0 <= k < old(self).properties@.len() && k != object_id.id ==> (
                #[trigger] final(self).properties@[k]) == old(self).properties@[k],
            match spec_read_property_block(data@, *old(pos) as int) {
                Ok((starts, e)) => {
                    let id = object_id.id as int;
                    let n0 = old(self).properties@[id]@.len();
                    &&& r is Ok
                    &&& *final(pos) as int == e
                    &&& final(self).properties@[id]@.len() == n0 + starts.len()
                    &&& forall|k: int|
                        0 <= k < starts.len() ==> spec_property_at(
                            data@,
                            starts[k],
                            #[trigger] final(self).properties@[id]@[n0 + k],
                        )
                },
                Err(e) => r == Err::<(), TdmsError>(e),
            },
            r is Ok ==> spec_fits(data@, *old(pos) as int, 4),
            r is Ok ==> ({
                let id = object_id.id as int;
                final(self).properties@[id]@.len() == old(self).properties@[id]@.len()
                    + spec_u32_le(data@, *old(pos) as int)
            }),
    {
        let ghost start = *pos;
        let num_properties = read_u32(data, pos)?;
        let ghost id = object_id.id as int;
        let ghost n0 = old(self).properties@[id]@.len();
        let ghost mut starts: Seq<int> = Seq::empty();
        let mut k: u32 = 0;
        while k < num_properties
            invariant
                self.wf(),
                self.object_paths@ == old(self).object_paths@,
                self.data_indexes@ == old(self).data_indexes@,
                self.raw_data_index_cache@ == old(self).raw_data_index_cache@,
                self.properties@.len() == old(self).properties@.len(),
                object_id.id < self.properties@.len(),
                self.segments@ == old(self).segments@,
                k <= num_properties,
                spec_fits(data@, start as int, 4),
                num_properties as int == spec_u32_le(data@, start as int),
                start == *old(pos),
                id == object_id.id as int,
                n0 == old(self).properties@[id]@.len(),
                spec_read_properties(data@, start + 4, k as nat) == Ok::<(Seq<int>, int), TdmsError>(
                    (starts, *pos as int),
                ),
                starts.len() == k,
                forall|j: int|
                    0 <= j < k ==> spec_property_at(
                        data@,
                        starts[j],
                        #[trigger] self.properties@[id]@[n0 + j],
                    ),
                self.properties@[object_id.id as int]@.len() == old(
                    self,
                ).properties@[object_id.id as int]@.len() + k,
                forall|m: int|
                    0 <= m < old(self).properties@.len() && m != object_id.id ==> (
                    #[trigger] self.properties@[m]) == old(self).properties@[m],
                forall|k: int|
                    0 <= k < old(self).properties@.len() ==> old(
                        self,
                    ).properties@[k]@.is_prefix_of(#[trigger] self.properties@[k]@),
            decreases num_properties - k,
        {
            let ghost at = *pos;
            let property = match TdmsProperty::read(data, pos) {
                Ok(p) => p,
                Err(e) => {
                    proof {
                        lemma_properties_error_persists(
                            data@,
                            start + 4,
                            (k + 1) as nat,
                            num_properties as nat,
                        );
                    }
                    return Err(e);
                },
            };
            let ghost before = self.properties@;
            self.properties[object_id.id].push(property);
            proof {
                assert forall|m: int|
                    0 <= m < old(self).properties@.len() implies old(
                        self,
                    ).properties@[m]@.is_prefix_of(#[trigger] self.properties@[m]@) by {
                    assert(before[m]@.is_prefix_of(self.properties@[m]@));
                }
            }
            proof {
                assert(self.properties@[id]@ == before[id]@.push(property));
                starts = starts.push(at as int);
                assert forall|j: int| 0 <= j < k + 1 implies spec_property_at(
                    data@,
                    starts[j],
                    #[trigger] self.properties@[id]@[n0 + j],
                ) by {
                    if j < k {
                        assert(self.properties@[id]@[n0 + j] == before[id]@[n0 + j]);
                    }
                }
            }
            k = k + 1;
        }
        Ok(())
    }

    /// Reads one object entry of an object list: its path, its raw data
    /// index header and shape, and its properties, which are appended to the
    /// object's list.
    pub fn read_segment_object(
        &mut self,
        data: &[u8],
        pos: &mut usize,
        model: Ghost<DecodeModel>,
    ) -> (r: Result<SegmentObject, TdmsError>)
        requires
            old(self).wf(),
            old(self).spec_models(data@, model@),
        ensures
            match spec_read_object(data@, *old(pos) as int, model@) {
                Ok((m, o, e)) => r == Ok::<SegmentObject, TdmsError>(o) && final(self).spec_models(
                    data@,
                    m,
                ) && *final(pos) as int == e,
                Err(e) => r == Err::<SegmentObject, TdmsError>(e),
            },
            final(self).wf(),
            final(self).segments@ == old(self).segments@,
            final(self).object_paths@.len() >= old(self).object_paths@.len(),
            final(self).data_indexes@.len() >= old(self).data_indexes@.len(),
            final(self).properties@.len() >= old(self).properties@.len(),
            forall|k: int|
                0 <= k < old(self).properties@.len() ==> old(self).properties@[k]@.is_prefix_of(
                    #[trigger] final(self).properties@[k]@,
                ),
            r matches Ok(o) ==> spec_valid_object(
                o,
                final(self).object_paths@.len() as int,
                final(self).data_indexes@.len() as int,
            ),
            match spec_read_string(data@, *old(pos) as int) {
                Err(e) => r == Err::<SegmentObject, TdmsError>(e),
                Ok((name, at)) => {
                    let (paths, id) = spec_intern(old(self).object_paths@, name);
                    let header = spec_u32_le(data@, at) as u32;
                    let cached = spec_cached(old(self).raw_data_index_cache@, id);
                    &&& final(self).object_paths@ == paths
                    &&& !spec_fits(data@, at, 4) ==> r == Err::<SegmentObject, TdmsError>(
                        TdmsError::TruncatedInput { position: at as u64 },
                    )
                    &&& r matches Ok(o) ==> o.object_id.id == id
                    &&& spec_fits(data@, at, 4) && header == RAW_DATA_INDEX_NO_DATA ==> (r matches Ok(
                        o,
                    ) ==> o.raw_data_index is None)
                    &&& spec_fits(data@, at, 4) && header == RAW_DATA_INDEX_MATCHES_PREVIOUS ==> (
                    cached is None ==> r == Err::<SegmentObject, TdmsError>(
                        TdmsError::MissingPreviousIndex { position: at as u64 },
                    )) && (r matches Ok(o) ==> o.raw_data_index == cached)
                    &&& spec_fits(data@, at, 4) && (header == FORMAT_CHANGING_SCALER || header
                        == DIGITAL_LINE_SCALER) ==> r == Err::<SegmentObject, TdmsError>(
                        TdmsError::NotImplemented { position: at as u64 },
                    )
                    &&& spec_fits(data@, at, 4) && header != RAW_DATA_INDEX_NO_DATA && header
                        != RAW_DATA_INDEX_MATCHES_PREVIOUS && header != FORMAT_CHANGING_SCALER
                        && header != DIGITAL_LINE_SCALER ==> match spec_read_raw_data_index(
                        data@,
                        at + 4,
                    ) {
                        Err(e) => r == Err::<SegmentObject, TdmsError>(e),
                        Ok((rec, _)) => r matches Ok(o) ==> {
                            &&& o.raw_data_index == Some(
                                RawDataIndexId { index: old(self).data_indexes@.len() as usize },
                            )
                            &&& final(self).data_indexes@ == old(self).data_indexes@.push(rec)
                            &&& spec_cached(final(self).raw_data_index_cache@, id)
                                == o.raw_data_index
                        },
                    }
                },
            },
    {
        let ghost start = *pos;
        let object_path = read_string(data, pos)?;
        let object_id = self.object_paths.get_or_create_id(object_path);
        if self.properties.len() < self.object_paths.len() {
            self.properties.push(Vec::new());
        }
        let header_position = *pos;
        let header = read_u32(data, pos)?;
        let segment_object = self.resolve_raw_data_index(
            object_id,
            header,
            header_position,
            data,
            pos,
        )?;
        let ghost after_shape = self.properties@;
        self.read_properties(object_id, data, pos)?;
        proof {
            let m = model@;
            let (name, at) = spec_read_string(data@, start as int)->Ok_0;
            let (paths, id) = spec_intern(m.paths, name);
            let props = if m.props.len() < paths.len() {
                m.props.push(Seq::<int>::empty())
            } else {
                m.props
            };
            let (ix, c, o, q) = spec_resolve(data@, at, m.indexes, m.cache, object_id)->Ok_0;
            let (starts, end) = spec_read_property_block(data@, q)->Ok_0;
            let m2 = DecodeModel {
                paths,
                indexes: ix,
                cache: c,
                props: props.update(id, props[id] + starts),
            };
            assert(id == object_id.id);
            assert(m.props.len() == m.paths.len());
            assert forall|u: int| 0 <= u < m2.props.len() implies (
            #[trigger] self.properties@[u])@.len() == m2.props[u].len() by {
                if u < m.props.len() {
                    assert(after_shape[u]@.len() == m.props[u].len());
                }
            }
            assert forall|u: int, k: int|
                0 <= u < m2.props.len() && 0 <= k < m2.props[u].len() implies spec_property_at(
                data@,
                m2.props[u][k],
                #[trigger] self.properties@[u]@[k],
            ) by {
                if u != id {
                    assert(self.properties@[u] == after_shape[u]);
                } else if k < props[id].len() {
                    assert(self.properties@[u]@[k] == after_shape[u]@[k]);
                } else {
                    assert(m2.props[u][k] == starts[k - props[id].len()]);
                    assert(self.properties@[u]@[k] == self.properties@[u]@[
                        after_shape[u]@.len() + (k - props[id].len())
                    ]);
                }
            }
            assert(self.spec_models(data@, m2));
        }
        Ok(segment_object)
    }

    /// Reads a segment's object list at `*pos`: interns each path, resolves
    /// its shape and appends its properties to that object's list.
    pub fn read_object_metadata(
        &mut self,
        data: &[u8],
        pos: &mut usize,
        toc_mask: &TocMask,
        position: usize,
        model: Ghost<DecodeModel>,
    ) -> (r: Result<Vec<SegmentObject>, TdmsError>)
        requires
            old(self).wf(),
            old(self).spec_models(data@, model@),
        ensures
            toc_mask.spec_has_flag(TocFlag::NewObjList) ==> match spec_read_object_list(
                data@,
                *old(pos) as int,
                model@,
            ) {
                Ok((m, objs, e)) => r matches Ok(v) && v@ == objs && final(self).spec_models(
                    data@,
                    m,
                ) && *final(pos) as int == e,
                Err(e) => r == Err::<Vec<SegmentObject>, TdmsError>(e),
            },
            final(self).wf(),
            final(self).segments@ == old(self).segments@,
            final(self).object_paths@.len() >= old(self).object_paths@.len(),
            final(self).data_indexes@.len() >= old(self).data_indexes@.len(),
            forall|k: int|
                0 <= k < old(self).properties@.len() ==> old(self).properties@[k]@.is_prefix_of(
                    #[trigger] final(self).properties@[k]@,
                ),
            !toc_mask.spec_has_flag(TocFlag::NewObjList) ==> r == Err::<
                Vec<SegmentObject>,
                TdmsError,
            >(TdmsError::NotImplemented { position: position as u64 }) && *final(self) == *old(self)
                && *final(pos) == *old(pos),
            toc_mask.spec_has_flag(TocFlag::NewObjList) && !spec_fits(data@, *old(pos) as int, 4)
                ==> r == Err::<Vec<SegmentObject>, TdmsError>(
                TdmsError::TruncatedInput { position: *old(pos) as u64 },
            ),
            r matches Ok(v) ==> spec_fits(data@, *old(pos) as int, 4) && v@.len() == spec_u32_le(
                data@,
                *old(pos) as int,
            ),
            r matches Ok(v) ==> forall|j: int|
                0 <= j < v@.len() ==> spec_valid_object(
                    #[trigger] v@[j],
                    final(self).object_paths@.len() as int,
                    final(self).data_indexes@.len() as int,
                ),
    {
        if !toc_mask.has_flag(TocFlag::NewObjList) {
            return Err(TdmsError::NotImplemented { position: position as u64 });
        }
        let ghost start = *pos;
        let num_objects = read_u32(data, pos)?;
        let ghost mut current = model@;
        let mut segment_objects: Vec<SegmentObject> = Vec::new();
        let mut i: u32 = 0;
        while i < num_objects
            invariant
                self.wf(),
                toc_mask.spec_has_flag(TocFlag::NewObjList),
                spec_fits(data@, start as int, 4),
                num_objects as int == spec_u32_le(data@, start as int),
                start == *old(pos),
                segment_objects@.len() == i,
                i <= num_objects,
                self.spec_models(data@, current),
                spec_read_objects(data@, start + 4, model@, i as nat) == Ok::<
                    (DecodeModel, Seq<SegmentObject>, int),
                    TdmsError,
                >((current, segment_objects@, *pos as int)),
                self.segments@ == old(self).segments@,
                self.object_paths@.len() >= old(self).object_paths@.len(),
                self.data_indexes@.len() >= old(self).data_indexes@.len(),
                self.properties@.len() >= old(self).properties@.len(),
                forall|k: int|
                    0 <= k < old(self).properties@.len() ==> old(
                        self,
                    ).properties@[k]@.is_prefix_of(#[trigger] self.properties@[k]@),
                forall|j: int|
                    0 <= j < segment_objects@.len() ==> spec_valid_object(
                        #[trigger] segment_objects@[j],
                        self.object_paths@.len() as int,
                        self.data_indexes@.len() as int,
                    ),
            decreases num_objects - i,
        {
            let ghost at = *pos;
            let segment_object = match self.read_segment_object(data, pos, Ghost(current)) {
                Ok(o) => o,
                Err(e) => {
                    proof {
                        lemma_objects_error_persists(
                            data@,
                            start + 4,
                            model@,
                            (i + 1) as nat,
                            num_objects as nat,
                        );
                    }
                    return Err(e);
                },
            };
            segment_objects.push(segment_object);
            proof {
                current = spec_read_object(data@, at as int, current)->Ok_0.0;
            }
            i = i + 1;
        }
        Ok(segment_objects)
    }

    /// Reads the segment that starts at `position`: `None` at the end of the
    /// data, else its lead-in and object list.
    ///
    /// Only little-endian segments with a metadata section and a new object
    /// list are decoded; a segment whose mask sets the big-endian flag, or
    /// lacks either of the other two, fails with `NotImplemented`.
    pub fn read_segment(&mut self, data: &[u8], position: usize, model: Ghost<DecodeModel>) -> (r:
        Result<Option<TdmsSegment>, TdmsError>)
        requires
            old(self).wf(),
            old(self).spec_models(data@, model@),
        ensures
            final(self).wf(),
            final(self).segments@ == old(self).segments@,
            (r matches Ok(None)) <==> position >= data@.len(),
            r matches Ok(Some(seg)) ==> {
                &&& seg.position == position
                &&& spec_lead_in(data@, seg)
                &&& forall|j: int|
                    0 <= j < seg.objects@.len() ==> spec_valid_object(
                        #[trigger] seg.objects@[j],
                        final(self).object_paths@.len() as int,
                        final(self).data_indexes@.len() as int,
                    )
            },
            position < data@.len() && !spec_fits(data@, position as int, 4) ==> r == Err::<
                Option<TdmsSegment>,
                TdmsError,
            >(TdmsError::TruncatedInput { position: position as u64 }),
            !spec_lead_in_accepted(data@, position as int) ==> *final(self) == *old(self),
            match spec_read_segment(data@, position as int, model@) {
                Ok(None) => r matches Ok(None) && *final(self) == *old(self),
                Ok(Some((m, sm))) => r matches Ok(Some(seg)) && spec_segments_match(
                    seq![seg],
                    seq![sm],
                ) && final(self).spec_models(data@, m),
                Err(e) => r == Err::<Option<TdmsSegment>, TdmsError>(e),
            },
            spec_magic_at(data@, position as int) && !spec_fits(data@, position as int, 28) ==> (r matches Err(
                TdmsError::TruncatedInput { .. },
            )),
            spec_magic_at(data@, position as int) && spec_fits(data@, position as int, 28)
                && spec_offsets_overflow(data@, position as int) ==> r == Err::<
                Option<TdmsSegment>,
                TdmsError,
            >(TdmsError::CorruptSegment { position: position as u64 }),
            spec_magic_at(data@, position as int) && spec_fits(data@, position as int, 28)
                && !spec_offsets_overflow(data@, position as int) && (spec_toc(
                data@,
                position as int,
            ).spec_has_flag(TocFlag::BigEndian) || !spec_toc(data@, position as int).spec_has_flag(
                TocFlag::MetaData,
            ) || !spec_toc(data@, position as int).spec_has_flag(TocFlag::NewObjList)) ==> r
                == Err::<Option<TdmsSegment>, TdmsError>(
                TdmsError::NotImplemented { position: position as u64 },
            ),
    {
        if position >= data.len() {
            return Ok(None);
        }
        if data.len() - position < 4 {
            return Err(TdmsError::TruncatedInput { position: position as u64 });
        }
        if !(data[position] == 0x54 && data[position + 1] == 0x44 && data[position + 2] == 0x53
            && data[position + 3] == 0x6d) {
            let mut q: usize = position;
            let found = read_u32(data, &mut q)?;
            return Err(TdmsError::InvalidSegmentHeader { position: position as u64, found });
        }
        let mut pos: usize = position + 4;
        let toc_mask = TocMask::from_flags(read_u32(data, &mut pos)?);
        let _version = read_i32(data, &mut pos)?;
        let next_segment_offset = read_u64(data, &mut pos)?;
        let raw_data_offset = read_u64(data, &mut pos)?;
        let start = position as u64;
        if next_segment_offset > u64::MAX - LEAD_IN_LENGTH - start || raw_data_offset > u64::MAX
            - LEAD_IN_LENGTH - start {
            return Err(TdmsError::CorruptSegment { position: position as u64 });
        }
        let next_segment_position = start + LEAD_IN_LENGTH + next_segment_offset;
        let raw_data_position = start + LEAD_IN_LENGTH + raw_data_offset;
        if toc_mask.has_flag(TocFlag::BigEndian) || !toc_mask.has_flag(TocFlag::MetaData) {
            return Err(TdmsError::NotImplemented { position: position as u64 });
        }
        let segment_objects = self.read_object_metadata(data, &mut pos, &toc_mask, position, model)?;
        let seg = TdmsSegment::new(start, raw_data_position, next_segment_position, segment_objects);
        proof {
            let sm = spec_read_segment(data@, position as int, model@)->Ok_0->Some_0.1;
            assert(spec_segments_match(seq![seg], seq![sm]));
        }
        Ok(Some(seg))
    }

    /// Reads every segment from the start of the data, each one where the
    /// previous one says the next begins, until the data ends.
    pub fn read_segments(&mut self, data: &[u8]) -> (r: Result<(), TdmsError>)
        requires
            old(self).wf(),
            old(self).segments@.len() == 0,
            old(self).spec_models(data@, spec_empty_model()),
        ensures
            final(self).wf(),
            r is Ok ==> spec_segment_chain(data@, final(self).segments@),
            match spec_decode(data@) {
                Ok((m, segs)) => r is Ok && final(self).spec_models(data@, m)
                    && spec_segments_match(final(self).segments@, segs),
                Err(e) => r == Err::<(), TdmsError>(e),
            },
    {
        let mut position: usize = 0;
        let ghost mut current = spec_empty_model();
        let ghost mut decoded: Seq<SegmentModel> = Seq::empty();
        loop
            invariant_except_break
                self.segments@.len() == 0 ==> position == 0,
                self.segments@.len() > 0 ==> position < data@.len()
                    && self.segments@[self.segments@.len() - 1].next_segment_position == position,
                spec_decode(data@) == spec_prepend(
                    decoded,
                    spec_read_segments_from(data@, position as int, current),
                ),
            invariant
                self.wf(),
                self.spec_models(data@, current),
                spec_segments_match(self.segments@, decoded),
                forall|i: int|
                    0 <= i < self.segments@.len() ==> spec_lead_in(data@, #[trigger] self.segments@[i]),
                self.segments@.len() > 0 ==> self.segments@[0].position == 0,
                forall|i: int|
                    0 < i < self.segments@.len() ==> (#[trigger] self.segments@[i]).position
                        == self.segments@[i - 1].next_segment_position,
            ensures
                spec_segment_chain(data@, self.segments@),
                spec_decode(data@) == Ok::<(DecodeModel, Seq<SegmentModel>), TdmsError>(
                    (current, decoded),
                ),
            decreases data@.len() - position,
        {
            let ghost before = self.segments@;
            let ghost from_here = spec_read_segments_from(data@, position as int, current);
            match self.read_segment(data, position, Ghost(current))? {
                None => {
                    proof {
                        assert(decoded + Seq::<SegmentModel>::empty() =~= decoded);
                    }
                    break ;
                },
                Some(segment) => {
                    let next = segment.next_segment_position;
                    self.segments.push(segment);
                    proof {
                        let (m2, sm) = spec_read_segment(data@, position as int, current)->Ok_0->Some_0;
                        let old_decoded = decoded;
                        assert(spec_segments_match(seq![segment], seq![sm]));
                        assert(seq![segment][0] == segment);
                        assert(seq![sm][0] == sm);
                        assert(segment.next_segment_position > position);
                        if next >= data@.len() {
                            assert(old_decoded + seq![sm] =~= old_decoded.push(sm));
                        } else {
                            match spec_read_segments_from(data@, next as int, m2) {
                                Ok((m3, rest)) => {
                                    assert(old_decoded + (seq![sm] + rest) =~= old_decoded.push(sm)
                                        + rest);
                                },
                                Err(e) => {},
                            }
                        }
                        decoded = old_decoded.push(sm);
                        current = m2;
                        assert forall|i: int| 0 <= i < self.segments@.len() implies {
                            &&& (#[trigger] self.segments@[i]).position == decoded[i].position
                            &&& self.segments@[i].data_position == decoded[i].data_position
                            &&& self.segments@[i].next_segment_position
                                == decoded[i].next_segment_position
                            &&& self.segments@[i].objects@ == decoded[i].objects
                        } by {
                            if i < before.len() {
                                assert(self.segments@[i] == before[i]);
                            }
                        }
                        assert(self.segments@ == before.push(segment));
                        assert forall|i: int, j: int|
                            0 <= i < self.segments@.len() && 0 <= j
                                < self.segments@[i].objects@.len() implies spec_valid_object(
                            #[trigger] self.segments@[i].objects@[j],
                            self.object_paths@.len() as int,
                            self.data_indexes@.len() as int,
                        ) by {
                            if i < before.len() {
                                assert(self.segments@[i] == before[i]);
                            }
                        }
                        assert forall|i: int|
                            0 < i < self.segments@.len() implies (#[trigger] self.segments@[
                                i]).position == self.segments@[i - 1].next_segment_position by {
                            if i < before.len() {
                                assert(self.segments@[i] == before[i]);
                                assert(self.segments@[i - 1] == before[i - 1]);
                            }
                        }
                    }
                    if next >= data.len() as u64 {
                        break ;
                    }
                    position = next as usize;
                },
            }
        }
        Ok(())
    }
}

/// Decodes the metadata of a whole file: every segment, its objects, their
/// shapes and their properties.
pub fn read_metadata(data: &[u8]) -> (r: Result<TdmsReader, TdmsError>)
    ensures
        r matches Ok(reader) ==> reader.wf() && spec_segment_chain(data@, reader.segments@),
        match spec_decode(data@) {
            Ok((m, segs)) => r matches Ok(reader) && reader.spec_models(data@, m)
                && spec_segments_match(reader.segments@, segs),
            Err(e) => r matches Err(f) && f == e,
        },
{
    let mut tdms_reader = TdmsReader::new();
    assert(tdms_reader.spec_models(data@, spec_empty_model()));
    match tdms_reader.read_segments(data) {
        Ok(()) => Ok(tdms_reader),
        Err(e) => Err(e),
    }
}

/// A file's segment chain is determined by its bytes: any two segment chains
/// of the same data have the same length and start at the same positions.
pub proof fn lemma_segment_chain_unique(s: Seq<u8>, a: Seq<TdmsSegment>, b: Seq<TdmsSegment>)
    requires
        spec_segment_chain(s, a),
        spec_segment_chain(s, b),
    ensures
        a.len() == b.len(),
        forall|i: int| 0 <= i < a.len() ==> (#[trigger] a[i]).position == b[i].position,
{
    let n = if a.len() < b.len() {
        a.len()
    } else {
        b.len()
    };
    assert forall|i: int| 0 <= i < n implies (#[trigger] a[i]).position == b[i].position by {
        lemma_chain_prefix_positions(s, a, b, i);
    }
    if a.len() < b.len() {
        if a.len() == 0 {
            assert(spec_lead_in(s, b[0]));
        } else {
            let k = a.len() - 1;
            assert(a[k].position == b[k].position);
            assert(spec_lead_in(s, a[k]) && spec_lead_in(s, b[k]));
            assert(b[k + 1].position == b[k].next_segment_position);
            assert(spec_lead_in(s, b[k + 1]));
        }
    } else if b.len() < a.len() {
        if b.len() == 0 {
            assert(spec_lead_in(s, a[0]));
        } else {
            let k = b.len() - 1;
            assert(a[k].position == b[k].position);
            assert(spec_lead_in(s, a[k]) && spec_lead_in(s, b[k]));
            assert(a[k + 1].position == a[k].next_segment_position);
            assert(spec_lead_in(s, a[k + 1]));
        }
    }
}

proof fn lemma_chain_prefix_positions(s: Seq<u8>, a: Seq<TdmsSegment>, b: Seq<TdmsSegment>, i: int)
    requires
        spec_segment_chain(s, a),
        spec_segment_chain(s, b),
        0 <= i < a.len(),
        i < b.len(),
    ensures
        a[i].position == b[i].position,
    decreases i,
{
    if i > 0 {
        lemma_chain_prefix_positions(s, a, b, i - 1);
        assert(spec_lead_in(s, a[i - 1]) && spec_lead_in(s, b[i - 1]));
        assert(a[i].position == a[i - 1].next_segment_position);
        assert(b[i].position == b[i - 1].next_segment_position);
    }
}

} // verus!
