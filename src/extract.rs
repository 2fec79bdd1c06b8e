use vstd::prelude::*;
use crate::error::TdmsError;
use crate::object_path::ObjectPathId;
use crate::raw_data_index::RawDataIndex;
use crate::reader::{read_u16, read_u32, read_u64, read_u8, spec_u16_le, spec_u32_le, spec_u64_le};
use crate::segment::{SegmentObject, TdmsReader, TdmsSegment};
use crate::types::TdsType;

verus! {

/// Bytes per chunk taken by the first `n` objects of a segment.
pub open spec fn spec_sizes_before(objs: Seq<SegmentObject>, table: Seq<RawDataIndex>, n: int) -> int
    decreases n,
{
    if n <= 0 {
        0
    } else {
        spec_sizes_before(objs, table, n - 1) + match objs[n - 1].raw_data_index {
            Some(i) => table[i.index as int].data_size as int,
            None => 0,
        }
    }
}

/// Where `id` is first declared in `objs` at or after `j`; `objs.len()` if nowhere.
pub open spec fn spec_first(objs: Seq<SegmentObject>, id: ObjectPathId, j: int) -> int
    decreases objs.len() - j,
{
    if j < 0 || j >= objs.len() {
        objs.len() as int
    } else if objs[j].object_id == id {
        j
    } else {
        spec_first(objs, id, j + 1)
    }
}

/// The object's bytes in the chunks from `start` up to `end`, chunks being
/// `chunk_size` apart, the object's block `offset` into each and `size` long.
pub open spec fn spec_chunks(
    s: Seq<u8>,
    start: int,
    end: int,
    chunk_size: int,
    offset: int,
    size: int,
) -> Result<Seq<u8>, TdmsError>
    decreases end - start,
{
    if start >= end || chunk_size <= 0 {
        Ok(Seq::empty())
    } else if start + offset + size > s.len() {
        Err(TdmsError::TruncatedInput { position: start as u64 })
    } else {
        let here = s.subrange(start + offset, start + offset + size);
        if end - start <= chunk_size {
            Ok(here)
        } else {
            match spec_chunks(s, start + chunk_size, end, chunk_size, offset, size) {
                Ok(rest) => Ok(here + rest),
                Err(e) => Err(e),
            }
        }
    }
}

/// Where the object's data lies in one segment: chunk size, the object's
/// offset within a chunk and its shape; `None` if it has no bytes there.
pub open spec fn spec_segment_layout(
    seg: TdmsSegment,
    table: Seq<RawDataIndex>,
    id: ObjectPathId,
) -> Result<Option<(int, int, RawDataIndex)>, TdmsError> {
    let objs = seg.objects@;
    let j = spec_first(objs, id, 0);
    let chunk_size = spec_sizes_before(objs, table, objs.len() as int);
    let span = seg.next_segment_position - seg.data_position;
    if j >= objs.len() || objs[j].raw_data_index is None {
        Ok(None)
    } else if chunk_size > u64::MAX || span < 0 {
        Err(TdmsError::CorruptSegment { position: seg.position })
    } else if chunk_size == 0 {
        Ok(None)
    } else if span % chunk_size != 0 {
        Err(TdmsError::CorruptSegment { position: seg.position })
    } else {
        Ok(
            Some(
                (
                    chunk_size,
                    spec_sizes_before(objs, table, j),
                    table[objs[j].raw_data_index->Some_0.index as int],
                ),
            ),
        )
    }
}

/// The object's bytes in one segment's raw data, or why they cannot be had.
pub open spec fn spec_segment_samples(
    s: Seq<u8>,
    seg: TdmsSegment,
    table: Seq<RawDataIndex>,
    id: ObjectPathId,
) -> Result<Seq<u8>, TdmsError> {
    match spec_segment_layout(seg, table, id) {
        Err(e) => Err(e),
        Ok(None) => Ok(Seq::empty()),
        Ok(Some((chunk_size, offset, rec))) => spec_chunks(
            s,
            seg.data_position as int,
            seg.next_segment_position as int,
            chunk_size,
            offset,
            rec.data_size as int,
        ),
    }
}

/// How many values of the object one segment holds: values per chunk times
/// the number of chunks.
pub open spec fn spec_segment_sample_count(
    seg: TdmsSegment,
    table: Seq<RawDataIndex>,
    id: ObjectPathId,
) -> Result<int, TdmsError> {
    match spec_segment_layout(seg, table, id) {
        Err(e) => Err(e),
        Ok(None) => Ok(0),
        Ok(Some((chunk_size, offset, rec))) => Ok(
            ((seg.next_segment_position - seg.data_position) / chunk_size)
                * rec.number_of_values,
        ),
    }
}

/// The object's total number of values over the first `n` segments; a total
/// past `u64::MAX` is reported as corrupt at the segment that passes it.
pub open spec fn spec_channel_sample_count(
    segs: Seq<TdmsSegment>,
    table: Seq<RawDataIndex>,
    id: ObjectPathId,
    n: int,
) -> Result<int, TdmsError>
    decreases n,
{
    if n <= 0 {
        Ok(0)
    } else {
        match spec_channel_sample_count(segs, table, id, n - 1) {
            Err(e) => Err(e),
            Ok(before) => match spec_segment_sample_count(segs[n - 1], table, id) {
                Err(e) => Err(e),
                Ok(here) => if before + here > u64::MAX {
                    Err(TdmsError::CorruptSegment { position: segs[n - 1].position })
                } else {
                    Ok(before + here)
                },
            },
        }
    }
}

/// The object's bytes across the first `n` segments, in segment order; the
/// first segment that fails decides the error.
pub open spec fn spec_channel_bytes(
    s: Seq<u8>,
    segs: Seq<TdmsSegment>,
    table: Seq<RawDataIndex>,
    id: ObjectPathId,
    n: int,
) -> Result<Seq<u8>, TdmsError>
    decreases n,
{
    if n <= 0 {
        Ok(Seq::empty())
    } else {
        match spec_channel_bytes(s, segs, table, id, n - 1) {
            Err(e) => Err(e),
            Ok(before) => match spec_segment_samples(s, segs[n - 1], table, id) {
                Err(e) => Err(e),
                Ok(here) => Ok(before + here),
            },
        }
    }
}

/// The width of an integer sample type; `None` for every other type.
pub open spec fn spec_integer_width(t: TdsType) -> Option<int> {
    match t {
        TdsType::I8 | TdsType::U8 => Some(1),
        TdsType::I16 | TdsType::U16 => Some(2),
        TdsType::I32 | TdsType::U32 => Some(4),
        TdsType::I64 | TdsType::U64 => Some(8),
        _ => None,
    }
}

/// The integer sample of type `t` whose bytes start at `p`.
pub open spec fn spec_integer_at(t: TdsType, s: Seq<u8>, p: int) -> int {
    match t {
        TdsType::I8 => s[p] as i8 as int,
        TdsType::U8 => s[p] as int,
        TdsType::I16 => spec_u16_le(s, p) as u16 as i16 as int,
        TdsType::U16 => spec_u16_le(s, p),
        TdsType::I32 => spec_u32_le(s, p) as u32 as i32 as int,
        TdsType::U32 => spec_u32_le(s, p),
        TdsType::I64 => spec_u64_le(s, p) as u64 as i64 as int,
        _ => spec_u64_le(s, p),
    }
}

/// The samples of width `w` from `p` to the end of `s`, in order.
pub open spec fn spec_integers_from(t: TdsType, s: Seq<u8>, p: int, w: int) -> Seq<int>
    decreases s.len() - p,
{
    if w <= 0 || p < 0 || p + w > s.len() {
        Seq::empty()
    } else {
        seq![spec_integer_at(t, s, p)] + spec_integers_from(t, s, p + w, w)
    }
}

/// Decodes a channel's raw bytes as integer samples: `None` unless the type
/// is an integer type and the bytes are a whole number of samples.
pub fn decode_integer_samples(t: TdsType, bytes: &[u8]) -> (r: Option<Vec<i128>>)
    ensures
        match spec_integer_width(t) {
            None => r is None,
            Some(w) => if (bytes@.len() as int) % w != 0 {
                r is None
            } else {
                r matches Some(v) && v@.map_values(|x: i128| x as int) == spec_integers_from(
                    t,
                    bytes@,
                    0,
                    w,
                )
            },
        },
{
    let w: usize = match t {
        TdsType::I8 | TdsType::U8 => 1,
        TdsType::I16 | TdsType::U16 => 2,
        TdsType::I32 | TdsType::U32 => 4,
        TdsType::I64 | TdsType::U64 => 8,
        _ => {
            return None;
        },
    };
    if bytes.len() % w != 0 {
        return None;
    }
    let mut out: Vec<i128> = Vec::new();
    let mut p: usize = 0;
    while w <= bytes.len() - p
        invariant
            spec_integer_width(t) == Some(w as int),
            p <= bytes@.len(),
            bytes@.len() == bytes.len(),
            out@.map_values(|x: i128| x as int) + spec_integers_from(t, bytes@, p as int, w as int)
                == spec_integers_from(t, bytes@, 0, w as int),
        decreases bytes.len() - p,
    {
        let mut q = p;
        let v: i128 = match t {
            TdsType::I8 => read_u8(bytes, &mut q).unwrap() as i8 as i128,
            TdsType::U8 => read_u8(bytes, &mut q).unwrap() as i128,
            TdsType::I16 => read_u16(bytes, &mut q).unwrap() as i16 as i128,
            TdsType::U16 => read_u16(bytes, &mut q).unwrap() as i128,
            TdsType::I32 => read_u32(bytes, &mut q).unwrap() as i32 as i128,
            TdsType::U32 => read_u32(bytes, &mut q).unwrap() as i128,
            TdsType::I64 => read_u64(bytes, &mut q).unwrap() as i64 as i128,
            _ => read_u64(bytes, &mut q).unwrap() as i128,
        };
        let ghost before = out@.map_values(|x: i128| x as int);
        out.push(v);
        proof {
            assert(v as int == spec_integer_at(t, bytes@, p as int));
            assert(out@.map_values(|x: i128| x as int) =~= before.push(v as int));
            assert(before.push(v as int) + spec_integers_from(t, bytes@, p + w, w as int) =~= before
                + spec_integers_from(t, bytes@, p as int, w as int));
        }
        p = p + w;
    }
    proof {
        assert(spec_integers_from(t, bytes@, p as int, w as int) =~= Seq::<int>::empty());
    }
    assert(out@.map_values(|x: i128| x as int) =~= out@.map_values(|x: i128| x as int) + Seq::<
        int,
    >::empty());
    Some(out)
}

proof fn lemma_sizes_monotonic(objs: Seq<SegmentObject>, table: Seq<RawDataIndex>, a: int, b: int)
    requires
        0 <= a <= b,
    ensures
        spec_sizes_before(objs, table, a) <= spec_sizes_before(objs, table, b),
    decreases b - a,
{
    if a < b {
        lemma_sizes_monotonic(objs, table, a, b - 1);
    }
}

proof fn lemma_first_skips(objs: Seq<SegmentObject>, id: ObjectPathId, j: int)
    requires
        0 <= j <= objs.len(),
        forall|k: int| 0 <= k < j ==> (#[trigger] objs[k]).object_id != id,
    ensures
        spec_first(objs, id, 0) == spec_first(objs, id, j),
    decreases j,
{
    if j > 0 {
        lemma_first_skips(objs, id, j - 1);
    }
}

proof fn lemma_channel_error_persists(
    s: Seq<u8>,
    segs: Seq<TdmsSegment>,
    table: Seq<RawDataIndex>,
    id: ObjectPathId,
    k: int,
    m: int,
)
    requires
        0 < k <= m,
        spec_channel_bytes(s, segs, table, id, k) is Err,
    ensures
        spec_channel_bytes(s, segs, table, id, m) == spec_channel_bytes(s, segs, table, id, k),
    decreases m - k,
{
    if k < m {
        lemma_channel_error_persists(s, segs, table, id, k, m - 1);
    }
}

proof fn lemma_count_error_persists(
    segs: Seq<TdmsSegment>,
    table: Seq<RawDataIndex>,
    id: ObjectPathId,
    k: int,
    m: int,
)
    requires
        0 < k <= m,
        spec_channel_sample_count(segs, table, id, k) is Err,
    ensures
        spec_channel_sample_count(segs, table, id, m) == spec_channel_sample_count(segs, table, id, k),
    decreases m - k,
{
    if k < m {
        lemma_count_error_persists(segs, table, id, k, m - 1);
    }
}

/// Copies the object's block out of every chunk from `start` to `end`.
fn read_chunks(
    data: &[u8],
    start: u64,
    end: u64,
    chunk_size: u64,
    offset: u64,
    size: u64,
    out: &mut Vec<u8>,
) -> (r: Result<(), TdmsError>)
    requires
        chunk_size > 0,
    ensures
        match spec_chunks(
            data@,
            start as int,
            end as int,
            chunk_size as int,
            offset as int,
            size as int,
        ) {
            Ok(v) => r is Ok && final(out)@ == old(out)@ + v,
            Err(e) => r == Err::<(), TdmsError>(e),
        },
    decreases end - start,
{
    if start >= end {
        assert(old(out)@ + Seq::<u8>::empty() =~= old(out)@);
        return Ok(());
    }
    let len = data.len() as u64;
    if start > len || offset > len - start || size > len - start - offset {
        return Err(TdmsError::TruncatedInput { position: start });
    }
    let from = (start + offset) as usize;
    let mut i: usize = 0;
    let ghost base = out@;
    while i < size as usize
        invariant
            from as int + size as int <= data@.len(),
            data@.len() == data.len(),
            i <= size,
            out@ == base + data@.subrange(from as int, from + i),
        decreases size - i,
    {
        out.push(data[from + i]);
        i = i + 1;
        assert(out@ =~= base + data@.subrange(from as int, from + i));
    }
    if end - start <= chunk_size {
        return Ok(());
    }
    let r = read_chunks(data, start + chunk_size, end, chunk_size, offset, size, out);
    proof {
        let here = data@.subrange(from as int, from + size);
        if let Ok(rest) = spec_chunks(
            data@,
            start + chunk_size,
            end as int,
            chunk_size as int,
            offset as int,
            size as int,
        ) {
            assert(out@ =~= base + (here + rest));
        }
    }
    r
}

impl TdmsReader {
    /// Where the object's data lies in one segment, if it has any there.
    pub fn segment_layout(&self, segment: &TdmsSegment, object_id: ObjectPathId) -> (r: Result<
        Option<(u64, u64, RawDataIndex)>,
        TdmsError,
    >)
        requires
            self.wf(),
            forall|j: int|
                0 <= j < segment.objects@.len() ==> ((#[trigger] segment.objects@[j]).raw_data_index
                    matches Some(i) ==> i.index < self.data_indexes@.len()),
        ensures
            match (r, spec_segment_layout(*segment, self.data_indexes@, object_id)) {
                (Ok(None), Ok(None)) => true,
                (Ok(Some((c, o, rec))), Ok(Some((c2, o2, rec2)))) => c == c2 && o == o2 && rec
                    == rec2,
                (Err(e), Err(f)) => e == f,
                _ => false,
            },
    {
        let objs = &segment.objects;
        let ghost table = self.data_indexes@;
        let n = objs.len();
        let mut j: usize = 0;
        while j < n && objs[j].object_id != object_id
            invariant
                n == objs@.len(),
                j <= n,
                forall|k: int| 0 <= k < j ==> (#[trigger] objs@[k]).object_id != object_id,
            decreases n - j,
        {
            j = j + 1;
        }
        proof {
            lemma_first_skips(objs@, object_id, j as int);
        }
        if j == n {
            return Ok(None);
        }
        let record_id = match objs[j].raw_data_index {
            None => {
                return Ok(None);
            },
            Some(id) => id,
        };
        let record = self.data_indexes.get(record_id);
        assert(spec_first(objs@, object_id, j as int) == j);
        let mut chunk_size: u64 = 0;
        let mut offset: u64 = 0;
        let mut i: usize = 0;
        while i < n
            invariant
                n == objs@.len(),
                objs@ == segment.objects@,
                i <= n,
                j < n,
                spec_first(objs@, object_id, 0) == j,
                objs@[j as int].raw_data_index == Some(record_id),
                record == table[record_id.index as int],
                table == self.data_indexes@,
                forall|k: int|
                    0 <= k < objs@.len() ==> ((#[trigger] objs@[k]).raw_data_index matches Some(
                        m,
                    ) ==> m.index < table.len()),
                chunk_size == spec_sizes_before(objs@, table, i as int),
                i > j ==> offset == spec_sizes_before(objs@, table, j as int),
            decreases n - i,
        {
            if i == j {
                offset = chunk_size;
            }
            let size: u64 = match objs[i].raw_data_index {
                Some(id) => self.data_indexes.get(id).data_size,
                None => 0,
            };
            if size > u64::MAX - chunk_size {
                proof {
                    assert(spec_sizes_before(objs@, table, i + 1) == chunk_size + size);
                    lemma_sizes_monotonic(objs@, table, i + 1, n as int);
                }
                return Err(TdmsError::CorruptSegment { position: segment.position });
            }
            chunk_size = chunk_size + size;
            i = i + 1;
        }
        if segment.next_segment_position < segment.data_position {
            return Err(TdmsError::CorruptSegment { position: segment.position });
        }
        if chunk_size == 0 {
            return Ok(None);
        }
        let span = segment.next_segment_position - segment.data_position;
        if span % chunk_size != 0 {
            return Err(TdmsError::CorruptSegment { position: segment.position });
        }
        Ok(Some((chunk_size, offset, record)))
    }

    /// Appends the object's sample bytes in one segment to `out`.
    pub fn read_segment_samples(
        &self,
        data: &[u8],
        segment: &TdmsSegment,
        object_id: ObjectPathId,
        out: &mut Vec<u8>,
    ) -> (r: Result<(), TdmsError>)
        requires
            self.wf(),
            forall|j: int|
                0 <= j < segment.objects@.len() ==> ((#[trigger] segment.objects@[j]).raw_data_index
                    matches Some(i) ==> i.index < self.data_indexes@.len()),
        ensures
            match spec_segment_samples(data@, *segment, self.data_indexes@, object_id) {
                Ok(v) => r is Ok && final(out)@ == old(out)@ + v,
                Err(e) => r == Err::<(), TdmsError>(e),
            },
    {
        match self.segment_layout(segment, object_id)? {
            None => {
                assert(old(out)@ + Seq::<u8>::empty() =~= old(out)@);
                Ok(())
            },
            Some((chunk_size, offset, record)) => read_chunks(
                data,
                segment.data_position,
                segment.next_segment_position,
                chunk_size,
                offset,
                record.data_size,
                out,
            ),
        }
    }

    /// The object's total number of values across all segments.
    pub fn channel_sample_count(&self, object_id: ObjectPathId) -> (r: Result<u64, TdmsError>)
        requires
            self.wf(),
        ensures
            match spec_channel_sample_count(
                self.segments@,
                self.data_indexes@,
                object_id,
                self.segments@.len() as int,
            ) {
                Ok(v) => r == Ok::<u64, TdmsError>(v as u64),
                Err(e) => r == Err::<u64, TdmsError>(e),
            },
    {
        let mut total: u64 = 0;
        let n = self.segments.len();
        let mut i: usize = 0;
        while i < n
            invariant
                self.wf(),
                n == self.segments@.len(),
                i <= n,
                spec_channel_sample_count(self.segments@, self.data_indexes@, object_id, i as int)
                    == Ok::<int, TdmsError>(total as int),
            decreases n - i,
        {
            let segment = &self.segments[i];
            assert forall|j: int| 0 <= j < segment.objects@.len() implies ((
            #[trigger] segment.objects@[j]).raw_data_index matches Some(k) ==> k.index
                < self.data_indexes@.len()) by {
                assert(crate::segment::spec_valid_object(
                    self.segments@[i as int].objects@[j],
                    self.object_paths@.len() as int,
                    self.data_indexes@.len() as int,
                ));
            }
            let here: u64 = match self.segment_layout(segment, object_id) {
                Err(e) => {
                    proof {
                        lemma_count_error_persists(
                            self.segments@,
                            self.data_indexes@,
                            object_id,
                            i + 1,
                            n as int,
                        );
                    }
                    return Err(e);
                },
                Ok(None) => 0,
                Ok(Some((chunk_size, _offset, record))) => {
                    let chunks = (segment.next_segment_position - segment.data_position)
                        / chunk_size;
                    match chunks.checked_mul(record.number_of_values) {
                        Some(c) => c,
                        None => {
                            proof {
                                lemma_count_error_persists(
                                    self.segments@,
                                    self.data_indexes@,
                                    object_id,
                                    i + 1,
                                    n as int,
                                );
                            }
                            return Err(TdmsError::CorruptSegment { position: segment.position });
                        },
                    }
                },
            };
            if here > u64::MAX - total {
                proof {
                    lemma_count_error_persists(
                        self.segments@,
                        self.data_indexes@,
                        object_id,
                        i + 1,
                        n as int,
                    );
                }
                return Err(TdmsError::CorruptSegment { position: segment.position });
            }
            total = total + here;
            i = i + 1;
        }
        Ok(total)
    }
    /// The object's raw sample bytes across all segments, in segment order.
    pub fn read_channel_bytes(&self, data: &[u8], object_id: ObjectPathId) -> (r: Result<
        Vec<u8>,
        TdmsError,
    >)
        requires
            self.wf(),
        ensures
            match spec_channel_bytes(
                data@,
                self.segments@,
                self.data_indexes@,
                object_id,
                self.segments@.len() as int,
            ) {
                Ok(v) => r matches Ok(w) && w@ == v,
                Err(e) => r == Err::<Vec<u8>, TdmsError>(e),
            },
    {
        let mut out: Vec<u8> = Vec::new();
        let n = self.segments.len();
        let mut i: usize = 0;
        while i < n
            invariant
                self.wf(),
                n == self.segments@.len(),
                i <= n,
                spec_channel_bytes(data@, self.segments@, self.data_indexes@, object_id, i as int)
                    == Ok::<Seq<u8>, TdmsError>(out@),
            decreases n - i,
        {
            let segment = &self.segments[i];
            assert forall|j: int| 0 <= j < segment.objects@.len() implies ((
            #[trigger] segment.objects@[j]).raw_data_index matches Some(k) ==> k.index
                < self.data_indexes@.len()) by {
                assert(crate::segment::spec_valid_object(
                    self.segments@[i as int].objects@[j],
                    self.object_paths@.len() as int,
                    self.data_indexes@.len() as int,
                ));
            }
            match self.read_segment_samples(data, segment, object_id, &mut out) {
                Ok(()) => {},
                Err(e) => {
                    proof {
                        lemma_channel_error_persists(
                            data@,
                            self.segments@,
                            self.data_indexes@,
                            object_id,
                            i + 1,
                            n as int,
                        );
                    }
                    return Err(e);
                },
            }
            i = i + 1;
        }
        Ok(out)
    }
}

} // verus!
