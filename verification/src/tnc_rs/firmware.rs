use vstd::prelude::*;
use vstd::utf8::partial_valid_utf8;
use vstd::string::StrSliceExecFns;
use vstd::string::StringExecFns;

use super::ihex::{
    encode_record, law_record_round_trip, lemma_encoded_record_text, parse_record,
    parse_record_spec, RecordError,
};
use super::model::Model;
use crate::text::{
    ascii_lower, decimal, decimal_string, eq_ignore_ascii_case, final_component, is_simple_path,
    lemma_simple_path_portable, lower_ascii, name_extension, only_separators_and_dots,
    portable_extension, portable_file_name,
};

verus! {

/// The number of segments a program may hold.
pub const MAX_SEGMENTS: usize = 16;

/// The number of bytes a program may hold, over all its segments.
pub const MAX_SIZE: usize = 33554432;

/// How far past the start of the last segment a record may reach and still extend it.
pub const SEGMENT_REACH: u64 = 1048576;

/// File formats that firmware images can be read from.
#[derive(Clone, Copy, Debug, PartialEq, Eq, Structural)]
pub enum FirmwareFormat {
    IntelHex,
}

/// Why a firmware image could not be read.
#[derive(Clone, Debug, PartialEq, Eq)]
pub enum FirmwareError {
    /// The file name has an extension other than `.hex`.
    UnsupportedExtension(String),
    /// The file name has no extension; the payload is the path.
    NoExtension(String),
    /// The file is not valid UTF-8 text.
    NotUtf8,
    /// A record line could not be decoded; `line` counts from 1.
    Record { line: usize, error: RecordError },
    EofRecordWithData,
    InvalidExtendedSegmentAddress,
    InvalidStartAddress,
    InvalidExtendedLinearAddress,
    UnsupportedRecordType(u8),
    MissingEof,
    AddressesMovedBackwards,
    ExcessiveSize,
    TooManySegments,
}

/// The message of a firmware error met while reading the file `filename`. For a record that
/// could not be decoded it names the line; the record's own error is the cause.
pub open spec fn firmware_error_text(e: FirmwareError, filename: Seq<char>) -> Seq<char> {
    match e {
        FirmwareError::UnsupportedExtension(ext) => "unsupported firmware extension: ."@ + ext@,
        FirmwareError::NoExtension(path) => "firmware has no file extension: "@ + path@,
        FirmwareError::NotUtf8 => "IHEX firmware is not valid UTF-8"@,
        FirmwareError::Record { line, error } => "IHEX parse error on line "@ + decimal(line as nat)
            + " in '"@ + filename + "'"@,
        FirmwareError::EofRecordWithData => "IHEX EOF record contains data"@,
        FirmwareError::InvalidExtendedSegmentAddress => "invalid IHEX extended segment address record"@,
        FirmwareError::InvalidStartAddress => "invalid IHEX start address record"@,
        FirmwareError::InvalidExtendedLinearAddress => "invalid IHEX extended linear address record"@,
        FirmwareError::UnsupportedRecordType(kind) => "unsupported IHEX record type "@ + decimal(
            kind as nat,
        ),
        FirmwareError::MissingEof => "missing EOF record in '"@ + filename + "'"@,
        FirmwareError::AddressesMovedBackwards => "IHEX addresses moved backwards within a segment"@,
        FirmwareError::ExcessiveSize => "firmware has excessive size"@,
        FirmwareError::TooManySegments => "firmware has too many segments"@,
    }
}

impl FirmwareError {
    /// The message that reports the error met while reading the file `filename`.
    pub fn message(&self, filename: &str) -> (r: String)
        ensures
            r@ == firmware_error_text(*self, filename@),
    {
        match self {
            FirmwareError::UnsupportedExtension(ext) => {
                let mut m = String::from_str("unsupported firmware extension: .");
                m.append(ext.as_str());
                m
            },
            FirmwareError::NoExtension(path) => {
                let mut m = String::from_str("firmware has no file extension: ");
                m.append(path.as_str());
                m
            },
            FirmwareError::NotUtf8 => String::from_str("IHEX firmware is not valid UTF-8"),
            FirmwareError::Record { line, error: _ } => {
                let mut m = String::from_str("IHEX parse error on line ");
                let n = decimal_string(*line);
                m.append(n.as_str());
                m.append(" in '");
                m.append(filename);
                m.append("'");
                m
            },
            FirmwareError::EofRecordWithData => String::from_str("IHEX EOF record contains data"),
            FirmwareError::InvalidExtendedSegmentAddress => String::from_str(
                "invalid IHEX extended segment address record",
            ),
            FirmwareError::InvalidStartAddress => String::from_str(
                "invalid IHEX start address record",
            ),
            FirmwareError::InvalidExtendedLinearAddress => String::from_str(
                "invalid IHEX extended linear address record",
            ),
            FirmwareError::UnsupportedRecordType(kind) => {
                let mut m = String::from_str("unsupported IHEX record type ");
                let n = decimal_string(*kind as usize);
                m.append(n.as_str());
                m
            },
            FirmwareError::MissingEof => {
                let mut m = String::from_str("missing EOF record in '");
                m.append(filename);
                m.append("'");
                m
            },
            FirmwareError::AddressesMovedBackwards => String::from_str(
                "IHEX addresses moved backwards within a segment",
            ),
            FirmwareError::ExcessiveSize => String::from_str("firmware has excessive size"),
            FirmwareError::TooManySegments => String::from_str("firmware has too many segments"),
        }
    }
}

/// A contiguous run of bytes to be written at `address`.
#[derive(Clone, Debug, PartialEq, Eq)]
pub struct FirmwareSegment {
    pub address: u32,
    pub data: Vec<u8>,
}

impl View for FirmwareSegment {
    type V = (u32, Seq<u8>);

    open spec fn view(&self) -> (u32, Seq<u8>) {
        (self.address, self.data@)
    }
}

/// The segments of a program with their address ranges and total size.
#[derive(Clone, Debug, PartialEq, Eq)]
pub struct FirmwareProgram {
    pub segments: Vec<FirmwareSegment>,
    pub min_address: usize,
    pub max_address: usize,
    pub total_size: usize,
}

/// A firmware image read from a file.
#[derive(Clone, Debug, PartialEq, Eq)]
pub struct Firmware {
    pub name: String,
    pub filename: String,
    pub format: FirmwareFormat,
    pub programs: Vec<FirmwareProgram>,
}

/// The segments as (address, bytes) pairs.
pub open spec fn segs_view(segs: Seq<FirmwareSegment>) -> Seq<(u32, Seq<u8>)> {
    segs.map_values(|s: FirmwareSegment| s@)
}

/// Sum of the segment lengths.
pub open spec fn segs_total(segs: Seq<(u32, Seq<u8>)>) -> int
    decreases segs.len(),
{
    if segs.len() == 0 {
        0
    } else {
        segs_total(segs.drop_last()) + segs.last().1.len()
    }
}

/// `buf`, zero-extended where needed, with `data` written at `offset`.
pub open spec fn write_at(buf: Seq<u8>, offset: int, data: Seq<u8>) -> Seq<u8> {
    let len = if offset + data.len() > buf.len() {
        offset + data.len()
    } else {
        buf.len() as int
    };
    Seq::new(
        len as nat,
        |i: int|
            if offset <= i < offset + data.len() {
                data[i - offset]
            } else if i < buf.len() {
                buf[i]
            } else {
                0
            },
    )
}

/// Where the `usize` arithmetic of placing a data record would overflow
/// (possible only where `usize` is narrower than 64 bits).
pub open spec fn add_data_overflows(segs: Seq<(u32, Seq<u8>)>, address: int, data: Seq<u8>) -> bool {
    &&& data.len() > 0
    &&& segs.len() > 0
    &&& (address + data.len() > usize::MAX || segs.last().0 + SEGMENT_REACH > usize::MAX)
}

/// Adding the bytes of one data record to a program's segments and total size.
pub open spec fn add_data_spec(
    segs: Seq<(u32, Seq<u8>)>,
    total: int,
    address: int,
    data: Seq<u8>,
) -> Result<(Seq<(u32, Seq<u8>)>, int), FirmwareError> {
    if data.len() == 0 {
        Ok((segs, total))
    } else if segs.len() > 0 && address + data.len() <= segs.last().0 + SEGMENT_REACH {
        let start = segs.last().0;
        let bytes = segs.last().1;
        if address < start {
            Err(FirmwareError::AddressesMovedBackwards)
        } else {
            let new_len = address - start + data.len();
            let new_total = if new_len > bytes.len() {
                total - bytes.len() + new_len
            } else {
                total
            };
            if new_len > bytes.len() && new_total > MAX_SIZE {
                Err(FirmwareError::ExcessiveSize)
            } else {
                Ok(
                    (
                        segs.update(segs.len() - 1, (start, write_at(bytes, address - start, data))),
                        new_total,
                    ),
                )
            }
        }
    } else if segs.len() >= MAX_SEGMENTS {
        Err(FirmwareError::TooManySegments)
    } else if total + data.len() > MAX_SIZE {
        Err(FirmwareError::ExcessiveSize)
    } else {
        Ok((segs.push((address as u32, data)), total + data.len()))
    }
}

proof fn lemma_segs_total_update_last(segs: Seq<(u32, Seq<u8>)>, x: (u32, Seq<u8>))
    requires
        segs.len() > 0,
    ensures
        segs_total(segs.update(segs.len() - 1, x)) == segs_total(segs) - segs.last().1.len()
            + x.1.len(),
{
    assert(segs.update(segs.len() - 1, x).drop_last() =~= segs.drop_last());
}

proof fn lemma_segs_total_push(segs: Seq<(u32, Seq<u8>)>, x: (u32, Seq<u8>))
    ensures
        segs_total(segs.push(x)) == segs_total(segs) + x.1.len(),
{
    assert(segs.push(x).drop_last() =~= segs);
}

proof fn lemma_segs_total_last(segs: Seq<(u32, Seq<u8>)>)
    requires
        segs.len() > 0,
    ensures
        segs_total(segs) >= segs.last().1.len(),
{
    lemma_segs_total_nonneg(segs.drop_last());
}

proof fn lemma_segs_total_nonneg(segs: Seq<(u32, Seq<u8>)>)
    ensures
        segs_total(segs) >= 0,
    decreases segs.len(),
{
    if segs.len() > 0 {
        lemma_segs_total_nonneg(segs.drop_last());
    }
}

impl FirmwareProgram {
    /// The segments as (address, bytes) pairs.
    pub open spec fn segments_view(&self) -> Seq<(u32, Seq<u8>)> {
        segs_view(self.segments@)
    }

    /// The total size agrees with the segments and stays within the size limit.
    pub open spec fn size_consistent(&self) -> bool {
        &&& self.total_size == segs_total(self.segments_view())
        &&& self.total_size <= MAX_SIZE
    }

    /// Adds the bytes of one data record, extending the last segment where the
    /// record lies within its reach and starting a new segment otherwise.
    pub fn add_data(&mut self, address: u32, data: &[u8]) -> (r: Result<(), FirmwareError>)
        requires
            old(self).size_consistent(),
            !add_data_overflows(old(self).segments_view(), address as int, data@),
        ensures
            final(self).size_consistent(),
            final(self).min_address == old(self).min_address,
            final(self).max_address == old(self).max_address,
            match add_data_spec(
                old(self).segments_view(),
                old(self).total_size as int,
                address as int,
                data@,
            ) {
                Ok((segs, total)) => r is Ok && final(self).segments_view() == segs
                    && final(self).total_size == total,
                Err(e) => r == Err::<(), FirmwareError>(e) && final(self).segments_view()
                    == old(self).segments_view() && final(self).total_size == old(
                    self,
                ).total_size,
            },
    {
        let ghost old_segs = self.segments_view();
        let ghost old_vec = self.segments@;
        if data.len() == 0 {
            return Ok(());
        }
        let n = self.segments.len();
        if n > 0 {
            let start = self.segments[n - 1].address;
            if (address as u64) + (data.len() as u64) <= (start as u64) + SEGMENT_REACH {
                proof {
                    assert(old_segs.last() == self.segments@[n - 1]@);
                }
                if address < start {
                    return Err(FirmwareError::AddressesMovedBackwards);
                }
                let offset = (address - start) as usize;
                let new_len = offset + data.len();
                let old_len = self.segments[n - 1].data.len();
                proof {
                    lemma_segs_total_last(old_segs);
                }
                let mut new_total = self.total_size;
                if new_len > old_len {
                    new_total = self.total_size - old_len + new_len;
                    if new_total > MAX_SIZE {
                        return Err(FirmwareError::ExcessiveSize);
                    }
                }
                let mut seg = self.segments.pop().unwrap();
                proof {
                    assert(seg == old_vec[n - 1]);
                }
                let ghost old_bytes = seg.data@;
                while seg.data.len() < new_len
                    invariant
                        seg.address == start,
                        old_len == old_bytes.len(),
                        old_len <= seg.data@.len(),
                        seg.data@.len() <= new_len || seg.data@.len() == old_len,
                        forall|i: int|
                            0 <= i < seg.data@.len() ==> #[trigger] seg.data@[i] == if i
                                < old_len {
                                old_bytes[i]
                            } else {
                                0
                            },
                    decreases new_len - seg.data@.len(),
                {
                    seg.data.push(0);
                }
                let ghost ext = seg.data@;
                let mut k: usize = 0;
                while k < data.len()
                    invariant
                        seg.address == start,
                        seg.data@.len() == ext.len(),
                        ext.len() >= new_len,
                        new_len == offset + data@.len(),
                        k <= data@.len(),
                        forall|i: int|
                            0 <= i < seg.data@.len() ==> #[trigger] seg.data@[i] == if offset
                                <= i < offset + k {
                                data@[i - offset]
                            } else {
                                ext[i]
                            },
                    decreases data@.len() - k,
                {
                    seg.data.set(offset + k, data[k]);
                    k = k + 1;
                }
                proof {
                    assert(seg.data@ =~= write_at(old_bytes, offset as int, data@));
                }
                let ghost new_seg = seg;
                self.segments.push(seg);
                self.total_size = new_total;
                proof {
                    assert(self.segments@ =~= old_vec.update(n - 1, new_seg));
                    assert(new_seg.address == start);
                    assert(new_seg@ == (start, write_at(old_bytes, offset as int, data@)));
                    assert forall|i: int| 0 <= i < n implies #[trigger] self.segments_view()[i]
                        == old_segs.update(
                        n - 1,
                        (start, write_at(old_bytes, offset as int, data@)),
                    )[i] by {
                        if i < n - 1 {
                            assert(self.segments@[i] == old_vec[i]);
                        }
                    }
                    let segs = old_segs.update(
                        n - 1,
                        (start, write_at(old_bytes, offset as int, data@)),
                    );
                    assert(self.segments_view() =~= segs);
                    lemma_segs_total_update_last(
                        old_segs,
                        (start, write_at(old_bytes, offset as int, data@)),
                    );
                }
                return Ok(());
            }
        }
        if n >= MAX_SEGMENTS {
            return Err(FirmwareError::TooManySegments);
        }
        if data.len() > MAX_SIZE - self.total_size {
            return Err(FirmwareError::ExcessiveSize);
        }
        let bytes = vstd::slice::slice_to_vec(data);
        self.segments.push(FirmwareSegment { address, data: bytes });
        self.total_size = self.total_size + data.len();
        proof {
            assert(self.segments_view() =~= old_segs.push((address, data@)));
            lemma_segs_total_push(old_segs, (address, data@));
        }
        Ok(())
    }
}


/// `n` reduced to 32 bits, as `n as u32` does.
pub open spec fn len32(n: int) -> int {
    n % 0x1_0000_0000
}

/// End address of a segment in 32-bit arithmetic (the length taken modulo 2^32).
pub open spec fn seg_end32(s: (u32, Seq<u8>)) -> int {
    s.0 + len32(s.1.len() as int)
}

/// Whether the segment holds the byte at `address`.
pub open spec fn seg_contains(s: (u32, Seq<u8>), address: int) -> bool {
    s.0 <= address < seg_end32(s)
}

/// Index of the last segment that holds `address`.
pub open spec fn last_containing(segs: Seq<(u32, Seq<u8>)>, address: int) -> Option<int>
    decreases segs.len(),
{
    if segs.len() == 0 {
        None
    } else if seg_contains(segs.last(), address) {
        Some(segs.len() - 1)
    } else {
        last_containing(segs.drop_last(), address)
    }
}

/// Whether searching backwards for `address` meets a segment whose end does not fit in 32 bits
/// before it finds one that holds the address.
pub open spec fn find_segment_overflows(segs: Seq<(u32, Seq<u8>)>, address: int) -> bool
    decreases segs.len(),
{
    if segs.len() == 0 {
        false
    } else if seg_end32(segs.last()) > u32::MAX {
        true
    } else if seg_contains(segs.last(), address) {
        false
    } else {
        find_segment_overflows(segs.drop_last(), address)
    }
}

/// Least segment start (`usize::MAX` without segments).
pub open spec fn segs_min_address(segs: Seq<(u32, Seq<u8>)>) -> int
    decreases segs.len(),
{
    if segs.len() == 0 {
        usize::MAX as int
    } else {
        let m = segs_min_address(segs.drop_last());
        if segs.last().0 < m {
            segs.last().0 as int
        } else {
            m
        }
    }
}

/// Greatest segment end (0 without segments).
pub open spec fn segs_max_end(segs: Seq<(u32, Seq<u8>)>) -> int
    decreases segs.len(),
{
    if segs.len() == 0 {
        0
    } else {
        let m = segs_max_end(segs.drop_last());
        let e = segs.last().0 + segs.last().1.len();
        if e > m {
            e
        } else {
            m
        }
    }
}

/// Whether some segment end does not fit in `usize`.
pub open spec fn seg_ends_overflow_usize(segs: Seq<(u32, Seq<u8>)>) -> bool {
    exists|i: int| 0 <= i < segs.len() && #[trigger] segs[i].0 + segs[i].1.len() > usize::MAX
}

/// The part of `buf` a segment is copied into when extracting at `address`:
/// (first index in `buf`, number of bytes, first index in the segment).
pub open spec fn extract_window(s: (u32, Seq<u8>), address: int, buf_len: int) -> (int, int, int) {
    let start = s.0 as int;
    let len = s.1.len() as int;
    if start <= address < seg_end32(s) {
        let d = address - start;
        (0, if len - d < buf_len { len - d } else { buf_len }, d)
    } else if address < start && address + len32(buf_len) > start {
        let d = start - address;
        (d, if len < buf_len - d { len } else { buf_len - d }, 0)
    } else {
        (0, 0, 0)
    }
}

/// Whether the copy window covers index `k` of the buffer.
pub open spec fn window_covers(w: (int, int, int), k: int) -> bool {
    w.0 <= k < w.0 + w.1
}

/// Index of the last segment whose copy window covers index `k` of the buffer.
pub open spec fn last_writer(segs: Seq<(u32, Seq<u8>)>, address: int, buf_len: int, k: int) -> Option<
    int,
>
    decreases segs.len(),
{
    if segs.len() == 0 {
        None
    } else if window_covers(extract_window(segs.last(), address, buf_len), k) {
        Some(segs.len() - 1)
    } else {
        last_writer(segs.drop_last(), address, buf_len, k)
    }
}

/// The byte of `buf` after extracting at `address`.
pub open spec fn extracted_byte(
    segs: Seq<(u32, Seq<u8>)>,
    address: int,
    buf: Seq<u8>,
    k: int,
) -> u8 {
    match last_writer(segs, address, buf.len() as int, k) {
        Some(i) => {
            let w = extract_window(segs[i], address, buf.len() as int);
            segs[i].1[w.2 + (k - w.0)]
        },
        None => buf[k],
    }
}

/// Sum of the numbers of bytes copied from each segment.
pub open spec fn extract_total(segs: Seq<(u32, Seq<u8>)>, address: int, buf_len: int) -> int
    decreases segs.len(),
{
    if segs.len() == 0 {
        0
    } else {
        extract_total(segs.drop_last(), address, buf_len) + extract_window(
            segs.last(),
            address,
            buf_len,
        ).1
    }
}

/// Whether the 32-bit address arithmetic of `extract` would overflow.
pub open spec fn extract_overflows(segs: Seq<(u32, Seq<u8>)>, address: int, buf_len: int) -> bool {
    &&& segs.len() > 0
    &&& (address + len32(buf_len) > u32::MAX || exists|i: int|
        0 <= i < segs.len() && seg_end32(#[trigger] segs[i]) > u32::MAX)
}

proof fn lemma_window_in_bounds(s: (u32, Seq<u8>), address: int, buf_len: int)
    requires
        0 <= address,
        0 <= buf_len,
    ensures
        ({
            let w = extract_window(s, address, buf_len);
            &&& 0 <= w.0
            &&& 0 <= w.1
            &&& 0 <= w.2
            &&& w.0 + w.1 <= buf_len
            &&& w.2 + w.1 <= s.1.len()
        }),
{
}

proof fn lemma_extract_total_nonneg(segs: Seq<(u32, Seq<u8>)>, address: int, buf_len: int)
    requires
        0 <= address,
        0 <= buf_len,
    ensures
        extract_total(segs, address, buf_len) >= 0,
    decreases segs.len(),
{
    if segs.len() > 0 {
        lemma_extract_total_nonneg(segs.drop_last(), address, buf_len);
        lemma_window_in_bounds(segs.last(), address, buf_len);
    }
}

impl FirmwareProgram {
    /// Recomputes the least segment start and greatest segment end.
    fn finish_ranges(&mut self)
        requires
            !seg_ends_overflow_usize(old(self).segments_view()),
        ensures
            final(self).segments == old(self).segments,
            final(self).total_size == old(self).total_size,
            final(self).min_address == segs_min_address(old(self).segments_view()),
            final(self).max_address == segs_max_end(old(self).segments_view()),
    {
        let ghost segs = self.segments_view();
        let mut min_address: usize = usize::MAX;
        let mut max_address: usize = 0;
        let n = self.segments.len();
        let mut i: usize = 0;
        while i < n
            invariant
                n == self.segments@.len(),
                segs == self.segments_view(),
                !seg_ends_overflow_usize(segs),
                i <= n,
                min_address == segs_min_address(segs.take(i as int)),
                max_address == segs_max_end(segs.take(i as int)),
            decreases n - i,
        {
            let address = self.segments[i].address;
            let len = self.segments[i].data.len();
            proof {
                assert(segs[i as int] == (address, self.segments@[i as int].data@));
                assert(segs.take(i + 1).drop_last() =~= segs.take(i as int));
                assert(segs.take(i + 1).last() == segs[i as int]);
                assert(!(segs[i as int].0 + segs[i as int].1.len() > usize::MAX));
            }
            if (address as usize) < min_address {
                min_address = address as usize;
            }
            let end = address as usize + len;
            if end > max_address {
                max_address = end;
            }
            i = i + 1;
        }
        proof {
            assert(segs.take(n as int) =~= segs);
        }
        self.min_address = min_address;
        self.max_address = max_address;
    }

    /// Index of the last segment that holds `address`.
    pub fn find_segment(&self, address: u32) -> (r: Option<usize>)
        requires
            !find_segment_overflows(self.segments_view(), address as int),
        ensures
            match r {
                Some(i) => i < self.segments@.len() && last_containing(
                    self.segments_view(),
                    address as int,
                ) == Some(i as int),
                None => last_containing(self.segments_view(), address as int) is None,
            },
    {
        let ghost segs = self.segments_view();
        let mut i = self.segments.len();
        proof {
            assert(segs.take(i as int) =~= segs);
        }
        while i > 0
            invariant
                segs == self.segments_view(),
                i <= segs.len(),
                last_containing(segs, address as int) == last_containing(
                    segs.take(i as int),
                    address as int,
                ),
                !find_segment_overflows(segs.take(i as int), address as int),
            decreases i,
        {
            let start = self.segments[i - 1].address;
            let len = self.segments[i - 1].data.len();
            proof {
                let t = segs.take(i as int);
                assert(t.last() == segs[i - 1]);
                assert(segs[i - 1] == (start, self.segments@[i - 1].data@));
                assert(t.drop_last() =~= segs.take(i - 1));
            }
            let end = start as u64 + (len as u64) % 0x1_0000_0000;
            if address >= start && (address as u64) < end {
                return Some(i - 1);
            }
            i = i - 1;
        }
        None
    }

    /// Copies the bytes of the program that fall within `buf.len()` bytes from `address`
    /// into `buf`, and returns the number of bytes copied, summed over the segments.
    pub fn extract(&self, address: u32, buf: &mut [u8]) -> (total: usize)
        requires
            !extract_overflows(self.segments_view(), address as int, old(buf)@.len() as int),
            extract_total(self.segments_view(), address as int, old(buf)@.len() as int)
                <= usize::MAX,
        ensures
            total == extract_total(self.segments_view(), address as int, old(buf)@.len() as int),
            final(buf)@.len() == old(buf)@.len(),
            forall|k: int|
                0 <= k < old(buf)@.len() ==> #[trigger] final(buf)@[k] == extracted_byte(
                    self.segments_view(),
                    address as int,
                    old(buf)@,
                    k,
                ),
    {
        let ghost segs = self.segments_view();
        let ghost orig = buf@;
        let blen = buf.len();
        let n = self.segments.len();
        let mut total: usize = 0;
        let mut i: usize = 0;
        while i < n
            invariant
                segs == self.segments_view(),
                n == segs.len(),
                blen == orig.len(),
                buf@.len() == blen,
                i <= n,
                !extract_overflows(segs, address as int, blen as int),
                extract_total(segs, address as int, blen as int) <= usize::MAX,
                total == extract_total(segs.take(i as int), address as int, blen as int),
                forall|k: int|
                    0 <= k < blen ==> #[trigger] buf@[k] == extracted_byte(
                        segs.take(i as int),
                        address as int,
                        orig,
                        k,
                    ),
            decreases n - i,
        {
            let seg = &self.segments[i];
            let start = seg.address;
            let slen = seg.data.len();
            let ghost t = segs.take(i + 1);
            proof {
                assert(segs[i as int] == (start, seg.data@));
                assert(t.drop_last() =~= segs.take(i as int));
                assert(t.last() == segs[i as int]);
                assert(!(seg_end32(segs[i as int]) > u32::MAX));
                lemma_window_in_bounds(segs[i as int], address as int, blen as int);
                lemma_extract_total_prefix(segs, address as int, blen as int, i + 1);
                lemma_extract_total_nonneg(segs.take(i as int), address as int, blen as int);
            }
            let ghost w = extract_window(segs[i as int], address as int, blen as int);
            let (dst, count, src) = copy_window(start, slen, address, blen);
            assert(w == (dst as int, count as int, src as int));
            let ghost before = buf@;
            let mut j: usize = 0;
            while j < count
                invariant
                    i < n,
                    n == self.segments@.len(),
                    seg == &self.segments@[i as int],
                    buf@.len() == blen,
                    before.len() == blen,
                    dst + count <= blen,
                    src + count <= seg.data@.len(),
                    slen == seg.data@.len(),
                    j <= count,
                    forall|k: int|
                        0 <= k < blen ==> #[trigger] buf@[k] == if dst <= k < dst + j {
                            seg.data@[src + (k - dst)]
                        } else {
                            before[k]
                        },
                decreases count - j,
            {
                let v = seg.data[src + j];
                buf[dst + j] = v;
                j = j + 1;
            }
            total = total + count;
            i = i + 1;
            proof {
                assert forall|k: int| 0 <= k < blen implies #[trigger] buf@[k] == extracted_byte(
                    t,
                    address as int,
                    orig,
                    k,
                ) by {
                    if !window_covers(w, k) {
                        assert(last_writer(t, address as int, blen as int, k) == last_writer(
                            segs.take(i - 1),
                            address as int,
                            blen as int,
                            k,
                        ));
                        lemma_last_writer_index(segs.take(i - 1), address as int, blen as int, k);
                        lemma_last_writer_index(t, address as int, blen as int, k);
                        if let Some(p) = last_writer(t, address as int, blen as int, k) {
                            assert(t[p] == segs.take(i - 1)[p]);
                        }
                    }
                }
            }
        }
        proof {
            assert(segs.take(n as int) =~= segs);
        }
        total
    }
}

/// The copy window of a segment starting at `start` with `slen` bytes, for a buffer of
/// `blen` bytes at `address`.
fn copy_window(start: u32, slen: usize, address: u32, blen: usize) -> (r: (usize, usize, usize))
    requires
        start as int + len32(slen as int) <= u32::MAX,
    ensures
        forall|d: Seq<u8>|
            d.len() == slen ==> extract_window((start, d), address as int, blen as int) == (
                r.0 as int,
                r.1 as int,
                r.2 as int,
            ),
{
    let end = start as u64 + (slen as u64) % 0x1_0000_0000;
    let request_end = address as u64 + (blen as u64) % 0x1_0000_0000;
    if address >= start && (address as u64) < end {
        let d = (address - start) as usize;
        let c = if slen - d < blen {
            slen - d
        } else {
            blen
        };
        (0, c, d)
    } else if address < start && request_end > start as u64 {
        let d = (start - address) as usize;
        let c = if slen < blen - d {
            slen
        } else {
            blen - d
        };
        (d, c, 0)
    } else {
        (0, 0, 0)
    }
}

impl FirmwareProgram {
    /// Whether the 32-bit address arithmetic of `extract` would overflow for a buffer of
    /// `buf_len` bytes at `address`.
    pub fn extract_overflows_at(&self, address: u32, buf_len: usize) -> (r: bool)
        ensures
            r == extract_overflows(self.segments_view(), address as int, buf_len as int),
    {
        let n = self.segments.len();
        if n == 0 {
            return false;
        }
        if (address as u64) + (buf_len as u64) % 0x1_0000_0000 > 0xFFFF_FFFF {
            return true;
        }
        let mut i: usize = 0;
        while i < n
            invariant
                n == self.segments@.len(),
                i <= n,
                forall|j: int| 0 <= j < i ==> !(seg_end32(#[trigger] self.segments_view()[j]) > u32::MAX),
            decreases n - i,
        {
            let s = &self.segments[i];
            proof {
                assert(self.segments_view()[i as int] == s@);
            }
            if (s.address as u64) + (s.data.len() as u64) % 0x1_0000_0000 > 0xFFFF_FFFF {
                proof {
                    assert(seg_end32(self.segments_view()[i as int]) > u32::MAX);
                }
                return true;
            }
            i = i + 1;
        }
        false
    }

    /// The number of bytes `extract` reports for a buffer of `buf_len` bytes at `address`,
    /// or `None` when that sum does not fit in `usize`.
    pub fn extract_total_checked(&self, address: u32, buf_len: usize) -> (r: Option<usize>)
        requires
            !extract_overflows(self.segments_view(), address as int, buf_len as int),
        ensures
            match r {
                Some(t) => t == extract_total(self.segments_view(), address as int, buf_len as int),
                None => extract_total(self.segments_view(), address as int, buf_len as int) > usize::MAX,
            },
    {
        let ghost segs = self.segments_view();
        let n = self.segments.len();
        let mut total: usize = 0;
        let mut i: usize = 0;
        while i < n
            invariant
                segs == self.segments_view(),
                n == segs.len(),
                i <= n,
                !extract_overflows(segs, address as int, buf_len as int),
                total == extract_total(segs.take(i as int), address as int, buf_len as int),
            decreases n - i,
        {
            let seg = &self.segments[i];
            proof {
                assert(segs[i as int] == seg@);
                assert(segs.take(i + 1).drop_last() =~= segs.take(i as int));
                assert(segs.take(i + 1).last() == segs[i as int]);
                assert(!(seg_end32(segs[i as int]) > u32::MAX));
            }
            let (_, count, _) = copy_window(seg.address, seg.data.len(), address, buf_len);
            if count > usize::MAX - total {
                proof {
                    lemma_extract_total_grows(segs, address as int, buf_len as int, i + 1);
                }
                return None;
            }
            total = total + count;
            i = i + 1;
        }
        proof {
            assert(segs.take(n as int) =~= segs);
        }
        Some(total)
    }
}

proof fn lemma_extract_total_grows(segs: Seq<(u32, Seq<u8>)>, address: int, buf_len: int, i: int)
    requires
        0 <= i <= segs.len(),
        0 <= address,
        0 <= buf_len,
    ensures
        extract_total(segs.take(i), address, buf_len) <= extract_total(segs, address, buf_len),
{
    lemma_extract_total_prefix(segs, address, buf_len, i);
}

proof fn lemma_last_writer_index(segs: Seq<(u32, Seq<u8>)>, address: int, buf_len: int, k: int)
    ensures
        last_writer(segs, address, buf_len, k) matches Some(i) ==> 0 <= i < segs.len(),
    decreases segs.len(),
{
    if segs.len() > 0 {
        lemma_last_writer_index(segs.drop_last(), address, buf_len, k);
    }
}

proof fn lemma_extract_total_prefix(segs: Seq<(u32, Seq<u8>)>, address: int, buf_len: int, i: int)
    requires
        0 <= i <= segs.len(),
        0 <= address,
        0 <= buf_len,
    ensures
        extract_total(segs.take(i), address, buf_len) <= extract_total(segs, address, buf_len),
    decreases segs.len() - i,
{
    if i < segs.len() {
        lemma_extract_total_prefix(segs, address, buf_len, i + 1);
        assert(segs.take(i + 1).drop_last() =~= segs.take(i));
        lemma_window_in_bounds(segs.take(i + 1).last(), address, buf_len);
    } else {
        assert(segs.take(i) =~= segs);
    }
}


/// Loader state between record lines: segments, total size and the two address offsets.
pub struct LoadState {
    pub segs: Seq<(u32, Seq<u8>)>,
    pub total: int,
    pub offset1: int,
    pub offset2: int,
}

/// How reading the record lines of a file ends.
pub enum IhexOutcome {
    /// An end-of-file record was reached; the segments and total size read so far.
    Loaded(Seq<(u32, Seq<u8>)>, int),
    Failed(FirmwareError),
    /// 32-bit address arithmetic would overflow here.
    Overflow,
}

/// What one record line does to the loader.
pub enum LineStep {
    Continue(LoadState),
    Stop(IhexOutcome),
}

/// Index of the first newline at or after `pos` (the length when there is none).
pub open spec fn next_newline(bytes: Seq<u8>, pos: int) -> int
    decreases bytes.len() - pos,
{
    if pos < 0 || pos >= bytes.len() {
        bytes.len() as int
    } else if bytes[pos] == 10 {
        pos
    } else {
        next_newline(bytes, pos + 1)
    }
}

/// The line without its trailing carriage returns.
pub open spec fn trim_cr(line: Seq<u8>) -> Seq<u8>
    decreases line.len(),
{
    if line.len() > 0 && line.last() == 13 {
        trim_cr(line.drop_last())
    } else {
        line
    }
}

/// A big-endian 16-bit value.
pub open spec fn be16(hi: u8, lo: u8) -> int {
    hi * 256 + lo
}

/// The effect of one (carriage-return trimmed) line, numbered from 1.
pub open spec fn line_step(line: Seq<u8>, number: int, st: LoadState) -> LineStep {
    if line.len() == 0 {
        LineStep::Continue(st)
    } else {
        match parse_record_spec(line) {
            Err(e) => LineStep::Stop(
                IhexOutcome::Failed(FirmwareError::Record { line: number as usize, error: e }),
            ),
            Ok(rec) => {
                let d = rec.data;
                if rec.kind == 0 {
                    let address = rec.address + st.offset1 + st.offset2;
                    if address > u32::MAX || add_data_overflows(st.segs, address, d) {
                        LineStep::Stop(IhexOutcome::Overflow)
                    } else {
                        match add_data_spec(st.segs, st.total, address, d) {
                            Err(e) => LineStep::Stop(IhexOutcome::Failed(e)),
                            Ok((segs, total)) => LineStep::Continue(
                                LoadState { segs, total, offset1: st.offset1, offset2: st.offset2 },
                            ),
                        }
                    }
                } else if rec.kind == 1 {
                    if d.len() != 0 {
                        LineStep::Stop(IhexOutcome::Failed(FirmwareError::EofRecordWithData))
                    } else {
                        LineStep::Stop(IhexOutcome::Loaded(st.segs, st.total))
                    }
                } else if rec.kind == 2 {
                    if d.len() != 2 {
                        LineStep::Stop(
                            IhexOutcome::Failed(FirmwareError::InvalidExtendedSegmentAddress),
                        )
                    } else {
                        LineStep::Continue(
                            LoadState {
                                segs: st.segs,
                                total: st.total,
                                offset1: st.offset1,
                                offset2: be16(d[0], d[1]) * 16,
                            },
                        )
                    }
                } else if rec.kind == 3 || rec.kind == 5 {
                    if d.len() != 4 {
                        LineStep::Stop(IhexOutcome::Failed(FirmwareError::InvalidStartAddress))
                    } else {
                        LineStep::Continue(st)
                    }
                } else if rec.kind == 4 {
                    if d.len() != 2 {
                        LineStep::Stop(
                            IhexOutcome::Failed(FirmwareError::InvalidExtendedLinearAddress),
                        )
                    } else {
                        LineStep::Continue(
                            LoadState {
                                segs: st.segs,
                                total: st.total,
                                offset1: be16(d[0], d[1]) * 65536,
                                offset2: st.offset2,
                            },
                        )
                    }
                } else {
                    LineStep::Stop(IhexOutcome::Failed(FirmwareError::UnsupportedRecordType(rec.kind)))
                }
            },
        }
    }
}

pub proof fn lemma_next_newline_bounds(bytes: Seq<u8>, pos: int)
    requires
        0 <= pos,
    ensures
        pos <= bytes.len() ==> pos <= next_newline(bytes, pos) <= bytes.len(),
        next_newline(bytes, pos) < bytes.len() ==> bytes[next_newline(bytes, pos)] == 10,
    decreases bytes.len() - pos,
{
    if pos < bytes.len() && bytes[pos] != 10 {
        lemma_next_newline_bounds(bytes, pos + 1);
    }
}

/// The outcome of reading the lines that start at `pos`; `index` lines came before.
pub open spec fn run_lines(bytes: Seq<u8>, pos: int, index: int, st: LoadState) -> IhexOutcome
    decreases bytes.len() + 1 - pos,
{
    if pos < 0 || pos > bytes.len() {
        IhexOutcome::Failed(FirmwareError::MissingEof)
    } else {
        let nl = next_newline(bytes, pos);
        proof {
            lemma_next_newline_bounds(bytes, pos);
        }
        match line_step(trim_cr(bytes.subrange(pos, nl)), index + 1, st) {
            LineStep::Stop(o) => o,
            LineStep::Continue(next) => run_lines(bytes, nl + 1, index + 1, next),
        }
    }
}

/// The outcome of reading all the lines of an Intel HEX text.
pub open spec fn ihex_outcome(bytes: Seq<u8>) -> IhexOutcome {
    run_lines(bytes, 0, 0, LoadState { segs: Seq::empty(), total: 0, offset1: 0, offset2: 0 })
}

/// Whether reading the file would hit address arithmetic that overflows.
pub open spec fn parse_ihex_overflows(bytes: Seq<u8>) -> bool {
    &&& vstd::utf8::valid_utf8(bytes)
    &&& match ihex_outcome(bytes) {
        IhexOutcome::Overflow => true,
        IhexOutcome::Loaded(segs, _) => seg_ends_overflow_usize(segs),
        IhexOutcome::Failed(_) => false,
    }
}

/// The segments and total size read from an Intel HEX file, or why it was rejected.
pub open spec fn parse_ihex_spec(bytes: Seq<u8>) -> Result<(Seq<(u32, Seq<u8>)>, int), FirmwareError> {
    if !vstd::utf8::valid_utf8(bytes) {
        Err(FirmwareError::NotUtf8)
    } else {
        match ihex_outcome(bytes) {
            IhexOutcome::Loaded(segs, total) => Ok((segs, total)),
            IhexOutcome::Failed(e) => Err(e),
            IhexOutcome::Overflow => Err(FirmwareError::MissingEof),
        }
    }
}

/// A program whose segments, total size and address range are the given ones.
pub open spec fn program_matches(p: FirmwareProgram, segs: Seq<(u32, Seq<u8>)>, total: int) -> bool {
    &&& p.segments_view() == segs
    &&& p.total_size == total
    &&& p.min_address == segs_min_address(segs)
    &&& p.max_address == segs_max_end(segs)
}

/// Whether `bytes` are valid UTF-8.
///
/// Calls `std::str::from_utf8`, which accepts exactly the well-formed UTF-8 sequences;
/// the contract claims that its verdict is `vstd::utf8::valid_utf8`.
#[verifier::external_body]
fn is_utf8(bytes: &[u8]) -> (r: bool)
    ensures
        r == vstd::utf8::valid_utf8(bytes@),
{
    std::str::from_utf8(bytes).is_ok()
}

impl Default for FirmwareProgram {
    fn default() -> (p: Self)
        ensures
            p.segments@.len() == 0,
            p.min_address == usize::MAX,
            p.max_address == 0,
            p.total_size == 0,
    {
        FirmwareProgram { segments: Vec::new(), min_address: usize::MAX, max_address: 0, total_size: 0 }
    }
}

/// What the loader does after one record line.
enum LineAction {
    Next,
    Eof,
    Fail(FirmwareError),
    Overflow,
}

/// The loader state held by a program and the two offsets.
spec fn load_state(p: FirmwareProgram, offset1: u32, offset2: u32) -> LoadState {
    LoadState {
        segs: p.segments_view(),
        total: p.total_size as int,
        offset1: offset1 as int,
        offset2: offset2 as int,
    }
}

/// Applies one non-empty record line, numbered `number`, to the loader state.
#[verifier::rlimit(30)]
#[verifier::spinoff_prover]
fn apply_line(
    program: &mut FirmwareProgram,
    offset1: &mut u32,
    offset2: &mut u32,
    line: &[u8],
    number: usize,
) -> (r: LineAction)
    requires
        old(program).size_consistent(),
        *old(offset1) as int % 65536 == 0,
        *old(offset2) <= 0xFFFF0,
        line@.len() > 0,
    ensures
        final(program).size_consistent(),
        *final(offset1) as int % 65536 == 0,
        *final(offset2) <= 0xFFFF0,
        final(program).min_address == old(program).min_address,
        final(program).max_address == old(program).max_address,
        match line_step(line@, number as int, load_state(*old(program), *old(offset1), *old(offset2))) {
            LineStep::Continue(next) => r is Next && next == load_state(
                *final(program),
                *final(offset1),
                *final(offset2),
            ),
            LineStep::Stop(IhexOutcome::Loaded(segs, total)) => {
                &&& r is Eof
                &&& final(program).segments_view() == segs
                &&& final(program).total_size == total
            },
            LineStep::Stop(IhexOutcome::Failed(e)) => r == LineAction::Fail(e),
            LineStep::Stop(IhexOutcome::Overflow) => r is Overflow,
        },
{
    let record = match parse_record(line) {
        Ok(rec) => rec,
        Err(e) => {
            return LineAction::Fail(FirmwareError::Record { line: number, error: e });
        },
    };
    if record.kind == 0 {
        let address = record.address as u32 + *offset1;
        if (address as u64) + (*offset2 as u64) > 0xFFFF_FFFF {
            return LineAction::Overflow;
        }
        let address = address + *offset2;
        if program.add_data_overflows(address, record.data.len()) {
            return LineAction::Overflow;
        }
        match program.add_data(address, record.data.as_slice()) {
            Ok(()) => LineAction::Next,
            Err(e) => LineAction::Fail(e),
        }
    } else if record.kind == 1 {
        if record.data.len() != 0 {
            return LineAction::Fail(FirmwareError::EofRecordWithData);
        }
        LineAction::Eof
    } else if record.kind == 2 {
        if record.data.len() != 2 {
            return LineAction::Fail(FirmwareError::InvalidExtendedSegmentAddress);
        }
        *offset2 = ((record.data[0] as u32) * 256 + record.data[1] as u32) * 16;
        LineAction::Next
    } else if record.kind == 3 || record.kind == 5 {
        if record.data.len() != 4 {
            return LineAction::Fail(FirmwareError::InvalidStartAddress);
        }
        LineAction::Next
    } else if record.kind == 4 {
        if record.data.len() != 2 {
            return LineAction::Fail(FirmwareError::InvalidExtendedLinearAddress);
        }
        *offset1 = ((record.data[0] as u32) * 256 + record.data[1] as u32) * 65536;
        LineAction::Next
    } else {
        LineAction::Fail(FirmwareError::UnsupportedRecordType(record.kind))
    }
}

/// The firmware read from an Intel HEX text is the one `parse_ihex_spec` describes.
pub open spec fn parse_result_matches(
    r: Result<Firmware, FirmwareError>,
    filename: Seq<char>,
    name: Seq<char>,
    bytes: Seq<u8>,
) -> bool {
    match parse_ihex_spec(bytes) {
        Ok((segs, total)) => r matches Ok(f) && f.name@ == name && f.filename@ == filename
            && f.format == FirmwareFormat::IntelHex && f.programs@.len() == 1 && program_matches(
            f.programs@[0],
            segs,
            total,
        ),
        Err(e) => r == Err::<Firmware, FirmwareError>(e),
    }
}

/// Reads an Intel HEX image: `filename` and `name` are stored as given.
pub fn parse_ihex(filename: String, name: String, bytes: &[u8]) -> (r: Result<Firmware, FirmwareError>)
    requires
        !parse_ihex_overflows(bytes@),
    ensures
        parse_result_matches(r, filename@, name@, bytes@),
{
    match try_parse_ihex(filename, name, bytes) {
        Some(r) => r,
        None => Err(FirmwareError::MissingEof),
    }
}

/// Reads an Intel HEX image like `parse_ihex`, and returns `None` on the files where the
/// address arithmetic of `parse_ihex` would overflow.
#[verifier::rlimit(40)]
#[verifier::spinoff_prover]
pub fn try_parse_ihex(filename: String, name: String, bytes: &[u8]) -> (r: Option<
    Result<Firmware, FirmwareError>,
>)
    ensures
        r is None <==> parse_ihex_overflows(bytes@),
        r matches Some(res) ==> parse_result_matches(res, filename@, name@, bytes@),
{
    if !is_utf8(bytes) {
        return Some(Err(FirmwareError::NotUtf8));
    }
    let mut program = FirmwareProgram::default();
    let mut offset1: u32 = 0;
    let mut offset2: u32 = 0;
    let mut pos: usize = 0;
    let mut index: usize = 0;
    let len = bytes.len();
    proof {
        assert(program.segments_view() =~= Seq::<(u32, Seq<u8>)>::empty());
    }
    loop
        invariant
            len == bytes@.len(),
            pos <= len,
            index <= pos,
            vstd::utf8::valid_utf8(bytes@),
            program.size_consistent(),
            offset1 as int % 65536 == 0,
            offset2 <= 0xFFFF0,
            ihex_outcome(bytes@) == run_lines(
                bytes@,
                pos as int,
                index as int,
                LoadState {
                    segs: program.segments_view(),
                    total: program.total_size as int,
                    offset1: offset1 as int,
                    offset2: offset2 as int,
                },
            ),
        decreases len + 1 - pos,
    {
        let ghost st = LoadState {
            segs: program.segments_view(),
            total: program.total_size as int,
            offset1: offset1 as int,
            offset2: offset2 as int,
        };
        let mut nl = pos;
        while nl < len && bytes[nl] != 10
            invariant
                len == bytes@.len(),
                pos <= nl <= len,
                next_newline(bytes@, pos as int) == next_newline(bytes@, nl as int),
            decreases len - nl,
        {
            nl = nl + 1;
        }
        let mut end = nl;
        while end > pos && bytes[end - 1] == 13
            invariant
                len == bytes@.len(),
                pos <= end <= nl <= len,
                trim_cr(bytes@.subrange(pos as int, nl as int)) == trim_cr(
                    bytes@.subrange(pos as int, end as int),
                ),
            decreases end,
        {
            proof {
                assert(bytes@.subrange(pos as int, end as int).drop_last() =~= bytes@.subrange(
                    pos as int,
                    end - 1,
                ));
            }
            end = end - 1;
        }
        let ghost line = bytes@.subrange(pos as int, end as int);
        proof {
            assert(trim_cr(line) == line);
            assert(trim_cr(bytes@.subrange(pos as int, nl as int)) == line);
            assert(nl == next_newline(bytes@, pos as int));
        }
        if end > pos {
            let slice = vstd::slice::slice_subrange(bytes, pos, end);
            match apply_line(&mut program, &mut offset1, &mut offset2, slice, index + 1) {
                LineAction::Next => {},
                LineAction::Eof => {
                    if program.ends_overflow_usize() {
                        return None;
                    }
                    program.finish_ranges();
                    return Some(
                        Ok(
                            Firmware {
                                name,
                                filename,
                                format: FirmwareFormat::IntelHex,
                                programs: vec![program],
                            },
                        ),
                    );
                },
                LineAction::Fail(e) => {
                    return Some(Err(e));
                },
                LineAction::Overflow => {
                    return None;
                },
            }
        }
        if nl >= len {
            proof {
                let st2 = LoadState {
                    segs: program.segments_view(),
                    total: program.total_size as int,
                    offset1: offset1 as int,
                    offset2: offset2 as int,
                };
                assert(line_step(line, index + 1, st) == LineStep::Continue(st2));
                assert(ihex_outcome(bytes@) == run_lines(bytes@, nl + 1, index + 1, st2));
            }
            return Some(Err(FirmwareError::MissingEof));
        }
        pos = nl + 1;
        index = index + 1;
    }
}

impl FirmwareProgram {
    /// Whether placing `data_len` bytes at `address` would overflow `usize` arithmetic.
    fn add_data_overflows(&self, address: u32, data_len: usize) -> (r: bool)
        ensures
            forall|d: Seq<u8>|
                d.len() == data_len ==> (r == add_data_overflows(
                    self.segments_view(),
                    address as int,
                    d,
                )),
    {
        let n = self.segments.len();
        if data_len == 0 || n == 0 {
            return false;
        }
        let start = self.segments[n - 1].address;
        proof {
            assert(self.segments_view().last() == self.segments@[n - 1]@);
        }
        data_len > usize::MAX - (address as usize) || (start as usize) > usize::MAX - 1048576
    }

    /// Whether some segment end does not fit in `usize`.
    fn ends_overflow_usize(&self) -> (r: bool)
        ensures
            r == seg_ends_overflow_usize(self.segments_view()),
    {
        let n = self.segments.len();
        let mut i: usize = 0;
        while i < n
            invariant
                n == self.segments@.len(),
                i <= n,
                forall|j: int|
                    0 <= j < i ==> !(#[trigger] self.segments_view()[j].0
                        + self.segments_view()[j].1.len() > usize::MAX),
            decreases n - i,
        {
            let s = &self.segments[i];
            proof {
                assert(self.segments_view()[i as int] == s@);
            }
            if s.data.len() > usize::MAX - (s.address as usize) {
                proof {
                    let j = i as int;
                    assert(self.segments_view()[j].0 + self.segments_view()[j].1.len() > usize::MAX);
                }
                return true;
            }
            i = i + 1;
        }
        false
    }
}


/// Little-endian 32-bit value at `i`.
pub open spec fn le32(s: Seq<u8>, i: int) -> int {
    s[i] + s[i + 1] * 0x100 + s[i + 2] * 0x1_0000 + s[i + 3] * 0x100_0000
}

/// Little-endian 64-bit value at `i`.
pub open spec fn le64(s: Seq<u8>, i: int) -> int {
    le32(s, i) + le32(s, i + 4) * 0x1_0000_0000
}

/// Signature of the flash configuration block that Teensy 4 images start with.
pub const TEENSY4_FLASH_CONFIG: u64 = 0x5601_0000_4246_4346;

/// Size of the Teensy 3 startup code region.
pub const TEENSY3_STARTUP_SIZE: usize = 0x400;

/// The bytes of the segment holding address 0x6000_0000, when they start with the Teensy 4
/// flash configuration.
pub open spec fn teensy4_image(segs: Seq<(u32, Seq<u8>)>) -> Option<Seq<u8>> {
    match last_containing(segs, 0x6000_0000) {
        Some(i) => if segs[i].1.len() >= 8 && le64(segs[i].1, 0) == TEENSY4_FLASH_CONFIG {
            Some(segs[i].1)
        } else {
            None
        },
        None => None,
    }
}

/// Models of a Teensy 4 image, by the flash size its configuration block declares.
pub open spec fn identify_teensy4(data: Seq<u8>) -> Seq<Model> {
    if data.len() > 84 && le32(data, 80) == 0x0080_0000 {
        seq![Model::Teensy41]
    } else if data.len() > 84 && le32(data, 80) == 0x0100_0000 {
        seq![Model::TeensyMicroMod]
    } else {
        seq![Model::Teensy40, Model::Teensy40Beta1]
    }
}

/// First word-aligned offset below 0x3F8 (from `i`) at which eight 0xFF bytes stand.
pub open spec fn first_erased_word(data: Seq<u8>, i: int) -> Option<int>
    decreases 0x3FC - i,
{
    if i >= 0x3F8 || i < 0 {
        None
    } else if le64(data, i) == 0xFFFF_FFFF_FFFF_FFFF {
        Some(i)
    } else {
        first_erased_word(data, i + 4)
    }
}

/// End of the interrupt vector table of a Teensy 3 image.
pub open spec fn teensy3_vector_end(data: Seq<u8>) -> int {
    let e = le32(data, 4) - le32(data, 4) % 2;
    if e >= TEENSY3_STARTUP_SIZE {
        match first_erased_word(data, 0) {
            Some(i) => i,
            None => e,
        }
    } else {
        e
    }
}

/// Models of a Teensy 3 image, by its initial stack pointer and vector table size.
pub open spec fn identify_teensy3(data: Seq<u8>) -> Option<Seq<Model>> {
    let stack = le32(data, 0);
    let end = teensy3_vector_end(data);
    if stack == 0x2000_2000 && end == 0xF8 {
        Some(seq![Model::Teensy30])
    } else if stack == 0x2000_8000 && end == 0x1BC {
        Some(seq![Model::Teensy31, Model::Teensy32])
    } else if stack == 0x2000_1800 && end == 0xC0 {
        Some(seq![Model::TeensyLc])
    } else if (stack == 0x2002_0000 || stack == 0x2002_FFFC || stack == 0x2002_FFF8) && end
        == 0x198 {
        Some(seq![Model::Teensy35])
    } else if stack == 0x2003_0000 && end == 0x1D0 {
        Some(seq![Model::Teensy36])
    } else {
        None
    }
}

/// The AVR Teensy whose bootloader jump sequence is the 64-bit word `w`.
pub open spec fn avr_signature(w: int) -> Option<Model> {
    if w == 0x94F8_CFFF_7E00_940C {
        Some(Model::TeensyPp10)
    } else if w == 0x94F8_CFFF_3F00_940C {
        Some(Model::Teensy20)
    } else if w == 0x94F8_CFFF_FE00_940C {
        Some(Model::TeensyPp20)
    } else {
        None
    }
}

/// The first AVR signature among the 8-byte windows of `data` from offset `j`.
pub open spec fn avr_scan_bytes(data: Seq<u8>, j: int) -> Option<Model>
    decreases data.len() - j,
{
    if j < 0 || j + 8 > data.len() {
        None
    } else {
        match avr_signature(le64(data, j)) {
            Some(m) => Some(m),
            None => avr_scan_bytes(data, j + 1),
        }
    }
}

/// The first AVR signature in the segments from index `i`.
pub open spec fn avr_scan(segs: Seq<(u32, Seq<u8>)>, i: int) -> Option<Model>
    decreases segs.len() - i,
{
    if i < 0 || i >= segs.len() {
        None
    } else {
        match avr_scan_bytes(segs[i].1, 0) {
            Some(m) => Some(m),
            None => avr_scan(segs, i + 1),
        }
    }
}

/// Teensy 3 identification of the segment holding address 0.
pub open spec fn teensy3_image_models(segs: Seq<(u32, Seq<u8>)>) -> Option<Seq<Model>> {
    match last_containing(segs, 0) {
        Some(i) => if segs[i].1.len() >= TEENSY3_STARTUP_SIZE {
            identify_teensy3(segs[i].1)
        } else {
            None
        },
        None => None,
    }
}

/// The models a program's contents are built for (empty when none is recognised).
pub open spec fn identify_spec(segs: Seq<(u32, Seq<u8>)>, max_address: int) -> Seq<Model> {
    match teensy4_image(segs) {
        Some(data) => identify_teensy4(data),
        None => match teensy3_image_models(segs) {
            Some(ms) => ms,
            None => if max_address <= 130_048 {
                match avr_scan(segs, 0) {
                    Some(m) => seq![m],
                    None => seq![],
                }
            } else {
                seq![]
            },
        },
    }
}

/// Where the segment searches of identification would overflow 32-bit arithmetic.
pub open spec fn identify_overflows(segs: Seq<(u32, Seq<u8>)>) -> bool {
    ||| find_segment_overflows(segs, 0x6000_0000)
    ||| (teensy4_image(segs) is None && find_segment_overflows(segs, 0))
}

/// Little-endian 32-bit value of the first four bytes.
pub fn read_u32_le(bytes: &[u8]) -> (r: u32)
    requires
        bytes@.len() >= 4,
    ensures
        r == le32(bytes@, 0),
{
    bytes[0] as u32 + (bytes[1] as u32) * 0x100 + (bytes[2] as u32) * 0x1_0000 + (bytes[3] as u32)
        * 0x100_0000
}

/// Little-endian 64-bit value of the first eight bytes.
pub fn read_u64_le(bytes: &[u8]) -> (r: u64)
    requires
        bytes@.len() >= 8,
    ensures
        r == le64(bytes@, 0),
{
    let lo = read_u32_le(bytes);
    let hi = read_u32_le(vstd::slice::slice_subrange(bytes, 4, 8));
    proof {
        assert(le32(bytes@.subrange(4, 8), 0) == le32(bytes@, 4));
    }
    lo as u64 + (hi as u64) * 0x1_0000_0000
}

fn le64_at(data: &Vec<u8>, i: usize) -> (r: u64)
    requires
        i + 8 <= data@.len(),
    ensures
        r == le64(data@, i as int),
{
    let _n = data.len();
    let w = vstd::slice::slice_subrange(data.as_slice(), i, i + 8);
    proof {
        assert(le64(w@, 0) == le64(data@, i as int));
    }
    read_u64_le(w)
}

fn le32_at(data: &Vec<u8>, i: usize) -> (r: u32)
    requires
        i + 4 <= data@.len(),
    ensures
        r == le32(data@, i as int),
{
    let _n = data.len();
    let w = vstd::slice::slice_subrange(data.as_slice(), i, i + 4);
    proof {
        assert(le32(w@, 0) == le32(data@, i as int));
    }
    read_u32_le(w)
}

fn avr_scan_segment(data: &Vec<u8>) -> (r: Option<Model>)
    ensures
        r == avr_scan_bytes(data@, 0),
{
    if data.len() < 8 {
        return None;
    }
    let mut j: usize = 0;
    let last = data.len() - 8;
    while j <= last
        invariant
            data@.len() >= 8,
            data@.len() <= usize::MAX,
            last == data@.len() - 8,
            j <= last + 1,
            avr_scan_bytes(data@, 0) == avr_scan_bytes(data@, j as int),
        decreases data@.len() - j,
    {
        let w = le64_at(data, j);
        if w == 0x94F8_CFFF_7E00_940C {
            return Some(Model::TeensyPp10);
        } else if w == 0x94F8_CFFF_3F00_940C {
            return Some(Model::Teensy20);
        } else if w == 0x94F8_CFFF_FE00_940C {
            return Some(Model::TeensyPp20);
        }
        j = j + 1;
    }
    None
}

fn first_erased(data: &Vec<u8>) -> (r: Option<usize>)
    requires
        data@.len() >= TEENSY3_STARTUP_SIZE,
    ensures
        match first_erased_word(data@, 0) {
            Some(i) => r == Some(i as usize) && 0 <= i < 0x3F8,
            None => r is None,
        },
{
    let mut i: usize = 0;
    while i < 0x3F8
        invariant
            data@.len() >= TEENSY3_STARTUP_SIZE,
            i <= 0x3F8,
            i % 4 == 0,
            first_erased_word(data@, 0) == first_erased_word(data@, i as int),
        decreases 0x3F8 - i,
    {
        if le64_at(data, i) == 0xFFFF_FFFF_FFFF_FFFF {
            return Some(i);
        }
        i = i + 4;
    }
    None
}

fn teensy3_models(data: &Vec<u8>) -> (r: Option<Vec<Model>>)
    requires
        data@.len() >= TEENSY3_STARTUP_SIZE,
    ensures
        match identify_teensy3(data@) {
            Some(ms) => r matches Some(v) && v@ == ms,
            None => r is None,
        },
{
    let stack = le32_at(data, 0);
    let word = le32_at(data, 4);
    let mut end = word - word % 2;
    if end >= TEENSY3_STARTUP_SIZE as u32 {
        if let Some(i) = first_erased(data) {
            end = i as u32;
        }
    }
    proof {
        assert(end == teensy3_vector_end(data@));
    }
    if stack == 0x2000_2000 && end == 0xF8 {
        Some(vec![Model::Teensy30])
    } else if stack == 0x2000_8000 && end == 0x1BC {
        Some(vec![Model::Teensy31, Model::Teensy32])
    } else if stack == 0x2000_1800 && end == 0xC0 {
        Some(vec![Model::TeensyLc])
    } else if (stack == 0x2002_0000 || stack == 0x2002_FFFC || stack == 0x2002_FFF8) && end
        == 0x198 {
        Some(vec![Model::Teensy35])
    } else if stack == 0x2003_0000 && end == 0x1D0 {
        Some(vec![Model::Teensy36])
    } else {
        None
    }
}

fn teensy4_models(program: &FirmwareProgram) -> (r: Option<Vec<Model>>)
    requires
        !find_segment_overflows(program.segments_view(), 0x6000_0000),
    ensures
        match teensy4_image(program.segments_view()) {
            Some(data) => r matches Some(v) && v@ == identify_teensy4(data),
            None => r is None,
        },
{
    let ghost segs = program.segments_view();
    if let Some(i) = program.find_segment(0x6000_0000) {
        let data = &program.segments[i].data;
        proof {
            assert(segs[i as int].1 == data@);
        }
        if data.len() >= 8 && le64_at(data, 0) == TEENSY4_FLASH_CONFIG {
            if data.len() > 84 {
                let flash = le32_at(data, 80);
                if flash == 0x0080_0000 {
                    return Some(vec![Model::Teensy41]);
                } else if flash == 0x0100_0000 {
                    return Some(vec![Model::TeensyMicroMod]);
                }
            }
            return Some(vec![Model::Teensy40, Model::Teensy40Beta1]);
        }
    }
    None
}

fn teensy3_image(program: &FirmwareProgram) -> (r: Option<Vec<Model>>)
    requires
        !find_segment_overflows(program.segments_view(), 0),
    ensures
        match teensy3_image_models(program.segments_view()) {
            Some(ms) => r matches Some(v) && v@ == ms,
            None => r is None,
        },
{
    let ghost segs = program.segments_view();
    if let Some(i) = program.find_segment(0) {
        let data = &program.segments[i].data;
        proof {
            assert(segs[i as int].1 == data@);
        }
        if data.len() >= TEENSY3_STARTUP_SIZE {
            return teensy3_models(data);
        }
    }
    None
}

fn avr_models(program: &FirmwareProgram) -> (r: Option<Model>)
    ensures
        r == avr_scan(program.segments_view(), 0),
{
    let ghost segs = program.segments_view();
    let n = program.segments.len();
    let mut i: usize = 0;
    while i < n
        invariant
            segs == program.segments_view(),
            n == segs.len(),
            i <= n,
            avr_scan(segs, 0) == avr_scan(segs, i as int),
        decreases n - i,
    {
        let data = &program.segments[i].data;
        proof {
            assert(segs[i as int].1 == data@);
        }
        if let Some(m) = avr_scan_segment(data) {
            return Some(m);
        }
        i = i + 1;
    }
    None
}

/// The models a program's contents are built for (empty when none is recognised).
pub fn identify_teensy_models(program: &FirmwareProgram) -> (r: Vec<Model>)
    requires
        !identify_overflows(program.segments_view()),
    ensures
        r@ == identify_spec(program.segments_view(), program.max_address as int),
{
    if let Some(models) = teensy4_models(program) {
        return models;
    }
    if let Some(models) = teensy3_image(program) {
        return models;
    }
    if program.max_address <= 130_048 {
        if let Some(m) = avr_models(program) {
            return vec![m];
        }
    }
    Vec::new()
}

impl Firmware {
    /// The models the first program is built for (empty without programs).
    pub fn identify_models(&self) -> (r: Vec<Model>)
        requires
            self.programs@.len() > 0 ==> !identify_overflows(self.programs@[0].segments_view()),
        ensures
            self.programs@.len() == 0 ==> r@.len() == 0,
            self.programs@.len() > 0 ==> r@ == identify_spec(
                self.programs@[0].segments_view(),
                self.programs@[0].max_address as int,
            ),
    {
        if self.programs.len() == 0 {
            return Vec::new();
        }
        identify_teensy_models(&self.programs[0])
    }
}


/// Whether an extension names an Intel HEX file.
pub open spec fn is_hex_extension_spec(ext: Option<Seq<char>>) -> bool {
    ext matches Some(e) && eq_ignore_ascii_case(e, "hex"@)
}

/// The extension as a sequence of characters.
pub open spec fn ext_view(ext: Option<&str>) -> Option<Seq<char>> {
    match ext {
        Some(e) => Some(e@),
        None => None,
    }
}

/// Whether the extension is "hex" in any ASCII case.
pub fn is_hex_extension(ext: Option<&str>) -> (r: bool)
    ensures
        r == is_hex_extension_spec(ext_view(ext)),
{
    match ext {
        None => false,
        Some(e) => {
            let hex = "hex";
            proof {
                reveal_strlit("hex");
            }
            if e.unicode_len() != 3 {
                return false;
            }
            let mut i: usize = 0;
            while i < 3
                invariant
                    ext_view(ext) == Some(e@),
                    e@.len() == 3,
                    hex@.len() == 3,
                    hex@ == "hex"@,
                    i <= 3,
                    forall|k: int| 0 <= k < i ==> ascii_lower(#[trigger] e@[k]) == ascii_lower(hex@[k]),
                decreases 3 - i,
            {
                if lower_ascii(e.get_char(i)) != lower_ascii(hex.get_char(i)) {
                    proof {
                        assert(ascii_lower(e@[i as int]) != ascii_lower("hex"@[i as int]));
                        assert(!eq_ignore_ascii_case(e@, "hex"@));
                    }
                    return false;
                }
                i = i + 1;
            }
            true
        },
    }
}

/// The extension of a path, as `std::path::Path::extension` reads it.
///
/// Calls `Path::extension`, which gives the text after the last '.' of the file name (none
/// where the name has no '.' or only a leading one, or where there is no file name). The
/// file name is the final component, after which only separators and "." components may
/// stand (`Path::components` drops them). Separators are '/' everywhere and also '\\' on
/// Windows, where a path may start with a prefix. The contract states the result exactly
/// (`portable_extension`) wherever every platform reads the path's end alike, drive-letter
/// paths such as `C:\\fw\\a.hex` and trailing separators included; elsewhere it states that
/// an extension is a run of characters of the path without '.', right after a '.', followed
/// by nothing but separators and '.'.
#[verifier::external_body]
fn path_extension(path: &str) -> (r: Option<String>)
    ensures
        r matches Some(e) ==> !e@.contains('.') && exists|i: int|
            0 <= i && i + 1 + e@.len() <= path@.len() && path@[i] == '.' && #[trigger] path@.subrange(
                i + 1,
                i + 1 + e@.len(),
            ) == e@ && only_separators_and_dots(path@.skip(i + 1 + e@.len())),
        portable_extension(path@) matches Some(x) ==> opt_string_chars(r) == x,
{
    match std::path::Path::new(path).extension() {
        Some(e) => Some(e.to_string_lossy().into_owned()),
        None => None,
    }
}

/// The file name of a path, as `std::path::Path::file_name` reads it.
///
/// Calls `Path::file_name`, which gives the last component of the path (none where that is
/// a root, prefix, "." or ".."). The contract states it exactly (`portable_file_name`)
/// wherever every platform finds the same final component, and otherwise that a file name
/// is a run of characters of the path.
#[verifier::external_body]
fn path_file_name(path: &str) -> (r: Option<String>)
    ensures
        r matches Some(n) ==> exists|i: int|
            0 <= i && i + n@.len() <= path@.len() && #[trigger] path@.subrange(i, i + n@.len())
                == n@,
        portable_file_name(path@) matches Some(x) ==> opt_string_chars(r) == x,
{
    match std::path::Path::new(path).file_name() {
        Some(n) => Some(n.to_string_lossy().into_owned()),
        None => None,
    }
}

/// An optional owned string as an optional sequence of characters.
pub open spec fn opt_string_chars(s: Option<String>) -> Option<Seq<char>> {
    match s {
        Some(v) => Some(v@),
        None => None,
    }
}

/// Whether a simple path names a HEX file: its extension is "hex" in any case.
pub open spec fn simple_hex_path(path: Seq<char>) -> bool {
    is_hex_extension_spec(name_extension(final_component(path)))
}

/// ".hex", in any case, stands in the path, followed by nothing but separators and '.'.
pub open spec fn names_hex_extension(path: Seq<char>) -> bool {
    exists|i: int|
        0 <= i && i + 4 <= path.len() && path[i] == '.' && eq_ignore_ascii_case(
            #[trigger] path.subrange(i + 1, i + 4),
            "hex"@,
        ) && only_separators_and_dots(path.skip(i + 4))
}

/// Whether the path names an Intel HEX file by its extension.
pub fn is_hex_file(path: &str) -> (r: bool)
    ensures
        r ==> names_hex_extension(path@),
        !path@.contains('.') ==> !r,
        portable_extension(path@) matches Some(x) ==> r == is_hex_extension_spec(x),
        is_simple_path(path@) ==> r == simple_hex_path(path@),
{
    proof {
        if is_simple_path(path@) {
            lemma_simple_path_portable(path@);
        }
    }
    let ext = path_extension(path);
    match ext {
        Some(e) => {
            let r = is_hex_extension(Some(e.as_str()));
            proof {
                reveal_strlit("hex");
                if r {
                    let i = choose|i: int|
                        0 <= i && i + 1 + e@.len() <= path@.len() && path@[i] == '.'
                            && #[trigger] path@.subrange(i + 1, i + 1 + e@.len()) == e@
                            && only_separators_and_dots(path@.skip(i + 1 + e@.len()));
                    assert(path@.subrange(i + 1, i + 4) == e@);
                    assert(only_separators_and_dots(path@.skip(i + 4)));
                }
                if !path@.contains('.') {
                    let i = choose|i: int|
                        0 <= i && i + 1 + e@.len() <= path@.len() && path@[i] == '.'
                            && #[trigger] path@.subrange(i + 1, i + 1 + e@.len()) == e@;
                    assert(path@[i] == '.');
                }
            }
            r
        },
        None => false,
    }
}

/// The format a file is read in, chosen by its extension.
pub fn format_from_extension(ext: Option<&str>, path: &str) -> (r: Result<FirmwareFormat, FirmwareError>)
    ensures
        match ext_view(ext) {
            Some(e) => if eq_ignore_ascii_case(e, "hex"@) {
                r == Ok::<FirmwareFormat, FirmwareError>(FirmwareFormat::IntelHex)
            } else {
                r matches Err(FirmwareError::UnsupportedExtension(x)) && x@ == e
            },
            None => r matches Err(FirmwareError::NoExtension(x)) && x@ == path@,
        },
{
    match ext {
        Some(e) => {
            if is_hex_extension(Some(e)) {
                Ok(FirmwareFormat::IntelHex)
            } else {
                Err(FirmwareError::UnsupportedExtension(e.to_string()))
            }
        },
        None => Err(FirmwareError::NoExtension(path.to_string())),
    }
}

/// The format a file is read in, chosen by the extension of its path.
pub fn format_from_path(path: &str) -> (r: Result<FirmwareFormat, FirmwareError>)
    ensures
        r is Ok ==> names_hex_extension(path@),
        !path@.contains('.') ==> (r matches Err(FirmwareError::NoExtension(x)) && x@ == path@),
        r matches Err(e) ==> e is UnsupportedExtension || e is NoExtension,
        portable_extension(path@) matches Some(ext) ==> match ext {
            Some(e) => if eq_ignore_ascii_case(e, "hex"@) {
                r == Ok::<FirmwareFormat, FirmwareError>(FirmwareFormat::IntelHex)
            } else {
                r matches Err(FirmwareError::UnsupportedExtension(x)) && x@ == e
            },
            None => r matches Err(FirmwareError::NoExtension(x)) && x@ == path@,
        },
        is_simple_path(path@) ==> match name_extension(final_component(path@)) {
            Some(e) => if eq_ignore_ascii_case(e, "hex"@) {
                r == Ok::<FirmwareFormat, FirmwareError>(FirmwareFormat::IntelHex)
            } else {
                r matches Err(FirmwareError::UnsupportedExtension(x)) && x@ == e
            },
            None => r matches Err(FirmwareError::NoExtension(x)) && x@ == path@,
        },
{
    proof {
        if is_simple_path(path@) {
            lemma_simple_path_portable(path@);
        }
    }
    let ext = path_extension(path);
    match ext {
        Some(e) => {
            let r = format_from_extension(Some(e.as_str()), path);
            proof {
                reveal_strlit("hex");
                let i = choose|i: int|
                    0 <= i && i + 1 + e@.len() <= path@.len() && path@[i] == '.'
                        && #[trigger] path@.subrange(i + 1, i + 1 + e@.len()) == e@
                        && only_separators_and_dots(path@.skip(i + 1 + e@.len()));
                assert(path@[i] == '.');
                if r is Ok {
                    assert(path@.subrange(i + 1, i + 4) == e@);
                    assert(only_separators_and_dots(path@.skip(i + 4)));
                }
            }
            r
        },
        None => format_from_extension(None, path),
    }
}


/// Whether reading `bytes` as Intel HEX would hit address arithmetic that overflows.
pub fn ihex_overflows(bytes: &[u8]) -> (r: bool)
    ensures
        r == parse_ihex_overflows(bytes@),
{
    try_parse_ihex(String::new(), String::new(), bytes).is_none()
}

impl FirmwareProgram {
    /// Whether the backward search for `address` meets a segment whose 32-bit end overflows.
    pub fn find_segment_overflows_at(&self, address: u32) -> (r: bool)
        ensures
            r == find_segment_overflows(self.segments_view(), address as int),
    {
        let ghost segs = self.segments_view();
        let mut i = self.segments.len();
        proof {
            assert(segs.take(i as int) =~= segs);
        }
        while i > 0
            invariant
                segs == self.segments_view(),
                i <= segs.len(),
                find_segment_overflows(segs, address as int) == find_segment_overflows(
                    segs.take(i as int),
                    address as int,
                ),
            decreases i,
        {
            let start = self.segments[i - 1].address;
            let len = self.segments[i - 1].data.len();
            proof {
                let t = segs.take(i as int);
                assert(t.last() == segs[i - 1]);
                assert(segs[i - 1] == (start, self.segments@[i - 1].data@));
                assert(t.drop_last() =~= segs.take(i - 1));
            }
            let end = start as u64 + (len as u64) % 0x1_0000_0000;
            if end > 0xFFFF_FFFF {
                return true;
            }
            if address >= start && (address as u64) < end {
                return false;
            }
            i = i - 1;
        }
        false
    }

    /// Whether identifying this program would overflow 32-bit address arithmetic.
    pub fn identify_overflows(&self) -> (r: bool)
        ensures
            r == identify_overflows(self.segments_view()),
    {
        if self.find_segment_overflows_at(0x6000_0000) {
            return true;
        }
        if teensy4_models(self).is_some() {
            return false;
        }
        self.find_segment_overflows_at(0)
    }
}

impl Firmware {
    /// Whether identifying this firmware would overflow 32-bit address arithmetic.
    pub fn identify_overflows(&self) -> (r: bool)
        ensures
            r == (self.programs@.len() > 0 && identify_overflows(self.programs@[0].segments_view())),
    {
        self.programs.len() > 0 && self.programs[0].identify_overflows()
    }
}

/// Reads a firmware file whose path is `path` and whose contents are `contents`.
pub fn load_firmware_file(path: &str, contents: &[u8]) -> (r: Result<Firmware, FirmwareError>)
    requires
        !parse_ihex_overflows(contents@),
    ensures
        r matches Ok(f) ==> f.filename@ == path@ && parse_result_matches(r, path@, f.name@, contents@),
        r matches Ok(_) ==> exists|i: int|
            0 <= i && i + 4 <= path@.len() && path@[i] == '.' && eq_ignore_ascii_case(
                #[trigger] path@.subrange(i + 1, i + 4),
                "hex"@,
            ),
        r matches Err(e) ==> e is UnsupportedExtension || e is NoExtension || parse_ihex_spec(
            contents@,
        ) == Err::<(Seq<(u32, Seq<u8>)>, int), FirmwareError>(e),
        !path@.contains('.') ==> (r matches Err(FirmwareError::NoExtension(x)) && x@ == path@),
        portable_extension(path@) matches Some(ext) ==> match ext {
            Some(e) => if eq_ignore_ascii_case(e, "hex"@) {
                match parse_ihex_spec(contents@) {
                    Ok(_) => r is Ok,
                    Err(x) => r == Err::<Firmware, FirmwareError>(x),
                }
            } else {
                r matches Err(FirmwareError::UnsupportedExtension(x)) && x@ == e
            },
            None => r matches Err(FirmwareError::NoExtension(x)) && x@ == path@,
        },
        r matches Ok(f) ==> (portable_file_name(path@) matches Some(n) ==> f.name@ == match n {
            Some(name) => name,
            None => path@,
        }),
        is_simple_path(path@) ==> match name_extension(final_component(path@)) {
            Some(e) => if eq_ignore_ascii_case(e, "hex"@) {
                parse_result_matches(r, path@, final_component(path@), contents@)
            } else {
                r matches Err(FirmwareError::UnsupportedExtension(x)) && x@ == e
            },
            None => r matches Err(FirmwareError::NoExtension(x)) && x@ == path@,
        },
{
    proof {
        if is_simple_path(path@) {
            lemma_simple_path_portable(path@);
        }
    }
    let format = match format_from_path(path) {
        Ok(f) => f,
        Err(e) => {
            return Err(e);
        },
    };
    let filename = path.to_string();
    let name = match path_file_name(path) {
        Some(n) => n,
        None => path.to_string(),
    };
    match format {
        FirmwareFormat::IntelHex => parse_ihex(filename, name, contents),
    }
}

/// The models a firmware file (path and contents) is built for.
pub fn identify_firmware_file(path: &str, contents: &[u8]) -> (r: Result<Vec<Model>, FirmwareError>)
    requires
        !parse_ihex_overflows(contents@),
        parse_ihex_spec(contents@) matches Ok((segs, _)) ==> !identify_overflows(segs),
    ensures
        r matches Ok(ms) ==> parse_ihex_spec(contents@) matches Ok((segs, _)) && ms@
            == identify_spec(segs, segs_max_end(segs)),
        r matches Err(e) ==> e is UnsupportedExtension || e is NoExtension || parse_ihex_spec(
            contents@,
        ) == Err::<(Seq<(u32, Seq<u8>)>, int), FirmwareError>(e),
        !path@.contains('.') ==> (r matches Err(FirmwareError::NoExtension(x)) && x@ == path@),
        portable_extension(path@) matches Some(ext) ==> match ext {
            Some(e) => if eq_ignore_ascii_case(e, "hex"@) {
                match parse_ihex_spec(contents@) {
                    Ok((segs, _)) => r matches Ok(ms) && ms@ == identify_spec(segs, segs_max_end(segs)),
                    Err(x) => r == Err::<Vec<Model>, FirmwareError>(x),
                }
            } else {
                r matches Err(FirmwareError::UnsupportedExtension(x)) && x@ == e
            },
            None => r matches Err(FirmwareError::NoExtension(x)) && x@ == path@,
        },
        is_simple_path(path@) ==> match name_extension(final_component(path@)) {
            Some(e) => if eq_ignore_ascii_case(e, "hex"@) {
                match parse_ihex_spec(contents@) {
                    Ok((segs, _)) => r matches Ok(ms) && ms@ == identify_spec(segs, segs_max_end(segs)),
                    Err(x) => r == Err::<Vec<Model>, FirmwareError>(x),
                }
            } else {
                r matches Err(FirmwareError::UnsupportedExtension(x)) && x@ == e
            },
            None => r matches Err(FirmwareError::NoExtension(x)) && x@ == path@,
        },
{
    proof {
        if is_simple_path(path@) {
            lemma_simple_path_portable(path@);
        }
    }
    let firmware = match load_firmware_file(path, contents) {
        Ok(f) => f,
        Err(e) => {
            return Err(e);
        },
    };
    Ok(firmware.identify_models())
}

/// No segment is empty.
pub open spec fn segments_nonempty(segs: Seq<(u32, Seq<u8>)>) -> bool {
    forall|i: int| 0 <= i < segs.len() ==> #[trigger] segs[i].1.len() > 0
}

/// The segments of a program as loading keeps them: at most `MAX_SEGMENTS`, none empty,
/// their lengths summing to `total`, which stays within `MAX_SIZE`.
pub open spec fn well_formed_segments(segs: Seq<(u32, Seq<u8>)>, total: int) -> bool {
    &&& segs.len() <= MAX_SEGMENTS
    &&& segments_nonempty(segs)
    &&& total == segs_total(segs)
    &&& total <= MAX_SIZE
}

/// Adding the bytes of a record to a program whose total size is the sum of its segment
/// lengths, within `MAX_SIZE`, and which has at most `MAX_SEGMENTS` segments keeps all of
/// that: at most one segment more, all but the last one unchanged, nothing changed for
/// empty data, and every byte of the record found again, in the last segment, at its
/// address. Where no segment was empty, none is after.
pub proof fn law_add_data_keeps_program_well_formed(
    segs: Seq<(u32, Seq<u8>)>,
    total: int,
    address: int,
    data: Seq<u8>,
)
    requires
        segs.len() <= MAX_SEGMENTS,
        total == segs_total(segs),
        total <= MAX_SIZE,
        0 <= address <= u32::MAX,
    ensures
        add_data_spec(segs, total, address, data) matches Ok((s2, t2)) ==> {
            &&& s2.len() <= MAX_SEGMENTS
            &&& t2 == segs_total(s2)
            &&& t2 <= MAX_SIZE
            &&& segments_nonempty(segs) ==> segments_nonempty(s2)
            &&& s2.len() <= segs.len() + 1
            &&& forall|i: int| 0 <= i < segs.len() - 1 ==> #[trigger] s2[i] == segs[i]
            &&& data.len() == 0 ==> s2 == segs && t2 == total
            &&& forall|k: int|
                0 <= k < data.len() ==> last_containing(s2, address + k) == Some(s2.len() - 1)
                    && #[trigger] s2.last().1[address + k - s2.last().0] == data[k]
        },
{
    if data.len() > 0 {
        if segs.len() > 0 && address + data.len() <= segs.last().0 + SEGMENT_REACH {
            let start = segs.last().0;
            let bytes = segs.last().1;
            if address >= start {
                let nb = write_at(bytes, address - start, data);
                lemma_segs_total_update_last(segs, (start, nb));
                lemma_segs_total_last(segs);
                if let Ok((s2, t2)) = add_data_spec(segs, total, address, data) {
                    assert(s2 == segs.update(segs.len() - 1, (start, nb)));
                    assert(s2.last() == (start, nb));
                    lemma_segs_total_last(s2);
                    assert(nb.len() <= MAX_SIZE);
                    assert(len32(nb.len() as int) == nb.len());
                    if segments_nonempty(segs) {
                        assert forall|i: int| 0 <= i < s2.len() implies #[trigger] s2[i].1.len()
                            > 0 by {
                            if i < segs.len() - 1 {
                                assert(s2[i] == segs[i]);
                            } else {
                                assert(nb.len() >= bytes.len());
                                assert(segs[segs.len() - 1].1.len() > 0);
                            }
                        }
                    }
                    assert forall|k: int| 0 <= k < data.len() implies last_containing(
                        s2,
                        address + k,
                    ) == Some(s2.len() - 1) && #[trigger] s2.last().1[address + k
                        - s2.last().0] == data[k] by {
                        assert(seg_contains(s2.last(), address + k));
                    }
                }
            }
        } else {
            lemma_segs_total_push(segs, (address as u32, data));
            lemma_segs_total_nonneg(segs);
            if let Ok((s2, t2)) = add_data_spec(segs, total, address, data) {
                assert(s2 == segs.push((address as u32, data)));
                assert(data.len() <= MAX_SIZE);
                assert(s2.last() == (address as u32, data));
                assert(len32(data.len() as int) == data.len());
                if segments_nonempty(segs) {
                    assert forall|i: int| 0 <= i < s2.len() implies #[trigger] s2[i].1.len()
                        > 0 by {
                        if i < segs.len() {
                            assert(s2[i] == segs[i]);
                        }
                    }
                }
                assert forall|k: int| 0 <= k < data.len() implies last_containing(
                    s2,
                    address + k,
                ) == Some(s2.len() - 1) && #[trigger] s2.last().1[address + k - s2.last().0]
                    == data[k] by {
                    assert(seg_contains(s2.last(), address + k));
                }
            }
        }
    }
}

/// One record line keeps the loader's segments well formed, and a line that ends the
/// loading hands over well-formed segments.
proof fn lemma_line_step_well_formed(line: Seq<u8>, number: int, st: LoadState)
    requires
        well_formed_segments(st.segs, st.total),
        st.offset1 >= 0,
        st.offset2 >= 0,
    ensures
        match line_step(line, number, st) {
            LineStep::Continue(next) => well_formed_segments(next.segs, next.total),
            LineStep::Stop(IhexOutcome::Loaded(segs, total)) => well_formed_segments(segs, total),
            LineStep::Stop(_) => true,
        },
{
    if line.len() > 0 {
        if let Ok(rec) = parse_record_spec(line) {
            if rec.kind == 0 {
                let address = rec.address + st.offset1 + st.offset2;
                if address <= u32::MAX {
                    law_add_data_keeps_program_well_formed(st.segs, st.total, address, rec.data);
                }
            }
        }
    }
}

/// Reading lines from well-formed segments, a file that loads gives well-formed segments.
proof fn lemma_run_lines_well_formed(bytes: Seq<u8>, pos: int, index: int, st: LoadState)
    requires
        well_formed_segments(st.segs, st.total),
        st.offset1 >= 0,
        st.offset2 >= 0,
    ensures
        run_lines(bytes, pos, index, st) matches IhexOutcome::Loaded(segs, total)
            ==> well_formed_segments(segs, total),
    decreases bytes.len() + 1 - pos,
{
    if 0 <= pos <= bytes.len() {
        let nl = next_newline(bytes, pos);
        lemma_next_newline_bounds(bytes, pos);
        let line = trim_cr(bytes.subrange(pos, nl));
        lemma_line_step_well_formed(line, index + 1, st);
        lemma_line_step_offsets(line, index + 1, st);
        if let LineStep::Continue(next) = line_step(line, index + 1, st) {
            lemma_run_lines_well_formed(bytes, nl + 1, index + 1, next);
        }
    }
}

/// The address offsets a record line sets are never negative.
proof fn lemma_line_step_offsets(line: Seq<u8>, number: int, st: LoadState)
    requires
        st.offset1 >= 0,
        st.offset2 >= 0,
    ensures
        line_step(line, number, st) matches LineStep::Continue(next) ==> next.offset1 >= 0
            && next.offset2 >= 0,
{
}

/// Every program read from an Intel HEX file has at most `MAX_SEGMENTS` segments, none of
/// them empty, whose lengths sum to the program's total size, which is at most `MAX_SIZE`.
pub proof fn law_loaded_program_well_formed(bytes: Seq<u8>)
    ensures
        parse_ihex_spec(bytes) matches Ok((segs, total)) ==> well_formed_segments(segs, total),
{
    let st = LoadState { segs: Seq::empty(), total: 0, offset1: 0, offset2: 0 };
    lemma_run_lines_well_formed(bytes, 0, 0, st);
}

/// A firmware read from an Intel HEX file (by `parse_ihex`, or by `try_parse_ihex` where it
/// gives a result) carries the given name and file name, is in the Intel HEX format, and
/// holds one program: at most `MAX_SEGMENTS` segments, none empty, whose lengths sum to its
/// total size, at most `MAX_SIZE`; its address range runs from the least segment start to
/// the greatest segment end.
pub proof fn law_parsed_firmware_well_formed(
    r: Result<Firmware, FirmwareError>,
    filename: Seq<char>,
    name: Seq<char>,
    bytes: Seq<u8>,
)
    requires
        parse_result_matches(r, filename, name, bytes),
    ensures
        r matches Ok(f) ==> {
            &&& f.name@ == name
            &&& f.filename@ == filename
            &&& f.format == FirmwareFormat::IntelHex
            &&& f.programs@.len() == 1
            &&& well_formed_segments(f.programs@[0].segments_view(), f.programs@[0].total_size as int)
            &&& f.programs@[0].min_address == segs_min_address(f.programs@[0].segments_view())
            &&& f.programs@[0].max_address == segs_max_end(f.programs@[0].segments_view())
        },
{
    law_loaded_program_well_formed(bytes);
}

/// Given the same extension, the HEX check (`is_hex_extension`) accepts exactly what the
/// format choice (`format_from_extension`) reads as Intel HEX: "hex" in any ASCII case.
pub proof fn law_hex_check_agrees_with_format(ext: Option<Seq<char>>)
    ensures
        is_hex_extension_spec(ext) <==> (ext matches Some(e) && eq_ignore_ascii_case(e, "hex"@)),
{
}

/// A Teensy 3 image (a segment at address 0 of at least `TEENSY3_STARTUP_SIZE` bytes, below
/// the Teensy 4 flash) is identified by its initial stack pointer (first word) and the end
/// of its vector table (second word, thumb bit cleared): each board's layout gives that
/// board, whatever the program's extent.
pub proof fn law_teensy3_by_stack_and_vectors(data: Seq<u8>, max_address: int)
    requires
        TEENSY3_STARTUP_SIZE <= data.len() <= 0x6000_0000,
    ensures
        ({
            let segs = seq![(0u32, data)];
            let stack = le32(data, 0);
            let end = le32(data, 4) - le32(data, 4) % 2;
            &&& stack == 0x2000_2000 && end == 0xF8 ==> identify_spec(segs, max_address) == seq![
                Model::Teensy30,
            ]
            &&& stack == 0x2000_8000 && end == 0x1BC ==> identify_spec(segs, max_address) == seq![
                Model::Teensy31,
                Model::Teensy32,
            ]
            &&& stack == 0x2000_1800 && end == 0xC0 ==> identify_spec(segs, max_address) == seq![
                Model::TeensyLc,
            ]
            &&& (stack == 0x2002_0000 || stack == 0x2002_FFFC || stack == 0x2002_FFF8) && end == 0x198
                ==> identify_spec(segs, max_address) == seq![Model::Teensy35]
            &&& stack == 0x2003_0000 && end == 0x1D0 ==> identify_spec(segs, max_address) == seq![
                Model::Teensy36,
            ]
        }),
{
    let segs = seq![(0u32, data)];
    assert(len32(data.len() as int) == data.len());
    assert(!seg_contains(segs.last(), 0x6000_0000));
    assert(segs.drop_last() =~= Seq::<(u32, Seq<u8>)>::empty());
    assert(last_containing(segs.drop_last(), 0x6000_0000) is None);
    assert(last_containing(segs, 0x6000_0000) is None);
    assert(seg_contains(segs.last(), 0));
    assert(last_containing(segs, 0) == Some(0int));
    assert(teensy3_image_models(segs) == identify_teensy3(data));
}

/// A small AVR image (one segment at address 0, shorter than a Teensy 3 startup block,
/// within the AVR flash) that starts with a bootloader jump sequence is identified by it:
/// each board's jump gives that board.
pub proof fn law_avr_by_bootloader_jump(data: Seq<u8>, max_address: int)
    requires
        8 <= data.len() < TEENSY3_STARTUP_SIZE,
        max_address <= 130_048,
    ensures
        le64(data, 0) == 0x94F8_CFFF_7E00_940C ==> identify_spec(seq![(0u32, data)], max_address)
            == seq![Model::TeensyPp10],
        le64(data, 0) == 0x94F8_CFFF_3F00_940C ==> identify_spec(seq![(0u32, data)], max_address)
            == seq![Model::Teensy20],
        le64(data, 0) == 0x94F8_CFFF_FE00_940C ==> identify_spec(seq![(0u32, data)], max_address)
            == seq![Model::TeensyPp20],
{
    let segs = seq![(0u32, data)];
    assert(len32(data.len() as int) == data.len());
    assert(segs.drop_last() =~= Seq::<(u32, Seq<u8>)>::empty());
    assert(last_containing(segs.drop_last(), 0x6000_0000) is None);
    assert(!seg_contains(segs.last(), 0x6000_0000));
    assert(last_containing(segs, 0x6000_0000) is None);
    assert(last_containing(segs, 0) == Some(0int));
    assert(teensy3_image_models(segs) is None);
    assert(segs[0].1 == data);
}

/// Extracting from the start of a segment reads back the segment's bytes.
pub proof fn law_extract_reads_back(start: u32, data: Seq<u8>, buf: Seq<u8>)
    requires
        start + data.len() <= u32::MAX,
        buf.len() <= data.len(),
    ensures
        extract_total(seq![(start, data)], start as int, buf.len() as int) == buf.len(),
        forall|k: int|
            0 <= k < buf.len() ==> #[trigger] extracted_byte(
                seq![(start, data)],
                start as int,
                buf,
                k,
            ) == data[k],
{
    let segs = seq![(start, data)];
    assert(segs.drop_last() =~= Seq::<(u32, Seq<u8>)>::empty());
    assert(len32(data.len() as int) == data.len());
    assert(segs.last() == (start, data));
    assert(extract_total(segs.drop_last(), start as int, buf.len() as int) == 0);
    if data.len() > 0 {
        assert(extract_window(segs.last(), start as int, buf.len() as int).1 == buf.len());
    } else {
        assert(extract_window(segs.last(), start as int, buf.len() as int).1 == 0);
    }
    assert forall|k: int| 0 <= k < buf.len() implies #[trigger] extracted_byte(
        segs,
        start as int,
        buf,
        k,
    ) == data[k] by {
        assert(window_covers(extract_window(segs.last(), start as int, buf.len() as int), k));
        assert(last_writer(segs, start as int, buf.len() as int, k) == Some(0int));
    }
}

/// An image whose segment at 0x6000_0000 starts with the Teensy 4 flash configuration is
/// identified by the flash size it declares: 8 MiB a Teensy 4.1, 16 MiB a MicroMod, anything
/// else a Teensy 4.0.
pub proof fn law_teensy4_by_flash_size(data: Seq<u8>, max_address: int)
    requires
        8 <= data.len() <= 0x1000_0000,
        le64(data, 0) == TEENSY4_FLASH_CONFIG,
    ensures
        identify_spec(seq![(0x6000_0000u32, data)], max_address) == identify_teensy4(data),
        data.len() > 84 && le32(data, 80) == 0x0080_0000 ==> identify_spec(
            seq![(0x6000_0000u32, data)],
            max_address,
        ) == seq![Model::Teensy41],
        data.len() > 84 && le32(data, 80) == 0x0100_0000 ==> identify_spec(
            seq![(0x6000_0000u32, data)],
            max_address,
        ) == seq![Model::TeensyMicroMod],
{
    let segs = seq![(0x6000_0000u32, data)];
    assert(len32(data.len() as int) == data.len());
    assert(seg_contains(segs.last(), 0x6000_0000));
    assert(last_containing(segs, 0x6000_0000) == Some(0int));
    assert(teensy4_image(segs) == Some(data));
}

/// The Intel HEX text of one data record followed by the end-of-file record.
pub open spec fn single_record_file(address: u16, data: Seq<u8>) -> Seq<u8> {
    encode_record(address, 0, data) + seq![10u8] + encode_record(0, 1, Seq::empty()) + seq![10u8]
}

/// The newline search from the start of a line that has none stops at the byte after it.
proof fn lemma_next_newline_after(bytes: Seq<u8>, pos: int, end: int)
    requires
        0 <= pos <= end < bytes.len(),
        bytes[end] == 10,
        forall|i: int| pos <= i < end ==> bytes[i] != 10,
    ensures
        next_newline(bytes, pos) == end,
    decreases end - pos,
{
    if pos < end {
        lemma_next_newline_after(bytes, pos + 1, end);
    }
}

/// A file of one data record and the end record loads as one segment holding that data at
/// that address.
#[verifier::rlimit(40)]
#[verifier::spinoff_prover]
pub proof fn law_single_record_file_loads(address: u16, data: Seq<u8>)
    requires
        0 < data.len() <= 255,
    ensures
        parse_ihex_spec(single_record_file(address, data)) == Ok::<
            (Seq<(u32, Seq<u8>)>, int),
            FirmwareError,
        >((seq![(address as u32, data)], data.len() as int)),
{
    let r1 = encode_record(address, 0, data);
    let r2 = encode_record(0, 1, Seq::empty());
    let bytes = single_record_file(address, data);
    lemma_encoded_record_text(address, 0, data);
    lemma_encoded_record_text(0, 1, Seq::empty());
    law_record_round_trip(address, 0, data);
    law_record_round_trip(0, 1, Seq::empty());
    let n1 = r1.len() as int;
    let n2 = r2.len() as int;
    assert(bytes.len() == n1 + 1 + n2 + 1);
    assert forall|i: int| 0 <= i < bytes.len() implies #[trigger] bytes[i] <= 0x7f by {
        if i < n1 {
            assert(bytes[i] == r1[i]);
        } else if n1 < i < n1 + 1 + n2 {
            assert(bytes[i] == r2[i - n1 - 1]);
        }
    }
    assert(partial_valid_utf8(bytes, 0)) by {
        assert(bytes.subrange(0, 0) =~= Seq::<u8>::empty());
    }
    vstd::utf8::partial_valid_utf8_extend_ascii_block(bytes, 0, bytes.len() as int);
    assert(bytes.subrange(0, bytes.len() as int) =~= bytes);
    assert(vstd::utf8::valid_utf8(bytes));
    // The first line.
    assert forall|i: int| 0 <= i < n1 implies bytes[i] != 10 by {
        assert(bytes[i] == r1[i]);
    }
    lemma_next_newline_after(bytes, 0, n1);
    assert(bytes.subrange(0, n1) =~= r1);
    assert(r1[n1 - 1] != 13);
    assert(trim_cr(r1) == r1);
    let st0 = LoadState { segs: Seq::empty(), total: 0, offset1: 0, offset2: 0 };
    let st1 = LoadState {
        segs: seq![(address as u32, data)],
        total: data.len() as int,
        offset1: 0,
        offset2: 0,
    };
    assert(add_data_spec(Seq::empty(), 0, address as int, data) == Ok::<
        (Seq<(u32, Seq<u8>)>, int),
        FirmwareError,
    >((seq![(address as u32, data)], data.len() as int)));
    assert(line_step(r1, 1, st0) == LineStep::Continue(st1));
    // The second line.
    assert forall|i: int| n1 + 1 <= i < n1 + 1 + n2 implies bytes[i] != 10 by {
        assert(bytes[i] == r2[i - n1 - 1]);
    }
    lemma_next_newline_after(bytes, n1 + 1, n1 + 1 + n2);
    assert(bytes.subrange(n1 + 1, n1 + 1 + n2) =~= r2);
    assert(r2[n2 - 1] != 13);
    assert(trim_cr(r2) == r2);
    assert(line_step(r2, 2, st1) == LineStep::Stop(IhexOutcome::Loaded(st1.segs, st1.total)));
    assert(run_lines(bytes, n1 + 1, 1, st1) == IhexOutcome::Loaded(st1.segs, st1.total));
    assert(ihex_outcome(bytes) == IhexOutcome::Loaded(st1.segs, st1.total));
}

/// A start-address record (type 3 or 5, with its four data bytes, as linkers write them
/// for every ARM build) leaves the loader where it was, whatever it has read so far.
pub proof fn law_start_address_record_changes_nothing(
    address: u16,
    kind: u8,
    data: Seq<u8>,
    number: int,
    st: LoadState,
)
    requires
        kind == 3 || kind == 5,
        data.len() == 4,
    ensures
        line_step(encode_record(address, kind, data), number, st) == LineStep::Continue(st),
{
    law_record_round_trip(address, kind, data);
    assert(encode_record(address, kind, data)[0] == 58u8);
}

/// The Intel HEX text of one data record, a start-address record of type `kind` and the
/// end-of-file record.
pub open spec fn file_with_start_record(
    address: u16,
    data: Seq<u8>,
    start: u16,
    kind: u8,
    start_data: Seq<u8>,
) -> Seq<u8> {
    encode_record(address, 0, data) + seq![10u8] + encode_record(start, kind, start_data) + seq![
        10u8,
    ] + encode_record(0, 1, Seq::empty()) + seq![10u8]
}

/// A file with a start-address record (type 3 or 5, four bytes) between its data and its end
/// record loads as the same file without it: one segment holding the data at its address.
#[verifier::rlimit(60)]
#[verifier::spinoff_prover]
pub proof fn law_start_address_record_is_ignored(
    address: u16,
    data: Seq<u8>,
    start: u16,
    kind: u8,
    start_data: Seq<u8>,
)
    requires
        0 < data.len() <= 255,
        kind == 3 || kind == 5,
        start_data.len() == 4,
    ensures
        parse_ihex_spec(file_with_start_record(address, data, start, kind, start_data)) == Ok::<
            (Seq<(u32, Seq<u8>)>, int),
            FirmwareError,
        >((seq![(address as u32, data)], data.len() as int)),
        parse_ihex_spec(file_with_start_record(address, data, start, kind, start_data))
            == parse_ihex_spec(single_record_file(address, data)),
{
    law_single_record_file_loads(address, data);
    let r1 = encode_record(address, 0, data);
    let r2 = encode_record(start, kind, start_data);
    let r3 = encode_record(0, 1, Seq::empty());
    let bytes = file_with_start_record(address, data, start, kind, start_data);
    lemma_encoded_record_text(address, 0, data);
    lemma_encoded_record_text(start, kind, start_data);
    lemma_encoded_record_text(0, 1, Seq::empty());
    law_record_round_trip(address, 0, data);
    law_record_round_trip(0, 1, Seq::empty());
    let n1 = r1.len() as int;
    let n2 = r2.len() as int;
    let n3 = r3.len() as int;
    let p2 = n1 + 1;
    let p3 = n1 + 1 + n2 + 1;
    assert(bytes.len() == p3 + n3 + 1);
    assert forall|i: int| 0 <= i < bytes.len() implies #[trigger] bytes[i] <= 0x7f by {
        if i < n1 {
            assert(bytes[i] == r1[i]);
        } else if p2 <= i < p2 + n2 {
            assert(bytes[i] == r2[i - p2]);
        } else if p3 <= i < p3 + n3 {
            assert(bytes[i] == r3[i - p3]);
        }
    }
    assert(partial_valid_utf8(bytes, 0)) by {
        assert(bytes.subrange(0, 0) =~= Seq::<u8>::empty());
    }
    vstd::utf8::partial_valid_utf8_extend_ascii_block(bytes, 0, bytes.len() as int);
    assert(bytes.subrange(0, bytes.len() as int) =~= bytes);
    assert(vstd::utf8::valid_utf8(bytes));
    // The data record.
    assert forall|i: int| 0 <= i < n1 implies bytes[i] != 10 by {
        assert(bytes[i] == r1[i]);
    }
    lemma_next_newline_after(bytes, 0, n1);
    assert(bytes.subrange(0, n1) =~= r1);
    assert(r1[n1 - 1] != 13);
    assert(trim_cr(r1) == r1);
    let st0 = LoadState { segs: Seq::empty(), total: 0, offset1: 0, offset2: 0 };
    let st1 = LoadState {
        segs: seq![(address as u32, data)],
        total: data.len() as int,
        offset1: 0,
        offset2: 0,
    };
    assert(add_data_spec(Seq::empty(), 0, address as int, data) == Ok::<
        (Seq<(u32, Seq<u8>)>, int),
        FirmwareError,
    >((seq![(address as u32, data)], data.len() as int)));
    assert(line_step(r1, 1, st0) == LineStep::Continue(st1));
    // The start-address record.
    assert forall|i: int| p2 <= i < p2 + n2 implies bytes[i] != 10 by {
        assert(bytes[i] == r2[i - p2]);
    }
    lemma_next_newline_after(bytes, p2, p2 + n2);
    assert(bytes.subrange(p2, p2 + n2) =~= r2);
    assert(r2[n2 - 1] != 13);
    assert(trim_cr(r2) == r2);
    law_start_address_record_changes_nothing(start, kind, start_data, 2, st1);
    // The end record.
    assert forall|i: int| p3 <= i < p3 + n3 implies bytes[i] != 10 by {
        assert(bytes[i] == r3[i - p3]);
    }
    lemma_next_newline_after(bytes, p3, p3 + n3);
    assert(bytes.subrange(p3, p3 + n3) =~= r3);
    assert(r3[n3 - 1] != 13);
    assert(trim_cr(r3) == r3);
    assert(line_step(r3, 3, st1) == LineStep::Stop(IhexOutcome::Loaded(st1.segs, st1.total)));
    assert(run_lines(bytes, p3, 2, st1) == IhexOutcome::Loaded(st1.segs, st1.total));
    assert(run_lines(bytes, p2, 1, st1) == IhexOutcome::Loaded(st1.segs, st1.total));
    assert(ihex_outcome(bytes) == IhexOutcome::Loaded(st1.segs, st1.total));
}

} // verus!
