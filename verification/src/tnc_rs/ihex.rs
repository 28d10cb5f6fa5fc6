use vstd::prelude::*;
use vstd::string::StringSliceAdditionalSpecFns;
use vstd::string::StringExecFns;

verus! {

/// Why a single Intel HEX record was rejected.
#[derive(Clone, Copy, Debug, PartialEq, Eq, Structural)]
pub enum RecordError {
    MissingRecordMarker,
    InvalidHexDigit,
    InvalidRecordLength,
    InvalidChecksum,
}

/// The message of a record error.
pub open spec fn record_error_text(e: RecordError) -> Seq<char> {
    match e {
        RecordError::MissingRecordMarker => "missing record marker"@,
        RecordError::InvalidHexDigit => "invalid hex digit"@,
        RecordError::InvalidRecordLength => "invalid record length"@,
        RecordError::InvalidChecksum => "invalid record checksum"@,
    }
}

impl RecordError {
    /// The message that reports the error.
    pub fn message(&self) -> (r: String)
        ensures
            r@ == record_error_text(*self),
    {
        match self {
            RecordError::MissingRecordMarker => String::from_str("missing record marker"),
            RecordError::InvalidHexDigit => String::from_str("invalid hex digit"),
            RecordError::InvalidRecordLength => String::from_str("invalid record length"),
            RecordError::InvalidChecksum => String::from_str("invalid record checksum"),
        }
    }
}

/// One decoded Intel HEX record.
#[derive(Debug, PartialEq, Eq)]
pub struct IhexRecord {
    pub address: u16,
    pub kind: u8,
    pub data: Vec<u8>,
}

/// The mathematical content of a record.
pub struct RecordView {
    pub address: u16,
    pub kind: u8,
    pub data: Seq<u8>,
}

impl View for IhexRecord {
    type V = RecordView;

    open spec fn view(&self) -> RecordView {
        RecordView { address: self.address, kind: self.kind, data: self.data@ }
    }
}

/// The value of an ASCII hexadecimal digit (either case).
pub open spec fn hex_digit_value(b: u8) -> Option<u8> {
    if 48 <= b <= 57 {
        Some((b - 48) as u8)
    } else if 97 <= b <= 102 {
        Some((b - 87) as u8)
    } else if 65 <= b <= 70 {
        Some((b - 55) as u8)
    } else {
        None
    }
}

/// The byte spelled by the two hexadecimal digits at `i` and `i + 1`, if both exist and are digits.
pub open spec fn hex_byte_at(line: Seq<u8>, i: int) -> Option<u8> {
    if 0 <= i && i + 1 < line.len() && hex_digit_value(line[i]) is Some && hex_digit_value(
        line[i + 1],
    ) is Some {
        Some((hex_digit_value(line[i])->0 * 16 + hex_digit_value(line[i + 1])->0) as u8)
    } else {
        None
    }
}

/// Number of byte fields that follow the ':' marker of a record line.
pub open spec fn field_count(line: Seq<u8>) -> int {
    (line.len() - 1) / 2
}

/// Every field of the line is spelled with two hexadecimal digits.
pub open spec fn fields_are_hex(line: Seq<u8>) -> bool {
    forall|k: int| 0 <= k < field_count(line) ==> #[trigger] hex_byte_at(line, 1 + 2 * k) is Some
}

/// The byte fields of a record line: byte count, address (two), type, data, checksum.
pub open spec fn record_fields(line: Seq<u8>) -> Seq<u8> {
    Seq::new(field_count(line) as nat, |k: int| hex_byte_at(line, 1 + 2 * k)->0)
}

/// Sum of a byte sequence, as an integer.
pub open spec fn byte_sum(s: Seq<u8>) -> int
    decreases s.len(),
{
    if s.len() == 0 {
        0
    } else {
        byte_sum(s.drop_last()) + s.last()
    }
}

/// The outcome of decoding one record line.
pub open spec fn parse_record_spec(line: Seq<u8>) -> Result<RecordView, RecordError> {
    if line.len() == 0 || line[0] != 58 {
        Err(RecordError::MissingRecordMarker)
    } else if hex_byte_at(line, 1) is None {
        Err(RecordError::InvalidHexDigit)
    } else if line.len() != 11 + 2 * hex_byte_at(line, 1)->0 {
        Err(RecordError::InvalidRecordLength)
    } else if !fields_are_hex(line) {
        Err(RecordError::InvalidHexDigit)
    } else if byte_sum(record_fields(line)) % 256 != 0 {
        Err(RecordError::InvalidChecksum)
    } else {
        let f = record_fields(line);
        Ok(
            RecordView {
                address: (f[1] * 256 + f[2]) as u16,
                kind: f[3],
                data: f.subrange(4, 4 + f[0]),
            },
        )
    }
}

proof fn lemma_byte_sum_nonneg(s: Seq<u8>)
    ensures
        byte_sum(s) >= 0,
    decreases s.len(),
{
    if s.len() > 0 {
        lemma_byte_sum_nonneg(s.drop_last());
    }
}

proof fn lemma_mod_add_byte(a: int, v: int)
    requires
        0 <= a,
        0 <= v < 256,
    ensures
        ((a % 256) + v) % 256 == (a + v) % 256,
{
    assert(((a % 256) + v) % 256 == (a + v) % 256) by (nonlinear_arith)
        requires 0 <= a, 0 <= v;
}

/// The view of a decoding result.
pub open spec fn record_result_view(r: Result<IhexRecord, RecordError>) -> Result<
    RecordView,
    RecordError,
> {
    match r {
        Ok(rec) => Ok(rec@),
        Err(e) => Err(e),
    }
}

/// The value of one hexadecimal digit; `None` when the byte is absent or not a digit.
pub fn parse_hex_nibble(byte: Option<u8>) -> (r: Option<u8>)
    ensures
        r == match byte {
            Some(b) => hex_digit_value(b),
            None => None,
        },
{
    match byte {
        Some(b) => {
            if 48 <= b && b <= 57 {
                Some(b - 48)
            } else if 97 <= b && b <= 102 {
                Some(b - 87)
            } else if 65 <= b && b <= 70 {
                Some(b - 55)
            } else {
                None
            }
        },
        None => None,
    }
}

/// The byte spelled by the two hexadecimal digits starting at `offset`.
pub fn parse_hex_byte(bytes: &[u8], offset: usize) -> (r: Option<u8>)
    ensures
        r == hex_byte_at(bytes@, offset as int),
{
    let hi = if offset < bytes.len() {
        parse_hex_nibble(Some(bytes[offset]))
    } else {
        parse_hex_nibble(None)
    };
    let hi = match hi {
        Some(v) => v,
        None => return None,
    };
    let lo = if offset < bytes.len() - 1 {
        parse_hex_nibble(Some(bytes[offset + 1]))
    } else {
        parse_hex_nibble(None)
    };
    match lo {
        Some(v) => Some(hi * 16 + v),
        None => None,
    }
}

/// Decodes one record line given as bytes.
pub fn parse_record(bytes: &[u8]) -> (r: Result<IhexRecord, RecordError>)
    ensures
        record_result_view(r) == parse_record_spec(bytes@),
{
    if bytes.len() == 0 || bytes[0] != 58 {
        return Err(RecordError::MissingRecordMarker);
    }
    let byte_count = match parse_hex_byte(bytes, 1) {
        Some(v) => v as usize,
        None => return Err(RecordError::InvalidHexDigit),
    };
    let expected_len = 11 + 2 * byte_count;
    if bytes.len() != expected_len {
        return Err(RecordError::InvalidRecordLength);
    }
    let ghost line = bytes@;
    let mut sum: u8 = 0;
    let mut fields: Vec<u8> = Vec::with_capacity(5 + byte_count);
    let mut offset: usize = 1;
    while offset < bytes.len()
        invariant
            line == bytes@,
            line.len() > 0 && line[0] == 58,
            hex_byte_at(line, 1) == Some(byte_count as u8),
            bytes.len() == expected_len,
            expected_len == 11 + 2 * byte_count,
            byte_count < 256,
            offset == 1 + 2 * fields@.len(),
            offset <= bytes.len() + 1,
            forall|k: int| 0 <= k < fields@.len() ==> #[trigger] hex_byte_at(line, 1 + 2 * k) == Some(fields@[k]),
            sum == byte_sum(fields@) % 256,
        decreases bytes.len() - offset,
    {
        let value = match parse_hex_byte(bytes, offset) {
            Some(v) => v,
            None => {
                proof {
                    let k = fields@.len() as int;
                    assert(k < field_count(line));
                    assert(hex_byte_at(line, 1 + 2 * k) is None);
                    assert(!fields_are_hex(line));
                }
                return Err(RecordError::InvalidHexDigit);
            },
        };
        let ghost prev = fields@;
        let ghost old_sum = sum;
        sum = ((sum as u16 + value as u16) % 256) as u8;
        fields.push(value);
        proof {
            assert(fields@.drop_last() =~= prev);
            assert(byte_sum(fields@) == byte_sum(prev) + value);
            lemma_byte_sum_nonneg(prev);
            lemma_mod_add_byte(byte_sum(prev), value as int);
        }
        offset = offset + 2;
    }
    proof {
        assert(fields@.len() == field_count(line));
        assert(fields_are_hex(line));
        assert(fields@ =~= record_fields(line));
    }
    if sum != 0 {
        return Err(RecordError::InvalidChecksum);
    }
    let address = (fields[1] as u16) * 256 + fields[2] as u16;
    let kind = fields[3];
    let mut data: Vec<u8> = Vec::with_capacity(byte_count);
    let mut i: usize = 0;
    while i < byte_count
        invariant
            fields@.len() == 5 + byte_count,
            i <= byte_count,
            byte_count < 256,
            data@ == fields@.subrange(4, 4 + i as int),
        decreases byte_count - i,
    {
        data.push(fields[4 + i]);
        proof {
            assert(data@ =~= fields@.subrange(4, 4 + i + 1));
        }
        i = i + 1;
    }
    Ok(IhexRecord { address, kind, data })
}

/// Decodes one record line of an Intel HEX file.
pub fn parse_ihex_line(line: &str) -> (r: Result<IhexRecord, RecordError>)
    ensures
        record_result_view(r) == parse_record_spec(line.spec_bytes()),
{
    parse_record(line.as_bytes())
}

/// The upper-case hexadecimal digit of a value below 16, as an ASCII byte.
pub open spec fn hex_digit_byte(v: int) -> u8 {
    if v < 10 {
        (48 + v) as u8
    } else {
        (55 + v) as u8
    }
}

/// Bytes spelled with two hexadecimal digits each.
pub open spec fn hex_text(bytes: Seq<u8>) -> Seq<u8>
    decreases bytes.len(),
{
    if bytes.len() == 0 {
        Seq::empty()
    } else {
        hex_text(bytes.drop_last()) + seq![
            hex_digit_byte((bytes.last() / 16) as int),
            hex_digit_byte((bytes.last() % 16) as int),
        ]
    }
}

/// The checksum byte that makes the byte sum of a record a multiple of 256.
pub open spec fn checksum_byte(fields: Seq<u8>) -> u8 {
    ((256 - byte_sum(fields) % 256) % 256) as u8
}

/// The byte fields of a record before its checksum: count, address (high, low), type, data.
pub open spec fn record_body(address: u16, kind: u8, data: Seq<u8>) -> Seq<u8> {
    seq![data.len() as u8, (address / 256) as u8, (address % 256) as u8, kind] + data
}

/// The record line that writes `data` at `address` with record type `kind`.
pub open spec fn encode_record(address: u16, kind: u8, data: Seq<u8>) -> Seq<u8> {
    let body = record_body(address, kind, data);
    seq![58u8] + hex_text(body.push(checksum_byte(body)))
}

/// The hexadecimal text of some bytes has two digits per byte, which read back as the byte.
proof fn lemma_hex_text(bytes: Seq<u8>)
    ensures
        hex_text(bytes).len() == 2 * bytes.len(),
        forall|k: int|
            0 <= k < bytes.len() ==> hex_digit_value(#[trigger] hex_text(bytes)[2 * k]) == Some(
                (bytes[k] / 16) as u8,
            ) && hex_digit_value(hex_text(bytes)[2 * k + 1]) == Some((bytes[k] % 16) as u8),
    decreases bytes.len(),
{
    if bytes.len() > 0 {
        let init = bytes.drop_last();
        lemma_hex_text(init);
        let t = hex_text(bytes);
        assert forall|k: int| 0 <= k < bytes.len() implies hex_digit_value(#[trigger] t[2 * k])
            == Some((bytes[k] / 16) as u8) && hex_digit_value(t[2 * k + 1]) == Some(
            (bytes[k] % 16) as u8,
        ) by {
            if k < init.len() {
                assert(t[2 * k] == hex_text(init)[2 * k]);
                assert(t[2 * k + 1] == hex_text(init)[2 * k + 1]);
                assert(init[k] == bytes[k]);
            } else {
                let b = bytes.last();
                assert(k == bytes.len() - 1);
                assert(t[2 * k] == hex_digit_byte((b / 16) as int));
                assert(t[2 * k + 1] == hex_digit_byte((b % 16) as int));
            }
        }
    }
}

/// A record that the format can express reads back as written: its address, type and data.
pub proof fn law_record_round_trip(address: u16, kind: u8, data: Seq<u8>)
    requires
        data.len() <= 255,
    ensures
        parse_record_spec(encode_record(address, kind, data)) == Ok::<RecordView, RecordError>(
            RecordView { address, kind, data },
        ),
{
    let body = record_body(address, kind, data);
    let cs = checksum_byte(body);
    let fields = body.push(cs);
    let line = encode_record(address, kind, data);
    lemma_hex_text(fields);
    assert(line.len() == 1 + 2 * fields.len());
    assert forall|k: int| 0 <= k < fields.len() implies #[trigger] hex_byte_at(line, 1 + 2 * k)
        == Some(fields[k]) by {
        assert(line[1 + 2 * k] == hex_text(fields)[2 * k]);
        assert(line[2 + 2 * k] == hex_text(fields)[2 * k + 1]);
        assert(((fields[k] / 16) as u8) * 16 + ((fields[k] % 16) as u8) == fields[k]);
    }
    assert(hex_byte_at(line, 1 + 2 * 0int) == Some(fields[0]));
    assert(hex_byte_at(line, 1) == Some(fields[0]));
    assert(fields[0] == data.len());
    assert(field_count(line) == fields.len());
    assert(record_fields(line) =~= fields);
    lemma_byte_sum_nonneg(body);
    assert(fields.drop_last() =~= body);
    assert(byte_sum(fields) == byte_sum(body) + cs);
    assert((byte_sum(body) + cs) % 256 == 0) by (nonlinear_arith)
        requires
            cs == ((256 - byte_sum(body) % 256) % 256) as u8,
            byte_sum(body) >= 0,
    ;
    assert(fields.subrange(4, 4 + fields[0]) =~= data);
    assert((fields[1] * 256 + fields[2]) as u16 == address);
}

/// Every byte of an encoded record line is ':' or an upper-case hexadecimal digit.
pub proof fn lemma_encoded_record_text(address: u16, kind: u8, data: Seq<u8>)
    ensures
        forall|i: int|
            0 <= i < encode_record(address, kind, data).len() ==> 48 <= #[trigger] encode_record(
                address,
                kind,
                data,
            )[i] <= 70,
{
    let body = record_body(address, kind, data);
    let fields = body.push(checksum_byte(body));
    lemma_hex_text_digits(fields);
    let line = encode_record(address, kind, data);
    assert forall|i: int| 0 <= i < line.len() implies 48 <= #[trigger] line[i] <= 70 by {
        if i > 0 {
            assert(line[i] == hex_text(fields)[i - 1]);
        }
    }
}

/// The hexadecimal text of bytes consists of digits.
proof fn lemma_hex_text_digits(bytes: Seq<u8>)
    ensures
        forall|k: int| 0 <= k < hex_text(bytes).len() ==> 48 <= #[trigger] hex_text(bytes)[k] <= 70,
    decreases bytes.len(),
{
    if bytes.len() > 0 {
        lemma_hex_text_digits(bytes.drop_last());
        let t = hex_text(bytes);
        let init = hex_text(bytes.drop_last());
        assert forall|k: int| 0 <= k < t.len() implies 48 <= #[trigger] t[k] <= 70 by {
            if k < init.len() {
                assert(t[k] == init[k]);
            }
        }
    }
}

/// `line` spells the record line `encode_record(address, kind, data)`, each hexadecimal
/// digit in either case.
pub open spec fn spells_record(line: Seq<u8>, address: u16, kind: u8, data: Seq<u8>) -> bool {
    let enc = encode_record(address, kind, data);
    &&& data.len() <= 255
    &&& line.len() == enc.len()
    &&& line.len() > 0
    &&& line[0] == 58
    &&& forall|i: int|
        1 <= i < line.len() ==> #[trigger] hex_digit_value(line[i]) == hex_digit_value(enc[i])
}

/// Two lines of one length, with one first byte and the same digit values after it, decode
/// alike.
proof fn lemma_same_digits_same_record(l1: Seq<u8>, l2: Seq<u8>)
    requires
        l1.len() == l2.len(),
        l1.len() > 0 ==> l1[0] == l2[0],
        forall|i: int| 1 <= i < l1.len() ==> #[trigger] hex_digit_value(l1[i]) == hex_digit_value(l2[i]),
    ensures
        parse_record_spec(l1) == parse_record_spec(l2),
{
    assert forall|i: int| 1 <= i implies #[trigger] hex_byte_at(l1, i) == hex_byte_at(l2, i) by {
        if i + 1 < l1.len() {
            assert(hex_digit_value(l1[i]) == hex_digit_value(l2[i]));
            assert(hex_digit_value(l1[i + 1]) == hex_digit_value(l2[i + 1]));
        }
    }
    assert forall|k: int| 0 <= k < field_count(l1) implies #[trigger] hex_byte_at(l1, 1 + 2 * k)
        == hex_byte_at(l2, 1 + 2 * k) by {
        assert(hex_byte_at(l1, 1 + 2 * k) == hex_byte_at(l2, 1 + 2 * k));
    }
    if fields_are_hex(l1) {
        assert forall|k: int| 0 <= k < field_count(l2) implies #[trigger] hex_byte_at(l2, 1 + 2 * k)
            is Some by {
            assert(hex_byte_at(l1, 1 + 2 * k) is Some);
        }
    }
    if fields_are_hex(l2) {
        assert forall|k: int| 0 <= k < field_count(l1) implies #[trigger] hex_byte_at(l1, 1 + 2 * k)
            is Some by {
            assert(hex_byte_at(l2, 1 + 2 * k) is Some);
        }
    }
    assert(record_fields(l1) =~= record_fields(l2));
    assert(hex_byte_at(l1, 1) == hex_byte_at(l2, 1));
}

/// The byte fields of a line that decodes to a record are those of that record's encoding.
proof fn lemma_decoded_fields(line: Seq<u8>)
    requires
        parse_record_spec(line) is Ok,
    ensures
        parse_record_spec(line) matches Ok(rec) && record_fields(line) == record_body(
            rec.address,
            rec.kind,
            rec.data,
        ).push(checksum_byte(record_body(rec.address, rec.kind, rec.data))),
{
    let rec = parse_record_spec(line)->Ok_0;
    let f = record_fields(line);
    let c = hex_byte_at(line, 1)->0;
    assert(hex_byte_at(line, 1 + 2 * 0int) is Some);
    assert(f[0] == c);
    assert(f.len() == 5 + c);
    let body = record_body(rec.address, rec.kind, rec.data);
    let fe = body.push(checksum_byte(body));
    let f1 = f[1] as int;
    let f2 = f[2] as int;
    assert((f1 * 256 + f2) / 256 == f1 && (f1 * 256 + f2) % 256 == f2 && f1 * 256 + f2 < 65536)
        by (nonlinear_arith)
        requires
            0 <= f1 < 256,
            0 <= f2 < 256,
    ;
    assert(rec.address == f1 * 256 + f2);
    assert(f.drop_last() =~= body);
    lemma_byte_sum_nonneg(body);
    let x = f[4 + c] as int;
    let sb = byte_sum(body);
    assert(f.last() == f[4 + c]);
    assert(byte_sum(f) == sb + x);
    assert(x == (256 - sb % 256) % 256) by (nonlinear_arith)
        requires
            (sb + x) % 256 == 0,
            0 <= x < 256,
            sb >= 0,
    ;
    assert(f =~= fe);
}

/// The two digits of a field spell its high and low halves.
proof fn lemma_field_digits(line: Seq<u8>, k: int)
    requires
        fields_are_hex(line),
        0 <= k < field_count(line),
    ensures
        hex_digit_value(line[1 + 2 * k]) == Some((record_fields(line)[k] / 16) as u8),
        hex_digit_value(line[2 + 2 * k]) == Some((record_fields(line)[k] % 16) as u8),
{
    assert(hex_byte_at(line, 1 + 2 * k) is Some);
    let v = record_fields(line)[k] as int;
    let h = hex_digit_value(line[1 + 2 * k])->0 as int;
    let l = hex_digit_value(line[2 + 2 * k])->0 as int;
    assert(v == (h * 16 + l) as u8);
    assert(h == v / 16 && l == v % 16) by (nonlinear_arith)
        requires
            0 <= h < 16,
            0 <= l < 16,
            v == (h * 16 + l) as u8,
    ;
}

/// A line that decodes to a record spells that record's encoding.
proof fn lemma_decoded_line_spells(line: Seq<u8>)
    requires
        parse_record_spec(line) is Ok,
    ensures
        parse_record_spec(line) matches Ok(rec) && spells_record(line, rec.address, rec.kind, rec.data),
{
    let rec = parse_record_spec(line)->Ok_0;
    lemma_decoded_fields(line);
    let body = record_body(rec.address, rec.kind, rec.data);
    let fe = body.push(checksum_byte(body));
    let enc = encode_record(rec.address, rec.kind, rec.data);
    lemma_hex_text(fe);
    assert(enc.len() == line.len());
    assert forall|i: int| 1 <= i < line.len() implies #[trigger] hex_digit_value(line[i])
        == hex_digit_value(enc[i]) by {
        let k = (i - 1) / 2;
        lemma_field_digits(line, k);
        assert(enc[1 + 2 * k] == hex_text(fe)[2 * k]);
        assert(enc[2 + 2 * k] == hex_text(fe)[2 * k + 1]);
        if i != 1 + 2 * k {
            assert(i == 2 + 2 * k);
        }
    }
}

/// A record line decodes to a record exactly when it spells that record's encoding, with
/// hexadecimal digits in either case; a line that spells no record's encoding is rejected.
pub proof fn law_record_lines_are_encodings(line: Seq<u8>, address: u16, kind: u8, data: Seq<u8>)
    ensures
        parse_record_spec(line) == Ok::<RecordView, RecordError>(RecordView { address, kind, data })
            <==> spells_record(line, address, kind, data),
        parse_record_spec(line) is Ok <==> exists|a: u16, k: u8, d: Seq<u8>|
            #[trigger] spells_record(line, a, k, d),
{
    if spells_record(line, address, kind, data) {
        law_record_round_trip(address, kind, data);
        lemma_same_digits_same_record(line, encode_record(address, kind, data));
    }
    if parse_record_spec(line) is Ok {
        lemma_decoded_line_spells(line);
    }
    if exists|a: u16, k: u8, d: Seq<u8>| #[trigger] spells_record(line, a, k, d) {
        let (a, k, d) = choose|a: u16, k: u8, d: Seq<u8>| #[trigger] spells_record(line, a, k, d);
        law_record_round_trip(a, k, d);
        lemma_same_digits_same_record(line, encode_record(a, k, d));
    }
}

} // verus!
