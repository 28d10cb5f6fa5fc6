use beacon::tnc_rs::firmware::{
    identify_teensy_models, is_hex_extension, parse_ihex, read_u32_le, read_u64_le,
    try_parse_ihex, FirmwareError,
};
use beacon::tnc_rs::ihex::{parse_hex_byte, parse_hex_nibble, parse_ihex_line, RecordError};
use beacon::tnc_rs::{identify_firmware_file, load_firmware_file, FirmwareProgram, FirmwareSegment, Model};

#[test]
fn parses_ihex_record() {
    let record = parse_ihex_line(":10010000214601360121470136007EFE09D2190140").unwrap();

    assert_eq!(record.address, 0x0100);
    assert_eq!(record.kind, 0);
    assert_eq!(record.data.len(), 16);
}

#[test]
fn rejects_bad_checksum() {
    assert!(parse_ihex_line(":00000001FE").is_err());
}

#[test]
fn identifies_teensy_41_flash_config() {
    let mut data = vec![0; 88];
    data[0..8].copy_from_slice(&0x5601_0000_4246_4346u64.to_le_bytes());
    data[80..84].copy_from_slice(&0x0080_0000u32.to_le_bytes());
    let program = FirmwareProgram {
        segments: vec![FirmwareSegment {
            address: 0x6000_0000,
            data,
        }],
        min_address: 0x6000_0000,
        max_address: 0x6000_0000 + 88,
        total_size: 88,
    };

    assert_eq!(identify_teensy_models(&program), vec![Model::Teensy41]);
}

fn program(address: u32, data: Vec<u8>) -> FirmwareProgram {
    let n = data.len();
    FirmwareProgram {
        segments: vec![FirmwareSegment { address, data }],
        min_address: address as usize,
        max_address: address as usize + n,
        total_size: n,
    }
}

#[test]
fn extract_reads_back_segment_bytes() {
    let p = program(0x100, vec![1, 2, 3, 4, 5]);
    let mut buf = [0u8; 3];
    assert_eq!(p.extract(0x100, &mut buf), 3);
    assert_eq!(buf, [1, 2, 3]);
    let mut buf = [9u8; 4];
    assert_eq!(p.extract(0xFE, &mut buf), 2);
    assert_eq!(buf, [9, 9, 1, 2]);
    let mut buf = [7u8; 2];
    assert_eq!(p.extract(0x200, &mut buf), 0);
    assert_eq!(buf, [7, 7]);
}

#[test]
fn record_errors() {
    assert_eq!(parse_ihex_line("00000001FF"), Err(RecordError::MissingRecordMarker));
    assert_eq!(parse_ihex_line(":0000000"), Err(RecordError::InvalidRecordLength));
    assert_eq!(parse_ihex_line(":00000001FG"), Err(RecordError::InvalidHexDigit));
    assert_eq!(parse_ihex_line(":00000001FE"), Err(RecordError::InvalidChecksum));
    assert_eq!(parse_ihex_line(":0G000001FF"), Err(RecordError::InvalidHexDigit));
    let eof = parse_ihex_line(":00000001FF").unwrap();
    assert_eq!((eof.address, eof.kind, eof.data.len()), (0, 1, 0));
}

#[test]
fn hex_digits() {
    assert_eq!(parse_hex_nibble(Some(b'a')), Some(10));
    assert_eq!(parse_hex_nibble(Some(b'F')), Some(15));
    assert_eq!(parse_hex_nibble(Some(b'g')), None);
    assert_eq!(parse_hex_nibble(None), None);
    assert_eq!(parse_hex_byte(b":7f", 1), Some(0x7F));
    assert_eq!(parse_hex_byte(b":7", 1), None);
}

fn load(text: &str) -> Result<beacon::tnc_rs::Firmware, FirmwareError> {
    parse_ihex("dir/f.hex".to_string(), "f.hex".to_string(), text.as_bytes())
}

#[test]
fn ihex_file_with_offsets() {
    let fw = load(":020000021000EC\r\n\n:03001000010203E7\n:00000001FF\n:garbage after eof\n").unwrap();
    let p = &fw.programs[0];
    assert_eq!(p.segments.len(), 1);
    assert_eq!(p.segments[0].address, 0x10010);
    assert_eq!(p.segments[0].data, vec![1, 2, 3]);
    assert_eq!((p.min_address, p.max_address, p.total_size), (0x10010, 0x10013, 3));
    assert_eq!(fw.name, "f.hex");
    assert_eq!(fw.filename, "dir/f.hex");
}

#[test]
fn ihex_errors() {
    assert_eq!(load(""), Err(FirmwareError::MissingEof));
    assert_eq!(load(":01000001AA54\n"), Err(FirmwareError::EofRecordWithData));
    assert_eq!(load(":0100000200FD\n"), Err(FirmwareError::InvalidExtendedSegmentAddress));
    assert_eq!(load(":0100000300FC\n"), Err(FirmwareError::InvalidStartAddress));
    assert_eq!(load(":0100000400FB\n"), Err(FirmwareError::InvalidExtendedLinearAddress));
    assert_eq!(load(":00000006FA\n"), Err(FirmwareError::UnsupportedRecordType(6)));
    assert_eq!(
        load("\n:00000001FE\n"),
        Err(FirmwareError::Record { line: 2, error: RecordError::InvalidChecksum })
    );
    assert_eq!(
        load(":020010000102EB\n:0100000005FA\n:00000001FF\n"),
        Err(FirmwareError::AddressesMovedBackwards)
    );
    assert_eq!(
        parse_ihex("a.hex".to_string(), "a.hex".to_string(), &[0xFF, 0xFE]),
        Err(FirmwareError::NotUtf8)
    );
}

#[test]
fn ihex_overflow_check_is_none_for_plain_files() {
    assert!(try_parse_ihex("a".to_string(), "a".to_string(), b":00000001FF\n").is_some());
}

#[test]
fn file_extension_decides_format() {
    assert!(matches!(
        load_firmware_file("fw.bin", b":00000001FF\n"),
        Err(FirmwareError::UnsupportedExtension(e)) if e == "bin"
    ));
    assert!(matches!(
        load_firmware_file("firmware", b":00000001FF\n"),
        Err(FirmwareError::NoExtension(p)) if p == "firmware"
    ));
    let fw = load_firmware_file("/x/y/blink.HEX", b":00000001FF\n").unwrap();
    assert_eq!(fw.name, "blink.HEX");
    assert_eq!(fw.filename, "/x/y/blink.HEX");
    assert!(fw.programs[0].segments.is_empty());
    assert!(is_hex_extension(Some("HeX")));
    assert!(!is_hex_extension(None));
}

#[test]
fn empty_image_is_unknown() {
    assert_eq!(identify_firmware_file("a.hex", b":00000001FF\n"), Ok(vec![]));
}

#[test]
fn little_endian_reads() {
    assert_eq!(read_u32_le(&[1, 2, 3, 4]), 0x0403_0201);
    assert_eq!(read_u64_le(&[1, 0, 0, 0, 0, 0, 0, 0x80]), 0x8000_0000_0000_0001);
}

#[test]
fn teensy4_without_size_word_is_teensy40() {
    let mut data = vec![0; 88];
    data[0..8].copy_from_slice(&0x5601_0000_4246_4346u64.to_le_bytes());
    let p = program(0x6000_0000, data);
    assert_eq!(identify_teensy_models(&p), vec![Model::Teensy40, Model::Teensy40Beta1]);
}

#[test]
fn written_record_reads_back() {
    let record = parse_ihex_line(":0300300002337A1E").unwrap();
    assert_eq!(record.address, 0x0030);
    assert_eq!(record.kind, 0);
    assert_eq!(record.data, vec![0x02, 0x33, 0x7A]);
    let record = parse_ihex_line(":02000004FFFFFC").unwrap();
    assert_eq!((record.address, record.kind), (0, 4));
    assert_eq!(record.data, vec![0xFF, 0xFF]);
}

#[test]
fn single_record_file_loads_as_one_segment() {
    let fw = load(":0300300002337A1E\n:00000001FF\n").unwrap();
    let p = &fw.programs[0];
    assert_eq!(p.segments.len(), 1);
    assert_eq!(p.segments[0].address, 0x30);
    assert_eq!(p.segments[0].data, vec![0x02, 0x33, 0x7A]);
    assert_eq!(p.total_size, 3);
}

#[test]
fn micromod_flash_config() {
    let mut data = vec![0; 88];
    data[0..8].copy_from_slice(&0x5601_0000_4246_4346u64.to_le_bytes());
    data[80..84].copy_from_slice(&0x0100_0000u32.to_le_bytes());
    assert_eq!(identify_teensy_models(&program(0x6000_0000, data)), vec![Model::TeensyMicroMod]);
}

#[test]
fn lower_case_record_reads_like_upper_case() {
    let upper = parse_ihex_line(":10010000214601360121470136007EFE09D2190140").unwrap();
    let lower = parse_ihex_line(":10010000214601360121470136007efe09d2190140").unwrap();
    assert_eq!(upper, lower);
    assert_eq!(lower.address, 0x0100);
}

#[test]
fn lines_that_spell_no_record_are_rejected() {
    assert!(parse_ihex_line("").is_err());
    assert!(parse_ihex_line(" :00000001FF").is_err());
    assert!(parse_ihex_line(":00000001FF ").is_err());
    assert!(parse_ihex_line(":0100000000FE").is_err());
    assert!(parse_ihex_line(":0100000000FF").is_ok());
}

#[test]
fn loaded_program_segments_sum_to_total() {
    let text = b":0400000001020304F2\n:020000040020DA\n:02000000AABB99\n:00000001FF\n";
    let firmware = parse_ihex("f.hex".to_string(), "f".to_string(), text).unwrap();
    let program = &firmware.programs[0];
    assert_eq!(program.segments.len(), 2);
    assert!(program.segments.iter().all(|s| !s.data.is_empty()));
    let sum: usize = program.segments.iter().map(|s| s.data.len()).sum();
    assert_eq!(sum, program.total_size);
    assert_eq!(program.total_size, 6);
}

#[test]
fn error_messages_name_the_problem() {
    assert_eq!(RecordError::InvalidChecksum.message(), "invalid record checksum");
    assert_eq!(RecordError::MissingRecordMarker.message(), "missing record marker");
    assert_eq!(
        FirmwareError::Record { line: 12, error: RecordError::InvalidHexDigit }.message("a.hex"),
        "IHEX parse error on line 12 in 'a.hex'"
    );
    assert_eq!(FirmwareError::MissingEof.message("a.hex"), "missing EOF record in 'a.hex'");
    assert_eq!(
        FirmwareError::UnsupportedExtension("bin".to_string()).message("a.bin"),
        "unsupported firmware extension: .bin"
    );
    assert_eq!(
        FirmwareError::UnsupportedRecordType(7).message("a.hex"),
        "unsupported IHEX record type 7"
    );
    assert_eq!(FirmwareError::TooManySegments.message("a.hex"), "firmware has too many segments");
}

#[test]
fn adding_data_extends_or_starts_segments() {
    let mut program = FirmwareProgram::default();
    assert_eq!(program.add_data(0x100, &[]), Ok(()));
    assert!(program.segments.is_empty());
    assert_eq!(program.add_data(0x100, &[1, 2, 3]), Ok(()));
    assert_eq!(program.add_data(0x104, &[9; 300]), Ok(()));
    assert_eq!(program.segments.len(), 1);
    assert_eq!(program.total_size, 304);
    assert_eq!(program.segments[0].data[3], 0);
    let i = program.find_segment(0x104 + 299).unwrap();
    assert_eq!(program.segments[i].data[(0x104 + 299 - program.segments[i].address) as usize], 9);
    assert_eq!(program.add_data(0x50, &[1]), Err(FirmwareError::AddressesMovedBackwards));
    assert_eq!(program.add_data(0x20_0000, &[7, 7]), Ok(()));
    assert_eq!(program.segments.len(), 2);
    assert_eq!(program.total_size, 306);
    assert_eq!(program.find_segment(0x20_0001), Some(1));
    assert_eq!(program.find_segment(0x10_0000), None);
}

#[test]
fn load_firmware_names_file_after_trailing_separator() {
    let text = b":0400000001020304F2\n:00000001FF\n";
    let fw = load_firmware_file("dir/blink.hex/", text).unwrap();
    assert_eq!(fw.name, "blink.hex");
    assert!(load_firmware_file("dir/blink.hex/..", text).is_err());
}
