use psxember_core::encoders::{Encode, StrToAsciiError};
use psxember_core::iso9660::fs::{
    write_file_record, write_file_records, DirectoryRecord, FileEntry, DirectoryRecordBuilder, FileAttributes, FileFlags,
    FileName, FileNamePadding, SystemUse, Timestamp,
};
use psxember_core::iso9660::SECTOR_RAW_SIZE;

fn stamp() -> Timestamp {
    Timestamp { year: 124, month: 5, day: 17, hour: 13, min: 4, sec: 59, timezone: 0 }
}

#[test]
fn file_name_padding_after_even_length() {
    let even = FileName::from_ascii_str("AB").unwrap();
    assert!(FileNamePadding::from_filename(&even).even);
    let odd = FileName::from_ascii_str("ABC").unwrap();
    assert!(!FileNamePadding::from_filename(&odd).even);
    let mut out = Vec::new();
    FileNamePadding::from_filename(&even).encode(&mut out);
    assert_eq!(out, vec![0]);
    let mut out = Vec::new();
    FileNamePadding::from_filename(&odd).encode(&mut out);
    assert!(out.is_empty());
}

#[test]
fn file_name_rejects_non_ascii() {
    assert!(matches!(FileName::from_ascii_str("FÏLE"), Err(StrToAsciiError::NotAscii(_))));
}

#[test]
fn file_attributes_bits() {
    let attrs = FileAttributes::new_with_raw_value(0x8D55);
    assert!(attrs.bit(15) && attrs.bit(0) && !attrs.bit(1));
    let cleared = attrs.with_bit(15, false);
    assert_eq!(cleared.raw_value(), 0x0D55);
    let set = cleared.with_bit(12, true);
    assert_eq!(set.raw_value(), 0x1D55);
    let mut out = Vec::new();
    attrs.encode(&mut out);
    assert_eq!(out, vec![0x8D, 0x55]);
}

#[test]
fn file_flags_values() {
    assert_eq!(FileFlags::File.value(), 0x00);
    assert_eq!(FileFlags::Directory.value(), 0x02);
}

#[test]
fn directory_record_layout() {
    let record = DirectoryRecord::new(DirectoryRecordBuilder {
        filename: FileName::from_ascii_str("FILE.TXT;1").unwrap(),
        system_use: SystemUse::new(FileAttributes::new_with_raw_value(0x0D55), 1),
        data_lba: [22, 22],
        data_size: [0x800, 0x800],
        timestamp: stamp(),
        flags: FileFlags::File,
    });
    let mut out = Vec::new();
    record.encode(&mut out);
    // 33 bytes, a ten-byte name, one padding byte, fourteen system-use bytes
    assert_eq!(out.len(), 33 + 10 + 1 + 14);
    assert_eq!(record.size(), std::mem::size_of_val(&record));
    assert_eq!(out[0] as usize, out.len());
    assert_eq!(out[1], 0);
    assert_eq!(out[2..10], [22, 0, 0, 0, 22, 0, 0, 0]);
    assert_eq!(out[10..18], [0, 8, 0, 0, 0, 8, 0, 0]);
    assert_eq!(out[18..25], [124, 5, 17, 13, 4, 59, 0]);
    assert_eq!(out[25..28], [0, 0, 0]);
    assert_eq!(out[28..32], [1, 0, 1, 0]);
    assert_eq!(out[32], 10);
    assert_eq!(&out[33..43], b"FILE.TXT;1");
    assert_eq!(out[43], 0);
    assert_eq!(out[44..58], [0, 0, 0, 0, 0x0D, 0x55, b'X', b'A', 1, 0, 0, 0, 0, 0]);
}

#[test]
fn directory_record_odd_name_has_no_padding() {
    let record = DirectoryRecord::new(DirectoryRecordBuilder {
        filename: FileName::from_ascii_str("DIR").unwrap(),
        system_use: SystemUse::default(),
        data_lba: [0, 0],
        data_size: [0, 0],
        timestamp: stamp(),
        flags: FileFlags::Directory,
    });
    let mut out = Vec::new();
    record.encode(&mut out);
    assert_eq!(out.len(), 33 + 3 + 14);
    assert_eq!(out[0], 50);
    assert_eq!(out[25], 0x02);
    assert_eq!(&out[33..36], b"DIR");
    assert_eq!(&out[42..44], b"XA");
}

#[test]
fn long_names_are_cut_to_fourteen_bytes() {
    let record = DirectoryRecord::new(DirectoryRecordBuilder {
        filename: FileName::from_ascii_str("A_VERY_LONG_FILE_NAME.BIN;1").unwrap(),
        system_use: SystemUse::default(),
        data_lba: [0, 0],
        data_size: [0, 0],
        timestamp: stamp(),
        flags: FileFlags::File,
    });
    let mut out = Vec::new();
    record.encode(&mut out);
    assert_eq!(out[32], 14);
    assert_eq!(&out[33..47], b"A_VERY_LONG_FI");
}

#[test]
fn write_file_record_names_the_current_sector() {
    let mut out = vec![0u8; 2 * SECTOR_RAW_SIZE + 7];
    write_file_record(&mut out, "A.TXT;1", &[9, 8, 7], stamp()).unwrap();
    let record = &out[2 * SECTOR_RAW_SIZE + 7..];
    assert_eq!(record[0] as usize, 33 + 7 + 14);
    assert_eq!(record[2..10], [2, 0, 0, 0, 2, 0, 0, 0]);
    assert_eq!(record[10..18], [3, 0, 0, 0, 3, 0, 0, 0]);
    assert_eq!(&record[33..40], b"A.TXT;1");
    assert_eq!(record[record.len() - 3..], [9, 8, 7]);
    assert_eq!(record.len(), 33 + 7 + 14 + 3);
}

#[test]
fn write_file_record_leaves_writer_on_error() {
    let mut out = vec![1u8, 2, 3];
    let r = write_file_record(&mut out, "ñ", &[1], stamp());
    assert!(matches!(r, Err(StrToAsciiError::NotAscii(_))));
    assert_eq!(out, vec![1, 2, 3]);
}

#[test]
fn timestamp_from_unix_seconds() {
    let t = Timestamp::from_unix_seconds(0);
    assert_eq!(
        (t.year, t.month, t.day, t.hour, t.min, t.sec, t.timezone),
        (70, 1, 1, 0, 0, 0, 0)
    );
    // 2024-02-29 12:34:56 UTC
    let t = Timestamp::from_unix_seconds(1_709_210_096);
    assert_eq!((t.year, t.month, t.day, t.hour, t.min, t.sec), (124, 2, 29, 12, 34, 56));
    // 2000-12-31 23:59:59 UTC
    let t = Timestamp::from_unix_seconds(978_307_199);
    assert_eq!((t.year, t.month, t.day, t.hour, t.min, t.sec), (100, 12, 31, 23, 59, 59));
    // 2001-03-01 00:00:00 UTC
    let t = Timestamp::from_unix_seconds(983_404_800);
    assert_eq!((t.year, t.month, t.day), (101, 3, 1));
    let mut out = Vec::new();
    t.encode(&mut out);
    assert_eq!(out, vec![101, 3, 1, 0, 0, 0, 0]);
}

#[test]
fn write_file_records_one_after_the_other() {
    let big = vec![5u8; 3 * SECTOR_RAW_SIZE];
    let files = [
        FileEntry { name: "A.TXT;1", data: &[9, 8, 7], timestamp: stamp() },
        FileEntry { name: "ñ", data: &[1], timestamp: stamp() },
        FileEntry { name: "BIG.BIN;1", data: &big, timestamp: stamp() },
        FileEntry { name: "C;1", data: &[], timestamp: stamp() },
    ];
    let mut out = vec![0u8; SECTOR_RAW_SIZE];
    let results = write_file_records(&mut out, &files);
    assert_eq!(results.len(), 4);
    assert!(results[0].is_ok() && results[1].is_err() && results[2].is_ok() && results[3].is_ok());
    // each file is written as write_file_record writes it, at the position
    // the image has reached; the file with a non-ASCII name adds nothing
    let mut expected = vec![0u8; SECTOR_RAW_SIZE];
    for f in &files {
        let _ = write_file_record(&mut expected, f.name, f.data, f.timestamp);
    }
    assert_eq!(out, expected);
    let first = SECTOR_RAW_SIZE;
    assert_eq!(out[first + 2..first + 6], [1, 0, 0, 0]);
    let second = first + 33 + 7 + 14 + 3;
    assert_eq!(&out[second + 33..second + 42], b"BIG.BIN;1");
    let third = second + 33 + 9 + 14 + 3 * SECTOR_RAW_SIZE;
    let lba = (third / SECTOR_RAW_SIZE) as u8;
    assert_eq!(out[third + 2], lba);
    assert_eq!(out.len(), third + 33 + 3 + 14);
}
