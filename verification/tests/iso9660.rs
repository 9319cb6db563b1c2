use psxember_core::encoders::{Encode, Fill};
use psxember_core::iso9660::vol_desc::{
    PathTableBlockNumbers, PrimaryVolumeDescriptor, PrimaryVolumeDescriptorSpec,
    VolumeDescriptorSetTerminator,
};
use psxember_core::iso9660::{
    edc_checksum, write_primary_volumde_descriptor, Bcd, CdromCursor, DiscWrite, Form1Sector,
    Form2Sector, Lba, LicenseString, Mss, PsxSystemArea, SectSize, Submode, SECTOR_RAW_SIZE,
};

const SYNC: [u8; 12] = [
    0x00, 0xFF, 0xFF, 0xFF, 0xFF, 0xFF, 0xFF, 0xFF, 0xFF, 0xFF, 0xFF, 0x00,
];

fn bcd_mss(min: u8, sec: u8, sect: u8) -> Mss<Bcd> {
    Mss::new(Bcd::from(min), Bcd::from(sec), Bcd::from(sect))
}

#[test]
fn bcd_packs_two_decimal_digits() {
    assert_eq!(Bcd::from(42u8).raw_value(), 0x42);
    assert_eq!(Bcd::from(7u8).raw_value(), 0x07);
    assert_eq!(Bcd::from(123u8).raw_value(), 0x23);
    let b = Bcd::new_with_raw_value(0x59);
    assert_eq!(b.digit_01(), 9);
    assert_eq!(b.digit_02(), 5);
    assert_eq!(b.unpack(), 59);
    assert_eq!(u8::from(b), 59);
}

#[test]
fn bcd_roundtrip_keeps_two_last_digits() {
    for v in 0..=255u8 {
        assert_eq!(u8::from(Bcd::from(v)), v % 100);
    }
}

#[test]
fn lba_to_mss_starts_two_seconds_in() {
    let mss: Mss<u8> = Lba::new(0).to_mss();
    assert_eq!((mss.min, mss.sec, mss.sect), (0, 2, 0));
    let mss: Mss<u8> = Lba::new(16).to_mss();
    assert_eq!((mss.min, mss.sec, mss.sect), (0, 2, 16));
    let mss: Mss<u8> = Lba::new(4500 - 150 + 75 + 3).to_mss();
    assert_eq!((mss.min, mss.sec, mss.sect), (1, 1, 3));
    let mss: Mss<Bcd> = Lba::new(16).to_mss();
    assert_eq!(mss.sect.raw_value(), 0x16);
    assert_eq!(Lba::new(9).value(), 9);
}

#[test]
fn cursor_mss_roundtrip() {
    for lba in [0u32, 1, 74, 75, 4349, 4350, 100_000, 449_849] {
        let cursor = CdromCursor { lba, byte: 0 };
        let mss: Mss<Bcd> = cursor.to_mss();
        let back = CdromCursor::from_mss(mss);
        assert_eq!(back.lba, lba);
        assert_eq!(back.byte, 0);
        let mss: Mss<u8> = cursor.to_mss();
        assert_eq!(CdromCursor::from_mss(mss).lba, lba);
    }
    // an address before the start of the disc saturates at sector 0
    assert_eq!(CdromCursor::from_mss(Mss::new(0u8, 1, 0)).lba, 0);
}

#[test]
fn cursor_to_byte() {
    let c = CdromCursor { lba: 2, byte: 5 };
    assert_eq!(c.to_byte(), 2 * SECTOR_RAW_SIZE as u32 + 5);
    assert_eq!(CdromCursor::default().to_byte(), 0);
}

#[test]
fn cursor_advance_within_sector() {
    let mut c = CdromCursor { lba: 3, byte: 0x18 };
    c.advance_by(0x10, SectSize::DataOnly0x800);
    assert_eq!((c.lba, c.byte), (3, 0x28));
}

#[test]
fn cursor_advance_across_sectors() {
    // 30h bytes to the end of sector 3, then 924h bytes per sector
    let mut c = CdromCursor { lba: 3, byte: 0x900 };
    c.advance_by(0x930 * 2 + 5, SectSize::Whole0x924);
    assert_eq!((c.lba, c.byte), (5, 0x0c + 0x911));
    // two whole 800h-byte data areas
    let mut c = CdromCursor { lba: 0, byte: 0x18 };
    c.advance_by(0x1000, SectSize::DataOnly0x800);
    assert_eq!((c.lba, c.byte), (2, 0x18));
    let mut c = CdromCursor { lba: 7, byte: 0x18 };
    c.advance_by(0x7ff, SectSize::DataOnly0x800);
    assert_eq!((c.lba, c.byte), (7, 0x817));
    let mut c = CdromCursor { lba: 0, byte: 0x818 };
    c.advance_by(0, SectSize::DataOnly0x800);
    assert_eq!((c.lba, c.byte), (1, 0x18));
    let mut c = CdromCursor { lba: 0, byte: 0x800 };
    c.advance_by(0x18, SectSize::DataOnly0x800);
    assert_eq!((c.lba, c.byte), (1, 0x18));
}

#[test]
fn edc_known_values() {
    assert_eq!(edc_checksum(&[]), 0);
    assert_eq!(edc_checksum(&[0x01]), 0x9091_0101);
    assert_eq!(edc_checksum(b"123456789"), 0x6EC2_EDC4);
    assert_eq!(edc_checksum(&[0u8; 0x808]), 0);
}

#[test]
fn submode_bits() {
    let s = Submode::new_with_raw_value(0b1000_1001);
    assert!(s.eor() && s.data() && s.eof());
    assert!(!s.video() && !s.audio() && !s.trigger() && !s.form2() && !s.rt());
    assert_eq!(s.raw_value(), 0x89);
    let mut out = Vec::new();
    s.encode(&mut out);
    assert_eq!(out, vec![0x89]);
}

#[test]
fn mss_encodes_three_bytes() {
    let mut out = Vec::new();
    bcd_mss(1, 2, 34).encode(&mut out);
    assert_eq!(out, vec![0x01, 0x02, 0x34]);
}

#[test]
fn form1_sector_layout() {
    let sector = Form1Sector::new(
        Fill::zero(0x800),
        bcd_mss(0, 2, 16),
        Submode::new_with_raw_value(0x08),
    );
    let mut out = Vec::new();
    sector.encode(&mut out);
    assert_eq!(out.len(), SECTOR_RAW_SIZE);
    assert_eq!(sector.size(), std::mem::size_of_val(&sector));
    assert_eq!(out[0..12], SYNC);
    assert_eq!(out[12..16], [0x00, 0x02, 0x16, 0x02]);
    assert_eq!(out[16..24], [0, 0, 0x08, 0, 0, 0, 0x08, 0]);
    assert!(out[24..0x818].iter().all(|b| *b == 0));
    let edc = edc_checksum(&out[0x10..0x818]);
    assert_eq!(edc, 0x9481_880B);
    assert_eq!(out[0x818..0x81c], edc.to_le_bytes());
    assert!(out[0x81c..].iter().all(|b| *b == 0));
}

#[test]
fn form1_sector_cuts_long_data() {
    let sector = Form1Sector::new(
        Fill::new(0x900, &[0xab]),
        bcd_mss(0, 2, 0),
        Submode::new_with_raw_value(0),
    );
    let mut out = Vec::new();
    sector.encode(&mut out);
    assert_eq!(out.len(), SECTOR_RAW_SIZE);
    assert!(out[24..0x818].iter().all(|b| *b == 0xab));
    assert!(out[0x81c..].iter().all(|b| *b == 0));
}

#[test]
fn form2_sector_layout() {
    let sector = Form2Sector::new(
        Fill::new(3, &[1, 2, 3]),
        bcd_mss(0, 2, 17),
        Submode::new_with_raw_value(0x20),
    );
    let mut out = Vec::new();
    sector.encode(&mut out);
    assert_eq!(out.len(), SECTOR_RAW_SIZE);
    assert_eq!(out[0..12], SYNC);
    assert_eq!(out[12..16], [0x00, 0x02, 0x17, 0x02]);
    assert_eq!(out[16..24], [0, 0, 0x20, 0, 0, 0, 0x20, 0]);
    assert_eq!(out[24..27], [1, 2, 3]);
    assert!(out[27..0x92c].iter().all(|b| *b == 0));
    let edc = edc_checksum(&out[0x10..0x92c]);
    assert_eq!(out[0x92c..0x930], edc.to_le_bytes());
}

#[test]
fn license_strings_fill_one_block() {
    for license in [LicenseString::EU, LicenseString::JP, LicenseString::US] {
        let mut out = Vec::new();
        license.encode(&mut out);
        assert_eq!(out.len(), 0x800);
        assert_eq!(license.size(), std::mem::size_of::<LicenseString>());
        assert_eq!(&out[0..32], b"          Licensed  by          ");
    }
    let mut eu = Vec::new();
    LicenseString::EU.encode(&mut eu);
    assert_eq!(&eu[32..70], b"Sony Computer Entertainment Euro pe   ");
    assert!(eu[70..].iter().all(|b| *b == 0));
    let mut us = Vec::new();
    LicenseString::US.encode(&mut us);
    assert_eq!(&us[32..70], b"Sony Computer Entertainment Amer  ica ");
    let mut jp = Vec::new();
    LicenseString::JP.encode(&mut jp);
    assert_eq!(&jp[32..65], b"Sony Computer Entertainment Inc.\n");
    // the rest repeats 62 zeros digits, a line feed and one more digit
    assert!(jp[0x41..0x41 + 62].iter().all(|b| *b == b'0'));
    assert_eq!(jp[0x41 + 62], 0x0a);
    assert_eq!(jp[0x41 + 63], b'0');
    assert_eq!(jp[0x41 + 64], b'0');
    assert_eq!(jp[0x41 + 64 + 62], 0x0a);
}

#[test]
fn system_area_is_sixteen_addressed_sectors() {
    let sys = PsxSystemArea { license_string: LicenseString::JP };
    let mut out = Vec::new();
    sys.encode(&mut out);
    assert_eq!(out.len(), 16 * SECTOR_RAW_SIZE);
    for k in 0..16usize {
        let sector = &out[k * SECTOR_RAW_SIZE..(k + 1) * SECTOR_RAW_SIZE];
        assert_eq!(sector[0..12], SYNC);
        let sect_bcd = ((k / 10) << 4 | (k % 10)) as u8;
        assert_eq!(sector[12..16], [0x00, 0x02, sect_bcd, 0x02]);
    }
    // sector 4 carries the licence string
    let mut license = Vec::new();
    LicenseString::JP.encode(&mut license);
    assert_eq!(out[4 * SECTOR_RAW_SIZE + 24..4 * SECTOR_RAW_SIZE + 24 + 0x800], license[..]);
    // sectors 5 to 11 are filled with FFh
    assert!(out[5 * SECTOR_RAW_SIZE + 24..5 * SECTOR_RAW_SIZE + 0x818]
        .iter()
        .all(|b| *b == 0xff));
    // sectors 12 to 15 are form 2, with their EDC at 92Ch
    let s12 = &out[12 * SECTOR_RAW_SIZE..13 * SECTOR_RAW_SIZE];
    assert_eq!(s12[0x92c..0x930], edc_checksum(&s12[0x10..0x92c]).to_le_bytes());
    for k in 0..16usize {
        let sector = &out[k * SECTOR_RAW_SIZE..(k + 1) * SECTOR_RAW_SIZE];
        let submode = if k >= 12 { 0x20 } else { 0x00 };
        assert_eq!(sector[16..24], [0, 0, submode, 0, 0, 0, submode, 0]);
    }
}

#[test]
fn system_area_follows_the_writer_position() {
    let mut out = vec![0u8; 3 * SECTOR_RAW_SIZE];
    assert_eq!(out.lba().value(), 3);
    let addr = out.address();
    assert_eq!(
        (addr.min.raw_value(), addr.sec.raw_value(), addr.sect.raw_value()),
        (0x00, 0x02, 0x03)
    );
    PsxSystemArea { license_string: LicenseString::US }.encode(&mut out);
    assert_eq!(out.len(), 19 * SECTOR_RAW_SIZE);
    assert_eq!(out[3 * SECTOR_RAW_SIZE + 14], 0x03);
    assert_eq!(out[18 * SECTOR_RAW_SIZE + 14], 0x18);
}

fn sample_spec() -> PrimaryVolumeDescriptorSpec<'static> {
    PrimaryVolumeDescriptorSpec {
        vol_ident: Some("my volume"),
        vol_space_size: [0; 2],
        vol_set_size: [0; 2],
        vol_seq_number: [0; 2],
        lbs_bytes: [0; 2],
        pt_bytes: [0; 2],
        pt_block_num: PathTableBlockNumbers {
            pt_1: 0.into(),
            pt_2: 0.into(),
            pt_3: 0.into(),
            pt_4: 0.into(),
        },
        vol_set_ident: None,
        publisher_ident: Some("WOOYVERN INC."),
        data_prep_ident: None,
        copyright_file: Some("copyright.txt"),
        abstract_file: None,
        bibliographic_file: None,
    }
}

#[test]
fn write_disc() {
    let mut f: Vec<u8> = Vec::new();
    let sys = PsxSystemArea { license_string: LicenseString::JP };
    sys.encode(&mut f);

    let desc = PrimaryVolumeDescriptor::new(sample_spec()).unwrap();
    desc.encode(&mut f);
    assert_eq!(f.len(), 16 * SECTOR_RAW_SIZE + 0x800);
}

#[test]
fn primary_volume_descriptor_layout() {
    let mut spec = sample_spec();
    spec.vol_space_size = [0x12345678, 0x9abcdef0];
    spec.pt_block_num = PathTableBlockNumbers {
        pt_1: 0x11.into(),
        pt_2: 0x22.into(),
        pt_3: 0x33.into(),
        pt_4: 0x44.into(),
    };
    let desc = PrimaryVolumeDescriptor::new(spec).unwrap();
    let mut out = Vec::new();
    desc.encode(&mut out);
    assert_eq!(out.len(), 0x800);
    assert_eq!(desc.size(), std::mem::size_of::<PrimaryVolumeDescriptor>());
    assert_eq!(out[0], 0x01);
    assert_eq!(&out[1..6], b"CD001");
    assert_eq!(out[6..8], [0x01, 0x00]);
    assert_eq!(&out[8..19], b"PLAYSTATION");
    assert!(out[19..0x28].iter().all(|b| *b == 0));
    assert_eq!(&out[0x28..0x30], b"my volum");
    assert!(out[0x30..0x50].iter().all(|b| *b == 0));
    assert_eq!(out[0x50..0x58], [0x78, 0x56, 0x34, 0x12, 0xf0, 0xde, 0xbc, 0x9a]);
    assert_eq!(
        out[0x8c..0x9c],
        [0x11, 0, 0, 0, 0x22, 0, 0, 0, 0, 0, 0, 0x33, 0, 0, 0, 0x44]
    );
    // the root directory record: a 34-byte directory entry for block 22
    assert_eq!(
        out[0x9c..0xbe],
        [
            0x22, 0x00, 22, 0, 0, 0, 22, 0, 0, 0, 0x00, 0x08, 0, 0, 0x00, 0x08, 0, 0, 0, 0, 0, 0,
            0, 0, 0, 0x02, 0x00, 0x00, 0x01, 0x00, 0x01, 0x00, 0x01, 0x00,
        ]
    );
    assert!(out[0xbe..0x13e].iter().all(|b| *b == 0));
    assert_eq!(&out[0x13e..0x13e + 13], b"WOOYVERN INC.");
    assert!(out[0x13e + 13..0x1be].iter().all(|b| *b == 0));
    assert_eq!(&out[0x23e..0x249], b"PLAYSTATION");
    assert!(out[0x249..0x2be].iter().all(|b| *b == 0));
    assert_eq!(&out[0x2be..0x2be + 13], b"copyright.txt");
    assert_eq!(&out[0x32d..0x33d], b"0000000000000000");
    assert_eq!(out[0x33d], 0);
    assert_eq!(out[0x371], 0x01);
    assert_eq!(&out[0x400..0x408], b"CD-XA001");
    assert!(out[0x408..0x800].iter().all(|b| *b == 0));
}

#[test]
fn primary_volume_descriptor_rejects_non_ascii() {
    let mut spec = sample_spec();
    spec.publisher_ident = Some("ÉDITEUR");
    spec.copyright_file = Some("©");
    match PrimaryVolumeDescriptor::new(spec) {
        Err(psxember_core::encoders::StrToAsciiError::NotAscii(s)) => assert_eq!(s, "ÉDITEUR"),
        Ok(_) => panic!("non-ASCII text was accepted"),
    }
}

#[test]
fn primary_volume_descriptor_sector() {
    let desc = PrimaryVolumeDescriptor::new(sample_spec()).unwrap();
    let mut out = vec![0u8; 16 * SECTOR_RAW_SIZE];
    write_primary_volumde_descriptor(&mut out, &desc);
    assert_eq!(out.len(), 17 * SECTOR_RAW_SIZE);
    let sector = &out[16 * SECTOR_RAW_SIZE..];
    assert_eq!(sector[12..16], [0x00, 0x02, 0x16, 0x02]);
    assert_eq!(&sector[0x18 + 1..0x18 + 6], b"CD001");
    assert_eq!(sector[0x92c..0x930], edc_checksum(&sector[0x10..0x92c]).to_le_bytes());
}

#[test]
fn volume_descriptor_set_terminator() {
    let term = VolumeDescriptorSetTerminator::new();
    let mut out = Vec::new();
    term.encode(&mut out);
    assert_eq!(out.len(), 0x800);
    assert_eq!(term.size(), std::mem::size_of::<VolumeDescriptorSetTerminator>());
    assert_eq!(out[0], 0xff);
    assert_eq!(&out[1..6], b"CD001");
    assert_eq!(out[6], 0x01);
    assert!(out[7..].iter().all(|b| *b == 0));
}

#[test]
fn form1_sector_clears_the_form2_bit() {
    let sector = Form1Sector::new(
        Fill::zero(0x800),
        bcd_mss(0, 2, 16),
        Submode::new_with_raw_value(0x29),
    );
    let mut out = Vec::new();
    sector.encode(&mut out);
    assert_eq!(out[16..24], [0, 0, 0x09, 0, 0, 0, 0x09, 0]);
}

#[test]
fn form2_sector_sets_the_form2_bit() {
    let sector = Form2Sector::new(Fill::zero(0), bcd_mss(0, 2, 17), Submode::new_with_raw_value(0x08));
    let mut out = Vec::new();
    sector.encode(&mut out);
    assert_eq!(out[16..24], [0, 0, 0x28, 0, 0, 0, 0x28, 0]);
}

#[test]
fn mss_in_plain_bytes() {
    let m = CdromCursor { lba: 0, byte: 0 }.to_mss_u8();
    assert_eq!((m.min, m.sec, m.sect), (0, 2, 0));
    let m = CdromCursor { lba: 4350, byte: 7 }.to_mss_u8();
    assert_eq!((m.min, m.sec, m.sect), (1, 0, 0));
    let m = Lba::new(4500 - 150 + 75 + 3).to_mss_u8();
    assert_eq!((m.min, m.sec, m.sect), (1, 1, 3));
    let c = CdromCursor::from_mss_u8(Mss::new(0, 2, 0));
    assert_eq!((c.lba, c.byte), (0, 0));
    assert_eq!(CdromCursor::from_mss_u8(Mss::new(0, 0, 0)).lba, 0);
    assert_eq!(CdromCursor::from_mss_u8(Mss::new(1, 0, 0)).lba, 4350);
    for lba in [0u32, 1, 74, 75, 4349, 4350, 100_000, 1_151_849] {
        let m = CdromCursor { lba, byte: 0 }.to_mss_u8();
        assert!(m.sec < 60 && m.sect < 75);
        assert_eq!(CdromCursor::from_mss_u8(m).lba, lba);
    }
}

#[test]
fn edc_appended_leaves_zero() {
    for data in [&b""[..], &b"123456789"[..], &[0xffu8; 37][..], &[0x01u8][..]] {
        let mut bytes = data.to_vec();
        let edc = edc_checksum(&bytes);
        bytes.extend_from_slice(&edc.to_le_bytes());
        assert_eq!(edc_checksum(&bytes), 0);
    }
}
