//! # Volume Descriptors
//!
//! module for the primary volume descriptor (sector 16) and the descriptor set
//! terminator (sector 17).

use vstd::prelude::*;

use crate::encoders::{
    ascii_buf, lemma_concat_encodings_bytes, lemma_concat_encodings_pair, str_to_ascii_buf, u16_le,
    u32_le, write_all, zeros, BigEndian, ByteConst, Encode, FillConst, LittleEndian, PaddedConst,
    StrToAsciiError,
};
use vstd::string::StringSliceAdditionalSpecFns;

verus! {

/// Primary Volume Descriptor (sector 16 on PSX disks)
///```plaintext
///  000h 1    Volume Descriptor Type        (01h=Primary Volume Descriptor)
///  001h 5    Standard Identifier           ("CD001")
///  006h 1    Volume Descriptor Version     (01h=Standard)
///  007h 1    Reserved                      (00h)
///  008h 32   System Identifier             (a-characters) ("PLAYSTATION")
///  028h 32   Volume Identifier             (d-characters) (max 8 chars for PSX?)
///  048h 8    Reserved                      (00h)
///  050h 8    Volume Space Size             (2x32bit, number of logical blocks)
///  058h 32   Reserved                      (00h)
///  078h 4    Volume Set Size               (2x16bit) (usually 0001h)
///  07Ch 4    Volume Sequence Number        (2x16bit) (usually 0001h)
///  080h 4    Logical Block Size in Bytes   (2x16bit) (usually 0800h) (1 sector)
///  084h 8    Path Table Size in Bytes      (2x32bit) (max 800h for PSX)
///  08Ch 4    Path Table 1 Block Number     (32bit little-endian)
///  090h 4    Path Table 2 Block Number     (32bit little-endian) (or 0=None)
///  094h 4    Path Table 3 Block Number     (32bit big-endian)
///  098h 4    Path Table 4 Block Number     (32bit big-endian) (or 0=None)
///  09Ch 34   Root Directory Record         (see next chapter)
///  0BEh 128  Volume Set Identifier         (d-characters) (usually empty)
///  13Eh 128  Publisher Identifier          (a-characters) (company name)
///  1BEh 128  Data Preparer Identifier      (a-characters) (empty or other)
///  23Eh 128  Application Identifier        (a-characters) ("PLAYSTATION")
///  2BEh 37   Copyright Filename            ("FILENAME.EXT;VER") (empty or text)
///  2E3h 37   Abstract Filename             ("FILENAME.EXT;VER") (empty)
///  308h 37   Bibliographic Filename        ("FILENAME.EXT;VER") (empty)
///  32Dh 17   Volume Creation Timestamp     ("YYYYMMDDHHMMSSFF",timezone)
///  33Eh 17   Volume Modification Timestamp ("0000000000000000",00h)
///  34Fh 17   Volume Expiration Timestamp   ("0000000000000000",00h)
///  360h 17   Volume Effective Timestamp    ("0000000000000000",00h)
///  371h 1    File Structure Version        (01h=Standard)
///  372h 1    Reserved for future           (00h-filled)
///  373h 141  Application Use Area          (00h-filled for PSX and VCD)
///  400h 8    CD-XA Identifying Signature   ("CD-XA001" for PSX and VCD)
///  408h 2    CD-XA Flags (unknown purpose) (00h-filled for PSX and VCD)
///  40Ah 8    CD-XA Startup Directory       (00h-filled for PSX and VCD)
///  412h 8    CD-XA Reserved                (00h-filled for PSX and VCD)
///  41Ah 345  Application Use Area          (00h-filled for PSX and VCD)
///  573h 653  Reserved for future           (00h-filled)
///```
pub struct PrimaryVolumeDescriptor {
    desc_type: ByteConst<0x01>,
    std_ident: StandardIdentifier,
    desc_ver: ByteConst<0x01>,
    _res_01: ByteConst<0x00>,
    sys_ident: PaddedConst<SystemIdentifier, 32>,
    vol_ident: VolumeIdentifier,
    _res_02: FillConst<0x0, 8>,
    vol_space_size: [u32; 2],
    _res_03: FillConst<0x0, 32>,
    vol_set_size: [u16; 2],
    vol_seq_number: [u16; 2],
    /// logical block size in bytes
    lbs_bytes: [u16; 2],
    pt_bytes: [u32; 2],
    pt_block_num: PathTableBlockNumbers,
    root_dir_record: RootDirectoryRecord,
    vol_set_ident: [u8; 128],
    publisher_ident: [u8; 128],
    data_prep_ident: [u8; 128],
    app_ident: ApplicationIdentifier,
    copyright_file: [u8; 37],
    abstract_file: [u8; 37],
    bibliographic_file: [u8; 37],
    vol_creation_time: VolumeZeroTimestamp,
    vol_modification_time: VolumeZeroTimestamp,
    vol_expiration_time: VolumeZeroTimestamp,
    vol_effective_time: VolumeZeroTimestamp,
    file_structure_ver: ByteConst<0x01>,
    _res_04: ByteConst<0x00>,
    app_use_area_01: FillConst<0x00, 141>,
    cdxa_ident_sig: CdXAIdentSignature,
    cdxa_flags: FillConst<0x00, 2>,
    cdxa_startup_dir: FillConst<0x00, 8>,
    cdxa_reserved: FillConst<0x00, 8>,
    app_use_area_02: FillConst<0x00, 345>,
    _res_05: FillConst<0x0, 653>,
}

/// What a primary volume descriptor is made from.
pub struct PrimaryVolumeDescriptorSpec<'a> {
    pub vol_ident: Option<&'a str>,
    pub vol_space_size: [u32; 2],
    pub vol_set_size: [u16; 2],
    pub vol_seq_number: [u16; 2],
    pub lbs_bytes: [u16; 2],
    pub pt_bytes: [u32; 2],
    pub pt_block_num: PathTableBlockNumbers,
    pub vol_set_ident: Option<&'a str>,
    pub publisher_ident: Option<&'a str>,
    pub data_prep_ident: Option<&'a str>,
    pub copyright_file: Option<&'a str>,
    pub abstract_file: Option<&'a str>,
    pub bibliographic_file: Option<&'a str>,
}

/// The bytes of an optional ASCII text in a field of `n` bytes: cut or
/// zero-padded, and all zero when there is no text.
pub open spec fn opt_ascii_buf(text: Option<&str>, n: nat) -> Seq<u8> {
    match text {
        Some(s) => ascii_buf(s.spec_bytes(), n),
        None => zeros(n),
    }
}

/// Whether an optional text is ASCII (no text counts as ASCII).
pub open spec fn opt_is_ascii(text: Option<&str>) -> bool {
    match text {
        Some(s) => vstd::string::is_ascii(s),
        None => true,
    }
}

/// The texts of a descriptor specification, in the order they are checked.
pub open spec fn spec_texts<'a>(spec: PrimaryVolumeDescriptorSpec<'a>) -> Seq<Option<&'a str>> {
    seq![
        spec.vol_ident,
        spec.vol_set_ident,
        spec.publisher_ident,
        spec.data_prep_ident,
        spec.copyright_file,
        spec.abstract_file,
        spec.bibliographic_file,
    ]
}

/// Whether `i` is the index of the first text in `texts` that is not ASCII.
pub open spec fn is_first_non_ascii(texts: Seq<Option<&str>>, i: int) -> bool {
    &&& 0 <= i < texts.len()
    &&& !opt_is_ascii(texts[i])
    &&& forall|k: int| 0 <= k < i ==> opt_is_ascii(#[trigger] texts[k])
}

/// The bytes of the four path table block numbers: two little-endian, then
/// two big-endian.
pub open spec fn path_table_block_bytes(p: PathTableBlockNumbers) -> Seq<u8> {
    u32_le(p.pt_1.0) + u32_le(p.pt_2.0) + u32_le(p.pt_3.0).reverse() + u32_le(p.pt_4.0).reverse()
}

/// The bytes of an empty volume timestamp: sixteen `0` digits and a zero
/// time zone.
pub open spec fn zero_timestamp_bytes() -> Seq<u8> {
    "0000000000000000".spec_bytes() + zeros(1)
}

/// The bytes of the primary volume descriptor made from `spec`, up to
/// and including `_res_02`.
pub open spec fn pvd_bytes_1(spec: PrimaryVolumeDescriptorSpec) -> Seq<u8> {
    seq![0x01u8]
        + "CD001".spec_bytes()
        + seq![0x01u8]
        + seq![0x00u8]
        + "PLAYSTATION".spec_bytes() + zeros(21)
        + opt_ascii_buf(spec.vol_ident, 8) + zeros(24)
        + zeros(8)
}

/// The bytes of the primary volume descriptor made from `spec`, up to
/// and including `pt_block_num`.
pub open spec fn pvd_bytes_2(spec: PrimaryVolumeDescriptorSpec) -> Seq<u8> {
    pvd_bytes_1(spec)
        + u32_le(spec.vol_space_size[0]) + u32_le(spec.vol_space_size[1])
        + zeros(32)
        + u16_le(spec.vol_set_size[0]) + u16_le(spec.vol_set_size[1])
        + u16_le(spec.vol_seq_number[0]) + u16_le(spec.vol_seq_number[1])
        + u16_le(spec.lbs_bytes[0]) + u16_le(spec.lbs_bytes[1])
        + u32_le(spec.pt_bytes[0]) + u32_le(spec.pt_bytes[1])
        + path_table_block_bytes(spec.pt_block_num)
}

/// The bytes of the primary volume descriptor made from `spec`, up to
/// and including `abstract_file`.
pub open spec fn pvd_bytes_3(spec: PrimaryVolumeDescriptorSpec) -> Seq<u8> {
    pvd_bytes_2(spec)
        + root_record_bytes(ROOT_DIRECTORY_LBA, ROOT_DIRECTORY_SIZE)
        + opt_ascii_buf(spec.vol_set_ident, 128)
        + opt_ascii_buf(spec.publisher_ident, 128)
        + opt_ascii_buf(spec.data_prep_ident, 128)
        + "PLAYSTATION".spec_bytes() + zeros(117)
        + opt_ascii_buf(spec.copyright_file, 37)
        + opt_ascii_buf(spec.abstract_file, 37)
}

/// The bytes of the primary volume descriptor made from `spec`, up to
/// and including `_res_04`.
pub open spec fn pvd_bytes_4(spec: PrimaryVolumeDescriptorSpec) -> Seq<u8> {
    pvd_bytes_3(spec)
        + opt_ascii_buf(spec.bibliographic_file, 37)
        + zero_timestamp_bytes()
        + zero_timestamp_bytes()
        + zero_timestamp_bytes()
        + zero_timestamp_bytes()
        + seq![0x01u8]
        + seq![0x00u8]
}

/// The bytes of the primary volume descriptor made from `spec`, up to
/// and including `_res_05`.
pub open spec fn pvd_bytes_5(spec: PrimaryVolumeDescriptorSpec) -> Seq<u8> {
    pvd_bytes_4(spec)
        + zeros(141)
        + "CD-XA001".spec_bytes()
        + zeros(2)
        + zeros(8)
        + zeros(8)
        + zeros(345)
        + zeros(653)
}

/// The bytes of the primary volume descriptor made from `spec`, field by
/// field in the order of the layout above.
pub open spec fn pvd_bytes(spec: PrimaryVolumeDescriptorSpec) -> Seq<u8> {
    pvd_bytes_5(spec)
}

/// An optional text in a field of `n` bytes holds the text's bytes, cut to
/// the field, and zero bytes after them; no text gives a field of zeros.
pub proof fn lemma_opt_ascii_buf(text: Option<&str>, n: nat)
    ensures
        opt_ascii_buf(text, n).len() == n,
        forall|i: int|
            0 <= i < n ==> #[trigger] opt_ascii_buf(text, n)[i] == match text {
                Some(s) => if i < s.spec_bytes().len() {
                    s.spec_bytes()[i]
                } else {
                    0u8
                },
                None => 0u8,
            },
{
}

/// Every field of a descriptor made from `spec` sits at the offset that the
/// layout gives it, and the descriptor is one 800h-byte block.
#[verifier::rlimit(50)]
pub proof fn lemma_pvd_field_offsets(spec: PrimaryVolumeDescriptorSpec)
    ensures
        ({
            let b = pvd_bytes(spec);
            &&& b.len() == 0x800
            &&& b[0x000] == 0x01
            &&& b.subrange(0x001, 0x006) == "CD001".spec_bytes()
            &&& b[0x006] == 0x01
            &&& b[0x007] == 0x00
            &&& b.subrange(0x008, 0x013) == "PLAYSTATION".spec_bytes()
            &&& b.subrange(0x028, 0x030) == opt_ascii_buf(spec.vol_ident, 8)
            &&& b.subrange(0x050, 0x058) == u32_le(spec.vol_space_size[0]) + u32_le(
                spec.vol_space_size[1],
            )
            &&& b.subrange(0x078, 0x07c) == u16_le(spec.vol_set_size[0]) + u16_le(
                spec.vol_set_size[1],
            )
            &&& b.subrange(0x07c, 0x080) == u16_le(spec.vol_seq_number[0]) + u16_le(
                spec.vol_seq_number[1],
            )
            &&& b.subrange(0x080, 0x084) == u16_le(spec.lbs_bytes[0]) + u16_le(spec.lbs_bytes[1])
            &&& b.subrange(0x084, 0x08c) == u32_le(spec.pt_bytes[0]) + u32_le(spec.pt_bytes[1])
            &&& b.subrange(0x08c, 0x090) == u32_le(spec.pt_block_num.pt_1.0)
            &&& b.subrange(0x090, 0x094) == u32_le(spec.pt_block_num.pt_2.0)
            &&& b.subrange(0x094, 0x098) == u32_le(spec.pt_block_num.pt_3.0).reverse()
            &&& b.subrange(0x098, 0x09c) == u32_le(spec.pt_block_num.pt_4.0).reverse()
            &&& b[0x09c] == 34
            &&& b.subrange(0x09e, 0x0a2) == u32_le(ROOT_DIRECTORY_LBA)
            &&& b.subrange(0x0be, 0x13e) == opt_ascii_buf(spec.vol_set_ident, 128)
            &&& b.subrange(0x13e, 0x1be) == opt_ascii_buf(spec.publisher_ident, 128)
            &&& b.subrange(0x1be, 0x23e) == opt_ascii_buf(spec.data_prep_ident, 128)
            &&& b.subrange(0x23e, 0x249) == "PLAYSTATION".spec_bytes()
            &&& b.subrange(0x2be, 0x2e3) == opt_ascii_buf(spec.copyright_file, 37)
            &&& b.subrange(0x2e3, 0x308) == opt_ascii_buf(spec.abstract_file, 37)
            &&& b.subrange(0x308, 0x32d) == opt_ascii_buf(spec.bibliographic_file, 37)
            &&& b.subrange(0x32d, 0x33d) == "0000000000000000".spec_bytes()
            &&& b.subrange(0x33e, 0x34e) == "0000000000000000".spec_bytes()
            &&& b.subrange(0x34f, 0x35f) == "0000000000000000".spec_bytes()
            &&& b.subrange(0x360, 0x370) == "0000000000000000".spec_bytes()
            &&& b[0x371] == 0x01
            &&& b.subrange(0x400, 0x408) == "CD-XA001".spec_bytes()
            &&& forall|i: int| 0x408 <= i < 0x800 ==> #[trigger] b[i] == 0
        }),
{
    lemma_identifier_lens();
    let b = pvd_bytes(spec);
    let p1 = pvd_bytes_1(spec);
    let p2 = pvd_bytes_2(spec);
    let p3 = pvd_bytes_3(spec);
    let p4 = pvd_bytes_4(spec);
    assert(p1.len() == 0x50);
    assert(p2.len() == 0x9c);
    assert(p3.len() == 0x308);
    assert(p4.len() == 0x373);
    assert(b.len() == 0x800);
    assert(b.subrange(0, 0x50) =~= p1);
    assert(b.subrange(0, 0x9c) =~= p2);
    assert(b.subrange(0, 0x308) =~= p3);
    assert(b.subrange(0, 0x373) =~= p4);
    assert(b[0x000] == p1[0]);
    assert(b.subrange(0x001, 0x006) =~= "CD001".spec_bytes());
    assert(b[0x006] == p1[6]);
    assert(b[0x007] == p1[7]);
    assert(b.subrange(0x008, 0x013) =~= "PLAYSTATION".spec_bytes());
    assert(b.subrange(0x028, 0x030) =~= opt_ascii_buf(spec.vol_ident, 8));
    assert(b.subrange(0x050, 0x058) =~= u32_le(spec.vol_space_size[0]) + u32_le(
        spec.vol_space_size[1],
    ));
    assert(b.subrange(0x078, 0x07c) =~= u16_le(spec.vol_set_size[0]) + u16_le(
        spec.vol_set_size[1],
    ));
    assert(b.subrange(0x07c, 0x080) =~= u16_le(spec.vol_seq_number[0]) + u16_le(
        spec.vol_seq_number[1],
    ));
    assert(b.subrange(0x080, 0x084) =~= u16_le(spec.lbs_bytes[0]) + u16_le(spec.lbs_bytes[1]));
    assert(b.subrange(0x084, 0x08c) =~= u32_le(spec.pt_bytes[0]) + u32_le(spec.pt_bytes[1]));
    assert(b.subrange(0x08c, 0x090) =~= u32_le(spec.pt_block_num.pt_1.0));
    assert(b.subrange(0x090, 0x094) =~= u32_le(spec.pt_block_num.pt_2.0));
    assert(b.subrange(0x094, 0x098) =~= u32_le(spec.pt_block_num.pt_3.0).reverse());
    assert(b.subrange(0x098, 0x09c) =~= u32_le(spec.pt_block_num.pt_4.0).reverse());
    assert(b[0x09c] == p3[0x9c]);
    assert(b.subrange(0x09e, 0x0a2) =~= u32_le(ROOT_DIRECTORY_LBA));
    assert(b.subrange(0x0be, 0x13e) =~= opt_ascii_buf(spec.vol_set_ident, 128));
    assert(b.subrange(0x13e, 0x1be) =~= opt_ascii_buf(spec.publisher_ident, 128));
    assert(b.subrange(0x1be, 0x23e) =~= opt_ascii_buf(spec.data_prep_ident, 128));
    assert(b.subrange(0x23e, 0x249) =~= "PLAYSTATION".spec_bytes());
    assert(b.subrange(0x2be, 0x2e3) =~= opt_ascii_buf(spec.copyright_file, 37));
    assert(b.subrange(0x2e3, 0x308) =~= opt_ascii_buf(spec.abstract_file, 37));
    assert(b.subrange(0x308, 0x32d) =~= opt_ascii_buf(spec.bibliographic_file, 37));
    assert(b.subrange(0x32d, 0x33d) =~= "0000000000000000".spec_bytes());
    assert(b.subrange(0x33e, 0x34e) =~= "0000000000000000".spec_bytes());
    assert(b.subrange(0x34f, 0x35f) =~= "0000000000000000".spec_bytes());
    assert(b.subrange(0x360, 0x370) =~= "0000000000000000".spec_bytes());
    assert(b[0x371] == p4[0x371]);
    assert(b.subrange(0x400, 0x408) =~= "CD-XA001".spec_bytes());
}

/// The encodings of the fields of `d`, one after the other, up to and
/// including `_res_02`.
spec fn field_bytes_1(d: &PrimaryVolumeDescriptor) -> Seq<u8> {
    d.desc_type.encoding()
        + d.std_ident.encoding()
        + d.desc_ver.encoding()
        + d._res_01.encoding()
        + d.sys_ident.encoding()
        + d.vol_ident.encoding()
        + d._res_02.encoding()
}

/// The encodings of the fields of `d`, one after the other, up to and
/// including `pt_block_num`.
spec fn field_bytes_2(d: &PrimaryVolumeDescriptor) -> Seq<u8> {
    field_bytes_1(d)
        + d.vol_space_size.encoding()
        + d._res_03.encoding()
        + d.vol_set_size.encoding()
        + d.vol_seq_number.encoding()
        + d.lbs_bytes.encoding()
        + d.pt_bytes.encoding()
        + d.pt_block_num.encoding()
}

/// The encodings of the fields of `d`, one after the other, up to and
/// including `abstract_file`.
spec fn field_bytes_3(d: &PrimaryVolumeDescriptor) -> Seq<u8> {
    field_bytes_2(d)
        + d.root_dir_record.encoding()
        + d.vol_set_ident.encoding()
        + d.publisher_ident.encoding()
        + d.data_prep_ident.encoding()
        + d.app_ident.encoding()
        + d.copyright_file.encoding()
        + d.abstract_file.encoding()
}

/// The encodings of the fields of `d`, one after the other, up to and
/// including `_res_04`.
spec fn field_bytes_4(d: &PrimaryVolumeDescriptor) -> Seq<u8> {
    field_bytes_3(d)
        + d.bibliographic_file.encoding()
        + d.vol_creation_time.encoding()
        + d.vol_modification_time.encoding()
        + d.vol_expiration_time.encoding()
        + d.vol_effective_time.encoding()
        + d.file_structure_ver.encoding()
        + d._res_04.encoding()
}

/// The encodings of the fields of `d`, one after the other, up to and
/// including `_res_05`.
spec fn field_bytes_5(d: &PrimaryVolumeDescriptor) -> Seq<u8> {
    field_bytes_4(d)
        + d.app_use_area_01.encoding()
        + d.cdxa_ident_sig.encoding()
        + d.cdxa_flags.encoding()
        + d.cdxa_startup_dir.encoding()
        + d.cdxa_reserved.encoding()
        + d.app_use_area_02.encoding()
        + d._res_05.encoding()
}

impl PrimaryVolumeDescriptor {
    /// Writes the fields from `desc_type` to `_res_02`.
    fn encode_fields_1(&self, writer: &mut Vec<u8>, Ghost(base): Ghost<Seq<u8>>)
        requires
            self.can_encode(),
            old(writer)@ == base + Seq::<u8>::empty(),
        ensures
            final(writer)@ == base + field_bytes_1(self),
    {
        self.desc_type.encode(writer);
        self.std_ident.encode(writer);
        self.desc_ver.encode(writer);
        self._res_01.encode(writer);
        self.sys_ident.encode(writer);
        self.vol_ident.encode(writer);
        self._res_02.encode(writer);
        assert(writer@ =~= base + field_bytes_1(self));
    }

    /// Writes the fields from `vol_space_size` to `pt_block_num`.
    fn encode_fields_2(&self, writer: &mut Vec<u8>, Ghost(base): Ghost<Seq<u8>>)
        requires
            self.can_encode(),
            old(writer)@ == base + field_bytes_1(self),
        ensures
            final(writer)@ == base + field_bytes_2(self),
    {
        self.vol_space_size.encode(writer);
        self._res_03.encode(writer);
        self.vol_set_size.encode(writer);
        self.vol_seq_number.encode(writer);
        self.lbs_bytes.encode(writer);
        self.pt_bytes.encode(writer);
        self.pt_block_num.encode(writer);
        assert(writer@ =~= base + field_bytes_2(self));
    }

    /// Writes the fields from `root_dir_record` to `abstract_file`.
    fn encode_fields_3(&self, writer: &mut Vec<u8>, Ghost(base): Ghost<Seq<u8>>)
        requires
            self.can_encode(),
            old(writer)@ == base + field_bytes_2(self),
        ensures
            final(writer)@ == base + field_bytes_3(self),
    {
        self.root_dir_record.encode(writer);
        self.vol_set_ident.encode(writer);
        self.publisher_ident.encode(writer);
        self.data_prep_ident.encode(writer);
        self.app_ident.encode(writer);
        self.copyright_file.encode(writer);
        self.abstract_file.encode(writer);
        assert(writer@ =~= base + field_bytes_3(self));
    }

    /// Writes the fields from `bibliographic_file` to `_res_04`.
    fn encode_fields_4(&self, writer: &mut Vec<u8>, Ghost(base): Ghost<Seq<u8>>)
        requires
            self.can_encode(),
            old(writer)@ == base + field_bytes_3(self),
        ensures
            final(writer)@ == base + field_bytes_4(self),
    {
        self.bibliographic_file.encode(writer);
        self.vol_creation_time.encode(writer);
        self.vol_modification_time.encode(writer);
        self.vol_expiration_time.encode(writer);
        self.vol_effective_time.encode(writer);
        self.file_structure_ver.encode(writer);
        self._res_04.encode(writer);
        assert(writer@ =~= base + field_bytes_4(self));
    }

    /// Writes the fields from `app_use_area_01` to `_res_05`.
    fn encode_fields_5(&self, writer: &mut Vec<u8>, Ghost(base): Ghost<Seq<u8>>)
        requires
            self.can_encode(),
            old(writer)@ == base + field_bytes_4(self),
        ensures
            final(writer)@ == base + field_bytes_5(self),
    {
        self.app_use_area_01.encode(writer);
        self.cdxa_ident_sig.encode(writer);
        self.cdxa_flags.encode(writer);
        self.cdxa_startup_dir.encode(writer);
        self.cdxa_reserved.encode(writer);
        self.app_use_area_02.encode(writer);
        self._res_05.encode(writer);
        assert(writer@ =~= base + field_bytes_5(self));
    }

}

impl Encode for PrimaryVolumeDescriptor {
    closed spec fn encoding(&self) -> Seq<u8> {
        field_bytes_5(self)
    }

    closed spec fn can_encode(&self) -> bool {
        self.desc_type.can_encode()
            && self.std_ident.can_encode()
            && self.desc_ver.can_encode()
            && self._res_01.can_encode()
            && self.sys_ident.can_encode()
            && self.vol_ident.can_encode()
            && self._res_02.can_encode()
            && self.vol_space_size.can_encode()
            && self._res_03.can_encode()
            && self.vol_set_size.can_encode()
            && self.vol_seq_number.can_encode()
            && self.lbs_bytes.can_encode()
            && self.pt_bytes.can_encode()
            && self.pt_block_num.can_encode()
            && self.root_dir_record.can_encode()
            && self.vol_set_ident.can_encode()
            && self.publisher_ident.can_encode()
            && self.data_prep_ident.can_encode()
            && self.app_ident.can_encode()
            && self.copyright_file.can_encode()
            && self.abstract_file.can_encode()
            && self.bibliographic_file.can_encode()
            && self.vol_creation_time.can_encode()
            && self.vol_modification_time.can_encode()
            && self.vol_expiration_time.can_encode()
            && self.vol_effective_time.can_encode()
            && self.file_structure_ver.can_encode()
            && self._res_04.can_encode()
            && self.app_use_area_01.can_encode()
            && self.cdxa_ident_sig.can_encode()
            && self.cdxa_flags.can_encode()
            && self.cdxa_startup_dir.can_encode()
            && self.cdxa_reserved.can_encode()
            && self.app_use_area_02.can_encode()
            && self._res_05.can_encode()
    }

    open spec fn reported_size(&self) -> nat {
        vstd::layout::size_of::<Self>()
    }

    fn size(&self) -> (n: usize) {
        core::mem::size_of::<Self>()
    }

    fn encode(&self, writer: &mut Vec<u8>) {
        let ghost base = writer@;
        assert(writer@ =~= base + Seq::<u8>::empty());
        self.encode_fields_1(writer, Ghost(base));
        self.encode_fields_2(writer, Ghost(base));
        self.encode_fields_3(writer, Ghost(base));
        self.encode_fields_4(writer, Ghost(base));
        self.encode_fields_5(writer, Ghost(base));
    }
}

/// The bytes of the identifiers that volume descriptors hold.
pub proof fn lemma_identifier_lens()
    ensures
        "CD001".spec_bytes().len() == 5,
        "PLAYSTATION".spec_bytes().len() == 11,
        "0000000000000000".spec_bytes().len() == 16,
        "CD-XA001".spec_bytes().len() == 8,
{
    broadcast use vstd::string::group_string_axioms;

    reveal_strlit("CD001");
    reveal_strlit("PLAYSTATION");
    reveal_strlit("0000000000000000");
    reveal_strlit("CD-XA001");
    assert(vstd::string::is_ascii("CD001"));
    assert(vstd::string::is_ascii("PLAYSTATION"));
    assert(vstd::string::is_ascii("0000000000000000"));
    assert(vstd::string::is_ascii("CD-XA001"));
}

/// The volume identifier: eight characters, then zeros to the end of its
/// 32-byte field.
pub struct VolumeIdentifier {
    chars: [u8; 8],
}

impl VolumeIdentifier {
    /// The eight characters.
    pub closed spec fn chars(&self) -> [u8; 8] {
        self.chars
    }
}

impl Encode for VolumeIdentifier {
    open spec fn encoding(&self) -> Seq<u8> {
        self.chars()@ + zeros(24)
    }

    open spec fn can_encode(&self) -> bool {
        true
    }

    open spec fn reported_size(&self) -> nat {
        32
    }

    fn size(&self) -> (n: usize) {
        32
    }

    fn encode(&self, writer: &mut Vec<u8>) {
        write_all(writer, &self.chars);
        let fill = FillConst::<0x00, 24>;
        fill.encode(writer);
        assert(fill.encoding() =~= zeros(24));
        assert(writer@ =~= old(writer)@ + self.encoding());
    }
}

pub struct StandardIdentifier;

impl Encode for StandardIdentifier {
    open spec fn encoding(&self) -> Seq<u8> {
        "CD001".spec_bytes()
    }

    open spec fn can_encode(&self) -> bool {
        true
    }

    open spec fn reported_size(&self) -> nat {
        5
    }

    fn size(&self) -> (n: usize) {
        proof {
            lemma_identifier_lens();
        }
        5
    }

    fn encode(&self, writer: &mut Vec<u8>) {
        "CD001".encode(writer)
    }
}

pub struct SystemIdentifier;

impl Encode for SystemIdentifier {
    open spec fn encoding(&self) -> Seq<u8> {
        "PLAYSTATION".spec_bytes()
    }

    open spec fn can_encode(&self) -> bool {
        true
    }

    open spec fn reported_size(&self) -> nat {
        "PLAYSTATION".spec_bytes().len()
    }

    fn size(&self) -> (n: usize) {
        "PLAYSTATION".as_bytes().len()
    }

    fn encode(&self, writer: &mut Vec<u8>) {
        "PLAYSTATION".encode(writer)
    }
}

/// ```plaintext
///  08Ch 4    Path Table 1 Block Number     (32bit little-endian)
///  090h 4    Path Table 2 Block Number     (32bit little-endian) (or 0=None)
///  094h 4    Path Table 3 Block Number     (32bit big-endian)
///  098h 4    Path Table 4 Block Number     (32bit big-endian) (or 0=None)
/// ```
pub struct PathTableBlockNumbers {
    pub pt_1: LittleEndian<u32>,
    pub pt_2: LittleEndian<u32>,
    pub pt_3: BigEndian<u32>,
    pub pt_4: BigEndian<u32>,
}

impl Encode for PathTableBlockNumbers {
    open spec fn encoding(&self) -> Seq<u8> {
        path_table_block_bytes(*self)
    }

    open spec fn can_encode(&self) -> bool {
        true
    }

    open spec fn reported_size(&self) -> nat {
        16
    }

    fn size(&self) -> (n: usize) {
        16
    }

    fn encode(&self, writer: &mut Vec<u8>) {
        self.pt_1.encode(writer);
        self.pt_2.encode(writer);
        self.pt_3.encode(writer);
        self.pt_4.encode(writer);
        assert(writer@ =~= old(writer)@ + self.encoding());
    }
}

/// The block number of the root directory on PSX disks.
pub const ROOT_DIRECTORY_LBA: u32 = 22;

/// The size in bytes of the root directory. The layout gives no size for
/// it; this library records one logical block.
pub const ROOT_DIRECTORY_SIZE: u32 = 0x800;

/// The bytes of the root directory record: a 34-byte directory record
/// (LEN_DR=22h) for a directory at block `lba` of `size` bytes, with a
/// recording time of zeros (the layout gives none, so this library writes
/// none), the directory flag 02h, volume sequence number 1,
/// LEN_FI=01h, the name 00h and no system-use bytes.
pub open spec fn root_record_bytes(lba: u32, size: u32) -> Seq<u8> {
    seq![0x22u8, 0x00u8] + u32_le(lba) + u32_le(lba) + u32_le(size) + u32_le(size) + zeros(7)
        + seq![0x02u8, 0x00u8, 0x00u8] + u16_le(1) + u16_le(1) + seq![0x01u8, 0x00u8]
}

/// # Root Directory Record
///
/// The location of the Root Directory is described by a 34-byte Directory
/// Record being located in Primary Volume Descriptor entries 09Ch..0BDh. The
/// data therein is: Block Number (usually 22 on PSX disks), LEN_FI=01h,
/// Name=00h, and, LEN_SU=00h (due to the 34-byte limit).
pub struct RootDirectoryRecord {
    /// The block number of the root directory.
    pub lba: u32,
    /// The size in bytes of the root directory.
    pub size: u32,
}

impl Encode for RootDirectoryRecord {
    open spec fn encoding(&self) -> Seq<u8> {
        root_record_bytes(self.lba, self.size)
    }

    open spec fn can_encode(&self) -> bool {
        true
    }

    open spec fn reported_size(&self) -> nat {
        34
    }

    fn size(&self) -> (n: usize) {
        34
    }

    fn encode(&self, writer: &mut Vec<u8>) {
        writer.push(0x22);
        writer.push(0x00);
        self.lba.encode(writer);
        self.lba.encode(writer);
        self.size.encode(writer);
        self.size.encode(writer);
        let no_time = FillConst::<0x00, 7>;
        no_time.encode(writer);
        writer.push(0x02);
        writer.push(0x00);
        writer.push(0x00);
        1u16.encode(writer);
        1u16.encode(writer);
        writer.push(0x01);
        writer.push(0x00);
        assert(no_time.encoding() =~= zeros(7));
        assert(writer@ =~= old(writer)@ + self.encoding());
    }
}

pub struct ApplicationIdentifier;

impl Encode for ApplicationIdentifier {
    open spec fn encoding(&self) -> Seq<u8> {
        "PLAYSTATION".spec_bytes() + zeros(117)
    }

    open spec fn can_encode(&self) -> bool {
        true
    }

    open spec fn reported_size(&self) -> nat {
        128
    }

    fn size(&self) -> (n: usize) {
        proof {
            lemma_identifier_lens();
        }
        128
    }

    fn encode(&self, writer: &mut Vec<u8>) {
        proof {
            lemma_identifier_lens();
        }
        "PLAYSTATION".encode(writer);
        let fill = FillConst::<0x00, 117>;
        fill.encode(writer);
        assert(fill.encoding() =~= zeros(117));
    }
}

pub struct VolumeZeroTimestamp;

impl Encode for VolumeZeroTimestamp {
    open spec fn encoding(&self) -> Seq<u8> {
        zero_timestamp_bytes()
    }

    open spec fn can_encode(&self) -> bool {
        true
    }

    open spec fn reported_size(&self) -> nat {
        17
    }

    fn size(&self) -> (n: usize) {
        proof {
            lemma_identifier_lens();
        }
        17
    }

    fn encode(&self, writer: &mut Vec<u8>) {
        proof {
            lemma_identifier_lens();
        }
        "0000000000000000".encode(writer);
        writer.push(0x00);
    }
}

pub struct CdXAIdentSignature;

impl Encode for CdXAIdentSignature {
    open spec fn encoding(&self) -> Seq<u8> {
        "CD-XA001".spec_bytes()
    }

    open spec fn can_encode(&self) -> bool {
        true
    }

    open spec fn reported_size(&self) -> nat {
        "CD-XA001".spec_bytes().len()
    }

    fn size(&self) -> (n: usize) {
        "CD-XA001".as_bytes().len()
    }

    fn encode(&self, writer: &mut Vec<u8>) {
        "CD-XA001".encode(writer)
    }
}

/// The bytes of an optional ASCII text, cut or zero-padded to `N` bytes.
fn text_buf<const N: usize>(text: Option<&str>) -> (r: Result<[u8; N], StrToAsciiError>)
    ensures
        r is Ok <==> opt_is_ascii(text),
        r matches Ok(b) ==> b@ == opt_ascii_buf(text, N as nat),
        r matches Err(StrToAsciiError::NotAscii(m)) ==> text is Some && m@ == text.unwrap()@,
{
    match text {
        Some(s) => str_to_ascii_buf::<N>(s),
        None => {
            let b = [0u8; N];
            assert(b@ =~= zeros(N as nat));
            Ok(b)
        },
    }
}

impl PrimaryVolumeDescriptor {
    /// Makes the descriptor from `spec`; each text is cut or zero-padded to
    /// its field, and must be ASCII.
    pub fn new(spec: PrimaryVolumeDescriptorSpec) -> (r: Result<Self, StrToAsciiError>)
        ensures
            r is Ok <==> forall|k: int| 0 <= k < 7 ==> opt_is_ascii(#[trigger] spec_texts(spec)[k]),
            r matches Ok(d) ==> d.can_encode() && d.encoding() == pvd_bytes(spec),
            r matches Err(StrToAsciiError::NotAscii(m)) ==> forall|i: int|
                is_first_non_ascii(spec_texts(spec), i) ==> m@ == (#[trigger] spec_texts(
                    spec,
                )[i]).unwrap()@,
    {
        let ghost texts = spec_texts(spec);
        let vol_ident = match text_buf::<8>(spec.vol_ident) {
            Ok(b) => b,
            Err(e) => {
                assert(is_first_non_ascii(texts, 0));
                proof { lemma_first_non_ascii_unique(texts, 0); }
                return Err(e);
            },
        };
        let vol_set_ident = match text_buf::<128>(spec.vol_set_ident) {
            Ok(b) => b,
            Err(e) => {
                assert(is_first_non_ascii(texts, 1));
                proof { lemma_first_non_ascii_unique(texts, 1); }
                return Err(e);
            },
        };
        let publisher_ident = match text_buf::<128>(spec.publisher_ident) {
            Ok(b) => b,
            Err(e) => {
                assert(is_first_non_ascii(texts, 2));
                proof { lemma_first_non_ascii_unique(texts, 2); }
                return Err(e);
            },
        };
        let data_prep_ident = match text_buf::<128>(spec.data_prep_ident) {
            Ok(b) => b,
            Err(e) => {
                assert(is_first_non_ascii(texts, 3));
                proof { lemma_first_non_ascii_unique(texts, 3); }
                return Err(e);
            },
        };
        let copyright_file = match text_buf::<37>(spec.copyright_file) {
            Ok(b) => b,
            Err(e) => {
                assert(is_first_non_ascii(texts, 4));
                proof { lemma_first_non_ascii_unique(texts, 4); }
                return Err(e);
            },
        };
        let abstract_file = match text_buf::<37>(spec.abstract_file) {
            Ok(b) => b,
            Err(e) => {
                assert(is_first_non_ascii(texts, 5));
                proof { lemma_first_non_ascii_unique(texts, 5); }
                return Err(e);
            },
        };
        let bibliographic_file = match text_buf::<37>(spec.bibliographic_file) {
            Ok(b) => b,
            Err(e) => {
                assert(is_first_non_ascii(texts, 6));
                proof { lemma_first_non_ascii_unique(texts, 6); }
                return Err(e);
            },
        };
        assert(forall|k: int| 0 <= k < 7 ==> opt_is_ascii(#[trigger] texts[k])) by {
            assert(texts[0] == spec.vol_ident);
        }
        let d = PrimaryVolumeDescriptor {
            desc_type: ByteConst,
            std_ident: StandardIdentifier,
            desc_ver: ByteConst,
            _res_01: ByteConst,
            sys_ident: PaddedConst::new::<32>(SystemIdentifier),
            vol_ident: VolumeIdentifier { chars: vol_ident },
            _res_02: FillConst,
            vol_space_size: spec.vol_space_size,
            _res_03: FillConst,
            vol_set_size: spec.vol_set_size,
            vol_seq_number: spec.vol_seq_number,
            lbs_bytes: spec.lbs_bytes,
            pt_bytes: spec.pt_bytes,
            pt_block_num: spec.pt_block_num,
            root_dir_record: RootDirectoryRecord { lba: ROOT_DIRECTORY_LBA, size: ROOT_DIRECTORY_SIZE },
            vol_set_ident,
            publisher_ident,
            data_prep_ident,
            app_ident: ApplicationIdentifier,
            copyright_file,
            abstract_file,
            bibliographic_file,
            vol_creation_time: VolumeZeroTimestamp,
            vol_modification_time: VolumeZeroTimestamp,
            vol_expiration_time: VolumeZeroTimestamp,
            vol_effective_time: VolumeZeroTimestamp,
            file_structure_ver: ByteConst,
            _res_04: ByteConst,
            app_use_area_01: FillConst,
            cdxa_ident_sig: CdXAIdentSignature,
            cdxa_flags: FillConst,
            cdxa_startup_dir: FillConst,
            cdxa_reserved: FillConst,
            app_use_area_02: FillConst,
            _res_05: FillConst,
        };
        proof {
            lemma_new_fields(&d, spec, vol_ident, vol_set_ident, publisher_ident, data_prep_ident, copyright_file, abstract_file, bibliographic_file);
        }
        Ok(d)
    }
}

impl PrimaryVolumeDescriptor {
    /// A descriptor fills exactly one 0x800-byte logical block.
    pub proof fn lemma_encoding_len(&self)
        requires
            self.can_encode(),
        ensures
            self.encoding().len() == 0x800,
    {
        lemma_identifier_lens();
        lemma_concat_encodings_pair(self.vol_space_size@);
        lemma_concat_encodings_pair(self.vol_set_size@);
        lemma_concat_encodings_pair(self.vol_seq_number@);
        lemma_concat_encodings_pair(self.lbs_bytes@);
        lemma_concat_encodings_pair(self.pt_bytes@);
        lemma_concat_encodings_bytes(self.vol_set_ident@);
        lemma_concat_encodings_bytes(self.publisher_ident@);
        lemma_concat_encodings_bytes(self.data_prep_ident@);
        lemma_concat_encodings_bytes(self.copyright_file@);
        lemma_concat_encodings_bytes(self.abstract_file@);
        lemma_concat_encodings_bytes(self.bibliographic_file@);
    }
}

/// The fields that `new` makes encode, field by field, as the layout says.
proof fn lemma_new_fields(
    d: &PrimaryVolumeDescriptor,
    spec: PrimaryVolumeDescriptorSpec,
    vol_ident: [u8; 8],
    vol_set_ident: [u8; 128],
    publisher_ident: [u8; 128],
    data_prep_ident: [u8; 128],
    copyright_file: [u8; 37],
    abstract_file: [u8; 37],
    bibliographic_file: [u8; 37],
)
    requires
        vol_ident@ == opt_ascii_buf(spec.vol_ident, 8),
        vol_set_ident@ == opt_ascii_buf(spec.vol_set_ident, 128),
        publisher_ident@ == opt_ascii_buf(spec.publisher_ident, 128),
        data_prep_ident@ == opt_ascii_buf(spec.data_prep_ident, 128),
        copyright_file@ == opt_ascii_buf(spec.copyright_file, 37),
        abstract_file@ == opt_ascii_buf(spec.abstract_file, 37),
        bibliographic_file@ == opt_ascii_buf(spec.bibliographic_file, 37),
        d.sys_ident.data() == SystemIdentifier,
        d.vol_ident.chars() == vol_ident,
        d.vol_space_size == spec.vol_space_size,
        d.vol_set_size == spec.vol_set_size,
        d.vol_seq_number == spec.vol_seq_number,
        d.lbs_bytes == spec.lbs_bytes,
        d.pt_bytes == spec.pt_bytes,
        d.pt_block_num == spec.pt_block_num,
        d.root_dir_record.lba == ROOT_DIRECTORY_LBA,
        d.root_dir_record.size == ROOT_DIRECTORY_SIZE,
        d.vol_set_ident == vol_set_ident,
        d.publisher_ident == publisher_ident,
        d.data_prep_ident == data_prep_ident,
        d.copyright_file == copyright_file,
        d.abstract_file == abstract_file,
        d.bibliographic_file == bibliographic_file,
    ensures
        d.can_encode(),
        d.encoding() == pvd_bytes(spec),
{
    lemma_identifier_lens();
    assert(field_bytes_1(d) == pvd_bytes_1(spec)) by {
        assert(d.desc_type.encoding() == seq![0x01u8]);
        assert(d.std_ident.encoding() == "CD001".spec_bytes());
        assert(d.desc_ver.encoding() == seq![0x01u8]);
        assert(d._res_01.encoding() == seq![0x00u8]);
        assert(d.sys_ident.encoding() == "PLAYSTATION".spec_bytes() + zeros(21));
        assert(d.vol_ident.encoding() == opt_ascii_buf(spec.vol_ident, 8) + zeros(24));
        assert(d._res_02.encoding() =~= zeros(8));
    }
    assert(field_bytes_2(d) == pvd_bytes_2(spec)) by {
        lemma_concat_encodings_pair(d.vol_space_size@);
        assert(d.vol_space_size.encoding() == u32_le(spec.vol_space_size[0]) + u32_le(spec.vol_space_size[1]));
        assert(d._res_03.encoding() =~= zeros(32));
        lemma_concat_encodings_pair(d.vol_set_size@);
        assert(d.vol_set_size.encoding() == u16_le(spec.vol_set_size[0]) + u16_le(spec.vol_set_size[1]));
        lemma_concat_encodings_pair(d.vol_seq_number@);
        assert(d.vol_seq_number.encoding() == u16_le(spec.vol_seq_number[0]) + u16_le(spec.vol_seq_number[1]));
        lemma_concat_encodings_pair(d.lbs_bytes@);
        assert(d.lbs_bytes.encoding() == u16_le(spec.lbs_bytes[0]) + u16_le(spec.lbs_bytes[1]));
        lemma_concat_encodings_pair(d.pt_bytes@);
        assert(d.pt_bytes.encoding() == u32_le(spec.pt_bytes[0]) + u32_le(spec.pt_bytes[1]));
        assert(d.pt_block_num.encoding() == path_table_block_bytes(spec.pt_block_num));
    }
    assert(field_bytes_3(d) == pvd_bytes_3(spec)) by {
        assert(d.root_dir_record.encoding() == root_record_bytes(ROOT_DIRECTORY_LBA, ROOT_DIRECTORY_SIZE));
        lemma_concat_encodings_bytes(d.vol_set_ident@);
        assert(d.vol_set_ident.encoding() == opt_ascii_buf(spec.vol_set_ident, 128));
        lemma_concat_encodings_bytes(d.publisher_ident@);
        assert(d.publisher_ident.encoding() == opt_ascii_buf(spec.publisher_ident, 128));
        lemma_concat_encodings_bytes(d.data_prep_ident@);
        assert(d.data_prep_ident.encoding() == opt_ascii_buf(spec.data_prep_ident, 128));
        assert(d.app_ident.encoding() == "PLAYSTATION".spec_bytes() + zeros(117));
        lemma_concat_encodings_bytes(d.copyright_file@);
        assert(d.copyright_file.encoding() == opt_ascii_buf(spec.copyright_file, 37));
        lemma_concat_encodings_bytes(d.abstract_file@);
        assert(d.abstract_file.encoding() == opt_ascii_buf(spec.abstract_file, 37));
    }
    assert(field_bytes_4(d) == pvd_bytes_4(spec)) by {
        lemma_concat_encodings_bytes(d.bibliographic_file@);
        assert(d.bibliographic_file.encoding() == opt_ascii_buf(spec.bibliographic_file, 37));
        assert(d.vol_creation_time.encoding() == zero_timestamp_bytes());
        assert(d.vol_modification_time.encoding() == zero_timestamp_bytes());
        assert(d.vol_expiration_time.encoding() == zero_timestamp_bytes());
        assert(d.vol_effective_time.encoding() == zero_timestamp_bytes());
        assert(d.file_structure_ver.encoding() == seq![0x01u8]);
        assert(d._res_04.encoding() == seq![0x00u8]);
    }
    assert(field_bytes_5(d) == pvd_bytes_5(spec)) by {
        assert(d.app_use_area_01.encoding() =~= zeros(141));
        assert(d.cdxa_ident_sig.encoding() == "CD-XA001".spec_bytes());
        assert(d.cdxa_flags.encoding() =~= zeros(2));
        assert(d.cdxa_startup_dir.encoding() =~= zeros(8));
        assert(d.cdxa_reserved.encoding() =~= zeros(8));
        assert(d.app_use_area_02.encoding() =~= zeros(345));
        assert(d._res_05.encoding() =~= zeros(653));
    }
}

/// The first text that is not ASCII is unique.
proof fn lemma_first_non_ascii_unique(texts: Seq<Option<&str>>, i: int)
    requires
        is_first_non_ascii(texts, i),
    ensures
        forall|j: int| is_first_non_ascii(texts, j) ==> j == i,
{
    assert forall|j: int| is_first_non_ascii(texts, j) implies j == i by {
        if j < i {
            assert(opt_is_ascii(texts[j]));
        } else if i < j {
            assert(opt_is_ascii(texts[i]));
        }
    }
}

/// The bytes of the volume descriptor set terminator.
pub open spec fn terminator_bytes() -> Seq<u8> {
    seq![0xffu8] + "CD001".spec_bytes() + seq![0x01u8] + zeros(2041)
}

/// # Volume Descriptor Set Terminator (sector 17 on PSX disks)
/// ```plaintext
///   000h 1    Volume Descriptor Type    (FFh=Terminator)
///   001h 5    Standard Identifier       ("CD001")
///   006h 1    Terminator Version        (01h=Standard)
///   007h 2041 Reserved                  (00h-filled)
/// ```
pub struct VolumeDescriptorSetTerminator {
    desc_ty: ByteConst<0xff>,
    standard_ident: StandardIdentifier,
    terminator_ver: ByteConst<0x01>,
    zerofill: FillConst<0x0, 2041>,
}

impl VolumeDescriptorSetTerminator {
    pub fn new() -> (r: Self) {
        VolumeDescriptorSetTerminator {
            desc_ty: ByteConst,
            standard_ident: StandardIdentifier,
            terminator_ver: ByteConst,
            zerofill: FillConst,
        }
    }
}

/// The volume descriptor set terminator fills exactly one 0x800-byte block.
pub proof fn lemma_terminator_len()
    ensures
        terminator_bytes().len() == 0x800,
{
    lemma_identifier_lens();
}

impl Encode for VolumeDescriptorSetTerminator {
    open spec fn encoding(&self) -> Seq<u8> {
        terminator_bytes()
    }

    open spec fn can_encode(&self) -> bool {
        true
    }

    open spec fn reported_size(&self) -> nat {
        vstd::layout::size_of::<Self>()
    }

    fn size(&self) -> (n: usize) {
        core::mem::size_of::<Self>()
    }

    fn encode(&self, writer: &mut Vec<u8>) {
        let VolumeDescriptorSetTerminator { desc_ty, standard_ident, terminator_ver, zerofill } =
            self;
        desc_ty.encode(writer);
        standard_ident.encode(writer);
        terminator_ver.encode(writer);
        zerofill.encode(writer);
        assert(zerofill.encoding() =~= zeros(2041));
        assert(writer@ =~= old(writer)@ + self.encoding());
    }
}

} // verus!
