pub mod fs;
pub mod vol_desc;

use vstd::prelude::*;

use crate::encoders::{repeat_pattern, write_all, zeros, Encode, Fill};
use vstd::string::StringSliceAdditionalSpecFns;

verus! {

/// The number of bytes in one raw CD-ROM sector.
pub const SECTOR_RAW_SIZE: usize = 0x930;

/// The low nibble and the high nibble of `raw`, read as two decimal digits.
pub open spec fn bcd_unpack(raw: u8) -> int {
    (raw / 16) * 10 + raw % 16
}

/// The two last decimal digits of `v`, one per nibble.
pub open spec fn bcd_pack(v: u8) -> u8 {
    ((v / 10 % 10) * 16 + v % 10) as u8
}

/// A byte holding two binary-coded decimal digits.
#[derive(Debug, Clone, Copy, PartialEq, Eq, Structural)]
pub struct Bcd {
    raw: u8,
}

impl View for Bcd {
    type V = u8;

    closed spec fn view(&self) -> u8 {
        self.raw
    }
}

impl Bcd {
    pub fn new_with_raw_value(value: u8) -> (r: Self)
        ensures
            r@ == value,
    {
        Bcd { raw: value }
    }

    pub fn raw_value(&self) -> (r: u8)
        ensures
            r == self@,
    {
        self.raw
    }

    /// the least significant digit
    pub fn digit_01(&self) -> (r: u8)
        ensures
            r == self@ % 16,
    {
        let raw = self.raw;
        assert(raw & 0xf == raw % 16) by (bit_vector);
        raw & 0xf
    }

    /// the most significant digit
    pub fn digit_02(&self) -> (r: u8)
        ensures
            r == self@ / 16,
    {
        let raw = self.raw;
        assert(raw >> 4 == raw / 16) by (bit_vector);
        raw >> 4
    }

    pub fn unpack(self) -> (r: u8)
        ensures
            r == bcd_unpack(self@),
    {
        self.digit_02() * 10 + self.digit_01()
    }
}

impl From<Bcd> for u8 {
    fn from(val: Bcd) -> (r: Self) {
        val.unpack()
    }
}

impl vstd::std_specs::convert::FromSpecImpl<Bcd> for u8 {
    open spec fn obeys_from_spec() -> bool {
        true
    }

    open spec fn from_spec(v: Bcd) -> u8 {
        bcd_unpack(v@) as u8
    }
}

impl From<u8> for Bcd {
    fn from(value: u8) -> (r: Self) {
        let digit_01 = value % 10;
        let digit_02 = value / 10 % 10;
        assert(digit_02 << 4u8 | digit_01 == (digit_02 * 16 + digit_01) as u8) by (bit_vector)
            requires
                digit_01 < 10,
                digit_02 < 10,
        ;
        Bcd { raw: digit_02 << 4u8 | digit_01 }
    }
}

impl vstd::std_specs::convert::FromSpecImpl<u8> for Bcd {
    open spec fn obeys_from_spec() -> bool {
        true
    }

    closed spec fn from_spec(v: u8) -> Bcd {
        Bcd { raw: bcd_pack(v) }
    }
}

/// What `Bcd::from` makes of `v` is the packed form of its two last digits.
pub broadcast proof fn lemma_bcd_from_spec(v: u8)
    ensures
        (#[trigger] <Bcd as vstd::std_specs::convert::FromSpec<u8>>::from_spec(v))@ == bcd_pack(v),
{
}

/// Unpacking what `Bcd::from` packed gives back the two last decimal digits.
pub proof fn lemma_bcd_roundtrip(v: u8)
    ensures
        bcd_unpack(bcd_pack(v)) == v % 100,
{
    let d1 = v % 10;
    let d2 = v / 10 % 10;
    assert(((d2 * 16 + d1) as u8) / 16 == d2 && ((d2 * 16 + d1) as u8) % 16 == d1) by (bit_vector)
        requires
            d1 < 10,
            d2 < 10,
    ;
}

/// Packing the value of a byte whose two nibbles are decimal digits gives
/// back that byte.
pub proof fn lemma_bcd_pack_unpack(raw: u8)
    requires
        raw % 16 <= 9,
        raw / 16 <= 9,
    ensures
        bcd_pack(bcd_unpack(raw) as u8) == raw,
{
    let lo = raw % 16;
    let hi = raw / 16;
    assert(bcd_unpack(raw) == hi * 10 + lo);
    let v = (hi * 10 + lo) as u8;
    assert(v % 10 == lo && v / 10 % 10 == hi) by (bit_vector)
        requires
            v == (hi * 10 + lo) as u8,
            lo <= 9,
            hi <= 9,
    ;
}

impl Encode for Bcd {
    open spec fn encoding(&self) -> Seq<u8> {
        seq![self@]
    }

    open spec fn can_encode(&self) -> bool {
        true
    }

    open spec fn reported_size(&self) -> nat {
        1
    }

    fn size(&self) -> (n: usize) {
        1
    }

    fn encode(&self, writer: &mut Vec<u8>) {
        self.raw_value().encode(writer)
    }
}

/// (minute, second, sector) tuple
#[derive(Debug, Clone, Copy)]
pub struct Mss<T> {
    pub min: T,
    pub sec: T,
    pub sect: T,
}

impl<T> Mss<T> {
    pub fn new(min: T, sec: T, sect: T) -> (r: Self)
        ensures
            r == (Mss { min, sec, sect }),
    {
        Self { min, sec, sect }
    }
}

impl<T: Encode> Encode for Mss<T> {
    open spec fn encoding(&self) -> Seq<u8> {
        self.min.encoding() + self.sec.encoding() + self.sect.encoding()
    }

    open spec fn can_encode(&self) -> bool {
        &&& self.min.can_encode()
        &&& self.sec.can_encode()
        &&& self.sect.can_encode()
        &&& self.encoding().len() <= usize::MAX
    }

    open spec fn reported_size(&self) -> nat {
        vstd::layout::size_of::<Self>()
    }

    fn size(&self) -> (n: usize) {
        core::mem::size_of::<Self>()
    }

    fn encode(&self, writer: &mut Vec<u8>) {
        self.min.encode(writer);
        self.sec.encode(writer);
        self.sect.encode(writer);
        assert(writer@ =~= old(writer)@ + self.encoding());
    }
}

/// The minute, second and sector numbers of the sector at logical block
/// address `lba`, each cut to a byte: a disc starts 150 sectors (two
/// seconds) in, and a second holds 75 sectors.
pub open spec fn lba_to_mss_parts(lba: int) -> (u8, u8, u8) {
    let a = lba + 150;
    ((a / 75 / 60) as u8, (a / 75 % 60) as u8, (a % 75) as u8)
}

/// The logical block address (sector number) of a position on the disc.
pub struct Lba(u64);

impl View for Lba {
    type V = u64;

    closed spec fn view(&self) -> u64 {
        self.0
    }
}

impl Lba {
    pub fn new(value: u64) -> (r: Self)
        ensures
            r@ == value,
    {
        Lba(value)
    }

    pub fn value(&self) -> (r: u64)
        ensures
            r == self@,
    {
        self.0
    }

    pub fn to_mss<T: From<u8>>(self) -> (r: Mss<T>)
        requires
            self@ + 150 <= u64::MAX,
        ensures
            <T as vstd::std_specs::convert::FromSpec<u8>>::obeys_from_spec() ==> {
                let (min, sec, sect) = lba_to_mss_parts(self@ as int);
                r == (Mss {
                    min: <T as vstd::std_specs::convert::FromSpec<u8>>::from_spec(min),
                    sec: <T as vstd::std_specs::convert::FromSpec<u8>>::from_spec(sec),
                    sect: <T as vstd::std_specs::convert::FromSpec<u8>>::from_spec(sect),
                })
            },
    {
        let m = self.to_mss_u8();
        Mss { min: T::from(m.min), sec: T::from(m.sec), sect: T::from(m.sect) }
    }

    /// The minute, second and sector of this sector, as plain bytes.
    pub fn to_mss_u8(&self) -> (r: Mss<u8>)
        requires
            self@ + 150 <= u64::MAX,
        ensures
            ({
                let (min, sec, sect) = lba_to_mss_parts(self@ as int);
                r == (Mss { min, sec, sect })
            }),
    {
        let lba = self.0 + 150;

        let sect = (lba % 75) as u8;
        let sec = (lba / 75 % 60) as u8;
        let min = (lba / 75 / 60) as u8;

        Mss { min, sec, sect }
    }
}

/// The address, as written in a sector header, of the sector at logical
/// block address `lba`.
pub open spec fn lba_address(lba: int) -> (u8, u8, u8) {
    let (min, sec, sect) = lba_to_mss_parts(lba);
    (bcd_pack(min), bcd_pack(sec), bcd_pack(sect))
}

/// Whether `m` holds, in BCD, the address of the sector at `lba`.
pub open spec fn is_address_of(m: Mss<Bcd>, lba: int) -> bool {
    let (min, sec, sect) = lba_address(lba);
    m.min@ == min && m.sec@ == sec && m.sect@ == sect
}

/// A writer of a disc image, which knows how far it has written.
pub trait DiscWrite {
    /// The number of bytes written so far.
    spec fn stream_position(&self) -> nat;

    /// The sector the next byte goes to.
    fn lba(&self) -> (r: Lba)
        ensures
            r@ == self.stream_position() as int / SECTOR_RAW_SIZE as int,
    ;

    /// The address of the sector the next byte goes to.
    fn address(&self) -> (r: Mss<Bcd>)
        ensures
            is_address_of(r, self.stream_position() as int / SECTOR_RAW_SIZE as int),
    ;
}

impl DiscWrite for Vec<u8> {
    open spec fn stream_position(&self) -> nat {
        self@.len()
    }

    fn lba(&self) -> (r: Lba)
        ensures
            r@ < u64::MAX - 150,
    {
        let pos = self.len() as u64;
        assert(pos / 0x930u64 < u64::MAX - 150) by (bit_vector);
        Lba(pos / SECTOR_RAW_SIZE as u64)
    }

    fn address(&self) -> (r: Mss<Bcd>) {
        let lba = self.lba();
        assert(lba@ + 150 <= u64::MAX);
        let r: Mss<Bcd> = lba.to_mss();
        proof {
            broadcast use lemma_bcd_from_spec;

        }
        r
    }
}


/// How many bytes of a sector a cursor walks over.
#[derive(Debug, Clone, Copy, PartialEq, Eq, Structural)]
pub enum SectSize {
    DataOnly0x800,
    Whole0x924,
}

impl SectSize {
    /// Where the walked part of a sector starts, and where it ends.
    pub open spec fn bounds(self) -> (u32, u32) {
        match self {
            SectSize::DataOnly0x800 => (0x18u32, 0x818u32),
            SectSize::Whole0x924 => (0x0cu32, 0x930u32),
        }
    }
}

/// `a - b`, or 0 where that is negative.
pub open spec fn saturating_sub(a: int, b: int) -> int {
    if a > b {
        a - b
    } else {
        0
    }
}

/// A position on the disc: a sector, and a byte within it.
#[derive(Debug, Clone, Copy, Default)]
pub struct CdromCursor {
    pub lba: u32,
    pub byte: u32,
}

/// The sector a cursor at (`lba`, `byte`) reaches after `by` more bytes,
/// when the walked part of each sector spans `pad..end`: once past the end
/// of its sector, the cursor walks `end - pad` bytes per sector.
pub open spec fn advanced_lba(lba: int, byte: int, by: int, pad: int, end: int) -> int {
    if by < end - byte {
        lba
    } else {
        lba + 1 + (by - (end - byte)) / (end - pad)
    }
}

/// The byte within the sector that a cursor at (`lba`, `byte`) reaches
/// after `by` more bytes, when the walked part of each sector spans
/// `pad..end`.
pub open spec fn advanced_byte(byte: int, by: int, pad: int, end: int) -> int {
    if by < end - byte {
        byte + by
    } else {
        pad + (by - (end - byte)) % (end - pad)
    }
}

/// Advancing a cursor by `by` bytes moves it by `by` bytes through the walked
/// parts of the sectors, and leaves it before the end of a sector's walked
/// part.
pub proof fn lemma_advance_position(lba: int, byte: int, by: int, pad: int, end: int)
    requires
        0 < pad < end,
        byte <= end,
        0 <= by,
    ensures
        advanced_lba(lba, byte, by, pad, end) * (end - pad) + advanced_byte(byte, by, pad, end)
            == lba * (end - pad) + byte + by,
        advanced_byte(byte, by, pad, end) < end,
        byte >= pad ==> advanced_byte(byte, by, pad, end) >= pad,
{
    if by >= end - byte {
        let span = end - pad;
        let r = by - (end - byte);
        vstd::arithmetic::div_mod::lemma_fundamental_div_mod(r, span);
        vstd::arithmetic::div_mod::lemma_mod_pos_bound(r, span);
        assert((lba + 1 + r / span) * span + pad + r % span == lba * span + byte + by)
            by (nonlinear_arith)
            requires
                r == span * (r / span) + r % span,
                span == end - pad,
                r == by - (end - byte),
        ;
    }
}

impl CdromCursor {
    pub fn from_mss<T: Into<u8>>(mss: Mss<T>) -> (r: Self)
        ensures
            r.byte == 0,
            <T as vstd::std_specs::convert::IntoSpec<u8>>::obeys_into_spec() ==> r.lba
                == saturating_sub(
                <T as vstd::std_specs::convert::IntoSpec<u8>>::into_spec(mss.min) * (60 * 75)
                    + <T as vstd::std_specs::convert::IntoSpec<u8>>::into_spec(mss.sec) * 75
                    + <T as vstd::std_specs::convert::IntoSpec<u8>>::into_spec(mss.sect),
                150,
            ),
    {
        Self::from_mss_u8(Mss { min: mss.min.into(), sec: mss.sec.into(), sect: mss.sect.into() })
    }

    /// The cursor at the start of the sector with the given minute, second
    /// and sector; an address before 00:02:00 gives sector 0.
    pub fn from_mss_u8(mss: Mss<u8>) -> (r: Self)
        ensures
            r.byte == 0,
            r.lba == saturating_sub(mss.min * (60 * 75) + mss.sec * 75 + mss.sect, 150),
    {
        let min = mss.min as u32;
        let sec = mss.sec as u32;
        let sect = mss.sect as u32;
        assert(min * 4500 <= 255 * 4500 && sec * 75 <= 255 * 75) by (nonlinear_arith)
            requires
                min <= 255,
                sec <= 255,
        ;
        Self { lba: (min * (60 * 75) + sec * 75 + sect).saturating_sub(150), byte: 0 }
    }

    pub fn to_mss<T: From<u8>>(self) -> (r: Mss<T>)
        requires
            self.lba + 150 <= u32::MAX,
        ensures
            <T as vstd::std_specs::convert::FromSpec<u8>>::obeys_from_spec() ==> {
                let (min, sec, sect) = lba_to_mss_parts(self.lba as int);
                r == (Mss {
                    min: <T as vstd::std_specs::convert::FromSpec<u8>>::from_spec(min),
                    sec: <T as vstd::std_specs::convert::FromSpec<u8>>::from_spec(sec),
                    sect: <T as vstd::std_specs::convert::FromSpec<u8>>::from_spec(sect),
                })
            },
    {
        let m = self.to_mss_u8();
        Mss { min: T::from(m.min), sec: T::from(m.sec), sect: T::from(m.sect) }
    }

    /// The minute, second and sector of the cursor's sector, as plain bytes.
    pub fn to_mss_u8(self) -> (r: Mss<u8>)
        requires
            self.lba + 150 <= u32::MAX,
        ensures
            ({
                let (min, sec, sect) = lba_to_mss_parts(self.lba as int);
                r == (Mss { min, sec, sect })
            }),
    {
        let lba = self.lba + 150;

        let sect = (lba % 75) as u8;
        let sec = (lba / 75 % 60) as u8;
        let min = (lba / 75 / 60) as u8;

        Mss { min, sec, sect }
    }

    pub fn to_byte(self) -> (r: u32)
        requires
            self.lba * SECTOR_RAW_SIZE + self.byte <= u32::MAX,
        ensures
            r == self.lba * SECTOR_RAW_SIZE + self.byte,
    {
        self.lba * SECTOR_RAW_SIZE as u32 + self.byte
    }

    pub fn advance_by(&mut self, by_bytes: u32, sect_size: SectSize)
        requires
            old(self).byte <= sect_size.bounds().1,
            advanced_lba(
                old(self).lba as int,
                old(self).byte as int,
                by_bytes as int,
                sect_size.bounds().0 as int,
                sect_size.bounds().1 as int,
            ) <= u32::MAX,
        ensures
            final(self).lba == advanced_lba(
                old(self).lba as int,
                old(self).byte as int,
                by_bytes as int,
                sect_size.bounds().0 as int,
                sect_size.bounds().1 as int,
            ),
            final(self).byte == advanced_byte(
                old(self).byte as int,
                by_bytes as int,
                sect_size.bounds().0 as int,
                sect_size.bounds().1 as int,
            ),
            final(self).lba * (sect_size.bounds().1 - sect_size.bounds().0) + final(self).byte
                == old(self).lba * (sect_size.bounds().1 - sect_size.bounds().0) + old(self).byte
                + by_bytes,
            final(self).byte < sect_size.bounds().1,
            old(self).byte >= sect_size.bounds().0 ==> final(self).byte >= sect_size.bounds().0,
    {
        let mut by_bytes = by_bytes;
        let (pad, end): (u32, u32) = match sect_size {
            SectSize::DataOnly0x800 => (0x18, 0x18 + 0x800),
            SectSize::Whole0x924 => (0x0c, SECTOR_RAW_SIZE as u32),
        };
        let ghost lba0 = self.lba as int;
        let ghost byte0 = self.byte as int;
        let ghost by0 = by_bytes as int;
        let ghost first = end - byte0;
        let ghost span = end - pad;
        let ghost final_lba = advanced_lba(lba0, byte0, by0, pad as int, end as int);
        let ghost mut k: int = 0;
        let ghost mut moved: bool = false;
        let mut to_end = end - self.byte;
        while by_bytes >= to_end
            invariant
                0 < pad < end <= 0x930,
                span == end - pad,
                first == end - byte0,
                0 <= first,
                final_lba == advanced_lba(lba0, byte0, by0, pad as int, end as int),
                final_lba <= u32::MAX,
                !moved ==> {
                    &&& to_end == first
                    &&& self.lba == lba0
                    &&& self.byte == byte0
                    &&& by_bytes == by0
                },
                moved ==> {
                    &&& to_end == span
                    &&& self.byte == pad
                    &&& k >= 0
                    &&& by0 - first == k * span + by_bytes
                    &&& self.lba == lba0 + 1 + k
                    &&& by0 >= first
                },
            decreases by_bytes + (if to_end == 0 { 1int } else { 0int }),
        {
            proof {
                if moved {
                    // one more whole sector fits: the quotient is at least k + 1
                    assert(by0 - first >= (k + 1) * span) by (nonlinear_arith)
                        requires
                            by0 - first == k * span + by_bytes,
                            by_bytes >= span,
                    ;
                    vstd::arithmetic::div_mod::lemma_div_is_ordered(
                        (k + 1) * span,
                        by0 - first,
                        span,
                    );
                    assert((k + 1) * span / span == k + 1) by (nonlinear_arith)
                        requires
                            span > 0,
                    {
                        vstd::arithmetic::div_mod::lemma_div_multiples_vanish(k + 1, span);
                    }
                } else {
                    vstd::arithmetic::div_mod::lemma_div_pos_is_pos(by0 - first, span);
                }
            }
            by_bytes -= to_end;
            self.byte = pad;
            self.lba += 1;
            to_end = end - pad;
            proof {
                if moved {
                    k = k + 1;
                    assert(by0 - first == k * span + by_bytes) by (nonlinear_arith)
                        requires
                            by0 - first == (k - 1) * span + by_bytes + span,
                    ;
                } else {
                    moved = true;
                    k = 0;
                }
            }
        }
        self.byte += by_bytes;
        proof {
            if moved {
                vstd::arithmetic::div_mod::lemma_fundamental_div_mod_converse(
                    by0 - first,
                    span,
                    k,
                    by_bytes as int,
                );
            }
            lemma_advance_position(lba0, byte0, by0, pad as int, end as int);
        }
    }
}


/// A part of the format that is not written yet: it takes no bytes.
pub type Todo = ();

/// One step of the EDC table computation: shift right, and where a one
/// was shifted out, fold in the polynomial.
pub open spec fn edc_step(x: u32) -> u32 {
    if x & 1 == 1 {
        (x >> 1u32) ^ 0xd801_8001u32
    } else {
        x >> 1u32
    }
}

/// `x` after `n` steps.
pub open spec fn edc_steps(x: u32, n: nat) -> u32
    decreases n,
{
    if n == 0 {
        x
    } else {
        edc_step(edc_steps(x, (n - 1) as nat))
    }
}

/// Entry `i` of the EDC table: `i` after eight steps.
pub open spec fn edc_table_entry(i: u32) -> u32 {
    edc_steps(i, 8)
}

/// The EDC after one more byte.
pub open spec fn edc_update(x: u32, b: u8) -> u32 {
    let y = x ^ (b as u32);
    (y >> 8u32) ^ edc_table_entry(y & 0xffu32)
}

/// The EDC checksum of `bytes`.
pub open spec fn edc(bytes: Seq<u8>) -> u32
    decreases bytes.len(),
{
    if bytes.len() == 0 {
        0
    } else {
        edc_update(edc(bytes.drop_last()), bytes.last())
    }
}

/// Stepping zero gives zero.
proof fn lemma_edc_steps_zero(n: nat)
    ensures
        edc_steps(0, n) == 0,
    decreases n,
{
    if n > 0 {
        lemma_edc_steps_zero((n - 1) as nat);
        assert(edc_step(0u32) == 0u32) by (bit_vector);
    }
}

/// Folding in the low byte of the EDC itself shifts it down by a byte.
proof fn lemma_edc_update_own_low_byte(x: u32)
    ensures
        edc_update(x, x as u8) == x >> 8u32,
{
    let y: u32 = x ^ ((x as u8) as u32);
    assert(y >> 8u32 == x >> 8u32 && y & 0xffu32 == 0u32) by (bit_vector)
        requires
            y == x ^ ((x as u8) as u32),
    ;
    lemma_edc_steps_zero(8);
    assert((y >> 8u32) ^ 0u32 == y >> 8u32) by (bit_vector);
}

/// The EDC of `bytes` followed by one more byte `b`.
proof fn lemma_edc_push(bytes: Seq<u8>, b: u8)
    ensures
        edc(bytes.push(b)) == edc_update(edc(bytes), b),
{
    assert(bytes.push(b).drop_last() =~= bytes);
}

/// Appending the EDC of some bytes to them, least significant byte first,
/// gives bytes whose EDC is zero.
pub proof fn lemma_edc_residue(bytes: Seq<u8>)
    ensures
        edc(bytes + crate::encoders::u32_le(edc(bytes))) == 0,
{
    let e = edc(bytes);
    let s1 = bytes.push(e as u8);
    let s2 = s1.push((e >> 8u32) as u8);
    let s3 = s2.push((e >> 16u32) as u8);
    let s4 = s3.push((e >> 24u32) as u8);
    assert(bytes + crate::encoders::u32_le(e) =~= s4);
    lemma_edc_push(bytes, e as u8);
    lemma_edc_update_own_low_byte(e);
    lemma_edc_push(s1, (e >> 8u32) as u8);
    lemma_edc_update_own_low_byte(e >> 8u32);
    lemma_edc_push(s2, (e >> 16u32) as u8);
    assert((e >> 8u32) >> 8u32 == e >> 16u32) by (bit_vector);
    lemma_edc_update_own_low_byte(e >> 16u32);
    lemma_edc_push(s3, (e >> 24u32) as u8);
    assert((e >> 16u32) >> 8u32 == e >> 24u32) by (bit_vector);
    lemma_edc_update_own_low_byte(e >> 24u32);
    assert((e >> 24u32) >> 8u32 == 0u32) by (bit_vector);
}

/// The EDC table: entry `i` is `i` after eight steps.
fn edc_table() -> (t: Vec<u32>)
    ensures
        t@.len() == 256,
        forall|i: int| 0 <= i < 256 ==> t@[i] == edc_table_entry(i as u32),
{
    //  for i=0 to FFh
    //    x=i, for j=0 to 7, x=x shr 1, if carry then x=x xor D8018001h
    //    edc_table[i]=x
    let mut edc_table: Vec<u32> = Vec::new();
    let mut i: u32 = 0;
    while i < 256
        invariant
            i <= 256,
            edc_table@.len() == i,
            forall|k: int| 0 <= k < i ==> edc_table@[k] == edc_table_entry(k as u32),
        decreases 256 - i,
    {
        let mut x = i;
        let mut j: u32 = 0;
        while j < 8
            invariant
                j <= 8,
                x == edc_steps(i, j as nat),
            decreases 8 - j,
        {
            let carry = (x & 1) == 1;
            x = x >> 1;
            if carry {
                x = x ^ 0xd8018001;
            }
            j += 1;
        }
        edc_table.push(x);
        i += 1;
    }
    edc_table
}

/// The EDC checksum of `bytes`.
pub fn edc_checksum(bytes: &[u8]) -> (r: u32)
    ensures
        r == edc(bytes@),
{
    // x=00000000h
    // for i=0 to len-1
    //   x=x xor byte[addr+i], x=(x shr 8) xor edc_table[x and FFh]
    // word[addr+len]=x  ;append EDC value (little endian)
    let table = edc_table();
    let mut edc_value: u32 = 0;
    let mut i: usize = 0;
    while i < bytes.len()
        invariant
            i <= bytes@.len(),
            table@.len() == 256,
            forall|k: int| 0 <= k < 256 ==> table@[k] == edc_table_entry(k as u32),
            edc_value == edc(bytes@.take(i as int)),
        decreases bytes@.len() - i,
    {
        let ghost prev = edc_value;
        edc_value = edc_value ^ (bytes[i] as u32);
        let idx = edc_value & 0xff;
        assert(idx < 256) by (bit_vector)
            requires
                idx == edc_value & 0xff,
        ;
        edc_value = (edc_value >> 8) ^ table[idx as usize];
        i += 1;
        assert(bytes@.take(i as int).drop_last() =~= bytes@.take(i - 1));
        assert(edc_value == edc_update(prev, bytes@[i - 1]));
    }
    assert(bytes@.take(bytes@.len() as int) =~= bytes@);
    edc_value
}

/// The twelve bytes that start every raw sector.
pub open spec fn sync_bytes() -> Seq<u8> {
    seq![0x00, 0xFF, 0xFF, 0xFF, 0xFF, 0xFF, 0xFF, 0xFF, 0xFF, 0xFF, 0xFF, 0x00]
}

struct SyncHeader;

impl Encode for SyncHeader {
    open spec fn encoding(&self) -> Seq<u8> {
        sync_bytes()
    }

    open spec fn can_encode(&self) -> bool {
        true
    }

    open spec fn reported_size(&self) -> nat {
        vstd::layout::size_of::<Self>()
    }

    fn size(&self) -> (n: usize) {
        core::mem::size_of::<Self>()
    }

    fn encode(&self, writer: &mut Vec<u8>) {
        let pattern: &'static [u8] = &[
            0x00, 0xFF, 0xFF, 0xFF, 0xFF, 0xFF, 0xFF, 0xFF, 0xFF, 0xFF, 0xFF, 0x00,
        ];
        let fill = Fill { pattern, total_bytes: 0x0c };
        fill.encode(writer);
        assert(fill.encoding() =~= sync_bytes());
    }
}

/// The sector mode byte of the header.
#[derive(Debug, Clone, Copy)]
enum HeaderMode {
    Mode2,
}

impl HeaderMode {
    fn value(&self) -> (r: u8)
        ensures
            r == 0x02,
    {
        match self {
            HeaderMode::Mode2 => 0x02,
        }
    }
}

impl Encode for HeaderMode {
    open spec fn encoding(&self) -> Seq<u8> {
        seq![0x02u8]
    }

    open spec fn can_encode(&self) -> bool {
        true
    }

    open spec fn reported_size(&self) -> nat {
        1
    }

    fn size(&self) -> (n: usize) {
        1
    }

    fn encode(&self, writer: &mut Vec<u8>) {
        let mode = self.value();
        mode.encode(writer)
    }
}

/// The three bytes of a sector address.
pub open spec fn mss_bytes(mss: Mss<Bcd>) -> Seq<u8> {
    seq![mss.min@, mss.sec@, mss.sect@]
}

/// `4 Header (Minute,Second,Sector,Mode)`
struct Header {
    mss: Mss<Bcd>,
    mode: HeaderMode,
}

impl Encode for Header {
    closed spec fn encoding(&self) -> Seq<u8> {
        mss_bytes(self.mss) + seq![0x02u8]
    }

    open spec fn can_encode(&self) -> bool {
        true
    }

    open spec fn reported_size(&self) -> nat {
        4
    }

    fn size(&self) -> (n: usize) {
        4
    }

    fn encode(&self, writer: &mut Vec<u8>) {
        self.mss.encode(writer);
        self.mode.encode(writer);
        assert(writer@ =~= old(writer)@ + self.encoding());
    }
}

/// # 1st Subheader byte - File Number (FN)
struct FileNumber(u8);

/// # 2nd Subheader byte - Channel Number (CN)
struct ChannelNumber(u8);

/// # 3rd Subheader byte - Submode (SM)
///
/// ```plaintext
/// 0   End of Record (EOR) (all Volume Descriptors, and all sectors with EOF)
/// 1   Video     ;\Sector Type (usually ONE of these bits should be set)
/// 2   Audio     ; Note: PSX .STR files are declared as Data (not as Video)
/// 3   Data      ;/
/// 4   Trigger           (for application use)
/// 5   Form2             (0=Form1/800h-byte data, 1=Form2, 914h-byte data)
/// 6   Real Time (RT)
/// 7   End of File (EOF) (or end of Directory/PathTable/VolumeTerminator)
/// ```
#[derive(Debug, Clone, Copy, PartialEq, Eq, Structural)]
pub struct Submode {
    raw: u8,
}

impl View for Submode {
    type V = u8;

    closed spec fn view(&self) -> u8 {
        self.raw
    }
}

/// Whether bit `i` of `raw` is set.
pub open spec fn bit_set(raw: u8, i: u8) -> bool {
    (raw >> i) & 1 == 1
}

impl Submode {
    pub fn new_with_raw_value(value: u8) -> (r: Self)
        ensures
            r@ == value,
    {
        Submode { raw: value }
    }

    pub fn raw_value(&self) -> (r: u8)
        ensures
            r == self@,
    {
        self.raw
    }

    /// Whether bit `i` is set.
    fn bit(&self, i: u8) -> (r: bool)
        requires
            i < 8,
        ensures
            r == bit_set(self@, i),
    {
        (self.raw >> i) & 1 == 1
    }

    pub fn eor(&self) -> (r: bool)
        ensures
            r == bit_set(self@, 0),
    {
        self.bit(0)
    }

    pub fn video(&self) -> (r: bool)
        ensures
            r == bit_set(self@, 1),
    {
        self.bit(1)
    }

    pub fn audio(&self) -> (r: bool)
        ensures
            r == bit_set(self@, 2),
    {
        self.bit(2)
    }

    pub fn data(&self) -> (r: bool)
        ensures
            r == bit_set(self@, 3),
    {
        self.bit(3)
    }

    pub fn trigger(&self) -> (r: bool)
        ensures
            r == bit_set(self@, 4),
    {
        self.bit(4)
    }

    pub fn form2(&self) -> (r: bool)
        ensures
            r == bit_set(self@, 5),
    {
        self.bit(5)
    }

    pub fn rt(&self) -> (r: bool)
        ensures
            r == bit_set(self@, 6),
    {
        self.bit(6)
    }

    pub fn eof(&self) -> (r: bool)
        ensures
            r == bit_set(self@, 7),
    {
        self.bit(7)
    }
}

impl Encode for Submode {
    open spec fn encoding(&self) -> Seq<u8> {
        seq![self@]
    }

    open spec fn can_encode(&self) -> bool {
        true
    }

    open spec fn reported_size(&self) -> nat {
        1
    }

    fn size(&self) -> (n: usize) {
        1
    }

    fn encode(&self, writer: &mut Vec<u8>) {
        self.raw_value().encode(writer);
        assert(self.encoding() == seq![self@]);
    }
}

/// The sample rate of XA-ADPCM audio.
#[derive(Debug, Clone, Copy, PartialEq, Eq, Structural)]
enum XAADPCMSampleRate {
    Full37800Hz,
    Half18900Hz,
    Reserved01,
    Reserved02,
}

/// # 4th Subheader byte - Codinginfo (CI)
///
/// When used for Data sectors:
/// ```plaintext
///   0-7 Reserved (00h)
/// ```
/// When used for XA-ADPCM audio sectors:
/// ```plaintext
///   0-1 Mono/Stereo     (0=Mono, 1=Stereo, 2-3=Reserved)
///   2-2 Sample Rate     (0=37800Hz, 1=18900Hz, 2-3=Reserved)
///   4-5 Bits per Sample (0=Normal/4bit, 1=8bit, 2-3=Reserved)
///   6   Emphasis        (0=Normal/Off, 1=Emphasis)
///   7   Reserved        (0)
/// ```
#[derive(Debug, Clone, Copy)]
struct CodingInfo {
    raw: u8,
}

impl CodingInfo {
    fn default() -> (r: Self)
        ensures
            r.raw == 0,
    {
        CodingInfo { raw: 0x00 }
    }

    fn mono_stereo(&self) -> (r: u8)
        ensures
            r == self.raw % 4,
    {
        let raw = self.raw;
        assert(raw & 3 == raw % 4) by (bit_vector);
        raw & 3
    }

    fn sample_rate(&self) -> (r: XAADPCMSampleRate)
        ensures
            r == (match (self.raw / 4) % 4 {
                0 => XAADPCMSampleRate::Full37800Hz,
                1 => XAADPCMSampleRate::Half18900Hz,
                2 => XAADPCMSampleRate::Reserved01,
                _ => XAADPCMSampleRate::Reserved02,
            }),
    {
        let raw = self.raw;
        assert((raw >> 2) & 3 == (raw / 4) % 4) by (bit_vector);
        match (raw >> 2) & 3 {
            0 => XAADPCMSampleRate::Full37800Hz,
            1 => XAADPCMSampleRate::Half18900Hz,
            2 => XAADPCMSampleRate::Reserved01,
            _ => XAADPCMSampleRate::Reserved02,
        }
    }
}

/// The four subheader bytes of a sector: file 0, channel 0, `submode`, and
/// coding information 0.
pub open spec fn subheader_bytes(submode: u8) -> Seq<u8> {
    seq![0x00u8, 0x00u8, submode, 0x00u8]
}

/// `4 Sub-Header (File, Channel, Submode AND DFh, Codinginfo)`
struct Subheader {
    file: FileNumber,
    channel: ChannelNumber,
    submode: Submode,
    cinfo: CodingInfo,
}

impl Subheader {
    /// Whether this is the subheader that sectors are made with.
    spec fn wf(&self) -> bool {
        self.file.0 == 0 && self.channel.0 == 0 && self.cinfo.raw == 0
    }

    fn new(submode: Submode) -> (r: Self)
        ensures
            r.wf(),
            r.submode == submode,
    {
        Subheader {
            file: FileNumber(0),
            channel: ChannelNumber(0),
            submode,
            cinfo: CodingInfo::default(),
        }
    }

    fn encode(&self, writer: &mut Vec<u8>)
        requires
            self.wf(),
        ensures
            final(writer)@ == old(writer)@ + subheader_bytes(self.submode@),
    {
        writer.push(self.file.0);
        writer.push(self.channel.0);
        writer.push(self.submode.raw_value());
        writer.push(self.cinfo.raw);
        assert(writer@ =~= old(writer)@ + subheader_bytes(self.submode@));
    }
}

/// `s` cut, or zero-padded, to exactly `n` bytes.
pub open spec fn fit_to(s: Seq<u8>, n: nat) -> Seq<u8> {
    if s.len() >= n {
        s.take(n as int)
    } else {
        s + zeros((n - s.len()) as nat)
    }
}

/// Makes `buf` exactly `n` bytes long: longer content is cut, shorter
/// content is followed by zero bytes.
fn fit_buffer(buf: &mut Vec<u8>, n: usize)
    ensures
        final(buf)@ == fit_to(old(buf)@, n as nat),
{
    if buf.len() >= n {
        buf.truncate(n);
        assert(buf@ =~= fit_to(old(buf)@, n as nat));
    } else {
        let missing = n - buf.len();
        let fill = Fill::zero(missing);
        fill.encode(buf);
        assert(fill.encoding() =~= zeros(missing as nat));
    }
}

/// The part of a sector that its EDC covers: the subheader, its copy, and
/// the data, cut or zero-padded to `n` bytes.
pub open spec fn sector_region(submode: u8, data: Seq<u8>, n: nat) -> Seq<u8> {
    fit_to(subheader_bytes(submode) + subheader_bytes(submode) + data, n)
}

/// The bytes of a Mode2/Form1 sector whose header holds the address bytes `addr`.
pub open spec fn form1_bytes(addr: Seq<u8>, submode: u8, data: Seq<u8>) -> Seq<u8> {
    let region = sector_region(submode, data, 0x808);
    sync_bytes() + addr + seq![0x02u8] + region + crate::encoders::u32_le(edc(region)) + zeros(
        0x114,
    )
}

/// The bytes of a Mode2/Form2 sector whose header holds the address bytes `addr`.
pub open spec fn form2_bytes(addr: Seq<u8>, submode: u8, data: Seq<u8>) -> Seq<u8> {
    let region = sector_region(submode, data, 0x91c);
    sync_bytes() + addr + seq![0x02u8] + region + crate::encoders::u32_le(edc(region))
}

/// Writes the header and the EDC-covered part of a sector, with `n` bytes
/// in that part, and returns that part.
fn encode_sector_body<T: Encode>(
    writer: &mut Vec<u8>,
    header: &Header,
    subheader: &Subheader,
    data: &T,
    n: usize,
) -> (region: Vec<u8>)
    requires
        subheader.wf(),
        data.can_encode(),
    ensures
        region@ == sector_region(subheader.submode@, data.encoding(), n as nat),
        final(writer)@ == old(writer)@ + sync_bytes() + mss_bytes(header.mss) + seq![0x02u8]
            + region@,
{
    SyncHeader.encode(writer);
    header.encode(writer);

    let mut temp_buf: Vec<u8> = Vec::new();
    subheader.encode(&mut temp_buf);
    subheader.encode(&mut temp_buf);  // subheader copy
    data.encode(&mut temp_buf);
    // data beyond the capacity of the sector is cut off
    fit_buffer(&mut temp_buf, n);

    // commit data from temporary buffer
    write_all(writer, temp_buf.as_slice());
    assert(temp_buf@ =~= sector_region(subheader.submode@, data.encoding(), n as nat));
    temp_buf
}

/// ```plaintext
///  000h 0Ch  Sync   (00h,FFh,FFh,FFh,FFh,FFh,FFh,FFh,FFh,FFh,FFh,00h)
///  00Ch 4    Header (Minute,Second,Sector,Mode=02h)
///  010h 4    Sub-Header (File, Channel, Submode AND DFh, Codinginfo)
///  014h 4    Copy of Sub-Header
///  018h 800h Data (2048 bytes)
///  818h 4    EDC (checksum across [010h..817h])
///  81Ch 114h ECC (error correction codes)
/// ```
pub struct Form1Sector<T> {
    sync: SyncHeader,
    header: Header,
    subheader: Subheader,
    data: T,
    edc: u32,
    ecc: Todo,
}

impl<T> Form1Sector<T> {
    /// The address the sector is written with.
    pub closed spec fn mss(&self) -> Mss<Bcd> {
        self.header.mss
    }

    /// The submode byte of the sector.
    pub closed spec fn submode(&self) -> u8 {
        self.subheader.submode@
    }

    /// The data the sector carries.
    pub closed spec fn data(&self) -> T {
        self.data
    }

    /// Whether the sector was made by `new`.
    pub closed spec fn wf(&self) -> bool {
        self.subheader.wf()
    }

    #[must_use]
    pub fn new(data: T, mss: Mss<Bcd>, submode: Submode) -> (r: Self)
        ensures
            r.data() == data,
            r.mss() == mss,
            r.submode() == submode@ & 0xdf,
            r.wf(),
    {
        // a Form1 sector clears the Form2 bit: Submode AND DFh
        let subheader = Subheader::new(Submode::new_with_raw_value(submode.raw_value() & 0xdf));
        let header = Header { mss, mode: HeaderMode::Mode2 };

        Self { sync: SyncHeader, header, subheader, data, edc: 0, ecc: () }
    }
}

impl<T: Encode> Encode for Form1Sector<T> {
    open spec fn encoding(&self) -> Seq<u8> {
        form1_bytes(mss_bytes(self.mss()), self.submode(), self.data().encoding())
    }

    open spec fn can_encode(&self) -> bool {
        self.wf() && self.data().can_encode()
    }

    open spec fn reported_size(&self) -> nat {
        vstd::layout::size_of::<Self>()
    }

    fn size(&self) -> (n: usize) {
        core::mem::size_of::<Self>()
    }

    fn encode(&self, writer: &mut Vec<u8>) {
        let region = encode_sector_body(writer, &self.header, &self.subheader, &self.data, 0x808);

        let edc = edc_checksum(region.as_slice());
        edc.encode(writer);

        // self.ecc.encode(writer)?;
        let ecc = Fill::zero(0x114);
        ecc.encode(writer);
        assert(ecc.encoding() =~= zeros(0x114));
        assert(writer@ =~= old(writer)@ + self.encoding());
    }
}

/// ```plaintext
/// Mode2/Form2 (CD-XA)
///
///   000h 0Ch  Sync   (00h,FFh,FFh,FFh,FFh,FFh,FFh,FFh,FFh,FFh,FFh,00h)
///   00Ch 4    Header (Minute,Second,Sector,Mode=02h)
///   010h 4    Sub-Header (File, Channel, Submode OR 20h, Codinginfo)
///   014h 4    Copy of Sub-Header
///   018h 914h Data (2324 bytes)
///   92Ch 4    EDC (checksum across [010h..92Bh]) (or 00000000h if no EDC)
/// ```
pub struct Form2Sector<T> {
    sync: SyncHeader,
    header: Header,
    subheader: Subheader,
    data: T,
    edc: Todo,
}

impl<T> Form2Sector<T> {
    /// The address the sector is written with.
    pub closed spec fn mss(&self) -> Mss<Bcd> {
        self.header.mss
    }

    /// The submode byte of the sector.
    pub closed spec fn submode(&self) -> u8 {
        self.subheader.submode@
    }

    /// The data the sector carries.
    pub closed spec fn data(&self) -> T {
        self.data
    }

    /// Whether the sector was made by `new`.
    pub closed spec fn wf(&self) -> bool {
        self.subheader.wf()
    }

    #[must_use]
    pub fn new(data: T, mss: Mss<Bcd>, submode: Submode) -> (r: Self)
        ensures
            r.data() == data,
            r.mss() == mss,
            r.submode() == submode@ | 0x20,
            r.wf(),
    {
        // a Form2 sector sets the Form2 bit: Submode OR 20h
        Self {
            sync: SyncHeader,
            header: Header { mss, mode: HeaderMode::Mode2 },
            subheader: Subheader::new(Submode::new_with_raw_value(submode.raw_value() | 0x20)),
            data,
            edc: (),
        }
    }
}

impl<T: Encode> Encode for Form2Sector<T> {
    open spec fn encoding(&self) -> Seq<u8> {
        form2_bytes(mss_bytes(self.mss()), self.submode(), self.data().encoding())
    }

    open spec fn can_encode(&self) -> bool {
        self.wf() && self.data().can_encode()
    }

    open spec fn reported_size(&self) -> nat {
        vstd::layout::size_of::<Self>()
    }

    fn size(&self) -> (n: usize) {
        core::mem::size_of::<Self>()
    }

    fn encode(&self, writer: &mut Vec<u8>) {
        let region = encode_sector_body(writer, &self.header, &self.subheader, &self.data, 0x91c);

        let edc = edc_checksum(region.as_slice());
        edc.encode(writer);
        assert(writer@ =~= old(writer)@ + self.encoding());
    }
}

/// The layout of a Mode2/Form1 sector: sync bytes, the address and mode 2,
/// the subheader twice, the data cut or zero-padded to 0x800 bytes, the EDC
/// of bytes 010h..817h, and 114h zero bytes where the ECC goes.
pub proof fn lemma_form1_layout(addr: Seq<u8>, submode: u8, data: Seq<u8>)
    requires
        addr.len() == 3,
    ensures
        ({
            let b = form1_bytes(addr, submode, data);
            &&& b.subrange(0, 0x0c) == sync_bytes()
            &&& b.subrange(0x0c, 0x0f) == addr
            &&& b[0x0f] == 0x02
            &&& b.subrange(0x10, 0x14) == subheader_bytes(submode)
            &&& b.subrange(0x14, 0x18) == subheader_bytes(submode)
            &&& b.subrange(0x18, 0x818) == fit_to(data, 0x800)
            &&& b.subrange(0x818, 0x81c) == crate::encoders::u32_le(edc(b.subrange(0x10, 0x818)))
            &&& b.subrange(0x81c, 0x930) == zeros(0x114)
            &&& b.subrange(0, 0x0c) == seq![
                0x00u8,
                0xffu8,
                0xffu8,
                0xffu8,
                0xffu8,
                0xffu8,
                0xffu8,
                0xffu8,
                0xffu8,
                0xffu8,
                0xffu8,
                0x00u8,
            ]
            &&& b.subrange(0x10, 0x18) == seq![0u8, 0u8, submode, 0u8, 0u8, 0u8, submode, 0u8]
            &&& forall|i: int| 0x81c <= i < 0x930 ==> #[trigger] b[i] == 0
        }),
{
    let b = form1_bytes(addr, submode, data);
    let region = sector_region(submode, data, 0x808);
    let head = subheader_bytes(submode) + subheader_bytes(submode);
    assert(b.subrange(0x10, 0x818) =~= region);
    assert(b.subrange(0, 0x0c) =~= sync_bytes());
    assert(b.subrange(0x0c, 0x0f) =~= addr);
    assert(b.subrange(0x10, 0x14) =~= subheader_bytes(submode));
    assert(b.subrange(0x14, 0x18) =~= subheader_bytes(submode));
    assert(b.subrange(0x18, 0x818) =~= fit_to(data, 0x800));
    assert(b.subrange(0x818, 0x81c) =~= crate::encoders::u32_le(edc(region)));
    assert(b.subrange(0x81c, 0x930) =~= zeros(0x114));
    assert(b.subrange(0x10, 0x18) =~= seq![0u8, 0u8, submode, 0u8, 0u8, 0u8, submode, 0u8]);
    assert forall|i: int| 0x81c <= i < 0x930 implies #[trigger] b[i] == 0 by {
        assert(b[i] == b.subrange(0x81c, 0x930)[i - 0x81c]);
    }
}

/// The layout of a Mode2/Form2 sector: sync bytes, the address and mode 2,
/// the subheader twice, the data cut or zero-padded to 914h bytes, and the
/// EDC of bytes 010h..92Bh.
pub proof fn lemma_form2_layout(addr: Seq<u8>, submode: u8, data: Seq<u8>)
    requires
        addr.len() == 3,
    ensures
        ({
            let b = form2_bytes(addr, submode, data);
            &&& b.subrange(0, 0x0c) == sync_bytes()
            &&& b.subrange(0x0c, 0x0f) == addr
            &&& b[0x0f] == 0x02
            &&& b.subrange(0x10, 0x14) == subheader_bytes(submode)
            &&& b.subrange(0x14, 0x18) == subheader_bytes(submode)
            &&& b.subrange(0x18, 0x92c) == fit_to(data, 0x914)
            &&& b.subrange(0x92c, 0x930) == crate::encoders::u32_le(edc(b.subrange(0x10, 0x92c)))
            &&& b.subrange(0, 0x0c) == seq![
                0x00u8,
                0xffu8,
                0xffu8,
                0xffu8,
                0xffu8,
                0xffu8,
                0xffu8,
                0xffu8,
                0xffu8,
                0xffu8,
                0xffu8,
                0x00u8,
            ]
            &&& b.subrange(0x10, 0x18) == seq![0u8, 0u8, submode, 0u8, 0u8, 0u8, submode, 0u8]
        }),
{
    let b = form2_bytes(addr, submode, data);
    let region = sector_region(submode, data, 0x91c);
    assert(b.subrange(0x10, 0x92c) =~= region);
    assert(b.subrange(0, 0x0c) =~= sync_bytes());
    assert(b.subrange(0x0c, 0x0f) =~= addr);
    assert(b.subrange(0x10, 0x14) =~= subheader_bytes(submode));
    assert(b.subrange(0x14, 0x18) =~= subheader_bytes(submode));
    assert(b.subrange(0x18, 0x92c) =~= fit_to(data, 0x914));
    assert(b.subrange(0x92c, 0x930) =~= crate::encoders::u32_le(edc(region)));
    assert(b.subrange(0x10, 0x18) =~= seq![0u8, 0u8, submode, 0u8, 0u8, 0u8, submode, 0u8]);
}

/// The minute, second and sector of a sector address recompose its
/// position, for every sector whose minute fits in a byte.
#[verifier::spinoff_prover]
pub proof fn lemma_mss_parts_recompose(lba: int)
    requires
        0 <= lba,
        lba + 150 < 256 * 60 * 75,
    ensures
        ({
            let (min, sec, sect) = lba_to_mss_parts(lba);
            &&& min == (lba + 150) / 75 / 60
            &&& sec < 60
            &&& sect < 75
            &&& min * (60 * 75) + sec * 75 + sect == lba + 150
        }),
{
    let a: int = lba + 150;
    let q: int = a / 75;
    let m: int = q / 60;
    let sc: int = q % 60;
    let f: int = a % 75;
    assert(a == 75 * q + f && 0 <= f < 75) by {
        vstd::arithmetic::div_mod::lemma_fundamental_div_mod(a, 75);
    }
    assert(q == 60 * m + sc && 0 <= sc < 60) by {
        vstd::arithmetic::div_mod::lemma_fundamental_div_mod(q, 60);
    }
    assert(0 <= m < 256) by (nonlinear_arith)
        requires
            a == 75 * q + f,
            0 <= f < 75,
            q == 60 * m + sc,
            0 <= sc < 60,
            0 <= a < 1152000,
    ;
    assert(m * (60 * 75) + sc * 75 + f == a) by (nonlinear_arith)
        requires
            a == 75 * q + f,
            q == 60 * m + sc,
    ;
    let (min, sec, sect) = lba_to_mss_parts(lba);
    assert(min == m && sec == sc && sect == f);
}

/// Reading back the minute, second and sector of a sector gives the
/// sector again, for every sector whose minute fits in a byte.
pub proof fn lemma_mss_u8_roundtrip(lba: u32)
    requires
        lba + 150 < 256 * 60 * 75,
    ensures
        ({
            let (min, sec, sect) = lba_to_mss_parts(lba as int);
            saturating_sub(min * (60 * 75) + sec * 75 + sect, 150) == lba
        }),
{
    lemma_mss_parts_recompose(lba as int);
}

/// The sector that a minute, second and sector name gives back that same
/// minute, second and sector, for every valid address from 00:02:00 on.
#[verifier::spinoff_prover]
pub proof fn lemma_mss_u8_parts_roundtrip(min: u8, sec: u8, sect: u8)
    requires
        sec < 60,
        sect < 75,
        min * (60 * 75) + sec * 75 + sect >= 150,
    ensures
        lba_to_mss_parts(saturating_sub(min * (60 * 75) + sec * 75 + sect, 150)) == (
            min,
            sec,
            sect,
        ),
{
    let a: int = min * (60 * 75) + sec * 75 + sect;
    let q: int = min * 60 + sec;
    assert(a == q * 75 + sect) by (nonlinear_arith)
        requires
            a == min * (60 * 75) + sec * 75 + sect,
            q == min * 60 + sec,
    ;
    vstd::arithmetic::div_mod::lemma_fundamental_div_mod_converse(a, 75, q, sect as int);
    vstd::arithmetic::div_mod::lemma_fundamental_div_mod_converse(q, 60, min as int, sec as int);
    assert(saturating_sub(a, 150) + 150 == a);
}

/// The sector address that a cursor gives, in BCD, leads back to the
/// cursor's sector, for every sector before minute 100.
#[verifier::spinoff_prover]
pub proof fn lemma_cursor_mss_roundtrip(lba: u32)
    requires
        lba + 150 < 100 * 60 * 75,
    ensures
        ({
            let (min, sec, sect) = lba_to_mss_parts(lba as int);
            saturating_sub(
                bcd_unpack(bcd_pack(min)) * (60 * 75) + bcd_unpack(bcd_pack(sec)) * 75 + bcd_unpack(
                    bcd_pack(sect),
                ),
                150,
            ) == lba
        }),
{
    lemma_mss_parts_recompose(lba as int);
    let (min, sec, sect) = lba_to_mss_parts(lba as int);
    let total: int = min * (60 * 75) + sec * 75 + sect;
    assert(min < 100) by (nonlinear_arith)
        requires
            total == min * (60 * 75) + sec * 75 + sect,
            total < 100 * 60 * 75,
            sec >= 0,
            sect >= 0,
    ;
    let um = bcd_unpack(bcd_pack(min));
    let us = bcd_unpack(bcd_pack(sec));
    let uf = bcd_unpack(bcd_pack(sect));
    assert(um == min) by {
        lemma_bcd_roundtrip(min);
    }
    assert(us == sec) by {
        lemma_bcd_roundtrip(sec);
    }
    assert(uf == sect) by {
        lemma_bcd_roundtrip(sect);
    }
    assert(um * (60 * 75) + us * 75 + uf == lba + 150);
}

/// A Mode2/Form1 sector takes one whole raw sector, whatever its data.
pub proof fn lemma_form1_len(addr: Seq<u8>, submode: u8, data: Seq<u8>)
    requires
        addr.len() == 3,
    ensures
        form1_bytes(addr, submode, data).len() == SECTOR_RAW_SIZE,
{
}

/// A Mode2/Form2 sector takes one whole raw sector, whatever its data.
pub proof fn lemma_form2_len(addr: Seq<u8>, submode: u8, data: Seq<u8>)
    requires
        addr.len() == 3,
    ensures
        form2_bytes(addr, submode, data).len() == SECTOR_RAW_SIZE,
{
}


impl<'a, T: Encode> Encode for &'a T {
    open spec fn encoding(&self) -> Seq<u8> {
        (**self).encoding()
    }

    open spec fn can_encode(&self) -> bool {
        (**self).can_encode()
    }

    open spec fn reported_size(&self) -> nat {
        (**self).reported_size()
    }

    fn size(&self) -> (n: usize) {
        (**self).size()
    }

    fn encode(&self, writer: &mut Vec<u8>) {
        (**self).encode(writer)
    }
}

/// # System Area License String
///
/// ```plaintext
///   000h 32    Line 1      ("          Licensed  by          ")
///   020h 32+6  Line 2 (EU) ("Sony Computer Entertainment Euro"," pe   ") ;\either
///   020h 32+1  Line 2 (JP) ("Sony Computer Entertainment Inc.",0Ah)      ; one of
///   020h 32+6  Line 2 (US) ("Sony Computer Entertainment Amer","  ica ") ;/these
///   041h 1983  Empty (JP)    (filled by repeating pattern 62x30h,1x0Ah, 1x30h)
///   046h 1978  Empty (EU/US) (filled by 00h-bytes)
/// ```
#[derive(Debug, Clone, Copy, PartialEq, Eq, Structural)]
pub enum LicenseString {
    EU,
    JP,
    US,
}

/// The pattern that fills the rest of a Japanese licence sector: 62 times
/// `0`, a line feed, and `0` again.
pub open spec fn jp_fill_pattern() -> Seq<u8> {
    Seq::new(64, |i: int| if i == 62 { 0x0au8 } else { 0x30u8 })
}

impl Encode for LicenseString {
    open spec fn encoding(&self) -> Seq<u8> {
        let line1 = "          Licensed  by          ".spec_bytes();
        match self {
            LicenseString::EU => line1 + "Sony Computer Entertainment Euro".spec_bytes()
                + " pe   ".spec_bytes() + zeros(1978),
            LicenseString::JP => line1 + "Sony Computer Entertainment Inc.".spec_bytes() + seq![
                0x0au8,
            ] + repeat_pattern(jp_fill_pattern(), 1983),
            LicenseString::US => line1 + "Sony Computer Entertainment Amer".spec_bytes()
                + "  ica ".spec_bytes() + zeros(1978),
        }
    }

    open spec fn can_encode(&self) -> bool {
        true
    }

    open spec fn reported_size(&self) -> nat {
        vstd::layout::size_of::<Self>()
    }

    fn size(&self) -> (n: usize) {
        core::mem::size_of::<Self>()
    }

    fn encode(&self, writer: &mut Vec<u8>) {
        let licensed_by: &str = "          Licensed  by          ";

        licensed_by.encode(writer);

        match self {
            LicenseString::EU => {
                "Sony Computer Entertainment Euro".encode(writer);
                " pe   ".encode(writer);
            },
            LicenseString::JP => {
                let license_jp: &str = "Sony Computer Entertainment Inc.";
                license_jp.encode(writer);
                0x0Au8.encode(writer);
            },
            LicenseString::US => {
                "Sony Computer Entertainment Amer".encode(writer);
                "  ica ".encode(writer);
            },
        };
        match self {
            LicenseString::EU | LicenseString::US => {
                let fill = Fill::zero(1978);
                fill.encode(writer);
                assert(fill.encoding() =~= zeros(1978));
            },
            LicenseString::JP => {
                let pattern: &'static [u8] = &[
                    0x30, 0x30, 0x30, 0x30, 0x30, 0x30, 0x30, 0x30, 0x30, 0x30, 0x30, 0x30, 0x30,
                    0x30, 0x30, 0x30, 0x30, 0x30, 0x30, 0x30, 0x30, 0x30, 0x30, 0x30, 0x30, 0x30,
                    0x30, 0x30, 0x30, 0x30, 0x30, 0x30, 0x30, 0x30, 0x30, 0x30, 0x30, 0x30, 0x30,
                    0x30, 0x30, 0x30, 0x30, 0x30, 0x30, 0x30, 0x30, 0x30, 0x30, 0x30, 0x30, 0x30,
                    0x30, 0x30, 0x30, 0x30, 0x30, 0x30, 0x30, 0x30, 0x30, 0x30, 0x0a, 0x30,
                ];
                let fill = Fill::new(1983, pattern);
                fill.encode(writer);
                assert(pattern@ =~= jp_fill_pattern());
            },
        }
        assert(writer@ =~= old(writer)@ + self.encoding());
    }
}

/// The licence text of each region, at its place in the 0x800-byte block:
/// the "Licensed by" line, the company line, then for Europe and America
/// zero bytes from 046h to the end, and for Japan a line feed at 040h
/// followed by lines of 62 `0` digits, each ended by a line feed.
pub proof fn lemma_license_string_text(license: LicenseString)
    ensures
        ({
            let b = license.encoding();
            &&& b.len() == 0x800
            &&& b.subrange(0, 0x20) == "          Licensed  by          ".spec_bytes()
            &&& license is EU ==> b.subrange(0x20, 0x46)
                == "Sony Computer Entertainment Euro pe   ".spec_bytes()
            &&& license is US ==> b.subrange(0x20, 0x46)
                == "Sony Computer Entertainment Amer  ica ".spec_bytes()
            &&& (license is EU || license is US) ==> forall|i: int|
                0x46 <= i < 0x800 ==> #[trigger] b[i] == 0
            &&& license is JP ==> b.subrange(0x20, 0x40)
                == "Sony Computer Entertainment Inc.".spec_bytes()
            &&& license is JP ==> b[0x40] == 0x0a
            &&& license is JP ==> forall|i: int|
                0x41 <= i < 0x800 ==> #[trigger] b[i] == if (i - 0x41) % 64 == 62 {
                    0x0au8
                } else {
                    0x30u8
                }
        }),
{
    broadcast use vstd::string::group_string_axioms;

    lemma_license_string_len(license);
    reveal_strlit("          Licensed  by          ");
    reveal_strlit("Sony Computer Entertainment Euro");
    reveal_strlit(" pe   ");
    reveal_strlit("Sony Computer Entertainment Euro pe   ");
    reveal_strlit("Sony Computer Entertainment Inc.");
    reveal_strlit("Sony Computer Entertainment Amer");
    reveal_strlit("  ica ");
    reveal_strlit("Sony Computer Entertainment Amer  ica ");
    assert(vstd::string::is_ascii("          Licensed  by          "));
    assert(vstd::string::is_ascii("Sony Computer Entertainment Euro"));
    assert(vstd::string::is_ascii(" pe   "));
    assert(vstd::string::is_ascii("Sony Computer Entertainment Euro pe   "));
    assert(vstd::string::is_ascii("Sony Computer Entertainment Inc."));
    assert(vstd::string::is_ascii("Sony Computer Entertainment Amer"));
    assert(vstd::string::is_ascii("  ica "));
    assert(vstd::string::is_ascii("Sony Computer Entertainment Amer  ica "));
    let b = license.encoding();
    let line1 = "          Licensed  by          ".spec_bytes();
    assert(b.subrange(0, 0x20) =~= line1);
    match license {
        LicenseString::EU => {
            assert(b.subrange(0x20, 0x46) =~= "Sony Computer Entertainment Euro pe   ".spec_bytes());
        },
        LicenseString::US => {
            assert(b.subrange(0x20, 0x46) =~= "Sony Computer Entertainment Amer  ica ".spec_bytes());
        },
        LicenseString::JP => {
            assert(b.subrange(0x20, 0x40) =~= "Sony Computer Entertainment Inc.".spec_bytes());
            assert forall|i: int| 0x41 <= i < 0x800 implies #[trigger] b[i] == if (i - 0x41) % 64
                == 62 {
                0x0au8
            } else {
                0x30u8
            } by {
                assert(b[i] == repeat_pattern(jp_fill_pattern(), 1983)[i - 0x41]);
            }
        },
    }
}

/// Every licence string fills exactly one 0x800-byte data block.
pub proof fn lemma_license_string_len(license: LicenseString)
    ensures
        license.encoding().len() == 0x800,
{
    broadcast use vstd::string::group_string_axioms;

    reveal_strlit("          Licensed  by          ");
    reveal_strlit("Sony Computer Entertainment Euro");
    reveal_strlit(" pe   ");
    reveal_strlit("Sony Computer Entertainment Inc.");
    reveal_strlit("Sony Computer Entertainment Amer");
    reveal_strlit("  ica ");
    assert(vstd::string::is_ascii("          Licensed  by          "));
    assert(vstd::string::is_ascii("Sony Computer Entertainment Euro"));
    assert(vstd::string::is_ascii(" pe   "));
    assert(vstd::string::is_ascii("Sony Computer Entertainment Inc."));
    assert(vstd::string::is_ascii("Sony Computer Entertainment Amer"));
    assert(vstd::string::is_ascii("  ica "));
}


/// The three address bytes, in BCD, of the sector at `lba`.
pub open spec fn address_bytes(lba: int) -> Seq<u8> {
    let (min, sec, sect) = lba_address(lba);
    seq![min, sec, sect]
}

/// A sector address made by `DiscWrite::address` is written as the address
/// bytes of that sector.
pub proof fn lemma_address_bytes(m: Mss<Bcd>, lba: int)
    requires
        is_address_of(m, lba),
    ensures
        mss_bytes(m) == address_bytes(lba),
{
    assert(mss_bytes(m) =~= address_bytes(lba));
}

/// # System Area (prior to Volume Descriptors)
///
/// ```plaintext
/// The first 16 sectors on the first track are the system area, for a Playstation disk, it contains the following:
///
///   Sector 0..3   - Zerofilled (Mode2/Form1, 4x800h bytes, plus ECC/EDC)
///   Sector 4      - Licence String
///   Sector 5..11  - Playstation Logo (3278h bytes) (remaining bytes FFh-filled)
///   Sector 12..15 - Zerofilled (Mode2/Form2, 4x914h bytes, plus EDC)
/// ```
pub struct PsxSystemArea {
    /// see [`LicenseString`]
    pub license_string: LicenseString,
}

/// Sector `k` of a system area, written at `lba`.
pub open spec fn system_area_sector(license: LicenseString, k: int, lba: int) -> Seq<u8> {
    if k <= 3 {
        form1_bytes(address_bytes(lba), 0, zeros(0x800))
    } else if k == 4 {
        form1_bytes(address_bytes(lba), 0, license.encoding())
    } else if k <= 11 {
        form1_bytes(address_bytes(lba), 0, Seq::new(0x800, |i: int| 0xffu8))
    } else {
        form2_bytes(address_bytes(lba), 0x20, zeros(0x914))
    }
}

/// The first `n` sectors of a system area whose first sector is at `lba`.
pub open spec fn system_area_bytes(license: LicenseString, lba: int, n: nat) -> Seq<u8>
    decreases n,
{
    if n == 0 {
        Seq::empty()
    } else {
        system_area_bytes(license, lba, (n - 1) as nat) + system_area_sector(
            license,
            n - 1,
            lba + n - 1,
        )
    }
}

impl PsxSystemArea {
    /// Writes sector `k` of the system area.
    fn encode_sector(&self, writer: &mut Vec<u8>, k: usize)
        requires
            k < 16,
        ensures
            final(writer)@ == old(writer)@ + system_area_sector(
                self.license_string,
                k as int,
                old(writer)@.len() as int / SECTOR_RAW_SIZE as int,
            ),
    {
        let address = writer.address();
        proof {
            lemma_address_bytes(address, writer@.len() as int / SECTOR_RAW_SIZE as int);
            assert(0u8 & 0xdfu8 == 0u8 && 0u8 | 0x20u8 == 0x20u8) by (bit_vector);
        }
        if k <= 3 {
            let bytes_in_sector = 0x800;
            let fill = Fill::zero(bytes_in_sector);
            assert(fill.encoding() =~= zeros(0x800));
            let sector = Form1Sector::new(fill, address, Submode::new_with_raw_value(0));
            sector.encode(writer);
        } else if k == 4 {
            let license_string = Form1Sector::new(
                self.license_string,
                address,
                Submode::new_with_raw_value(0),
            );
            license_string.encode(writer);
        } else if k <= 11 {
            // logo area
            let bytes_in_sector = 0x800;
            let fill = Fill::new(bytes_in_sector, &[0xff]);
            assert(fill.encoding() =~= Seq::new(0x800, |i: int| 0xffu8));
            let sector = Form1Sector::new(fill, address, Submode::new_with_raw_value(0));
            sector.encode(writer);
        } else {
            let bytes_in_sector = 0x914;
            let fill = Fill::zero(bytes_in_sector);
            assert(fill.encoding() =~= zeros(0x914));
            let sector = Form2Sector::new(fill, address, Submode::new_with_raw_value(0));
            sector.encode(writer);
        }
    }

    /// Writes the sixteen sectors of the system area, each with the address
    /// of the sector it lands in.
    pub fn encode(&self, writer: &mut Vec<u8>)
        ensures
            final(writer)@ == old(writer)@ + system_area_bytes(
                self.license_string,
                old(writer)@.len() as int / SECTOR_RAW_SIZE as int,
                16,
            ),
    {
        let ghost start = old(writer)@.len() as int;
        let ghost lba0 = start / SECTOR_RAW_SIZE as int;
        let mut k: usize = 0;
        while k < 16
            invariant
                k <= 16,
                start == old(writer)@.len(),
                lba0 == start / SECTOR_RAW_SIZE as int,
                writer@ == old(writer)@ + system_area_bytes(self.license_string, lba0, k as nat),
                writer@.len() == start + k * SECTOR_RAW_SIZE,
            decreases 16 - k,
        {
            proof {
                lemma_system_area_sector_len(self.license_string, k as int, lba0 + k);
                assert((start + k * 0x930) / 0x930 == start / 0x930 + k) by (nonlinear_arith)
                    requires
                        start >= 0,
                        k >= 0,
                {
                    vstd::arithmetic::div_mod::lemma_div_plus_one(start, 0x930);
                    vstd::arithmetic::div_mod::lemma_fundamental_div_mod(start, 0x930);
                    vstd::arithmetic::div_mod::lemma_fundamental_div_mod_converse(
                        start + k * 0x930,
                        0x930,
                        start / 0x930 + k,
                        start % 0x930,
                    );
                }
            }
            self.encode_sector(writer, k);
            k = k + 1;
            assert(writer@ =~= old(writer)@ + system_area_bytes(self.license_string, lba0, k as nat));
        }
    }
}

/// Every sector of the system area is one whole raw sector.
pub proof fn lemma_system_area_sector_len(license: LicenseString, k: int, lba: int)
    ensures
        system_area_sector(license, k, lba).len() == SECTOR_RAW_SIZE,
{
    assert(address_bytes(lba).len() == 3);
}

/// The system area takes sixteen raw sectors: `n` sectors of it take `n`
/// raw sectors.
pub proof fn lemma_system_area_len(license: LicenseString, lba: int, n: nat)
    ensures
        system_area_bytes(license, lba, n).len() == n * SECTOR_RAW_SIZE,
    decreases n,
{
    if n > 0 {
        lemma_system_area_len(license, lba, (n - 1) as nat);
        lemma_system_area_sector_len(license, n - 1, lba + n - 1);
    }
}

/// Sector `k` of the first `n` sectors of a system area.
proof fn lemma_system_area_sector_at(license: LicenseString, lba: int, n: nat, k: int)
    requires
        0 <= k < n,
    ensures
        system_area_bytes(license, lba, n).subrange(k * 0x930, k * 0x930 + 0x930)
            == system_area_sector(license, k, lba + k),
    decreases n,
{
    let prev = system_area_bytes(license, lba, (n - 1) as nat);
    lemma_system_area_len(license, lba, (n - 1) as nat);
    lemma_system_area_sector_len(license, n - 1, lba + n - 1);
    let all = system_area_bytes(license, lba, n);
    if k == n - 1 {
        assert(all.subrange(k * 0x930, k * 0x930 + 0x930) =~= system_area_sector(license, k, lba + k));
    } else {
        lemma_system_area_sector_at(license, lba, (n - 1) as nat, k);
        assert(k * 0x930 + 0x930 <= (n - 1) * 0x930) by (nonlinear_arith)
            requires
                k < n - 1,
        ;
        assert(all.subrange(k * 0x930, k * 0x930 + 0x930) =~= prev.subrange(
            k * 0x930,
            k * 0x930 + 0x930,
        ));
    }
}

/// The EDC of zero bytes is zero.
pub proof fn lemma_edc_of_zeros(n: nat)
    ensures
        edc(Seq::new(n, |i: int| 0u8)) == 0,
    decreases n,
{
    if n > 0 {
        lemma_edc_of_zeros((n - 1) as nat);
        assert(Seq::new(n, |i: int| 0u8).drop_last() =~= Seq::new((n - 1) as nat, |i: int| 0u8));
        lemma_edc_steps_zero(8);
        assert(((0u32 ^ (0u8 as u32)) >> 8u32) ^ 0u32 == 0u32 && (0u32 ^ (0u8 as u32)) & 0xffu32
            == 0u32) by (bit_vector);
    }
}

/// What each sector of the system area holds: the sync bytes, its own
/// address and mode 2; then, for sectors 0 to 3, nothing but zero bytes
/// (subheaders, data, EDC and ECC); for sector 4 the licence string; for
/// sectors 5 to 11 data of FFh bytes; for sectors 12 to 15 (Form2) the
/// subheader with submode 20h and zero data. Each data area is followed by
/// the EDC of the bytes from 010h up to it.
pub proof fn lemma_system_area_sectors(license: LicenseString, lba: int, k: int)
    requires
        0 <= k < 16,
    ensures
        ({
            let s = system_area_bytes(license, lba, 16).subrange(k * 0x930, k * 0x930 + 0x930);
            &&& s.len() == 0x930
            &&& s.subrange(0, 0x0c) == seq![
                0x00u8,
                0xffu8,
                0xffu8,
                0xffu8,
                0xffu8,
                0xffu8,
                0xffu8,
                0xffu8,
                0xffu8,
                0xffu8,
                0xffu8,
                0x00u8,
            ]
            &&& s.subrange(0x0c, 0x0f) == address_bytes(lba + k)
            &&& s[0x0f] == 0x02
            &&& k <= 3 ==> forall|i: int| 0x10 <= i < 0x930 ==> #[trigger] s[i] == 0
            &&& k == 4 ==> s.subrange(0x18, 0x818) == license.encoding()
            &&& 5 <= k <= 11 ==> forall|i: int| 0x18 <= i < 0x818 ==> #[trigger] s[i] == 0xff
            &&& 4 <= k <= 11 ==> s.subrange(0x10, 0x18) == seq![0u8, 0u8, 0u8, 0u8, 0u8, 0u8, 0u8, 0u8]
            &&& 4 <= k <= 11 ==> s.subrange(0x818, 0x81c) == crate::encoders::u32_le(
                edc(s.subrange(0x10, 0x818)),
            )
            &&& 12 <= k ==> s.subrange(0x10, 0x18) == seq![0u8, 0u8, 0x20u8, 0u8, 0u8, 0u8, 0x20u8, 0u8]
            &&& 12 <= k ==> forall|i: int| 0x18 <= i < 0x92c ==> #[trigger] s[i] == 0
            &&& 12 <= k ==> s.subrange(0x92c, 0x930) == crate::encoders::u32_le(
                edc(s.subrange(0x10, 0x92c)),
            )
        }),
{
    lemma_system_area_sector_at(license, lba, 16, k);
    let s = system_area_bytes(license, lba, 16).subrange(k * 0x930, k * 0x930 + 0x930);
    let addr = address_bytes(lba + k);
    assert(addr.len() == 3);
    lemma_system_area_sector_len(license, k, lba + k);
    if k <= 11 {
        let data = if k <= 3 {
            zeros(0x800)
        } else if k == 4 {
            license.encoding()
        } else {
            Seq::new(0x800, |i: int| 0xffu8)
        };
        assert(s == form1_bytes(addr, 0, data));
        lemma_form1_layout(addr, 0, data);
        lemma_license_string_len(license);
        assert(fit_to(data, 0x800) =~= data);
        assert(s.subrange(0x10, 0x18) =~= s.subrange(0x10, 0x14) + s.subrange(0x14, 0x18));
        assert(s.subrange(0x10, 0x18) =~= seq![0u8, 0u8, 0u8, 0u8, 0u8, 0u8, 0u8, 0u8]);
        if k <= 3 {
            assert(s.subrange(0x10, 0x818) =~= Seq::new(0x808, |i: int| 0u8)) by {
                assert forall|i: int| 0x10 <= i < 0x818 implies s[i] == 0 by {
                    if i < 0x18 {
                        assert(s[i] == s.subrange(0x10, 0x18)[i - 0x10]);
                    } else {
                        assert(s[i] == s.subrange(0x18, 0x818)[i - 0x18]);
                    }
                }
            }
            lemma_edc_of_zeros(0x808);
            assert(crate::encoders::u32_le(0) == seq![0u8, 0u8, 0u8, 0u8]) by {
                assert((0u32 >> 8u32) as u8 == 0 && (0u32 >> 16u32) as u8 == 0 && (0u32 >> 24u32)
                    as u8 == 0) by (bit_vector);
            }
            assert forall|i: int| 0x10 <= i < 0x930 implies #[trigger] s[i] == 0 by {
                if i < 0x818 {
                    assert(s[i] == s.subrange(0x10, 0x818)[i - 0x10]);
                } else if i < 0x81c {
                    assert(s[i] == s.subrange(0x818, 0x81c)[i - 0x818]);
                } else {
                    assert(s[i] == s.subrange(0x81c, 0x930)[i - 0x81c]);
                }
            }
        } else if k >= 5 {
            assert forall|i: int| 0x18 <= i < 0x818 implies #[trigger] s[i] == 0xff by {
                assert(s[i] == s.subrange(0x18, 0x818)[i - 0x18]);
            }
        }
    } else {
        assert(s == form2_bytes(addr, 0x20, zeros(0x914)));
        lemma_form2_layout(addr, 0x20, zeros(0x914));
        assert(fit_to(zeros(0x914), 0x914) =~= zeros(0x914));
        assert(s.subrange(0x10, 0x18) =~= s.subrange(0x10, 0x14) + s.subrange(0x14, 0x18));
        assert(s.subrange(0x10, 0x18) =~= seq![0u8, 0u8, 0x20u8, 0u8, 0u8, 0u8, 0x20u8, 0u8]);
        assert forall|i: int| 0x18 <= i < 0x92c implies #[trigger] s[i] == 0 by {
            assert(s[i] == s.subrange(0x18, 0x92c)[i - 0x18]);
        }
    }
}

/// Writes a primary volume descriptor as one Mode2/Form2 sector, with the
/// address of the sector it lands in.
pub fn write_primary_volumde_descriptor(
    w: &mut Vec<u8>,
    desc: &crate::iso9660::vol_desc::PrimaryVolumeDescriptor,
)
    requires
        desc.can_encode(),
    ensures
        final(w)@ == old(w)@ + form2_bytes(
            address_bytes(old(w)@.len() as int / SECTOR_RAW_SIZE as int),
            0x20,
            desc.encoding(),
        ),
{
    let address = w.address();
    proof {
        lemma_address_bytes(address, w@.len() as int / SECTOR_RAW_SIZE as int);
        assert(0u8 | 0x20u8 == 0x20u8) by (bit_vector);
    }
    let sector = Form2Sector::new(desc, address, Submode::new_with_raw_value(0));
    sector.encode(w);
}

} // verus!
