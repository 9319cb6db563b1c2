use vstd::prelude::*;

use crate::encoders::{
    lemma_concat_encodings_pair, str_to_ascii_buf, u16_le, u32_le, zeros, BigEndian, Encode,
    FillConst, StrToAsciiError,
};
use crate::iso9660::{DiscWrite, SECTOR_RAW_SIZE};
use vstd::string::StringSliceAdditionalSpecFns;

verus! {

/// # Directory Record
///
/// The location of the Root Directory is described by a 34-byte Directory Record
/// being located in Primary Volume Descriptor entries 09Ch..0BDh. The data
/// therein is: Block Number (usually 22 on PSX disks), LEN_FI=01h, Name=00h, and,
/// LEN_SU=00h (due to the 34-byte limit).
/// ```plaintext
///  00h 1      Length of Directory Record (LEN_DR) (33+LEN_FI+pad+LEN_SU) (0=Pad)
///  01h 1      Extended Attribute Record Length (usually 00h)
///  02h 8      Data Logical Block Number (2x32bit)
///  0Ah 8      Data Size in Bytes        (2x32bit)
///  12h 7      Recording Timestamp       (yy-1900,mm,dd,hh,mm,ss,timezone)
///  19h 1      File Flags 8 bits         (usually 00h=File, or 02h=Directory)
///  1Ah 1      File Unit Size            (usually 00h)
///  1Bh 1      Interleave Gap Size       (usually 00h)
///  1Ch 4      Volume Sequence Number    (2x16bit, usually 0001h)
///  20h 1      Length of Name            (LEN_FI)
///  21h LEN_FI File/Directory Name ("FILENAME.EXT;1" or "DIR_NAME" or 00h or 01h)
///  xxh 0..1   Padding Field (00h) (only if LEN_FI is even)
///  xxh LEN_SU System Use (LEN_SU bytes) (see below for CD-XA disks)
/// ```
pub struct DirectoryRecord {
    len: u8,
    ext_attr_record_len: u8,
    data_lba: [u32; 2],
    data_bytes_len: [u32; 2],
    timestamp: Timestamp,
    flags: FileFlags,
    file_unit_size: u8,
    interleave_gap_size: u8,
    vol_seq_num: [u16; 2],
    ///  - `20h 1      Length of Name            (LEN_FI)`
    ///  - `21h LEN_FI File/Directory Name ("FILENAME.EXT;1" or "DIR_NAME" or 00h or 01h)`
    filename: FileName,
    filename_padding: FileNamePadding,
    system_use: SystemUse,
}

/// The seven bytes of a recording time: years since 1900, month, day,
/// hour, minute, second, and time zone.
#[derive(Debug, Clone, Copy)]
pub struct Timestamp {
    pub year: u8,
    pub month: u8,
    pub day: u8,
    pub hour: u8,
    pub min: u8,
    pub sec: u8,
    pub timezone: u8,
}

/// Whether `y` is a leap year of the Gregorian calendar.
pub open spec fn is_leap_year(y: int) -> bool {
    y % 4 == 0 && (y % 100 != 0 || y % 400 == 0)
}

/// The number of days of year `y`.
pub open spec fn year_len(y: int) -> int {
    if is_leap_year(y) {
        366
    } else {
        365
    }
}

/// The number of days of month `m` (1 to 12) of year `y`.
pub open spec fn month_len(y: int, m: int) -> int {
    if m == 2 {
        if is_leap_year(y) {
            29
        } else {
            28
        }
    } else if m == 4 || m == 6 || m == 9 || m == 11 {
        30
    } else {
        31
    }
}

/// The number of days from the first day of month `m` to the end of year `y`.
pub open spec fn days_left_from_month(y: int, m: int) -> int
    decreases 13 - m,
{
    if m > 12 || m < 1 {
        0
    } else {
        month_len(y, m) + days_left_from_month(y, m + 1)
    }
}

/// The month and the day of the month of day `days` (counted from 0) of
/// year `y`, searching from month `m`.
pub open spec fn month_and_day(y: int, days: int, m: int) -> (int, int)
    decreases 13 - m,
{
    if m >= 12 || m < 1 || days < month_len(y, m) {
        (m, days + 1)
    } else {
        month_and_day(y, days - month_len(y, m), m + 1)
    }
}

/// The year, month and day of day `days` (counted from 0) after the first
/// day of year `y`.
pub open spec fn civil_date(y: int, days: int) -> (int, int, int)
    decreases days,
{
    if days < year_len(y) || days < 0 {
        let (m, d) = month_and_day(y, days, 1);
        (y, m, d)
    } else {
        civil_date(y + 1, days - year_len(y))
    }
}

/// The recording time, in UTC, of `secs` seconds after 1970-01-01 00:00:00;
/// the year is counted from 1900 and cut to a byte.
pub open spec fn unix_timestamp(secs: u64) -> Timestamp {
    let days = secs / 86400;
    let rem = secs % 86400;
    let (y, m, d) = civil_date(1970, days as int);
    Timestamp {
        year: (y - 1900) as u8,
        month: m as u8,
        day: d as u8,
        hour: (rem / 3600) as u8,
        min: (rem % 3600 / 60) as u8,
        sec: (rem % 60) as u8,
        timezone: 0,
    }
}

fn is_leap(y: u64) -> (r: bool)
    ensures
        r == is_leap_year(y as int),
{
    y % 4 == 0 && (y % 100 != 0 || y % 400 == 0)
}

fn days_in_year(y: u64) -> (r: u64)
    ensures
        r == year_len(y as int),
{
    if is_leap(y) {
        366
    } else {
        365
    }
}

fn days_in_month(y: u64, m: u64) -> (r: u64)
    ensures
        r == month_len(y as int, m as int),
{
    if m == 2 {
        if is_leap(y) {
            29
        } else {
            28
        }
    } else if m == 4 || m == 6 || m == 9 || m == 11 {
        30
    } else {
        31
    }
}

impl Timestamp {
    /// The recording time, in UTC, of `secs` seconds after the Unix epoch.
    pub fn from_unix_seconds(secs: u64) -> (t: Self)
        ensures
            t == unix_timestamp(secs),
    {
        let mut days = secs / 86400;
        let rem = secs % 86400;
        let ghost days0 = days as int;
        let mut year: u64 = 1970;
        while days >= days_in_year(year)
            invariant
                days0 <= u64::MAX / 86400,
                1970 <= year <= 1970 + days0,
                days <= days0,
                year - 1970 + days <= days0,
                civil_date(1970, days0) == civil_date(year as int, days as int),
            decreases days,
        {
            days = days - days_in_year(year);
            year = year + 1;
        }
        assert(days < year_len(year as int));
        let ghost md = month_and_day(year as int, days as int, 1);
        let mut month: u64 = 1;
        while month < 12 && days >= days_in_month(year, month)
            invariant
                1 <= month <= 12,
                days < 366,
                month_and_day(year as int, days as int, month as int) == md,
            decreases 12 - month,
        {
            days = days - days_in_month(year, month);
            month = month + 1;
        }
        Timestamp {
            year: (year - 1900) as u8,
            month: month as u8,
            day: (days + 1) as u8,
            hour: (rem / 3600) as u8,
            min: (rem % 3600 / 60) as u8,
            sec: (rem % 60) as u8,
            timezone: 0,
        }
    }
}

/// The number of leap years of the Gregorian calendar from year 1 up to,
/// but not including, year `y`: every fourth year, but not every
/// hundredth, yet every four hundredth.
pub open spec fn leap_years_before(y: int) -> int {
    (y - 1) / 4 - (y - 1) / 100 + (y - 1) / 400
}

/// Whether year `y` is one of the leap years that `leap_years_before` counts.
pub open spec fn gregorian_leap(y: int) -> bool {
    leap_years_before(y + 1) - leap_years_before(y) == 1
}

/// The number of days in the months before month `m` (1 to 13) of a
/// common year: January 31, February 28, March 31, April 30, May 31,
/// June 30, July 31, August 31, September 30, October 31, November 30,
/// December 31.
pub open spec fn common_days_before_month(m: int) -> int {
    if m <= 1 {
        0
    } else if m == 2 {
        31
    } else if m == 3 {
        59
    } else if m == 4 {
        90
    } else if m == 5 {
        120
    } else if m == 6 {
        151
    } else if m == 7 {
        181
    } else if m == 8 {
        212
    } else if m == 9 {
        243
    } else if m == 10 {
        273
    } else if m == 11 {
        304
    } else if m == 12 {
        334
    } else {
        365
    }
}

/// The number of days of month `m` of year `y` in the Gregorian calendar.
pub open spec fn gregorian_month_days(y: int, m: int) -> int {
    common_days_before_month(m + 1) - common_days_before_month(m) + if m == 2 && gregorian_leap(
        y,
    ) {
        1int
    } else {
        0int
    }
}

/// The days from the start of year `y` to the start of month `m` of it.
pub open spec fn days_before_month(y: int, m: int) -> int {
    common_days_before_month(m) + if m > 2 && gregorian_leap(y) {
        1int
    } else {
        0int
    }
}

/// The days from 1970-01-01 to the start of year `y`.
pub open spec fn days_before_year(y: int) -> int {
    365 * (y - 1970) + leap_years_before(y) - leap_years_before(1970)
}

/// The number of the day `d` of month `m` of year `y`, counted from
/// 1970-01-01, which is day 0.
pub open spec fn day_number(y: int, m: int, d: int) -> int {
    days_before_year(y) + days_before_month(y, m) + d - 1
}

/// How many multiples of `c` lie in `y - 1 < x <= y`.
proof fn lemma_div_step(y: int, c: int)
    requires
        y >= 1,
        c > 0,
    ensures
        y / c - (y - 1) / c == if y % c == 0 {
            1int
        } else {
            0int
        },
{
    vstd::arithmetic::div_mod::lemma_fundamental_div_mod(y, c);
    vstd::arithmetic::div_mod::lemma_fundamental_div_mod(y - 1, c);
    vstd::arithmetic::div_mod::lemma_mod_pos_bound(y, c);
    vstd::arithmetic::div_mod::lemma_mod_pos_bound(y - 1, c);
    let q = y / c;
    let r = y % c;
    assert(y == c * q + r);
    if y % c == 0 {
        assert(y - 1 == (q - 1) * c + (c - 1)) by (nonlinear_arith)
            requires
                y == c * q + r,
                r == 0,
        ;
        vstd::arithmetic::div_mod::lemma_fundamental_div_mod_converse(y - 1, c, y / c - 1, c - 1);
    } else {
        assert(y - 1 == q * c + (r - 1)) by (nonlinear_arith)
            requires
                y == c * q + r,
        ;
        vstd::arithmetic::div_mod::lemma_fundamental_div_mod_converse(
            y - 1,
            c,
            y / c,
            y % c - 1,
        );
    }
}

/// The leap years that `is_leap_year` names are those that
/// `leap_years_before` counts.
proof fn lemma_leap_agrees(y: int)
    requires
        y >= 1,
    ensures
        is_leap_year(y) <==> gregorian_leap(y),
        leap_years_before(y + 1) - leap_years_before(y) == if is_leap_year(y) {
            1int
        } else {
            0int
        },
{
    lemma_div_step(y, 4);
    lemma_div_step(y, 100);
    lemma_div_step(y, 400);
    assert(y % 100 == 0 ==> y % 4 == 0) by {
        vstd::arithmetic::div_mod::lemma_fundamental_div_mod(y, 100);
        vstd::arithmetic::div_mod::lemma_fundamental_div_mod(y, 4);
    }
    assert(y % 400 == 0 ==> y % 100 == 0) by {
        vstd::arithmetic::div_mod::lemma_fundamental_div_mod(y, 400);
        vstd::arithmetic::div_mod::lemma_fundamental_div_mod(y, 100);
    }
}

/// The months walked from month `m` on land on a real day of a real month.
proof fn lemma_month_and_day_valid(y: int, days: int, m: int)
    requires
        y >= 1,
        1 <= m <= 12,
        0 <= days,
        days_before_month(y, m) + days < year_len(y),
    ensures
        ({
            let (m2, d2) = month_and_day(y, days, m);
            &&& 1 <= m2 <= 12
            &&& 1 <= d2 <= gregorian_month_days(y, m2)
            &&& days_before_month(y, m2) + d2 - 1 == days_before_month(y, m) + days
        }),
    decreases 13 - m,
{
    lemma_leap_agrees(y);
    assert(month_len(y, m) == gregorian_month_days(y, m));
    if m >= 12 || days < month_len(y, m) {
    } else {
        lemma_month_and_day_valid(y, days - month_len(y, m), m + 1);
    }
}

/// The date that counting `days` days from the start of year `y` reaches
/// is a real day, `days` days after that start.
proof fn lemma_civil_date_valid(y: int, days: int)
    requires
        y >= 1970,
        0 <= days,
    ensures
        ({
            let (y2, m2, d2) = civil_date(y, days);
            &&& y2 >= y
            &&& 1 <= m2 <= 12
            &&& 1 <= d2 <= gregorian_month_days(y2, m2)
            &&& day_number(y2, m2, d2) == days_before_year(y) + days
        }),
    decreases days,
{
    lemma_leap_agrees(y);
    if days < year_len(y) {
        lemma_month_and_day_valid(y, days, 1);
    } else {
        lemma_civil_date_valid(y + 1, days - year_len(y));
    }
}

/// At least 365 days pass in each year from 1970 on.
proof fn lemma_days_before_year_grows(y: int)
    requires
        y >= 1970,
    ensures
        days_before_year(y) >= 365 * (y - 1970),
    decreases y - 1970,
{
    if y > 1970 {
        lemma_days_before_year_grows(y - 1);
        lemma_leap_agrees(y - 1);
    }
}

/// The recording time of a Unix time is its date in the Gregorian calendar
/// and its time of day: a real month and a real day of that month, whose
/// day number since 1970-01-01 is the number of whole days in `secs`, and
/// the hours, minutes and seconds of the rest; for every time before the
/// year 2156, the last whose year fits the record.
pub proof fn lemma_unix_timestamp_is_gregorian(secs: u64)
    requires
        secs / 86400 < days_before_year(2156),
    ensures
        ({
            let t = unix_timestamp(secs);
            let y = t.year + 1900;
            &&& 1 <= t.month <= 12
            &&& 1 <= t.day <= gregorian_month_days(y, t.month as int)
            &&& day_number(y, t.month as int, t.day as int) == secs / 86400
            &&& t.hour < 24
            &&& t.min < 60
            &&& t.sec < 60
            &&& t.hour * 3600 + t.min * 60 + t.sec == secs % 86400
            &&& t.timezone == 0
        }),
{
    let n = (secs / 86400) as int;
    let rem = (secs % 86400) as int;
    lemma_civil_date_valid(1970, n);
    let (y2, m2, d2) = civil_date(1970, n);
    assert(days_before_year(2156) == 67935);
    lemma_days_before_year_grows(y2);
    assert(days_before_month(y2, m2) >= 0);
    if y2 >= 2157 {
        assert(365 * (y2 - 1970) >= 365 * 187);
    } else if y2 == 2156 {
    }
    assert(y2 <= 2155);
    let t = unix_timestamp(secs);
    assert(t.year == y2 - 1900);
    assert(t.month == m2);
    assert(t.day == d2);
    vstd::arithmetic::div_mod::lemma_fundamental_div_mod(rem, 3600);
    vstd::arithmetic::div_mod::lemma_fundamental_div_mod(rem % 3600, 60);
    vstd::arithmetic::div_mod::lemma_mod_mod(rem, 60, 60);
    assert(rem % 60 == (rem % 3600) % 60) by {
        vstd::arithmetic::div_mod::lemma_mod_mod(rem, 60, 60);
        vstd::arithmetic::div_mod::lemma_mod_breakdown(rem, 60, 60);
    }
}

/// The bytes of a recording time.
pub open spec fn timestamp_bytes(t: Timestamp) -> Seq<u8> {
    seq![t.year, t.month, t.day, t.hour, t.min, t.sec, t.timezone]
}

impl Encode for Timestamp {
    open spec fn encoding(&self) -> Seq<u8> {
        timestamp_bytes(*self)
    }

    open spec fn can_encode(&self) -> bool {
        true
    }

    open spec fn reported_size(&self) -> nat {
        7
    }

    fn size(&self) -> (n: usize) {
        7
    }

    fn encode(&self, writer: &mut Vec<u8>) {
        writer.push(self.year);
        writer.push(self.month);
        writer.push(self.day);
        writer.push(self.hour);
        writer.push(self.min);
        writer.push(self.sec);
        writer.push(self.timezone);
        assert(writer@ =~= old(writer)@ + self.encoding());
    }
}

/// Whether a directory record stands for a file or a directory.
#[derive(Debug, Clone, Copy, PartialEq, Eq, Structural)]
pub enum FileFlags {
    File,
    Directory,
}

impl FileFlags {
    /// The flag byte: 00h for a file, 02h for a directory.
    pub open spec fn spec_value(self) -> u8 {
        match self {
            FileFlags::File => 0x00,
            FileFlags::Directory => 0x02,
        }
    }

    pub fn value(&self) -> (r: u8)
        ensures
            r == self.spec_value(),
    {
        match self {
            FileFlags::File => 0x00,
            FileFlags::Directory => 0x02,
        }
    }
}

/// The name of a file or directory: up to 14 ASCII bytes.
pub struct FileName {
    len: u8,
    name: [u8; 14],
}

impl FileName {
    /// The number of bytes of the name.
    pub closed spec fn name_len(&self) -> u8 {
        self.len
    }

    /// The bytes of the name.
    pub closed spec fn name_bytes(&self) -> Seq<u8> {
        self.name@.take(self.len as int)
    }

    /// Whether the length lies within the buffer.
    pub closed spec fn wf(&self) -> bool {
        self.len <= 14
    }

    /// Makes a name of the first 14 bytes, at most, of an ASCII string.
    pub fn from_ascii_str(s: &str) -> (r: Result<Self, StrToAsciiError>)
        ensures
            r is Ok <==> vstd::string::is_ascii(s),
            r matches Ok(n) ==> {
                &&& n.wf()
                &&& n.name_len() == if s.spec_bytes().len() < 14 {
                    s.spec_bytes().len()
                } else {
                    14
                }
                &&& n.name_bytes() == s.spec_bytes().take(n.name_len() as int)
            },
            r matches Err(StrToAsciiError::NotAscii(m)) ==> m@ == s@,
    {
        let name = match str_to_ascii_buf::<14>(s) {
            Ok(name) => name,
            Err(e) => return Err(e),
        };
        let n = s.as_bytes().len();
        let len: u8 = if n < 14 {
            n as u8
        } else {
            14
        };
        let r = FileName { len, name };
        assert(r.name_bytes() =~= s.spec_bytes().take(len as int));
        Ok(r)
    }

    /// Writes the length byte, then the name.
    fn encode(&self, writer: &mut Vec<u8>)
        requires
            self.wf(),
        ensures
            final(writer)@ == old(writer)@ + seq![self.name_len()] + self.name_bytes(),
    {
        writer.push(self.len);
        let mut i: usize = 0;
        while i < self.len as usize
            invariant
                self.len <= 14,
                i <= self.len,
                writer@ == old(writer)@ + seq![self.len] + self.name@.take(i as int),
            decreases self.len - i,
        {
            writer.push(self.name[i]);
            i = i + 1;
            assert(self.name@.take(i as int) =~= self.name@.take(i - 1).push(self.name@[i - 1]));
        }
    }
}

/// The padding byte after a name of even length.
pub struct FileNamePadding {
    pub even: bool,
}

impl FileNamePadding {
    pub fn from_filename(file_name: &FileName) -> (r: Self)
        ensures
            r.even == (file_name.name_len() % 2 == 0),
    {
        Self { even: file_name.len % 2 == 0 }
    }

    pub fn encode(&self, writer: &mut Vec<u8>)
        ensures
            final(writer)@ == old(writer)@ + padding_bytes(self.even),
    {
        if self.even {
            0x0u8.encode(writer);
        } else {
            assert(writer@ =~= old(writer)@ + padding_bytes(self.even));
        }
    }
}

/// One zero byte after a name of even length, else nothing.
pub open spec fn padding_bytes(even: bool) -> Seq<u8> {
    if even {
        seq![0x00u8]
    } else {
        Seq::empty()
    }
}

/// The two bytes `"XA"`.
pub open spec fn xa_bytes() -> Seq<u8> {
    seq![0x58u8, 0x41u8]
}

/// ```plaintext
///  00h 2      Owner ID Group  (whatever, usually 0000h, big endian)
///  02h 2      Owner ID User   (whatever, usually 0000h, big endian)
///  04h 2      File Attributes (big endian):
///  06h 2      Signature     ("XA")
///  08h 1      File Number   (Must match Subheader's File Number)
///  09h 5      Reserved      (00h-filled)
/// ```
pub struct SystemUse {
    owner_id_group: FillConst<0x0, 2>,
    owner_id_user: FillConst<0x0, 2>,
    file_attr: FileAttributes,
    signature: Signature,
    file_number: u8,
    zerofill: FillConst<0x0, 5>,
}

/// The fourteen system-use bytes of a record.
pub open spec fn system_use_bytes(file_attr: u16, file_number: u8) -> Seq<u8> {
    zeros(2) + zeros(2) + u16_le(file_attr).reverse() + xa_bytes() + seq![file_number] + zeros(5)
}

impl SystemUse {
    /// The file attributes.
    pub closed spec fn attributes(&self) -> u16 {
        self.file_attr@
    }

    /// The file number.
    pub closed spec fn number(&self) -> u8 {
        self.file_number
    }

    pub fn new(file_attr: FileAttributes, file_number: u8) -> (r: Self)
        ensures
            r.attributes() == file_attr@,
            r.number() == file_number,
    {
        SystemUse {
            owner_id_group: FillConst,
            owner_id_user: FillConst,
            file_attr,
            signature: Signature,
            file_number,
            zerofill: FillConst,
        }
    }

    fn encode(&self, writer: &mut Vec<u8>)
        ensures
            final(writer)@ == old(writer)@ + system_use_bytes(self.attributes(), self.number()),
    {
        self.owner_id_group.encode(writer);
        self.owner_id_user.encode(writer);
        self.file_attr.encode(writer);
        self.signature.encode(writer);
        self.file_number.encode(writer);
        self.zerofill.encode(writer);
        assert(self.owner_id_group.encoding() =~= zeros(2));
        assert(self.zerofill.encoding() =~= zeros(5));
        assert(writer@ =~= old(writer)@ + system_use_bytes(self.attributes(), self.number()));
    }
}

impl Default for SystemUse {
    fn default() -> (r: Self)
        ensures
            r.attributes() == 0,
            r.number() == 0,
    {
        SystemUse::new(FileAttributes::new_with_raw_value(0), 0)
    }
}

/// ```plaintext
///    0   Owner Read    (usually 1)
///    1   Reserved      (0)
///    2   Owner Execute (usually 1)
///    3   Reserved      (0)
///    4   Group Read    (usually 1)
///    5   Reserved      (0)
///    6   Group Execute (usually 1)
///    7   Reserved      (0)
///    8   World Read    (usually 1)
///    9   Reserved      (0)
///    10  World Execute (usually 1)
///    11  IS_MODE2        (0=MODE1 or CD-DA, 1=MODE2)
///    12  IS_MODE2_FORM2  (0=FORM1, 1=FORM2)
///    13  IS_INTERLEAVED  (0=No, 1=Yes...?) (by file and/or channel?)
///    14  IS_CDDA         (0=Data or ADPCM, 1=CD-DA Audio Track)
///    15  IS_DIRECTORY    (0=File or CD-DA, 1=Directory Record)
///  Commonly used Attributes are:
///    0D55h=Normal Binary File (with 800h-byte sectors)
///    1555h=Uncommon           (fade to black .DPS and .XA files)
///    2555h=Uncommon           (wipeout .AV files) (MODE1 ??)
///    4555h=CD-DA Audio Track  (wipeout .SWP files, alone .WAV file)
///    3D55h=Streaming File     (ADPCM and/or MDEC or so)
///    8D55h=Directory Record   (parent-, current-, or sub-directory)
/// ```
#[derive(Debug, Clone, Copy, PartialEq, Eq, Structural)]
pub struct FileAttributes {
    raw: u16,
}

impl View for FileAttributes {
    type V = u16;

    closed spec fn view(&self) -> u16 {
        self.raw
    }
}

/// Whether bit `i` of `raw` is set.
pub open spec fn attr_bit(raw: u16, i: u16) -> bool {
    (raw >> i) & 1 == 1
}

impl FileAttributes {
    pub fn new_with_raw_value(value: u16) -> (r: Self)
        ensures
            r@ == value,
    {
        FileAttributes { raw: value }
    }

    pub fn raw_value(&self) -> (r: u16)
        ensures
            r == self@,
    {
        self.raw
    }

    /// Whether bit `i` is set.
    pub fn bit(&self, i: u16) -> (r: bool)
        requires
            i < 16,
        ensures
            r == attr_bit(self@, i),
    {
        (self.raw >> i) & 1 == 1
    }

    /// A copy with bit `i` set to `value`.
    pub fn with_bit(self, i: u16, value: bool) -> (r: Self)
        requires
            i < 16,
        ensures
            attr_bit(r@, i) == value,
            forall|j: u16| j < 16 && j != i ==> attr_bit(r@, j) == attr_bit(self@, j),
    {
        let raw = self.raw;
        let mask: u16 = 1u16 << i;
        let r = if value {
            raw | mask
        } else {
            raw & !mask
        };
        assert(((raw | (1u16 << i)) >> i) & 1 == 1 && ((raw & !(1u16 << i)) >> i) & 1 == 0)
            by (bit_vector)
            requires
                i < 16,
        ;
        assert(forall|j: u16|
            j < 16 && j != i ==> ((raw | (1u16 << i)) >> j) & 1 == (raw >> j) & 1 && ((raw & !(1u16
                << i)) >> j) & 1 == (raw >> j) & 1) by (bit_vector)
            requires
                i < 16,
        ;
        FileAttributes { raw: r }
    }
}

impl Encode for FileAttributes {
    open spec fn encoding(&self) -> Seq<u8> {
        u16_le(self@).reverse()
    }

    open spec fn can_encode(&self) -> bool {
        true
    }

    open spec fn reported_size(&self) -> nat {
        2
    }

    fn size(&self) -> (n: usize) {
        2
    }

    fn encode(&self, writer: &mut Vec<u8>) {
        let value = self.raw_value();
        BigEndian(value).encode(writer);
        assert(self.encoding() == u16_le(value).reverse());
    }
}

struct Signature;

impl Encode for Signature {
    open spec fn encoding(&self) -> Seq<u8> {
        xa_bytes()
    }

    open spec fn can_encode(&self) -> bool {
        true
    }

    open spec fn reported_size(&self) -> nat {
        vstd::layout::size_of::<Self>()
    }

    fn size(&self) -> (n: usize) {
        core::mem::size_of::<Self>()
    }

    fn encode(&self, writer: &mut Vec<u8>) {
        writer.push(0x58);
        writer.push(0x41);
        assert(writer@ =~= old(writer)@ + self.encoding());
    }
}

/// What a directory record is made from.
pub struct DirectoryRecordBuilder {
    pub filename: FileName,
    pub system_use: SystemUse,
    pub data_lba: [u32; 2],
    pub data_size: [u32; 2],
    pub timestamp: Timestamp,
    pub flags: FileFlags,
}

/// The length of a directory record whose name takes `name_len` bytes:
/// 33 bytes, the name, a padding byte after a name of even length, and 14
/// system-use bytes.
pub open spec fn record_len(name_len: nat) -> int {
    33 + name_len + (if name_len % 2 == 0 {
        1int
    } else {
        0int
    }) + 14
}

/// The bytes of a directory record for the name `name`, the data at
/// `data_lba` of `data_size` bytes (each written twice), the time `t`, the
/// flag byte `flags`, and the system-use attributes and file number.
pub open spec fn directory_record_bytes(
    name: Seq<u8>,
    data_lba: (u32, u32),
    data_size: (u32, u32),
    t: Timestamp,
    flags: u8,
    attributes: u16,
    file_number: u8,
) -> Seq<u8> {
    seq![record_len(name.len()) as u8, 0x00u8] + u32_le(data_lba.0) + u32_le(data_lba.1) + u32_le(
        data_size.0,
    ) + u32_le(data_size.1) + timestamp_bytes(t) + seq![flags, 0x00u8, 0x00u8] + u16_le(1)
        + u16_le(1) + seq![name.len() as u8] + name + padding_bytes(name.len() % 2 == 0)
        + system_use_bytes(attributes, file_number)
}

/// Every field of a directory record sits where the layout puts it: the
/// record length (which is the number of bytes the record takes), the data
/// block and size, each twice, the seven bytes of the recording time, the
/// flags, volume sequence number 1 (twice), the name length and the name,
/// a zero byte after a name of even length, then the 14 system-use bytes:
/// owner ids of zero, the attributes big-endian, "XA", the file number and
/// five zero bytes.
pub proof fn lemma_directory_record_layout(
    name: Seq<u8>,
    data_lba: (u32, u32),
    data_size: (u32, u32),
    t: Timestamp,
    flags: u8,
    attributes: u16,
    file_number: u8,
)
    requires
        name.len() <= 14,
    ensures
        ({
            let b = directory_record_bytes(
                name,
                data_lba,
                data_size,
                t,
                flags,
                attributes,
                file_number,
            );
            let pad: int = if name.len() % 2 == 0 {
                1
            } else {
                0
            };
            let su: int = 33 + name.len() + pad;
            &&& b.len() == su + 14
            &&& b[0] == b.len()
            &&& b[1] == 0
            &&& b.subrange(2, 6) == u32_le(data_lba.0)
            &&& b.subrange(6, 10) == u32_le(data_lba.1)
            &&& b.subrange(10, 14) == u32_le(data_size.0)
            &&& b.subrange(14, 18) == u32_le(data_size.1)
            &&& b.subrange(18, 25) == seq![t.year, t.month, t.day, t.hour, t.min, t.sec, t.timezone]
            &&& b[25] == flags
            &&& b[26] == 0
            &&& b[27] == 0
            &&& b.subrange(28, 32) == seq![1u8, 0u8, 1u8, 0u8]
            &&& b[32] == name.len()
            &&& b.subrange(33, 33 + name.len() as int) == name
            &&& pad == 1 ==> b[33 + name.len() as int] == 0
            &&& b.subrange(su, su + 14) == seq![
                0u8,
                0u8,
                0u8,
                0u8,
                (attributes >> 8u16) as u8,
                attributes as u8,
                0x58u8,
                0x41u8,
                file_number,
                0u8,
                0u8,
                0u8,
                0u8,
                0u8,
            ]
        }),
{
    let b = directory_record_bytes(name, data_lba, data_size, t, flags, attributes, file_number);
    let pad: int = if name.len() % 2 == 0 {
        1
    } else {
        0
    };
    let su: int = 33 + name.len() + pad;
    assert(u16_le(1) == seq![1u8, 0u8]) by {
        assert((1u16 as u8) == 1u8 && ((1u16 >> 8u16) as u8) == 0u8) by (bit_vector);
    }
    assert(b.subrange(2, 6) =~= u32_le(data_lba.0));
    assert(b.subrange(6, 10) =~= u32_le(data_lba.1));
    assert(b.subrange(10, 14) =~= u32_le(data_size.0));
    assert(b.subrange(14, 18) =~= u32_le(data_size.1));
    assert(b.subrange(18, 25) =~= seq![t.year, t.month, t.day, t.hour, t.min, t.sec, t.timezone]);
    assert(b.subrange(28, 32) =~= seq![1u8, 0u8, 1u8, 0u8]);
    assert(b.subrange(33, 33 + name.len() as int) =~= name);
    assert(b.subrange(su, su + 14) =~= seq![
        0u8,
        0u8,
        0u8,
        0u8,
        (attributes >> 8u16) as u8,
        attributes as u8,
        0x58u8,
        0x41u8,
        file_number,
        0u8,
        0u8,
        0u8,
        0u8,
        0u8,
    ]);
}

/// The bytes of the directory record made from `b`.
pub open spec fn record_bytes(b: DirectoryRecordBuilder) -> Seq<u8> {
    directory_record_bytes(
        b.filename.name_bytes(),
        (b.data_lba[0], b.data_lba[1]),
        (b.data_size[0], b.data_size[1]),
        b.timestamp,
        b.flags.spec_value(),
        b.system_use.attributes(),
        b.system_use.number(),
    )
}

impl DirectoryRecord {
    /// The bytes of this record.
    pub closed spec fn bytes(&self) -> Seq<u8> {
        seq![self.len, self.ext_attr_record_len] + u32_le(self.data_lba[0]) + u32_le(
            self.data_lba[1],
        ) + u32_le(self.data_bytes_len[0]) + u32_le(self.data_bytes_len[1]) + timestamp_bytes(
            self.timestamp,
        ) + seq![self.flags.spec_value(), self.file_unit_size, self.interleave_gap_size] + u16_le(
            self.vol_seq_num[0],
        ) + u16_le(self.vol_seq_num[1]) + seq![self.filename.name_len()]
            + self.filename.name_bytes() + padding_bytes(self.filename_padding.even)
            + system_use_bytes(self.system_use.attributes(), self.system_use.number())
    }

    /// Whether the name of the record is well formed.
    pub closed spec fn wf(&self) -> bool {
        self.filename.wf()
    }

    /// Makes a record for a name, a place and a size on the disc, a time
    /// and flags; the volume sequence number is 1.
    pub fn new(builder: DirectoryRecordBuilder) -> (r: Self)
        requires
            builder.filename.wf(),
        ensures
            r.wf(),
            r.bytes() == record_bytes(builder),
    {
        let DirectoryRecordBuilder { filename, system_use, data_lba, data_size, timestamp, flags } =
            builder;
        let filename_padding = FileNamePadding::from_filename(&filename);
        let pad: u8 = if filename_padding.even {
            1
        } else {
            0
        };
        assert(filename.len <= 14);
        let len = 33 + filename.len + pad + 14;
        let r = DirectoryRecord {
            len,
            ext_attr_record_len: 0,
            data_lba,
            data_bytes_len: data_size,
            timestamp,
            flags,
            file_unit_size: 0,
            interleave_gap_size: 0,
            vol_seq_num: [1, 1],
            filename,
            filename_padding,
            system_use,
        };
        proof {
            let name = r.filename.name_bytes();
            assert(name.len() == r.filename.len);
            assert(r.len == record_len(name.len()) as u8);
            assert(r.filename.name_len() == name.len() as u8);
            assert(r.filename_padding.even == (name.len() % 2 == 0));
            assert(r.bytes() == record_bytes(builder));
        }
        r
    }
}

impl Encode for DirectoryRecord {
    open spec fn encoding(&self) -> Seq<u8> {
        self.bytes()
    }

    open spec fn can_encode(&self) -> bool {
        self.wf()
    }

    open spec fn reported_size(&self) -> nat {
        vstd::layout::size_of::<Self>()
    }

    fn size(&self) -> (n: usize) {
        core::mem::size_of::<Self>()
    }

    fn encode(&self, writer: &mut Vec<u8>) {
        proof {
            lemma_concat_encodings_pair(self.data_lba@);
            lemma_concat_encodings_pair(self.data_bytes_len@);
            lemma_concat_encodings_pair(self.vol_seq_num@);
            assert(self.data_lba.can_encode());
            assert(self.data_bytes_len.can_encode());
            assert(self.vol_seq_num.can_encode());
        }
        let ghost base = writer@;
        writer.push(self.len);
        writer.push(self.ext_attr_record_len);
        self.data_lba.encode(writer);
        self.data_bytes_len.encode(writer);
        self.timestamp.encode(writer);
        writer.push(self.flags.value());
        writer.push(self.file_unit_size);
        writer.push(self.interleave_gap_size);
        self.vol_seq_num.encode(writer);
        self.filename.encode(writer);
        self.filename_padding.encode(writer);
        self.system_use.encode(writer);
        assert(writer@ =~= base + self.bytes());
    }
}

/// The length byte of a record is the number of bytes the record takes.
pub proof fn lemma_record_len(
    name: Seq<u8>,
    data_lba: (u32, u32),
    data_size: (u32, u32),
    t: Timestamp,
    flags: u8,
    attributes: u16,
    file_number: u8,
)
    requires
        name.len() <= 14,
    ensures
        directory_record_bytes(name, data_lba, data_size, t, flags, attributes, file_number).len()
            == record_len(name.len()),
        directory_record_bytes(name, data_lba, data_size, t, flags, attributes, file_number)[0]
            == record_len(name.len()),
        record_len(name.len()) <= 62,
{
}

/// Writes the directory record of a file, then the file's bytes: the record
/// names the sector the writer is at, and the file's size.
pub fn write_file_record(
    writer: &mut Vec<u8>,
    file_name: &str,
    data: &[u8],
    timestamp: Timestamp,
) -> (r: Result<(), StrToAsciiError>)
    ensures
        r is Ok <==> vstd::string::is_ascii(file_name),
        r is Err ==> final(writer)@ == old(writer)@,
        r matches Err(StrToAsciiError::NotAscii(m)) ==> m@ == file_name@,
        r is Ok ==> final(writer)@ == old(writer)@ + directory_record_bytes(
            file_name.spec_bytes().take(
                if file_name.spec_bytes().len() < 14 {
                    file_name.spec_bytes().len() as int
                } else {
                    14
                },
            ),
            (
                (old(writer)@.len() / SECTOR_RAW_SIZE as nat) as u32,
                (old(writer)@.len() / SECTOR_RAW_SIZE as nat) as u32,
            ),
            (data@.len() as u32, data@.len() as u32),
            timestamp,
            0x00,
            0,
            0,
        ) + data@,
{
    let lba = writer.lba();
    let filename = match FileName::from_ascii_str(file_name) {
        Ok(name) => name,
        Err(e) => return Err(e),
    };
    let record = DirectoryRecord::new(
        DirectoryRecordBuilder {
            filename,
            system_use: SystemUse::default(),
            data_lba: [lba.value() as u32; 2],
            data_size: [data.len() as u32; 2],
            timestamp,
            flags: FileFlags::File,
        },
    );
    record.encode(writer);
    data.encode(writer);
    Ok(())
}

/// A file to write into an image: its name, its bytes and its recording
/// time.
#[derive(Clone, Copy)]
pub struct FileEntry<'a> {
    pub name: &'a str,
    pub data: &'a [u8],
    pub timestamp: Timestamp,
}

/// The name a record gives a file called `name`: its first 14 bytes.
pub open spec fn record_name(name: &str) -> Seq<u8> {
    name.spec_bytes().take(
        if name.spec_bytes().len() < 14 {
            name.spec_bytes().len() as int
        } else {
            14
        },
    )
}

/// What writing `f` appends to an image that holds `pos` bytes: where its
/// name is ASCII, its record, which names the sector the image has reached
/// and the file's size, then its bytes; otherwise nothing.
pub open spec fn file_record_bytes(pos: nat, f: FileEntry) -> Seq<u8> {
    if vstd::string::is_ascii(f.name) {
        let lba = (pos / SECTOR_RAW_SIZE as nat) as u32;
        directory_record_bytes(
            record_name(f.name),
            (lba, lba),
            (f.data@.len() as u32, f.data@.len() as u32),
            f.timestamp,
            0x00,
            0,
            0,
        ) + f.data@
    } else {
        Seq::empty()
    }
}

/// What writing `files`, one after the other, appends to an image that
/// holds `start` bytes.
pub open spec fn file_records_bytes(start: nat, files: Seq<FileEntry>) -> Seq<u8>
    decreases files.len(),
{
    if files.len() == 0 {
        Seq::empty()
    } else {
        let before = file_records_bytes(start, files.drop_last());
        before + file_record_bytes(start + before.len(), files.last())
    }
}

/// Writes the files of `files` in order, each as `write_file_record` does,
/// and gives the outcome for each: a file whose name is not ASCII is
/// skipped.
pub fn write_file_records(writer: &mut Vec<u8>, files: &[FileEntry]) -> (r: Vec<
    Result<(), StrToAsciiError>,
>)
    ensures
        final(writer)@ == old(writer)@ + file_records_bytes(old(writer)@.len(), files@),
        r@.len() == files@.len(),
        forall|i: int|
            0 <= i < files@.len() ==> (#[trigger] r@[i] is Ok <==> vstd::string::is_ascii(
                files@[i].name,
            )),
{
    let mut results: Vec<Result<(), StrToAsciiError>> = Vec::new();
    let mut i: usize = 0;
    while i < files.len()
        invariant
            i <= files@.len(),
            writer@ == old(writer)@ + file_records_bytes(old(writer)@.len(), files@.take(i as int)),
            results@.len() == i,
            forall|k: int|
                0 <= k < i ==> (#[trigger] results@[k] is Ok <==> vstd::string::is_ascii(
                    files@[k].name,
                )),
        decreases files@.len() - i,
    {
        let f = files[i];
        let ghost before = writer@;
        let ghost prefix = files@.take(i as int);
        let r = write_file_record(writer, f.name, f.data, f.timestamp);
        proof {
            let next = files@.take(i + 1);
            assert(next.drop_last() =~= prefix);
            assert(next.last() == f);
            assert(before.len() == old(writer)@.len() + file_records_bytes(
                old(writer)@.len(),
                prefix,
            ).len());
            assert(writer@ =~= before + file_record_bytes(before.len(), f));
            assert(file_records_bytes(old(writer)@.len(), next) == file_records_bytes(
                old(writer)@.len(),
                prefix,
            ) + file_record_bytes(before.len(), f));
        }
        results.push(r);
        i += 1;
    }
    assert(files@.take(files@.len() as int) =~= files@);
    results
}

} // verus!
