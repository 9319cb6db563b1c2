use vstd::prelude::*;
use std::marker::PhantomData;

use vstd::string::StringSliceAdditionalSpecFns;
use vstd::utf8::{decode_utf8, valid_utf8};

verus! {

/// `n` zero bytes.
pub open spec fn zeros(n: nat) -> Seq<u8> {
    Seq::new(n, |i: int| 0u8)
}

/// The first `n` bytes of `pattern` repeated over and over.
pub open spec fn repeat_pattern(pattern: Seq<u8>, n: nat) -> Seq<u8> {
    Seq::new(n, |i: int| pattern[i % (pattern.len() as int)])
}

/// Appends every byte of `bytes` to `writer`.
pub fn write_all(writer: &mut Vec<u8>, bytes: &[u8])
    ensures
        final(writer)@ == old(writer)@ + bytes@,
{
    let mut i: usize = 0;
    while i < bytes.len()
        invariant
            i <= bytes@.len(),
            writer@ == old(writer)@ + bytes@.take(i as int),
        decreases bytes@.len() - i,
    {
        writer.push(bytes[i]);
        i = i + 1;
        assert(bytes@.take(i as int) =~= bytes@.take(i - 1).push(bytes@[i - 1]));
    }
    assert(bytes@.take(bytes@.len() as int) =~= bytes@);
}

/// Appends the byte `value` to `writer` `count` times.
fn write_repeated(writer: &mut Vec<u8>, value: u8, count: usize)
    ensures
        final(writer)@ == old(writer)@ + Seq::new(count as nat, |i: int| value),
{
    let mut i: usize = 0;
    while i < count
        invariant
            i <= count,
            writer@ == old(writer)@ + Seq::new(i as nat, |k: int| value),
        decreases count - i,
    {
        writer.push(value);
        i = i + 1;
        assert(Seq::new(i as nat, |k: int| value) =~= Seq::new((i - 1) as nat, |k: int| value).push(
            value,
        ));
    }
}

/// Something that can be written to a disc image as a sequence of bytes.
pub trait Encode {
    /// The bytes that `encode` appends to the writer.
    spec fn encoding(&self) -> Seq<u8>;

    /// Whether `encode` may be called on this value.
    spec fn can_encode(&self) -> bool;

    /// The number that `size` reports. A value whose kind fixes how many
    /// bytes it takes reports that number; any other value reports its size
    /// in memory (`core::mem::size_of`), which need not be the length of its
    /// encoding.
    spec fn reported_size(&self) -> nat;

    /// The size of this value, as `reported_size` says.
    fn size(&self) -> (n: usize)
        ensures
            n as nat == self.reported_size(),
    ;

    /// Appends the encoding of `self` to `writer`.
    fn encode(&self, writer: &mut Vec<u8>)
        requires
            self.can_encode(),
        ensures
            final(writer)@ == old(writer)@ + self.encoding(),
    ;
}

impl Encode for u8 {
    open spec fn encoding(&self) -> Seq<u8> {
        seq![*self]
    }

    open spec fn can_encode(&self) -> bool {
        true
    }

    open spec fn reported_size(&self) -> nat {
        1
    }

    fn size(&self) -> (n: usize) {
        1
    }

    fn encode(&self, writer: &mut Vec<u8>) {
        writer.push(*self);
    }
}

/// The two bytes of `x`, least significant first.
pub open spec fn u16_le(x: u16) -> Seq<u8> {
    seq![x as u8, (x >> 8u16) as u8]
}

/// The four bytes of `x`, least significant first.
pub open spec fn u32_le(x: u32) -> Seq<u8> {
    seq![x as u8, (x >> 8u32) as u8, (x >> 16u32) as u8, (x >> 24u32) as u8]
}

/// The eight bytes of `x`, least significant first.
pub open spec fn u64_le(x: u64) -> Seq<u8> {
    seq![
        x as u8,
        (x >> 8u64) as u8,
        (x >> 16u64) as u8,
        (x >> 24u64) as u8,
        (x >> 32u64) as u8,
        (x >> 40u64) as u8,
        (x >> 48u64) as u8,
        (x >> 56u64) as u8,
    ]
}

impl Encode for u16 {
    open spec fn encoding(&self) -> Seq<u8> {
        u16_le(*self)
    }

    open spec fn can_encode(&self) -> bool {
        true
    }

    open spec fn reported_size(&self) -> nat {
        2
    }

    fn size(&self) -> (n: usize) {
        2
    }

    fn encode(&self, writer: &mut Vec<u8>) {
        let bytes = LittleEndian(*self).to_bytes();
        write_all(writer, &bytes);
    }
}

impl Encode for u32 {
    open spec fn encoding(&self) -> Seq<u8> {
        u32_le(*self)
    }

    open spec fn can_encode(&self) -> bool {
        true
    }

    open spec fn reported_size(&self) -> nat {
        4
    }

    fn size(&self) -> (n: usize) {
        4
    }

    fn encode(&self, writer: &mut Vec<u8>) {
        let bytes = LittleEndian(*self).to_bytes();
        write_all(writer, &bytes);
    }
}

impl Encode for u64 {
    open spec fn encoding(&self) -> Seq<u8> {
        u64_le(*self)
    }

    open spec fn can_encode(&self) -> bool {
        true
    }

    open spec fn reported_size(&self) -> nat {
        8
    }

    fn size(&self) -> (n: usize) {
        8
    }

    fn encode(&self, writer: &mut Vec<u8>) {
        let bytes = LittleEndian(*self).to_bytes();
        write_all(writer, &bytes);
    }
}

impl Encode for usize {
    open spec fn encoding(&self) -> Seq<u8> {
        if usize::BITS == 64 {
            u64_le(*self as u64)
        } else {
            u32_le(*self as u32)
        }
    }

    open spec fn can_encode(&self) -> bool {
        true
    }

    open spec fn reported_size(&self) -> nat {
        (usize::BITS / 8) as nat
    }

    fn size(&self) -> (n: usize) {
        if usize::BITS == 64 {
            8
        } else {
            4
        }
    }

    fn encode(&self, writer: &mut Vec<u8>) {
        if usize::BITS == 64 {
            let v = *self as u64;
            v.encode(writer);
        } else {
            let v = *self as u32;
            v.encode(writer);
        }
        assert(writer@ =~= old(writer)@ + self.encoding());
    }
}

impl<'a> Encode for &'a str {
    open spec fn encoding(&self) -> Seq<u8> {
        self.spec_bytes()
    }

    open spec fn can_encode(&self) -> bool {
        true
    }

    open spec fn reported_size(&self) -> nat {
        vstd::layout::size_of::<Self>()
    }

    fn size(&self) -> (n: usize) {
        core::mem::size_of::<Self>()
    }

    fn encode(&self, writer: &mut Vec<u8>) {
        let bytes: &[u8] = (*self).as_bytes();
        assert(bytes@ == self.encoding());
        write_all(writer, bytes);
    }
}

impl<'a> Encode for &'a [u8] {
    open spec fn encoding(&self) -> Seq<u8> {
        self@
    }

    open spec fn can_encode(&self) -> bool {
        true
    }

    open spec fn reported_size(&self) -> nat {
        vstd::layout::size_of::<Self>()
    }

    fn size(&self) -> (n: usize) {
        core::mem::size_of::<Self>()
    }

    fn encode(&self, writer: &mut Vec<u8>) {
        write_all(writer, self);
    }
}

impl Encode for () {
    open spec fn encoding(&self) -> Seq<u8> {
        Seq::empty()
    }

    open spec fn can_encode(&self) -> bool {
        true
    }

    open spec fn reported_size(&self) -> nat {
        0
    }

    fn size(&self) -> (n: usize) {
        0
    }

    fn encode(&self, writer: &mut Vec<u8>) {
        assert(writer@ =~= writer@ + Seq::<u8>::empty());
    }
}

/// The encodings of the items of `s`, one after the other.
pub open spec fn concat_encodings<T: Encode>(s: Seq<T>) -> Seq<u8>
    decreases s.len(),
{
    if s.len() == 0 {
        Seq::empty()
    } else {
        concat_encodings(s.drop_last()) + s.last().encoding()
    }
}

impl<T: Encode, const N: usize> Encode for [T; N] {
    open spec fn encoding(&self) -> Seq<u8> {
        concat_encodings(self@)
    }

    open spec fn can_encode(&self) -> bool {
        &&& forall|i: int| 0 <= i < N ==> (#[trigger] self@[i]).can_encode()
        &&& concat_encodings(self@).len() <= usize::MAX
    }

    open spec fn reported_size(&self) -> nat {
        vstd::layout::size_of::<Self>()
    }

    fn size(&self) -> (n: usize) {
        core::mem::size_of::<Self>()
    }

    fn encode(&self, writer: &mut Vec<u8>) {
        let mut i: usize = 0;
        while i < N
            invariant
                i <= N,
                self@.len() == N,
                forall|k: int| 0 <= k < N ==> (#[trigger] self@[k]).can_encode(),
                writer@ == old(writer)@ + concat_encodings(self@.take(i as int)),
            decreases N - i,
        {
            assert(self@.take(i + 1).drop_last() =~= self@.take(i as int));
            self[i].encode(writer);
            i = i + 1;
            assert(writer@ =~= old(writer)@ + concat_encodings(self@.take(i as int)));
        }
        assert(self@.take(N as int) =~= self@);
    }
}

/// The encoding of a prefix is no longer than the encoding of the whole sequence.
proof fn lemma_concat_encodings_prefix_len<T: Encode>(s: Seq<T>, i: int)
    requires
        0 <= i <= s.len(),
    ensures
        concat_encodings(s.take(i)).len() <= concat_encodings(s).len(),
    decreases s.len() - i,
{
    if i < s.len() {
        lemma_concat_encodings_prefix_len(s, i + 1);
        assert(s.take(i + 1).drop_last() =~= s.take(i));
    } else {
        assert(s.take(i) =~= s);
    }
}

/// The encodings of bytes, one after the other, are those bytes.
pub proof fn lemma_concat_encodings_bytes(s: Seq<u8>)
    ensures
        concat_encodings(s) == s,
    decreases s.len(),
{
    if s.len() > 0 {
        lemma_concat_encodings_bytes(s.drop_last());
        assert(s.drop_last().push(s.last()) =~= s);
    }
}

/// The encodings of two values, one after the other.
pub proof fn lemma_concat_encodings_pair<T: Encode>(s: Seq<T>)
    requires
        s.len() == 2,
    ensures
        concat_encodings(s) == s[0].encoding() + s[1].encoding(),
{
    let first = s.drop_last();
    assert(first.drop_last() =~= Seq::<T>::empty());
    assert(concat_encodings(first.drop_last()) == Seq::<u8>::empty());
    assert(concat_encodings(first) == concat_encodings(first.drop_last()) + first.last().encoding());
    assert(Seq::<u8>::empty() + s[0].encoding() =~= s[0].encoding());
    assert(concat_encodings(s) == concat_encodings(first) + s.last().encoding());
}

/// A value that is written most significant byte first.
#[derive(Clone, Copy)]
pub struct BigEndian<T>(pub T);

/// A value that is written least significant byte first.
#[derive(Clone, Copy)]
pub struct LittleEndian<T>(pub T);

impl BigEndian<u8> {
    pub fn to_bytes(self) -> (r: [u8; 1])
        ensures
            r@ == seq![self.0],
    {
        [self.0]
    }
}

impl BigEndian<u16> {
    pub fn to_bytes(self) -> (r: [u8; 2])
        ensures
            r@ == u16_le(self.0).reverse(),
    {
        let r = [(self.0 >> 8u16) as u8, self.0 as u8];
        assert(r@ =~= u16_le(self.0).reverse());
        r
    }
}

impl BigEndian<u32> {
    pub fn to_bytes(self) -> (r: [u8; 4])
        ensures
            r@ == u32_le(self.0).reverse(),
    {
        let x = self.0;
        let r = [(x >> 24u32) as u8, (x >> 16u32) as u8, (x >> 8u32) as u8, x as u8];
        assert(r@ =~= u32_le(self.0).reverse());
        r
    }
}

impl BigEndian<u64> {
    pub fn to_bytes(self) -> (r: [u8; 8])
        ensures
            r@ == u64_le(self.0).reverse(),
    {
        let x = self.0;
        let r = [
            (x >> 56u64) as u8,
            (x >> 48u64) as u8,
            (x >> 40u64) as u8,
            (x >> 32u64) as u8,
            (x >> 24u64) as u8,
            (x >> 16u64) as u8,
            (x >> 8u64) as u8,
            x as u8,
        ];
        assert(r@ =~= u64_le(self.0).reverse());
        r
    }
}

impl LittleEndian<u8> {
    pub fn to_bytes(self) -> (r: [u8; 1])
        ensures
            r@ == seq![self.0],
    {
        [self.0]
    }
}

impl LittleEndian<u16> {
    pub fn to_bytes(self) -> (r: [u8; 2])
        ensures
            r@ == u16_le(self.0),
    {
        let r = [self.0 as u8, (self.0 >> 8u16) as u8];
        assert(r@ =~= u16_le(self.0));
        r
    }
}

impl LittleEndian<u32> {
    pub fn to_bytes(self) -> (r: [u8; 4])
        ensures
            r@ == u32_le(self.0),
    {
        let x = self.0;
        let r = [x as u8, (x >> 8u32) as u8, (x >> 16u32) as u8, (x >> 24u32) as u8];
        assert(r@ =~= u32_le(self.0));
        r
    }
}

impl LittleEndian<u64> {
    pub fn to_bytes(self) -> (r: [u8; 8])
        ensures
            r@ == u64_le(self.0),
    {
        let x = self.0;
        let r = [
            x as u8,
            (x >> 8u64) as u8,
            (x >> 16u64) as u8,
            (x >> 24u64) as u8,
            (x >> 32u64) as u8,
            (x >> 40u64) as u8,
            (x >> 48u64) as u8,
            (x >> 56u64) as u8,
        ];
        assert(r@ =~= u64_le(self.0));
        r
    }
}


impl Encode for BigEndian<u8> {
    open spec fn encoding(&self) -> Seq<u8> {
        seq![self.0]
    }

    open spec fn can_encode(&self) -> bool {
        true
    }

    open spec fn reported_size(&self) -> nat {
        1
    }

    fn size(&self) -> (n: usize) {
        1
    }

    fn encode(&self, writer: &mut Vec<u8>) {
        let bytes = (*self).to_bytes();
        assert(bytes@ == self.encoding());
        write_all(writer, &bytes);
    }
}

impl Encode for LittleEndian<u8> {
    open spec fn encoding(&self) -> Seq<u8> {
        seq![self.0]
    }

    open spec fn can_encode(&self) -> bool {
        true
    }

    open spec fn reported_size(&self) -> nat {
        1
    }

    fn size(&self) -> (n: usize) {
        1
    }

    fn encode(&self, writer: &mut Vec<u8>) {
        let bytes = (*self).to_bytes();
        assert(bytes@ == self.encoding());
        write_all(writer, &bytes);
    }
}

impl Encode for BigEndian<u16> {
    open spec fn encoding(&self) -> Seq<u8> {
        u16_le(self.0).reverse()
    }

    open spec fn can_encode(&self) -> bool {
        true
    }

    open spec fn reported_size(&self) -> nat {
        2
    }

    fn size(&self) -> (n: usize) {
        2
    }

    fn encode(&self, writer: &mut Vec<u8>) {
        let bytes = (*self).to_bytes();
        assert(bytes@ == self.encoding());
        write_all(writer, &bytes);
    }
}

impl Encode for LittleEndian<u16> {
    open spec fn encoding(&self) -> Seq<u8> {
        u16_le(self.0)
    }

    open spec fn can_encode(&self) -> bool {
        true
    }

    open spec fn reported_size(&self) -> nat {
        2
    }

    fn size(&self) -> (n: usize) {
        2
    }

    fn encode(&self, writer: &mut Vec<u8>) {
        let bytes = (*self).to_bytes();
        assert(bytes@ == self.encoding());
        write_all(writer, &bytes);
    }
}

impl Encode for BigEndian<u32> {
    open spec fn encoding(&self) -> Seq<u8> {
        u32_le(self.0).reverse()
    }

    open spec fn can_encode(&self) -> bool {
        true
    }

    open spec fn reported_size(&self) -> nat {
        4
    }

    fn size(&self) -> (n: usize) {
        4
    }

    fn encode(&self, writer: &mut Vec<u8>) {
        let bytes = (*self).to_bytes();
        assert(bytes@ == self.encoding());
        write_all(writer, &bytes);
    }
}

impl Encode for LittleEndian<u32> {
    open spec fn encoding(&self) -> Seq<u8> {
        u32_le(self.0)
    }

    open spec fn can_encode(&self) -> bool {
        true
    }

    open spec fn reported_size(&self) -> nat {
        4
    }

    fn size(&self) -> (n: usize) {
        4
    }

    fn encode(&self, writer: &mut Vec<u8>) {
        let bytes = (*self).to_bytes();
        assert(bytes@ == self.encoding());
        write_all(writer, &bytes);
    }
}

impl Encode for BigEndian<u64> {
    open spec fn encoding(&self) -> Seq<u8> {
        u64_le(self.0).reverse()
    }

    open spec fn can_encode(&self) -> bool {
        true
    }

    open spec fn reported_size(&self) -> nat {
        8
    }

    fn size(&self) -> (n: usize) {
        8
    }

    fn encode(&self, writer: &mut Vec<u8>) {
        let bytes = (*self).to_bytes();
        assert(bytes@ == self.encoding());
        write_all(writer, &bytes);
    }
}

impl Encode for LittleEndian<u64> {
    open spec fn encoding(&self) -> Seq<u8> {
        u64_le(self.0)
    }

    open spec fn can_encode(&self) -> bool {
        true
    }

    open spec fn reported_size(&self) -> nat {
        8
    }

    fn size(&self) -> (n: usize) {
        8
    }

    fn encode(&self, writer: &mut Vec<u8>) {
        let bytes = (*self).to_bytes();
        assert(bytes@ == self.encoding());
        write_all(writer, &bytes);
    }
}

impl<T> From<T> for LittleEndian<T> {
    fn from(value: T) -> (r: Self) {
        Self(value)
    }
}

impl<T> vstd::std_specs::convert::FromSpecImpl<T> for LittleEndian<T> {
    open spec fn obeys_from_spec() -> bool {
        true
    }

    open spec fn from_spec(v: T) -> Self {
        LittleEndian(v)
    }
}

impl<T> From<T> for BigEndian<T> {
    fn from(value: T) -> (r: Self) {
        Self(value)
    }
}

impl<T> vstd::std_specs::convert::FromSpecImpl<T> for BigEndian<T> {
    open spec fn obeys_from_spec() -> bool {
        true
    }

    open spec fn from_spec(v: T) -> Self {
        BigEndian(v)
    }
}

/// `data` followed by zero bytes: as many as `N` exceeds the size that
/// `data` reports, so `N` bytes in all where that size is its encoding's
/// length.
pub struct PaddedConst<T: Encode, const N: usize> {
    data: T,
}

impl<T: Encode> PaddedConst<T, 0> {
    #[must_use]
    pub fn new<const SIZE: usize>(data: T) -> (r: PaddedConst<T, SIZE>)
        ensures
            r.data() == data,
    {
        PaddedConst { data }
    }
}

impl<T: Encode, const N: usize> PaddedConst<T, N> {
    /// The value that is padded.
    pub closed spec fn data(&self) -> T {
        self.data
    }
}

impl<T: Encode, const N: usize> Encode for PaddedConst<T, N> {
    open spec fn encoding(&self) -> Seq<u8> {
        self.data().encoding() + zeros((N - self.data().reported_size()) as nat)
    }

    open spec fn can_encode(&self) -> bool {
        &&& self.data().can_encode()
        &&& self.data().reported_size() <= N
    }

    open spec fn reported_size(&self) -> nat {
        N as nat
    }

    fn size(&self) -> (n: usize) {
        N
    }

    fn encode(&self, writer: &mut Vec<u8>) {
        let block_size = self.size();
        let data_size = self.data.size();
        let padding = block_size - data_size;
        self.data.encode(writer);
        let fill = Fill::zero(padding);
        fill.encode(writer);
        assert(fill.encoding() =~= zeros(padding as nat));
        assert(writer@ =~= old(writer)@ + self.encoding());
    }
}

/// `total_bytes` bytes made of `pattern` repeated.
pub struct Fill {
    pub pattern: &'static [u8],
    pub total_bytes: usize,
}

impl Fill {
    #[must_use]
    pub fn zero(bytes: usize) -> (r: Self)
        ensures
            r.total_bytes == bytes,
            r.pattern@ == seq![0u8],
    {
        Self { total_bytes: bytes, pattern: &[0] }
    }

    #[must_use]
    pub fn new(bytes: usize, pat: &'static [u8]) -> (r: Self)
        ensures
            r.total_bytes == bytes,
            r.pattern == pat,
    {
        Self { pattern: pat, total_bytes: bytes }
    }
}

/// Repeating a pattern `k` whole times and then `n` more bytes of it.
proof fn lemma_repeat_pattern_extend(p: Seq<u8>, k: nat, n: nat)
    requires
        p.len() > 0,
        n <= p.len(),
    ensures
        repeat_pattern(p, k * p.len() + n) =~= repeat_pattern(p, k * p.len()) + p.take(n as int),
{
    let a = repeat_pattern(p, k * p.len() + n);
    let b = repeat_pattern(p, k * p.len()) + p.take(n as int);
    assert forall|i: int| 0 <= i < a.len() implies a[i] == b[i] by {
        let len = p.len() as int;
        if i >= k * len {
            let j = i - k * len;
            assert(0 <= j < len);
            assert((k * len + j) % len == j) by (nonlinear_arith)
                requires
                    len > 0,
                    0 <= j < len,
                    k >= 0,
            {
                vstd::arithmetic::div_mod::lemma_mod_multiples_vanish(k as int, j, len);
                vstd::arithmetic::div_mod::lemma_small_mod(j as nat, len as nat);
            }
        }
    }
}

impl Encode for Fill {
    open spec fn encoding(&self) -> Seq<u8> {
        repeat_pattern(self.pattern@, self.total_bytes as nat)
    }

    open spec fn can_encode(&self) -> bool {
        self.pattern@.len() > 0 || self.total_bytes == 0
    }

    open spec fn reported_size(&self) -> nat {
        self.total_bytes as nat
    }

    fn size(&self) -> (n: usize) {
        self.total_bytes
    }

    fn encode(&self, writer: &mut Vec<u8>) {
        // the pattern is non-empty, or nothing is written
        assert(self.can_encode());
        assert(self.encoding() == repeat_pattern(self.pattern@, self.total_bytes as nat));
        let mut written: usize = 0;
        let ghost mut chunks: nat = 0;
        while written < self.total_bytes
            invariant
                written <= self.total_bytes,
                self.pattern@.len() > 0 || self.total_bytes == 0,
                written == self.total_bytes || written == chunks * self.pattern@.len(),
                writer@ == old(writer)@ + repeat_pattern(self.pattern@, written as nat),
            decreases self.total_bytes - written,
        {
            let remaining = self.total_bytes - written;
            let n = if self.pattern.len() < remaining {
                self.pattern.len()
            } else {
                remaining
            };
            let chunk = &self.pattern[0..n];
            write_all(writer, chunk);
            proof {
                lemma_repeat_pattern_extend(self.pattern@, chunks, n as nat);
                assert(chunk@ =~= self.pattern@.take(n as int));
                chunks = chunks + 1;
                assert(chunks * self.pattern@.len() == (chunks - 1) * self.pattern@.len()
                    + self.pattern@.len()) by (nonlinear_arith);
            }
            written = written + n;
        }
    }
}

/// `N` bytes of value `VALUE`.
#[derive(Default)]
pub struct FillConst<const VALUE: u8, const N: usize>;

impl<const VALUE: u8, const N: usize> Encode for FillConst<VALUE, N> {
    open spec fn encoding(&self) -> Seq<u8> {
        Seq::new(N as nat, |i: int| VALUE)
    }

    open spec fn can_encode(&self) -> bool {
        true
    }

    open spec fn reported_size(&self) -> nat {
        N as nat
    }

    fn size(&self) -> (n: usize) {
        N
    }

    fn encode(&self, writer: &mut Vec<u8>) {
        write_repeated(writer, VALUE, N);
    }
}

/// The single byte `VALUE`.
#[derive(Default)]
pub struct ByteConst<const VALUE: u8>;

impl<const VALUE: u8> Encode for ByteConst<VALUE> {
    open spec fn encoding(&self) -> Seq<u8> {
        seq![VALUE]
    }

    open spec fn can_encode(&self) -> bool {
        true
    }

    open spec fn reported_size(&self) -> nat {
        1
    }

    fn size(&self) -> (n: usize) {
        1
    }

    fn encode(&self, writer: &mut Vec<u8>) {
        writer.push(VALUE);
    }
}


/// Why a string could not be made into a byte buffer.
#[derive(Debug, Clone)]
pub enum StrToAsciiError {
    NotAscii(String),
}

/// `bytes` cut or zero-padded to exactly `n` bytes.
pub open spec fn ascii_buf(bytes: Seq<u8>, n: nat) -> Seq<u8> {
    Seq::new(n, |i: int| if i < bytes.len() { bytes[i] } else { 0u8 })
}

/// Copies the bytes of an ASCII string into a buffer of `N` bytes: a longer
/// string is cut, a shorter one is followed by zero bytes.
pub fn str_to_ascii_buf<const N: usize>(str: &str) -> (r: Result<[u8; N], StrToAsciiError>)
    ensures
        r is Ok <==> vstd::string::is_ascii(str),
        r matches Ok(buf) ==> buf@ == ascii_buf(str.spec_bytes(), N as nat),
        r matches Err(StrToAsciiError::NotAscii(s)) ==> s@ == str@,
{
    if !str.is_ascii() {
        return Err(StrToAsciiError::NotAscii(str.to_owned()));
    }
    let bytes = str.as_bytes();
    let mut buf = [0u8; N];
    let len = if N < bytes.len() {
        N
    } else {
        bytes.len()
    };
    let mut i: usize = 0;
    while i < len
        invariant
            len <= N,
            len <= bytes@.len(),
            bytes@ == str.spec_bytes(),
            i <= len,
            buf@.len() == N,
            forall|k: int| 0 <= k < i ==> buf@[k] == bytes@[k],
            forall|k: int| i <= k < N ==> buf@[k] == 0u8,
        decreases len - i,
    {
        buf[i] = bytes[i];
        i = i + 1;
    }
    assert(buf@ =~= ascii_buf(str.spec_bytes(), N as nat));
    Ok(buf)
}

/// Whether `b` is a d-character: `0`..`9`, `A`..`Z` or `_`.
pub open spec fn is_dchar(b: u8) -> bool {
    (0x30 <= b <= 0x39) || (0x41 <= b <= 0x5a) || b == 0x5f
}

/// Whether every byte of `s` is a d-character.
pub open spec fn all_dchars(s: Seq<u8>) -> bool {
    forall|k: int| 0 <= k < s.len() ==> is_dchar(#[trigger] s[k])
}

/// Whether `i` is the index of the first byte of `s` that is not a d-character.
pub open spec fn is_first_non_dchar(s: Seq<u8>, i: int) -> bool {
    &&& 0 <= i < s.len()
    &&& !is_dchar(s[i])
    &&& all_dchars(s.take(i))
}

/// The d-characters are exactly the digits `0` to `9`, the upper-case
/// letters `A` to `Z` and the underscore: `DChar::new` accepts a byte, and
/// `DCharBuf::new` a run of bytes, exactly when they are among these.
pub proof fn lemma_dchar_set(b: u8)
    ensures
        is_dchar(b) <==> (('0' as u8) <= b <= ('9' as u8) || ('A' as u8) <= b <= ('Z' as u8) || b
            == ('_' as u8)),
        !is_dchar('-' as u8),
        !is_dchar(' ' as u8),
        !is_dchar('.' as u8),
        ('a' as u8) <= b <= ('z' as u8) ==> !is_dchar(b),
{
}

/// A run of bytes is all d-characters exactly when each of its bytes is a
/// digit, an upper-case letter or an underscore.
pub proof fn lemma_all_dchars(s: Seq<u8>)
    ensures
        all_dchars(s) <==> forall|k: int|
            0 <= k < s.len() ==> (('0' as u8) <= #[trigger] s[k] <= ('9' as u8) || ('A' as u8)
                <= s[k] <= ('Z' as u8) || s[k] == ('_' as u8)),
{
}

/// `char::to_string` (std's `ToString` through `Display`): the string
/// holding the single character `c`.
#[verifier::external_body]
fn char_to_string(c: char) -> (s: String)
    ensures
        s@ == seq![c],
{
    c.to_string()
}

/// `std::str::from_utf8`: succeeds exactly on valid UTF-8, and then the
/// string is made of those very bytes.
#[verifier::external_body]
fn str_from_utf8<'a>(bytes: &'a [u8]) -> (r: Option<&'a str>)
    ensures
        r is Some <==> valid_utf8(bytes@),
        r matches Some(s) ==> s.spec_bytes() == bytes@,
{
    std::str::from_utf8(bytes).ok()
}

/// # d-characters (Filenames)
/// ```plaintext
///    "0..9", "A..Z", and "_"
/// ```
#[derive(Debug, Clone, Copy)]
pub struct DChar(u8);

impl DChar {
    /// The byte this d-character stands for.
    pub closed spec fn byte(&self) -> u8 {
        self.0
    }
}

/// A span of text: where it starts, and how many characters it covers.
#[derive(Debug, Clone, Copy, PartialEq, Eq)]
pub struct LabelSpan {
    pub offset: usize,
    pub len: usize,
}

/// A value that holds a byte which is not a d-character.
#[derive(Debug, Clone)]
pub struct DCharError {
    src: String,
    char_label: LabelSpan,
}

impl DCharError {
    /// The text in which the offending byte was found.
    pub closed spec fn spec_src(&self) -> Seq<char> {
        self.src@
    }

    /// Offset and length, within the text, of the offending byte.
    pub closed spec fn spec_char_label(&self) -> LabelSpan {
        self.char_label
    }

    pub fn new(src: String, char_label: LabelSpan) -> (r: Self)
        ensures
            r.spec_src() == src@,
            r.spec_char_label() == char_label,
    {
        DCharError { src, char_label }
    }

    pub fn src(&self) -> (r: &String)
        ensures
            r@ == self.spec_src(),
    {
        &self.src
    }

    pub fn char_label(&self) -> (r: LabelSpan)
        ensures
            r == self.spec_char_label(),
    {
        self.char_label
    }
}

impl DChar {
    pub fn new(byte: u8) -> (r: Result<Self, DCharError>)
        ensures
            r is Ok <==> is_dchar(byte),
            r matches Ok(d) ==> d.byte() == byte,
            r matches Err(e) ==> e.spec_src() == seq![byte as char] && e.spec_char_label() == (LabelSpan {
                offset: 0,
                len: 1,
            }),
    {
        if (0x30 <= byte && byte <= 0x39) || (0x41 <= byte && byte <= 0x5a) || byte == 0x5f {
            Ok(Self(byte))
        } else {
            Err(DCharError { src: char_to_string(byte as char), char_label: LabelSpan { offset: 0, len: 1 } })
        }
    }
}

/// Bytes that a buffer holds.
pub trait Buffer<'a> {
    /// The bytes of the buffer.
    spec fn buffer_view(&self) -> Seq<u8>;

    fn as_bytes(&self) -> (r: &[u8])
        ensures
            r@ == self.buffer_view(),
    ;
}

impl Buffer<'static> for Vec<u8> {
    open spec fn buffer_view(&self) -> Seq<u8> {
        self@
    }

    fn as_bytes(&self) -> (r: &[u8]) {
        self.as_slice()
    }
}

impl<'a> Buffer<'a> for &'a [u8] {
    open spec fn buffer_view(&self) -> Seq<u8> {
        self@
    }

    fn as_bytes(&self) -> (r: &[u8]) {
        *self
    }
}

impl<const N: usize> Buffer<'static> for [u8; N] {
    open spec fn buffer_view(&self) -> Seq<u8> {
        self@
    }

    fn as_bytes(&self) -> (r: &[u8]) {
        self.as_slice()
    }
}

/// The error that `DCharBuf::new` reports when `i` is the first byte of
/// `s` that is not a d-character: the whole block of eight when the byte
/// lies in a full block of eight, else the byte alone.
pub open spec fn dchar_buf_error(s: Seq<u8>, i: int, e: DCharError) -> bool {
    let start = i - i % 8;
    if i < s.len() - s.len() % 8 {
        &&& e.spec_src() == decode_utf8(s.subrange(start, start + 8))
        &&& e.spec_char_label() == (LabelSpan { offset: (i - start) as usize, len: 1 })
    } else {
        &&& e.spec_src() == seq![s[i] as char]
        &&& e.spec_char_label() == (LabelSpan { offset: 0, len: 1 })
    }
}

/// The first `len` bytes of `s`, or all of `s` when it is shorter.
pub open spec fn checked_prefix(s: Seq<u8>, len: usize) -> Seq<u8> {
    s.take(if len < s.len() { len as int } else { s.len() as int })
}

/// Whether the block of eight bytes that holds the first byte of `t` which
/// is not a d-character, if that byte lies in a full block, is valid UTF-8.
pub open spec fn dchar_blocks_are_utf8(t: Seq<u8>) -> bool {
    forall|j: int|
        is_first_non_dchar(t, j) && j < t.len() - t.len() % 8 ==> valid_utf8(
            #[trigger] t.subrange(j - j % 8, j - j % 8 + 8),
        )
}

/// Whether `DCharBuf::new` can be called on a buffer holding `bytes` with
/// `len`: whether the block of eight that holds the first byte which is not
/// a d-character, where that byte lies in a full block, is valid UTF-8.
pub fn dchar_blocks_utf8(bytes: &[u8], len: usize) -> (r: bool)
    ensures
        r == dchar_blocks_are_utf8(checked_prefix(bytes@, len)),
{
    let n = if len < bytes.len() {
        len
    } else {
        bytes.len()
    };
    let ghost t = checked_prefix(bytes@, len);
    assert(t == bytes@.take(n as int));
    let full = n - n % 8;
    let mut i: usize = 0;
    while i < n
        invariant
            n <= bytes@.len(),
            t == checked_prefix(bytes@, len),
            t == bytes@.take(n as int),
            full == n - n % 8,
            i <= n,
            all_dchars(t.take(i as int)),
        decreases n - i,
    {
        let byte = bytes[i];
        if !((0x30 <= byte && byte <= 0x39) || (0x41 <= byte && byte <= 0x5a) || byte == 0x5f) {
            assert(is_first_non_dchar(t, i as int)) by {
                assert(t[i as int] == byte);
            }
            if i < full {
                let start = i - i % 8;
                let chunk = &bytes[start..start + 8];
                assert(chunk@ =~= t.subrange(start as int, start + 8));
                let ok = str_from_utf8(chunk).is_some();
                proof {
                    assert forall|j: int|
                        is_first_non_dchar(t, j) && j < t.len() - t.len() % 8 implies valid_utf8(
                            #[trigger] t.subrange(j - j % 8, j - j % 8 + 8),
                        ) == ok by {
                        lemma_first_non_dchar_unique(t, i as int, j);
                    }
                    assert(i < t.len() - t.len() % 8);
                    assert(valid_utf8(t.subrange(i - i % 8, i - i % 8 + 8)) == ok);
                }
                return ok;
            } else {
                proof {
                    assert forall|j: int| is_first_non_dchar(t, j) implies j >= t.len() - t.len()
                        % 8 by {
                        lemma_first_non_dchar_unique(t, i as int, j);
                    }
                }
                return true;
            }
        }
        proof {
            assert(t.take(i + 1) =~= t.take(i as int).push(byte));
        }
        i += 1;
    }
    proof {
        assert(t.take(n as int) =~= t);
        assert forall|j: int| !is_first_non_dchar(t, j) by {
            if 0 <= j < t.len() {
                assert(is_dchar(t.take(n as int)[j]));
            }
        }
    }
    true
}

/// A buffer of d-characters: its first `len` bytes are checked, the rest is
/// written as spaces.
#[derive(Debug)]
pub struct DCharBuf<'a, B: Buffer<'a>> {
    bytes: B,
    len: usize,
    _ty: PhantomData<&'a [u8]>,
}

impl<'a, B: Buffer<'a> + Clone> Clone for DCharBuf<'a, B> {
    fn clone(&self) -> Self {
        DCharBuf { bytes: self.bytes.clone(), len: self.len, _ty: PhantomData }
    }
}

impl<'a, B: Buffer<'a>> DCharBuf<'a, B> {
    /// The buffer.
    pub closed spec fn buffer(&self) -> B {
        self.bytes
    }

    /// How many bytes of the buffer are d-characters.
    pub closed spec fn dchar_len(&self) -> nat {
        self.len as nat
    }

    /// Whether the invariant of the type holds: the checked bytes lie within
    /// the buffer and are all d-characters.
    pub open spec fn wf(&self) -> bool {
        &&& self.dchar_len() <= self.buffer().buffer_view().len()
        &&& all_dchars(self.buffer().buffer_view().take(self.dchar_len() as int))
    }

    #[inline(never)]
    pub fn new(bytes: B, len: usize) -> (r: Result<Self, DCharError>)
        requires
            dchar_blocks_are_utf8(checked_prefix(bytes.buffer_view(), len)),
        ensures
            r is Ok <==> all_dchars(checked_prefix(bytes.buffer_view(), len)),
            r matches Ok(b) ==> b.buffer() == bytes && b.dchar_len() == checked_prefix(
                bytes.buffer_view(),
                len,
            ).len() && b.wf(),
            r matches Err(e) ==> forall|i: int|
                is_first_non_dchar(checked_prefix(bytes.buffer_view(), len), i)
                    ==> #[trigger] dchar_buf_error(checked_prefix(bytes.buffer_view(), len), i, e),
    {
        let slice = bytes.as_bytes();
        let n = if len < slice.len() {
            len
        } else {
            slice.len()
        };
        let ghost t = slice@.take(n as int);
        let full = n - n % 8;
        let mut i: usize = 0;
        while i < n
            invariant
                slice@ == bytes.buffer_view(),
                n <= slice@.len(),
                n == (if len < slice@.len() { len } else { slice@.len() as usize }),
                t == checked_prefix(bytes.buffer_view(), len),
                t == slice@.take(n as int),
                dchar_blocks_are_utf8(t),
                full == n - n % 8,
                i <= n,
                all_dchars(t.take(i as int)),
            decreases n - i,
        {
            let byte = slice[i];
            if !((0x30 <= byte && byte <= 0x39) || (0x41 <= byte && byte <= 0x5a) || byte == 0x5f) {
                assert(is_first_non_dchar(t, i as int));
                if i < full {
                    let start = i - i % 8;
                    let chunk = &slice[start..start + 8];
                    assert(chunk@ =~= t.subrange(start as int, start + 8));
                    let text = str_from_utf8(chunk);
                    match text {
                        Some(text) => {
                            proof {
                                vstd::utf8::encode_utf8_decode_utf8(text@);
                                assert(decode_utf8(chunk@) == text@);
                            }
                            let e = DCharError { src: text.to_owned(), char_label: LabelSpan { offset: i % 8, len: 1 } };
                            proof {
                                assert(!is_dchar(t[i as int]));
                                assert(dchar_buf_error(t, i as int, e));
                                assert forall|j: int| is_first_non_dchar(t, j) implies #[trigger] dchar_buf_error(t, j, e) by {
                                    lemma_first_non_dchar_unique(t, i as int, j);
                                }
                            }
                            return Err(e);
                        },
                        None => {
                            proof {
                                assert(false);
                            }
                            return Err(DCharError { src: String::new(), char_label: LabelSpan { offset: 0, len: 1 } });
                        },
                    }
                } else {
                    let e = DChar::new(byte);
                    match e {
                        Ok(_) => {
                            proof {
                                assert(false);
                            }
                            return Err(DCharError { src: String::new(), char_label: LabelSpan { offset: 0, len: 1 } });
                        },
                        Err(e) => {
                            proof {
                                assert forall|j: int| is_first_non_dchar(t, j) implies #[trigger] dchar_buf_error(t, j, e) by {
                                    lemma_first_non_dchar_unique(t, i as int, j);
                                }
                            }
                            return Err(e);
                        },
                    }
                }
            }
            i = i + 1;
            assert(t.take(i as int) =~= t.take(i - 1).push(t[i - 1]));
        }
        assert(t.take(n as int) =~= t);
        Ok(Self { bytes, _ty: PhantomData, len: n })
    }
}

/// The first byte that is not a d-character is unique.
proof fn lemma_first_non_dchar_unique(s: Seq<u8>, i: int, j: int)
    requires
        is_first_non_dchar(s, i),
        is_first_non_dchar(s, j),
    ensures
        i == j,
{
    if i < j {
        assert(s.take(j)[i] == s[i]);
    } else if j < i {
        assert(s.take(i)[j] == s[j]);
    }
}

/// A d-character buffer is written at the full length of its buffer.
pub proof fn lemma_dchar_buf_len<'a, B: Buffer<'a>>(b: DCharBuf<'a, B>)
    requires
        b.wf(),
    ensures
        b.encoding().len() == b.buffer().buffer_view().len(),
{
}

/// `n` space characters.
pub open spec fn spaces(n: nat) -> Seq<u8> {
    Seq::new(n, |i: int| 0x20u8)
}

impl<'a, B: Buffer<'a>> Encode for DCharBuf<'a, B> {
    open spec fn encoding(&self) -> Seq<u8> {
        let s = self.buffer().buffer_view();
        s.take(self.dchar_len() as int) + spaces((s.len() - self.dchar_len()) as nat)
    }

    open spec fn can_encode(&self) -> bool {
        self.wf()
    }

    open spec fn reported_size(&self) -> nat {
        vstd::layout::size_of::<Self>()
    }

    fn size(&self) -> (n: usize) {
        core::mem::size_of::<Self>()
    }

    fn encode(&self, writer: &mut Vec<u8>) {
        let all = self.bytes.as_bytes();
        let bytes = &all[0..self.len];
        write_all(writer, bytes);
        let remaining = all.len() - self.len;
        // pad remaining dchar buffer with spaces
        let fill = Fill::new(remaining, &[0x20]);
        fill.encode(writer);
        assert(fill.encoding() =~= spaces(remaining as nat));
        assert(writer@ =~= old(writer)@ + self.encoding());
    }
}

} // verus!
