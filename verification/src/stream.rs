//! Byte-stream codec: a growable byte buffer with a read cursor, fixed-width
//! little/big-endian integer reads and writes, length-prefixed strings,
//! booleans, LEB128-style varints, and a `Serialize` capability for types
//! that know their own encoding.

use vstd::bytes::*;
use vstd::prelude::*;
use vstd::string::*;
use vstd::utf8::*;

verus! {

use crate::DumpError;

/// A fixed-width integer that can be laid out as little- or big-endian bytes
/// and can carry a length prefix.
pub trait Bytes: Sized + Copy {
    /// Encoded width in bytes.
    spec fn width() -> nat;

    /// Largest value of the type, as a mathematical integer.
    spec fn max_spec() -> int;

    /// The value as a mathematical integer.
    spec fn spec_as_int(self) -> int;

    /// The value holding a given in-range integer.
    spec fn spec_from_int(n: int) -> Self;

    spec fn from_le_spec(s: Seq<u8>) -> Self;

    spec fn from_be_spec(s: Seq<u8>) -> Self;

    spec fn to_le_spec(self) -> Seq<u8>;

    spec fn to_be_spec(self) -> Seq<u8>;

    /// Every value round-trips through either byte order, and its integer
    /// image is in range.
    proof fn lemma_round_trip(self)
        ensures
            self.to_le_spec().len() == Self::width(),
            self.to_be_spec().len() == Self::width(),
            Self::from_le_spec(self.to_le_spec()) == self,
            Self::from_be_spec(self.to_be_spec()) == self,
            self.spec_as_int() <= Self::max_spec(),
            Self::spec_from_int(self.spec_as_int()) == self;

    /// Every in-range integer is represented exactly.
    proof fn lemma_from_int(n: int)
        requires
            0 <= n <= Self::max_spec(),
        ensures
            Self::spec_from_int(n).spec_as_int() == n;

    /// The width is at least one byte.
    proof fn lemma_width()
        ensures
            Self::width() > 0;

    fn width_exec() -> (r: usize)
        ensures
            r == Self::width();

    fn from_le_bytes(bytes: Vec<u8>) -> (r: Self)
        requires
            bytes@.len() == Self::width(),
        ensures
            r == Self::from_le_spec(bytes@);

    fn from_be_bytes(bytes: Vec<u8>) -> (r: Self)
        requires
            bytes@.len() == Self::width(),
        ensures
            r == Self::from_be_spec(bytes@);

    fn to_le_bytes(self) -> (r: Vec<u8>)
        ensures
            r@ == self.to_le_spec();

    fn to_be_bytes(self) -> (r: Vec<u8>)
        ensures
            r@ == self.to_be_spec();

    fn try_from_usize(n: usize) -> (r: Option<Self>)
        ensures
            r is Some <==> n as int <= Self::max_spec(),
            r matches Some(v) ==> v == Self::spec_from_int(n as int),
        ;

    fn to_usize(self) -> (r: Option<usize>)
        ensures
            r is Some <==> 0 <= self.spec_as_int() <= usize::MAX,
            r matches Some(v) ==> v as int == self.spec_as_int(),
        ;
}

impl Bytes for u8 {
    open spec fn width() -> nat {
        1
    }

    open spec fn max_spec() -> int {
        u8::MAX as int
    }

    open spec fn spec_as_int(self) -> int {
        self as int
    }

    open spec fn spec_from_int(n: int) -> u8 {
        n as u8
    }

    open spec fn from_le_spec(s: Seq<u8>) -> u8 {
        s[0]
    }

    open spec fn from_be_spec(s: Seq<u8>) -> u8 {
        s[0]
    }

    open spec fn to_le_spec(self) -> Seq<u8> {
        seq![self]
    }

    open spec fn to_be_spec(self) -> Seq<u8> {
        seq![self]
    }

    proof fn lemma_round_trip(self) {
    }

    proof fn lemma_from_int(n: int) {
    }

    proof fn lemma_width() {
    }

    fn width_exec() -> usize {
        1
    }

    fn from_le_bytes(bytes: Vec<u8>) -> u8 {
        bytes[0]
    }

    fn from_be_bytes(bytes: Vec<u8>) -> u8 {
        bytes[0]
    }

    fn to_le_bytes(self) -> (r: Vec<u8>) {
        let mut v: Vec<u8> = Vec::new();
        v.push(self);
        proof {
            assert(v@ =~= self.to_le_spec());
        }
        v
    }

    fn to_be_bytes(self) -> (r: Vec<u8>) {
        let mut v: Vec<u8> = Vec::new();
        v.push(self);
        proof {
            assert(v@ =~= self.to_be_spec());
        }
        v
    }

    fn try_from_usize(n: usize) -> (r: Option<u8>) {
        if n <= u8::MAX as usize {
            Some(n as u8)
        } else {
            None
        }
    }

    fn to_usize(self) -> (r: Option<usize>) {
        Some(self as usize)
    }
}

fn reverse_vec(v: &Vec<u8>) -> (r: Vec<u8>)
    ensures
        r@ == v@.reverse(),
{
    let n = v.len();
    let mut r: Vec<u8> = Vec::new();
    let mut i: usize = 0;
    while i < n
        invariant
            i <= n,
            n == v@.len(),
            r@.len() == i,
            forall|j: int| 0 <= j < i ==> r@[j] == v@[n - 1 - j],
        decreases n - i,
    {
        r.push(v[n - 1 - i]);
        i = i + 1;
    }
    proof {
        assert(r@ =~= v@.reverse());
    }
    r
}

impl Bytes for u16 {
    open spec fn width() -> nat {
        2
    }

    open spec fn max_spec() -> int {
        u16::MAX as int
    }

    open spec fn spec_as_int(self) -> int {
        self as int
    }

    open spec fn spec_from_int(n: int) -> u16 {
        n as u16
    }

    open spec fn from_le_spec(s: Seq<u8>) -> u16 {
        spec_u16_from_le_bytes(s)
    }

    open spec fn from_be_spec(s: Seq<u8>) -> u16 {
        spec_u16_from_le_bytes(s.reverse())
    }

    open spec fn to_le_spec(self) -> Seq<u8> {
        spec_u16_to_le_bytes(self)
    }

    open spec fn to_be_spec(self) -> Seq<u8> {
        spec_u16_to_le_bytes(self).reverse()
    }

    proof fn lemma_round_trip(self) {
        lemma_auto_spec_u16_to_from_le_bytes();
        assert(self.to_be_spec().reverse() =~= self.to_le_spec());
    }

    proof fn lemma_from_int(n: int) {
    }

    proof fn lemma_width() {
    }

    fn width_exec() -> usize {
        2
    }

    fn from_le_bytes(bytes: Vec<u8>) -> u16 {
        u16_from_le_bytes(bytes.as_slice())
    }

    fn from_be_bytes(bytes: Vec<u8>) -> (r: u16) {
        let rev = reverse_vec(&bytes);
        u16_from_le_bytes(rev.as_slice())
    }

    fn to_le_bytes(self) -> Vec<u8> {
        u16_to_le_bytes(self)
    }

    fn to_be_bytes(self) -> (r: Vec<u8>) {
        let le = u16_to_le_bytes(self);
        reverse_vec(&le)
    }

    fn try_from_usize(n: usize) -> (r: Option<u16>) {
        if n <= u16::MAX as usize {
            Some(n as u16)
        } else {
            None
        }
    }

    fn to_usize(self) -> (r: Option<usize>) {
        Some(self as usize)
    }
}

impl Bytes for u32 {
    open spec fn width() -> nat {
        4
    }

    open spec fn max_spec() -> int {
        u32::MAX as int
    }

    open spec fn spec_as_int(self) -> int {
        self as int
    }

    open spec fn spec_from_int(n: int) -> u32 {
        n as u32
    }

    open spec fn from_le_spec(s: Seq<u8>) -> u32 {
        spec_u32_from_le_bytes(s)
    }

    open spec fn from_be_spec(s: Seq<u8>) -> u32 {
        spec_u32_from_le_bytes(s.reverse())
    }

    open spec fn to_le_spec(self) -> Seq<u8> {
        spec_u32_to_le_bytes(self)
    }

    open spec fn to_be_spec(self) -> Seq<u8> {
        spec_u32_to_le_bytes(self).reverse()
    }

    proof fn lemma_round_trip(self) {
        lemma_auto_spec_u32_to_from_le_bytes();
        assert(self.to_be_spec().reverse() =~= self.to_le_spec());
    }

    proof fn lemma_from_int(n: int) {
    }

    proof fn lemma_width() {
    }

    fn width_exec() -> usize {
        4
    }

    fn from_le_bytes(bytes: Vec<u8>) -> u32 {
        u32_from_le_bytes(bytes.as_slice())
    }

    fn from_be_bytes(bytes: Vec<u8>) -> (r: u32) {
        let rev = reverse_vec(&bytes);
        u32_from_le_bytes(rev.as_slice())
    }

    fn to_le_bytes(self) -> Vec<u8> {
        u32_to_le_bytes(self)
    }

    fn to_be_bytes(self) -> (r: Vec<u8>) {
        let le = u32_to_le_bytes(self);
        reverse_vec(&le)
    }

    fn try_from_usize(n: usize) -> (r: Option<u32>) {
        if n as u64 <= u32::MAX as u64 {
            Some(n as u32)
        } else {
            None
        }
    }

    fn to_usize(self) -> (r: Option<usize>) {
        Some(self as usize)
    }
}

impl Bytes for u64 {
    open spec fn width() -> nat {
        8
    }

    open spec fn max_spec() -> int {
        u64::MAX as int
    }

    open spec fn spec_as_int(self) -> int {
        self as int
    }

    open spec fn spec_from_int(n: int) -> u64 {
        n as u64
    }

    open spec fn from_le_spec(s: Seq<u8>) -> u64 {
        spec_u64_from_le_bytes(s)
    }

    open spec fn from_be_spec(s: Seq<u8>) -> u64 {
        spec_u64_from_le_bytes(s.reverse())
    }

    open spec fn to_le_spec(self) -> Seq<u8> {
        spec_u64_to_le_bytes(self)
    }

    open spec fn to_be_spec(self) -> Seq<u8> {
        spec_u64_to_le_bytes(self).reverse()
    }

    proof fn lemma_round_trip(self) {
        lemma_auto_spec_u64_to_from_le_bytes();
        assert(self.to_be_spec().reverse() =~= self.to_le_spec());
    }

    proof fn lemma_from_int(n: int) {
    }

    proof fn lemma_width() {
    }

    fn width_exec() -> usize {
        8
    }

    fn from_le_bytes(bytes: Vec<u8>) -> u64 {
        u64_from_le_bytes(bytes.as_slice())
    }

    fn from_be_bytes(bytes: Vec<u8>) -> (r: u64) {
        let rev = reverse_vec(&bytes);
        u64_from_le_bytes(rev.as_slice())
    }

    fn to_le_bytes(self) -> Vec<u8> {
        u64_to_le_bytes(self)
    }

    fn to_be_bytes(self) -> (r: Vec<u8>) {
        let le = u64_to_le_bytes(self);
        reverse_vec(&le)
    }

    fn try_from_usize(n: usize) -> (r: Option<u64>) {
        Some(n as u64)
    }

    fn to_usize(self) -> (r: Option<usize>) {
        if self <= usize::MAX as u64 {
            Some(self as usize)
        } else {
            None
        }
    }
}

impl Bytes for i32 {
    open spec fn width() -> nat {
        4
    }

    open spec fn max_spec() -> int {
        i32::MAX as int
    }

    open spec fn spec_as_int(self) -> int {
        self as int
    }

    open spec fn spec_from_int(n: int) -> i32 {
        n as i32
    }

    open spec fn from_le_spec(s: Seq<u8>) -> i32 {
        spec_u32_from_le_bytes(s) as i32
    }

    open spec fn from_be_spec(s: Seq<u8>) -> i32 {
        spec_u32_from_le_bytes(s.reverse()) as i32
    }

    open spec fn to_le_spec(self) -> Seq<u8> {
        spec_u32_to_le_bytes(self as u32)
    }

    open spec fn to_be_spec(self) -> Seq<u8> {
        spec_u32_to_le_bytes(self as u32).reverse()
    }

    proof fn lemma_round_trip(self) {
        lemma_auto_spec_u32_to_from_le_bytes();
        assert(self.to_be_spec().reverse() =~= self.to_le_spec());
        assert(self as u32 as i32 == self) by (bit_vector);
    }

    proof fn lemma_from_int(n: int) {
    }

    proof fn lemma_width() {
    }

    fn width_exec() -> usize {
        4
    }

    fn from_le_bytes(bytes: Vec<u8>) -> (r: i32) {
        u32_from_le_bytes(bytes.as_slice()) as i32
    }

    fn from_be_bytes(bytes: Vec<u8>) -> (r: i32) {
        let rev = reverse_vec(&bytes);
        u32_from_le_bytes(rev.as_slice()) as i32
    }

    fn to_le_bytes(self) -> Vec<u8> {
        u32_to_le_bytes(self as u32)
    }

    fn to_be_bytes(self) -> (r: Vec<u8>) {
        let le = u32_to_le_bytes(self as u32);
        reverse_vec(&le)
    }

    fn try_from_usize(n: usize) -> (r: Option<i32>) {
        if n <= i32::MAX as usize {
            Some(n as i32)
        } else {
            None
        }
    }

    fn to_usize(self) -> (r: Option<usize>) {
        if self >= 0 {
            Some(self as usize)
        } else {
            None
        }
    }
}

/// A byte buffer with a read cursor. Writes append at the end; reads consume
/// from the cursor. The cursor may be pushed past the end by `ignore_bytes`,
/// after which every read fails.
#[derive(Clone)]
pub struct NetworkStream {
    pub data: Vec<u8>,
    pub read_pointer: usize,
}

impl NetworkStream {
    /// The bytes not yet consumed.
    pub open spec fn remaining(self) -> Seq<u8> {
        if self.read_pointer <= self.data@.len() {
            self.data@.skip(self.read_pointer as int)
        } else {
            Seq::<u8>::empty()
        }
    }

    pub fn new() -> (r: NetworkStream)
        ensures
            r.data@ == Seq::<u8>::empty(),
            r.read_pointer == 0,
    {
        NetworkStream { data: Vec::new(), read_pointer: 0 }
    }

    pub fn from(data: Vec<u8>) -> (r: NetworkStream)
        ensures
            r.data@ == data@,
            r.read_pointer == 0,
    {
        NetworkStream { data, read_pointer: 0 }
    }

    pub fn ignore_bytes(&mut self, num_bytes: usize)
        requires
            old(self).read_pointer + num_bytes <= usize::MAX,
        ensures
            final(self).data@ == old(self).data@,
            final(self).read_pointer == old(self).read_pointer + num_bytes,
    {
        self.read_pointer = self.read_pointer + num_bytes;
    }

    /// A copy of the bytes from the cursor to the end, without consuming.
    pub fn read_to_end(&self) -> (r: Vec<u8>)
        ensures
            r@ == self.remaining(),
    {
        let len = self.data.len();
        let mut out: Vec<u8> = Vec::new();
        if self.read_pointer > len {
            return out;
        }
        let mut i: usize = self.read_pointer;
        while i < len
            invariant
                self.read_pointer <= i <= len,
                len == self.data@.len(),
                out@.len() == i - self.read_pointer,
                forall|j: int| 0 <= j < out@.len() ==> out@[j] == self.data@[self.read_pointer + j],
            decreases len - i,
        {
            out.push(self.data[i]);
            i = i + 1;
        }
        proof {
            assert(out@ =~= self.remaining());
        }
        out
    }

    pub fn write_bytes(&mut self, bytes: &Vec<u8>)
        ensures
            final(self).data@ == old(self).data@ + bytes@,
            final(self).read_pointer == old(self).read_pointer,
    {
        let n = bytes.len();
        let mut i: usize = 0;
        while i < n
            invariant
                i <= n,
                n == bytes@.len(),
                self.read_pointer == old(self).read_pointer,
                self.data@ == old(self).data@ + bytes@.take(i as int),
            decreases n - i,
        {
            self.data.push(bytes[i]);
            i = i + 1;
            proof {
                assert(old(self).data@ + bytes@.take(i - 1) + seq![bytes@[i - 1]] =~= old(
                    self,
                ).data@ + bytes@.take(i as int));
            }
        }
        proof {
            assert(old(self).data@ + bytes@.take(n as int) =~= old(self).data@ + bytes@);
        }
    }

    pub fn read_bytes(&mut self, num_bytes: usize) -> (r: Result<Vec<u8>, DumpError>)
        ensures
            final(self).data@ == old(self).data@,
            old(self).read_pointer + num_bytes <= old(self).data@.len() ==> {
                &&& r matches Ok(b) && b@ == old(self).data@.subrange(
                    old(self).read_pointer as int,
                    old(self).read_pointer + num_bytes,
                )
                &&& final(self).read_pointer == old(self).read_pointer + num_bytes
            },
            old(self).read_pointer + num_bytes > old(self).data@.len() ==> r == Err::<
                Vec<u8>,
                DumpError,
            >(DumpError::OutOfBounds) && final(self).read_pointer == old(self).read_pointer,
    {
        let len = self.data.len();
        if num_bytes > len || self.read_pointer > len - num_bytes {
            return Err(DumpError::OutOfBounds);
        }
        let mut out: Vec<u8> = Vec::new();
        let mut i: usize = 0;
        while i < num_bytes
            invariant
                i <= num_bytes,
                self == old(self),
                old(self).read_pointer + num_bytes <= old(self).data@.len() <= usize::MAX,
                out@.len() == i,
                forall|j: int| 0 <= j < i ==> out@[j] == old(self).data@[old(self).read_pointer + j],
            decreases num_bytes - i,
        {
            out.push(self.data[self.read_pointer + i]);
            i = i + 1;
        }
        self.read_pointer = self.read_pointer + num_bytes;
        proof {
            assert(out@ =~= old(self).data@.subrange(
                old(self).read_pointer as int,
                old(self).read_pointer + num_bytes,
            ));
        }
        Ok(out)
    }

    pub fn write_byte(&mut self, byte: u8)
        ensures
            final(self).data@ == old(self).data@ + seq![byte],
            final(self).read_pointer == old(self).read_pointer,
    {
        self.data.push(byte);
    }

    pub fn read_byte(&mut self) -> (r: Result<u8, DumpError>)
        ensures
            final(self).data@ == old(self).data@,
            old(self).read_pointer < old(self).data@.len() ==> {
                &&& r matches Ok(b) && b == old(self).data@[old(self).read_pointer as int]
                &&& final(self).read_pointer == old(self).read_pointer + 1
            },
            old(self).read_pointer >= old(self).data@.len() ==> r == Err::<u8, DumpError>(
                DumpError::OutOfBounds,
            ) && final(self).read_pointer == old(self).read_pointer,
    {
        if self.read_pointer >= self.data.len() {
            return Err(DumpError::OutOfBounds);
        }
        let b = self.data[self.read_pointer];
        self.read_pointer = self.read_pointer + 1;
        Ok(b)
    }

    /// A boolean is one byte: `0x01` for true, `0x00` for false.
    pub fn write_bool(&mut self, b: bool)
        ensures
            final(self).data@ == old(self).data@ + seq![spec_bool_byte(b)],
            final(self).read_pointer == old(self).read_pointer,
    {
        self.write_byte(if b {
            0x01
        } else {
            0x00
        });
    }

    /// On read, any byte other than `0x01` is tolerated as `false`.
    pub fn read_bool(&mut self) -> (r: Result<bool, DumpError>)
        ensures
            final(self).data@ == old(self).data@,
            old(self).read_pointer < old(self).data@.len() ==> {
                &&& r matches Ok(b) && b == (old(self).data@[old(self).read_pointer as int]
                    == 0x01)
                &&& final(self).read_pointer == old(self).read_pointer + 1
            },
            old(self).read_pointer >= old(self).data@.len() ==> r == Err::<bool, DumpError>(
                DumpError::OutOfBounds,
            ) && final(self).read_pointer == old(self).read_pointer,
    {
        match self.read_byte() {
            Ok(b) => Ok(b == 0x01),
            Err(e) => Err(e),
        }
    }

    pub fn read_le<T: Bytes>(&mut self) -> (r: Result<T, DumpError>)
        ensures
            final(self).data@ == old(self).data@,
            old(self).read_pointer + T::width() <= old(self).data@.len() ==> {
                &&& r matches Ok(v) && v == T::from_le_spec(
                    old(self).data@.subrange(
                        old(self).read_pointer as int,
                        old(self).read_pointer + T::width(),
                    ),
                )
                &&& final(self).read_pointer == old(self).read_pointer + T::width()
            },
            old(self).read_pointer + T::width() > old(self).data@.len() ==> (r matches Err(e) && e
                == DumpError::OutOfBounds && final(self).read_pointer == old(self).read_pointer),
    {
        let n = T::width_exec();
        match self.read_bytes(n) {
            Ok(bytes) => Ok(T::from_le_bytes(bytes)),
            Err(e) => Err(e),
        }
    }

    pub fn read_be<T: Bytes>(&mut self) -> (r: Result<T, DumpError>)
        ensures
            final(self).data@ == old(self).data@,
            old(self).read_pointer + T::width() <= old(self).data@.len() ==> {
                &&& r matches Ok(v) && v == T::from_be_spec(
                    old(self).data@.subrange(
                        old(self).read_pointer as int,
                        old(self).read_pointer + T::width(),
                    ),
                )
                &&& final(self).read_pointer == old(self).read_pointer + T::width()
            },
            old(self).read_pointer + T::width() > old(self).data@.len() ==> (r matches Err(e) && e
                == DumpError::OutOfBounds && final(self).read_pointer == old(self).read_pointer),
    {
        let n = T::width_exec();
        match self.read_bytes(n) {
            Ok(bytes) => Ok(T::from_be_bytes(bytes)),
            Err(e) => Err(e),
        }
    }

    pub fn write_le<T: Bytes>(&mut self, val: T)
        ensures
            final(self).data@ == old(self).data@ + val.to_le_spec(),
            final(self).read_pointer == old(self).read_pointer,
    {
        let bytes = val.to_le_bytes();
        self.write_bytes(&bytes);
    }

    pub fn write_be<T: Bytes>(&mut self, val: T)
        ensures
            final(self).data@ == old(self).data@ + val.to_be_spec(),
            final(self).read_pointer == old(self).read_pointer,
    {
        let bytes = val.to_be_bytes();
        self.write_bytes(&bytes);
    }
}

/// The byte a boolean is written as.
pub open spec fn spec_bool_byte(b: bool) -> u8 {
    if b {
        0x01
    } else {
        0x00
    }
}

/// Whether a string's UTF-8 byte length fits the length prefix `T`.
pub open spec fn spec_string_fits<T: Bytes>(s: Seq<char>) -> bool {
    encode_utf8(s).len() <= T::max_spec()
}

/// A length-prefixed string: the byte length as a little-endian `T`, then the
/// UTF-8 bytes.
pub open spec fn spec_write_string_le<T: Bytes>(s: Seq<char>) -> Seq<u8> {
    T::spec_from_int(encode_utf8(s).len() as int).to_le_spec() + encode_utf8(s)
}

/// As `spec_write_string_le`, with a big-endian prefix.
pub open spec fn spec_write_string_be<T: Bytes>(s: Seq<char>) -> Seq<u8> {
    T::spec_from_int(encode_utf8(s).len() as int).to_be_spec() + encode_utf8(s)
}

/// Decode a length-prefixed string from the front of `data`: the characters
/// and the bytes consumed, or the exact error.
pub open spec fn spec_read_string_le<T: Bytes>(data: Seq<u8>) -> Result<
    (Seq<char>, int),
    DumpError,
> {
    spec_read_string_prefixed(data, T::width() as int, T::from_le_spec(
        data.take(T::width() as int),
    ).spec_as_int())
}

/// As `spec_read_string_le`, with a big-endian prefix.
pub open spec fn spec_read_string_be<T: Bytes>(data: Seq<u8>) -> Result<
    (Seq<char>, int),
    DumpError,
> {
    spec_read_string_prefixed(data, T::width() as int, T::from_be_spec(
        data.take(T::width() as int),
    ).spec_as_int())
}

/// Common shape of the prefixed-string decoders: `w` prefix bytes were read
/// and gave byte length `n`; the string body follows.
pub open spec fn spec_read_string_prefixed(data: Seq<u8>, w: int, n: int) -> Result<
    (Seq<char>, int),
    DumpError,
> {
    if data.len() < w {
        Err(DumpError::OutOfBounds)
    } else if !(0 <= n <= usize::MAX) {
        Err(DumpError::LengthOverflow)
    } else if data.len() < w + n {
        Err(DumpError::OutOfBounds)
    } else {
        let body = data.subrange(w, w + n);
        if valid_utf8(body) {
            Ok((decode_utf8(body), w + n))
        } else {
            Err(DumpError::Encoding)
        }
    }
}

/// Relies on `String::from_utf8`: succeeds exactly on valid UTF-8 and yields
/// the string whose encoding is the input bytes.
#[verifier::external_body]
pub(crate) fn bytes_to_string(bytes: Vec<u8>) -> (r: Option<String>)
    ensures
        r is Some <==> valid_utf8(bytes@),
        r matches Some(s) ==> s@ == decode_utf8(bytes@),
{
    match String::from_utf8(bytes) {
        Ok(s) => Some(s),
        Err(_) => None,
    }
}

impl NetworkStream {
    pub fn write_string_le<T: Bytes>(&mut self, s: &str) -> (r: Result<(), DumpError>)
        ensures
            final(self).read_pointer == old(self).read_pointer,
            spec_string_fits::<T>(s@) ==> r is Ok && final(self).data@ == old(self).data@
                + spec_write_string_le::<T>(s@),
            !spec_string_fits::<T>(s@) ==> r == Err::<(), DumpError>(DumpError::LengthOverflow)
                && final(self).data@ == old(self).data@,
    {
        let bytes = s.as_bytes_vec();
        let n = bytes.len();
        match T::try_from_usize(n) {
            None => Err(DumpError::LengthOverflow),
            Some(prefix) => {
                self.write_le(prefix);
                self.write_bytes(&bytes);
                proof {
                    assert(self.data@ =~= old(self).data@ + spec_write_string_le::<T>(s@));
                }
                Ok(())
            },
        }
    }

    pub fn write_string_be<T: Bytes>(&mut self, s: &str) -> (r: Result<(), DumpError>)
        ensures
            final(self).read_pointer == old(self).read_pointer,
            spec_string_fits::<T>(s@) ==> r is Ok && final(self).data@ == old(self).data@
                + spec_write_string_be::<T>(s@),
            !spec_string_fits::<T>(s@) ==> r == Err::<(), DumpError>(DumpError::LengthOverflow)
                && final(self).data@ == old(self).data@,
    {
        let bytes = s.as_bytes_vec();
        let n = bytes.len();
        match T::try_from_usize(n) {
            None => Err(DumpError::LengthOverflow),
            Some(prefix) => {
                self.write_be(prefix);
                self.write_bytes(&bytes);
                proof {
                    assert(self.data@ =~= old(self).data@ + spec_write_string_be::<T>(s@));
                }
                Ok(())
            },
        }
    }

    pub fn read_string_le<T: Bytes>(&mut self) -> (r: Result<String, DumpError>)
        ensures
            final(self).data@ == old(self).data@,
            (match spec_read_string_le::<T>(old(self).remaining()) {
                Ok((s, n)) => r matches Ok(got) && got@ == s && final(self).read_pointer == old(
                    self,
                ).read_pointer + n,
                Err(e) => r matches Err(got) && got == e,
            }),
    {
        proof {
            T::lemma_width();
        }
        let prefix = match self.read_le::<T>() {
            Ok(p) => p,
            Err(e) => {
                return Err(e);
            },
        };
        proof {
            assert(old(self).data@.subrange(
                old(self).read_pointer as int,
                old(self).read_pointer + T::width(),
            ) =~= old(self).remaining().take(T::width() as int));
        }
        self.read_string_body(Ghost(*old(self)), prefix)
    }

    pub fn read_string_be<T: Bytes>(&mut self) -> (r: Result<String, DumpError>)
        ensures
            final(self).data@ == old(self).data@,
            (match spec_read_string_be::<T>(old(self).remaining()) {
                Ok((s, n)) => r matches Ok(got) && got@ == s && final(self).read_pointer == old(
                    self,
                ).read_pointer + n,
                Err(e) => r matches Err(got) && got == e,
            }),
    {
        proof {
            T::lemma_width();
        }
        let prefix = match self.read_be::<T>() {
            Ok(p) => p,
            Err(e) => {
                return Err(e);
            },
        };
        proof {
            assert(old(self).data@.subrange(
                old(self).read_pointer as int,
                old(self).read_pointer + T::width(),
            ) =~= old(self).remaining().take(T::width() as int));
        }
        self.read_string_body(Ghost(*old(self)), prefix)
    }

    /// Shared tail of the prefixed-string reads, after the prefix was
    /// consumed from `pre` leaving the cursor at `self`.
    fn read_string_body<T: Bytes>(&mut self, Ghost(pre): Ghost<NetworkStream>, prefix: T) -> (r:
        Result<String, DumpError>)
        requires
            old(self).data@ == pre.data@,
            pre.read_pointer + T::width() <= pre.data@.len(),
            old(self).read_pointer == pre.read_pointer + T::width(),
        ensures
            final(self).data@ == old(self).data@,
            (match spec_read_string_prefixed(
                pre.remaining(),
                T::width() as int,
                prefix.spec_as_int(),
            ) {
                Ok((s, n)) => r matches Ok(got) && got@ == s && final(self).read_pointer
                    == pre.read_pointer + n,
                Err(e) => r matches Err(got) && got == e,
            }),
    {
        let len = match prefix.to_usize() {
            Some(l) => l,
            None => {
                return Err(DumpError::LengthOverflow);
            },
        };
        let body = match self.read_bytes(len) {
            Ok(b) => b,
            Err(e) => {
                proof {
                    assert(pre.remaining().len() == pre.data@.len() - pre.read_pointer);
                }
                return Err(e);
            },
        };
        proof {
            assert(body@ =~= pre.remaining().subrange(
                T::width() as int,
                T::width() + len as int,
            ));
        }
        match bytes_to_string(body) {
            Some(s) => Ok(s),
            None => Err(DumpError::Encoding),
        }
    }
}

/// Decode a 32-bit LEB128-style varint from the front of `data`, the low
/// `shift` bits already consumed: 7 payload bits per byte, continuation bit
/// `0x80`. A continuation past the value's width is a format error.
pub open spec fn spec_read_varint32(data: Seq<u8>, shift: nat) -> Result<(u32, int), DumpError>
    decreases 32 - shift,
{
    if data.len() == 0 {
        Err(DumpError::OutOfBounds)
    } else {
        let b = data[0];
        let val = ((b & 0x7f) as u32) << shift;
        if b & 0x80 == 0 {
            Ok((val, 1))
        } else if shift + 7 >= 32 {
            Err(DumpError::Format)
        } else {
            match spec_read_varint32(data.skip(1), (shift + 7) as nat) {
                Ok((v, n)) => Ok(((val | v) as u32, n + 1)),
                Err(e) => Err(e),
            }
        }
    }
}

/// As `spec_read_varint32`, for 64-bit values.
pub open spec fn spec_read_varint64(data: Seq<u8>, shift: nat) -> Result<(u64, int), DumpError>
    decreases 64 - shift,
{
    if data.len() == 0 {
        Err(DumpError::OutOfBounds)
    } else {
        let b = data[0];
        let val = ((b & 0x7f) as u64) << shift;
        if b & 0x80 == 0 {
            Ok((val, 1))
        } else if shift + 7 >= 64 {
            Err(DumpError::Format)
        } else {
            match spec_read_varint64(data.skip(1), (shift + 7) as nat) {
                Ok((v, n)) => Ok(((val | v) as u64, n + 1)),
                Err(e) => Err(e),
            }
        }
    }
}

/// Zig-zag decoding of an unsigned varint: `-(n & 1) XOR (n >> 1)`.
pub open spec fn spec_zigzag32(n: u32) -> i32 {
    if n & 1 == 1 {
        (-1i32) ^ ((n >> 1) as i32)
    } else {
        (n >> 1) as i32
    }
}

/// Zig-zag decoding of an unsigned varint: `-(n & 1) XOR (n >> 1)`.
pub open spec fn spec_zigzag64(n: u64) -> i64 {
    if n & 1 == 1 {
        (-1i64) ^ ((n >> 1) as i64)
    } else {
        (n >> 1) as i64
    }
}

/// Law: a length-prefixed string decodes back from its own encoding, at the
/// front of any longer buffer, consuming exactly the encoding.
pub proof fn lemma_string_le_round_trip<T: Bytes>(s: Seq<char>, rest: Seq<u8>)
    requires
        spec_string_fits::<T>(s),
        encode_utf8(s).len() <= usize::MAX,
    ensures
        spec_read_string_le::<T>(spec_write_string_le::<T>(s) + rest) == Ok::<
            (Seq<char>, int),
            DumpError,
        >((s, spec_write_string_le::<T>(s).len() as int)),
{
    broadcast use encode_utf8_valid_utf8, encode_utf8_decode_utf8;

    let len = encode_utf8(s).len() as int;
    let prefix = T::spec_from_int(len);
    T::lemma_from_int(len);
    prefix.lemma_round_trip();
    let data = spec_write_string_le::<T>(s) + rest;
    assert(data.take(T::width() as int) =~= prefix.to_le_spec());
    assert(data.subrange(T::width() as int, T::width() + len) =~= encode_utf8(s));
}

/// A varint decode consumes at least one and at most all of the bytes.
pub proof fn lemma_varint32_consumed(data: Seq<u8>, shift: nat)
    ensures
        spec_read_varint32(data, shift) matches Ok((v, n)) ==> 1 <= n <= data.len(),
    decreases 32 - shift,
{
    if data.len() != 0 {
        let b = data[0];
        if b & 0x80 != 0 && shift + 7 < 32 {
            lemma_varint32_consumed(data.skip(1), shift + 7);
        }
    }
}

/// A varint decode consumes at least one and at most all of the bytes.
pub proof fn lemma_varint64_consumed(data: Seq<u8>, shift: nat)
    ensures
        spec_read_varint64(data, shift) matches Ok((v, n)) ==> 1 <= n <= data.len(),
    decreases 64 - shift,
{
    if data.len() != 0 {
        let b = data[0];
        if b & 0x80 != 0 && shift + 7 < 64 {
            lemma_varint64_consumed(data.skip(1), shift + 7);
        }
    }
}

/// Decode `n` raw bytes as UTF-8 text.
pub open spec fn spec_read_sized_string(data: Seq<u8>, n: int) -> Result<
    (Seq<char>, int),
    DumpError,
> {
    if data.len() < n || n < 0 {
        Err(DumpError::OutOfBounds)
    } else if valid_utf8(data.take(n)) {
        Ok((decode_utf8(data.take(n)), n))
    } else {
        Err(DumpError::Encoding)
    }
}

impl NetworkStream {
    fn read_varint32_from(&mut self, shift: u32) -> (r: Result<u32, DumpError>)
        requires
            shift < 32,
        ensures
            final(self).data@ == old(self).data@,
            (match spec_read_varint32(old(self).remaining(), shift as nat) {
                Ok((v, n)) => r matches Ok(got) && got == v && final(self).read_pointer == old(
                    self,
                ).read_pointer + n,
                Err(e) => r matches Err(got) && got == e,
            }),
        decreases 32 - shift,
    {
        let b = match self.read_byte() {
            Ok(b) => b,
            Err(e) => {
                return Err(e);
            },
        };
        let val = ((b & 0x7f) as u32) << shift;
        if b & 0x80 == 0 {
            Ok(val)
        } else if shift + 7 >= 32 {
            Err(DumpError::Format)
        } else {
            proof {
                assert(self.remaining() =~= old(self).remaining().skip(1));
            }
            match self.read_varint32_from(shift + 7) {
                Ok(v) => Ok(val | v),
                Err(e) => Err(e),
            }
        }
    }

    pub fn read_varint32(&mut self) -> (r: Result<u32, DumpError>)
        ensures
            final(self).data@ == old(self).data@,
            (match spec_read_varint32(old(self).remaining(), 0) {
                Ok((v, n)) => r matches Ok(got) && got == v && final(self).read_pointer == old(
                    self,
                ).read_pointer + n,
                Err(e) => r matches Err(got) && got == e,
            }),
    {
        self.read_varint32_from(0)
    }

    fn read_varint64_from(&mut self, shift: u32) -> (r: Result<u64, DumpError>)
        requires
            shift < 64,
        ensures
            final(self).data@ == old(self).data@,
            (match spec_read_varint64(old(self).remaining(), shift as nat) {
                Ok((v, n)) => r matches Ok(got) && got == v && final(self).read_pointer == old(
                    self,
                ).read_pointer + n,
                Err(e) => r matches Err(got) && got == e,
            }),
        decreases 64 - shift,
    {
        let b = match self.read_byte() {
            Ok(b) => b,
            Err(e) => {
                return Err(e);
            },
        };
        let val = ((b & 0x7f) as u64) << shift;
        if b & 0x80 == 0 {
            Ok(val)
        } else if shift + 7 >= 64 {
            Err(DumpError::Format)
        } else {
            proof {
                assert(self.remaining() =~= old(self).remaining().skip(1));
            }
            match self.read_varint64_from(shift + 7) {
                Ok(v) => Ok(val | v),
                Err(e) => Err(e),
            }
        }
    }

    pub fn read_varint64(&mut self) -> (r: Result<u64, DumpError>)
        ensures
            final(self).data@ == old(self).data@,
            (match spec_read_varint64(old(self).remaining(), 0) {
                Ok((v, n)) => r matches Ok(got) && got == v && final(self).read_pointer == old(
                    self,
                ).read_pointer + n,
                Err(e) => r matches Err(got) && got == e,
            }),
    {
        self.read_varint64_from(0)
    }

    pub fn read_signedvarint32(&mut self) -> (r: Result<i32, DumpError>)
        ensures
            final(self).data@ == old(self).data@,
            (match spec_read_varint32(old(self).remaining(), 0) {
                Ok((v, n)) => r matches Ok(got) && got == spec_zigzag32(v)
                    && final(self).read_pointer == old(self).read_pointer + n,
                Err(e) => r matches Err(got) && got == e,
            }),
    {
        let v = match self.read_varint32() {
            Ok(v) => v,
            Err(e) => {
                return Err(e);
            },
        };
        proof {
            assert((v >> 1) < 0x80000000u32) by (bit_vector);
        }
        let half = (v >> 1) as i32;
        if v & 1 == 1 {
            Ok((-1i32) ^ half)
        } else {
            Ok(half)
        }
    }

    pub fn read_signedvarint64(&mut self) -> (r: Result<i64, DumpError>)
        ensures
            final(self).data@ == old(self).data@,
            (match spec_read_varint64(old(self).remaining(), 0) {
                Ok((v, n)) => r matches Ok(got) && got == spec_zigzag64(v)
                    && final(self).read_pointer == old(self).read_pointer + n,
                Err(e) => r matches Err(got) && got == e,
            }),
    {
        let v = match self.read_varint64() {
            Ok(v) => v,
            Err(e) => {
                return Err(e);
            },
        };
        proof {
            assert((v >> 1) < 0x8000000000000000u64) by (bit_vector);
        }
        let half = (v >> 1) as i64;
        if v & 1 == 1 {
            Ok((-1i64) ^ half)
        } else {
            Ok(half)
        }
    }

    pub fn read_sized_string(&mut self, size: usize) -> (r: Result<String, DumpError>)
        ensures
            final(self).data@ == old(self).data@,
            old(self).read_pointer > old(self).data@.len() ==> (r matches Err(e) && e
                == DumpError::OutOfBounds && final(self).read_pointer == old(self).read_pointer),
            old(self).read_pointer <= old(self).data@.len() ==> (match spec_read_sized_string(
                old(self).remaining(),
                size as int,
            ) {
                Ok((s, n)) => r matches Ok(got) && got@ == s && final(self).read_pointer == old(
                    self,
                ).read_pointer + n,
                Err(e) => r matches Err(got) && got == e,
            }),
    {
        let body = match self.read_bytes(size) {
            Ok(b) => b,
            Err(e) => {
                return Err(e);
            },
        };
        proof {
            assert(body@ =~= old(self).remaining().take(size as int));
        }
        match bytes_to_string(body) {
            Some(s) => Ok(s),
            None => Err(DumpError::Encoding),
        }
    }

    /// A varint byte length, then that many bytes of UTF-8 text. A length
    /// beyond the machine word is truncated to it, as a plain cast would.
    pub fn read_network_string64(&mut self) -> (r: Result<String, DumpError>)
        ensures
            final(self).data@ == old(self).data@,
            (match spec_read_varint64(old(self).remaining(), 0) {
                Ok((v, n)) => (match spec_read_sized_string(
                    old(self).remaining().skip(n),
                    (v as usize) as int,
                ) {
                    Ok((s, m)) => r matches Ok(got) && got@ == s && final(self).read_pointer
                        == old(self).read_pointer + n + m,
                    Err(e) => r matches Err(got) && got == e,
                }),
                Err(e) => r matches Err(got) && got == e,
            }),
    {
        let v = match self.read_varint64() {
            Ok(v) => v,
            Err(e) => {
                return Err(e);
            },
        };
        proof {
            lemma_varint64_consumed(old(self).remaining(), 0);
            assert(self.remaining() =~= old(self).remaining().skip(
                self.read_pointer - old(self).read_pointer,
            ));
        }
        self.read_sized_string(#[verifier::truncate] (v as usize))
    }

    /// As `read_network_string64`, with a 32-bit varint length.
    pub fn read_network_string32(&mut self) -> (r: Result<String, DumpError>)
        ensures
            final(self).data@ == old(self).data@,
            (match spec_read_varint32(old(self).remaining(), 0) {
                Ok((v, n)) => (match spec_read_sized_string(
                    old(self).remaining().skip(n),
                    (v as usize) as int,
                ) {
                    Ok((s, m)) => r matches Ok(got) && got@ == s && final(self).read_pointer
                        == old(self).read_pointer + n + m,
                    Err(e) => r matches Err(got) && got == e,
                }),
                Err(e) => r matches Err(got) && got == e,
            }),
    {
        let v = match self.read_varint32() {
            Ok(v) => v,
            Err(e) => {
                return Err(e);
            },
        };
        proof {
            lemma_varint32_consumed(old(self).remaining(), 0);
            assert(self.remaining() =~= old(self).remaining().skip(
                self.read_pointer - old(self).read_pointer,
            ));
        }
        self.read_sized_string(#[verifier::truncate] (v as usize))
    }
}

/// A type that knows its own byte encoding.
///
/// `spec_write` gives the exact bytes a write appends; `spec_write_ok` says
/// when every length field fits its prefix (a failed write leaves the stream
/// unchanged). `spec_read` decodes one value from the front of a byte
/// sequence, giving the value's view and the bytes consumed, or the exact
/// error.
pub trait Serialize<T: View>: Sized + View {
    spec fn spec_write(&self) -> Seq<u8>;

    spec fn spec_write_ok(&self) -> bool;

    spec fn spec_read(data: Seq<u8>) -> Result<(<T as View>::V, int), DumpError>;

    fn write(&mut self, stream: &mut NetworkStream) -> (r: Result<(), DumpError>)
        ensures
            *final(self) == *old(self),
            final(stream).read_pointer == old(stream).read_pointer,
            old(self).spec_write_ok() ==> r is Ok && final(stream).data@ == old(stream).data@
                + old(self).spec_write(),
            !old(self).spec_write_ok() ==> r == Err::<(), DumpError>(DumpError::LengthOverflow)
                && final(stream).data@ == old(stream).data@;

    fn read(stream: &mut NetworkStream) -> (r: Result<T, DumpError>)
        ensures
            final(stream).data@ == old(stream).data@,
            (match Self::spec_read(old(stream).remaining()) {
                Ok((v, n)) => r matches Ok(got) && got@ == v && final(stream).read_pointer == old(
                    stream,
                ).read_pointer + n,
                Err(e) => r matches Err(got) && got == e,
            });
}

impl NetworkStream {
    pub fn write<T: View + Serialize<T>>(&mut self, obj: &mut T) -> (r: Result<(), DumpError>)
        ensures
            *final(obj) == *old(obj),
            final(self).read_pointer == old(self).read_pointer,
            old(obj).spec_write_ok() ==> r is Ok && final(self).data@ == old(self).data@ + old(
                obj,
            ).spec_write(),
            !old(obj).spec_write_ok() ==> r == Err::<(), DumpError>(DumpError::LengthOverflow)
                && final(self).data@ == old(self).data@,
    {
        obj.write(self)
    }

    pub fn read<T: View + Serialize<T>>(&mut self) -> (r: Result<T, DumpError>)
        ensures
            final(self).data@ == old(self).data@,
            (match T::spec_read(old(self).remaining()) {
                Ok((v, n)) => r matches Ok(got) && got@ == v && final(self).read_pointer == old(
                    self,
                ).read_pointer + n,
                Err(e) => r matches Err(got) && got == e,
            }),
    {
        T::read(self)
    }
}

} // verus!
