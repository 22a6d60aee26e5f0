//! The typed flag model: a `FastVar` is one decoded feature flag, with its
//! origin classification, its value-type tag and its tagged value, and the
//! exact byte encoding each of them serializes to.

use vstd::bytes::*;
use vstd::prelude::*;
use vstd::utf8::*;

verus! {

use crate::DumpError;
use crate::stream::Bytes;
use crate::stream::NetworkStream;
use crate::stream::Serialize;
use crate::stream::spec_bool_byte;
use crate::stream::spec_read_string_le;
use crate::stream::spec_string_fits;
use crate::stream::spec_write_string_le;

/// Origin/classification tag of a flag, decoded from a 32-bit code.
#[derive(Clone, Copy, Debug, PartialEq, Eq, Structural)]
pub enum FastVarType {
    Invalid,
    Static,
    Dynamic,
    Sync,
    ABNewUsers,
    ABNewStudioUsers,
    ABAllUsers,
    LocalLocked,
    Any,
}

impl View for FastVarType {
    type V = FastVarType;

    open spec fn view(&self) -> FastVarType {
        *self
    }
}

impl FastVarType {
    /// The 32-bit code this tag is stored as.
    pub open spec fn code(self) -> u32 {
        match self {
            FastVarType::Invalid => 0x00,
            FastVarType::Static => 0x01,
            FastVarType::Dynamic => 0x02,
            FastVarType::Sync => 0x04,
            FastVarType::ABNewUsers => 0x05,
            FastVarType::ABNewStudioUsers => 0x10,
            FastVarType::ABAllUsers => 0x20,
            FastVarType::LocalLocked => 0x40,
            FastVarType::Any => 0x7F,
        }
    }

    /// Decoding a 32-bit code; an unknown code is tolerated as `Invalid`.
    pub open spec fn spec_from_code(c: u32) -> FastVarType {
        if c == 0x01 {
            FastVarType::Static
        } else if c == 0x02 {
            FastVarType::Dynamic
        } else if c == 0x04 {
            FastVarType::Sync
        } else if c == 0x05 {
            FastVarType::ABNewUsers
        } else if c == 0x10 {
            FastVarType::ABNewStudioUsers
        } else if c == 0x20 {
            FastVarType::ABAllUsers
        } else if c == 0x40 {
            FastVarType::LocalLocked
        } else if c == 0x7F {
            FastVarType::Any
        } else {
            FastVarType::Invalid
        }
    }

    pub fn from_code(c: u32) -> (r: FastVarType)
        ensures
            r == FastVarType::spec_from_code(c),
    {
        if c == 0x01 {
            FastVarType::Static
        } else if c == 0x02 {
            FastVarType::Dynamic
        } else if c == 0x04 {
            FastVarType::Sync
        } else if c == 0x05 {
            FastVarType::ABNewUsers
        } else if c == 0x10 {
            FastVarType::ABNewStudioUsers
        } else if c == 0x20 {
            FastVarType::ABAllUsers
        } else if c == 0x40 {
            FastVarType::LocalLocked
        } else if c == 0x7F {
            FastVarType::Any
        } else {
            FastVarType::Invalid
        }
    }

    pub fn code_exec(self) -> (r: u32)
        ensures
            r == self.code(),
    {
        match self {
            FastVarType::Invalid => 0x00,
            FastVarType::Static => 0x01,
            FastVarType::Dynamic => 0x02,
            FastVarType::Sync => 0x04,
            FastVarType::ABNewUsers => 0x05,
            FastVarType::ABNewStudioUsers => 0x10,
            FastVarType::ABAllUsers => 0x20,
            FastVarType::LocalLocked => 0x40,
            FastVarType::Any => 0x7F,
        }
    }

    /// A tag survives its own code.
    pub proof fn lemma_code_round_trip(self)
        ensures
            FastVarType::spec_from_code(self.code()) == self,
    {
    }
}

/// Tag governing how a flag's value is interpreted and serialized.
#[derive(Clone, Copy, Debug, PartialEq, Eq, Structural)]
pub enum FastVarValueType {
    Invalid,
    Uninit,
    Log,
    String,
    Int,
    Flag,
}

impl View for FastVarValueType {
    type V = FastVarValueType;

    open spec fn view(&self) -> FastVarValueType {
        *self
    }
}

impl FastVarValueType {
    /// The 32-bit code this tag is stored as.
    pub open spec fn code(self) -> u32 {
        match self {
            FastVarValueType::Invalid => 0x00,
            FastVarValueType::Uninit => 0xFFFFFFFF,
            FastVarValueType::Log => 0x01,
            FastVarValueType::String => 0x02,
            FastVarValueType::Int => 0x03,
            FastVarValueType::Flag => 0x04,
        }
    }

    /// Decoding a 32-bit code; an unknown code is tolerated as `Invalid`.
    pub open spec fn spec_from_code(c: u32) -> FastVarValueType {
        if c == 0xFFFFFFFF {
            FastVarValueType::Uninit
        } else if c == 0x01 {
            FastVarValueType::Log
        } else if c == 0x02 {
            FastVarValueType::String
        } else if c == 0x03 {
            FastVarValueType::Int
        } else if c == 0x04 {
            FastVarValueType::Flag
        } else {
            FastVarValueType::Invalid
        }
    }

    pub fn from_code(c: u32) -> (r: FastVarValueType)
        ensures
            r == FastVarValueType::spec_from_code(c),
    {
        if c == 0xFFFFFFFF {
            FastVarValueType::Uninit
        } else if c == 0x01 {
            FastVarValueType::Log
        } else if c == 0x02 {
            FastVarValueType::String
        } else if c == 0x03 {
            FastVarValueType::Int
        } else if c == 0x04 {
            FastVarValueType::Flag
        } else {
            FastVarValueType::Invalid
        }
    }

    pub fn code_exec(self) -> (r: u32)
        ensures
            r == self.code(),
    {
        match self {
            FastVarValueType::Invalid => 0x00,
            FastVarValueType::Uninit => 0xFFFFFFFF,
            FastVarValueType::Log => 0x01,
            FastVarValueType::String => 0x02,
            FastVarValueType::Int => 0x03,
            FastVarValueType::Flag => 0x04,
        }
    }

    /// A tag survives its own code.
    pub proof fn lemma_code_round_trip(self)
        ensures
            FastVarValueType::spec_from_code(self.code()) == self,
    {
    }
}

/// A 32-bit type code on the stream: little-endian, unknown codes decode to
/// `Invalid`.
pub open spec fn spec_read_var_type(data: Seq<u8>) -> Result<(FastVarType, int), DumpError> {
    if data.len() < 4 {
        Err(DumpError::OutOfBounds)
    } else {
        Ok((FastVarType::spec_from_code(spec_u32_from_le_bytes(data.take(4))), 4))
    }
}

/// A 32-bit value-type code on the stream: little-endian, unknown codes
/// decode to `Invalid`.
pub open spec fn spec_read_value_type(data: Seq<u8>) -> Result<(FastVarValueType, int), DumpError> {
    if data.len() < 4 {
        Err(DumpError::OutOfBounds)
    } else {
        Ok((FastVarValueType::spec_from_code(spec_u32_from_le_bytes(data.take(4))), 4))
    }
}

impl Serialize<FastVarType> for FastVarType {
    open spec fn spec_write(&self) -> Seq<u8> {
        spec_u32_to_le_bytes(self.code())
    }

    open spec fn spec_write_ok(&self) -> bool {
        true
    }

    open spec fn spec_read(data: Seq<u8>) -> Result<(FastVarType, int), DumpError> {
        spec_read_var_type(data)
    }

    fn write(&mut self, stream: &mut NetworkStream) -> (r: Result<(), DumpError>) {
        stream.write_le::<u32>(self.code_exec());
        Ok(())
    }

    fn read(stream: &mut NetworkStream) -> (r: Result<FastVarType, DumpError>) {
        proof {
            assert(old(stream).remaining().len() >= 4 ==> old(stream).data@.subrange(
                old(stream).read_pointer as int,
                old(stream).read_pointer + 4,
            ) =~= old(stream).remaining().take(4));
        }
        match stream.read_le::<u32>() {
            Ok(c) => Ok(FastVarType::from_code(c)),
            Err(e) => Err(e),
        }
    }
}

impl Serialize<FastVarValueType> for FastVarValueType {
    open spec fn spec_write(&self) -> Seq<u8> {
        spec_u32_to_le_bytes(self.code())
    }

    open spec fn spec_write_ok(&self) -> bool {
        true
    }

    open spec fn spec_read(data: Seq<u8>) -> Result<(FastVarValueType, int), DumpError> {
        spec_read_value_type(data)
    }

    fn write(&mut self, stream: &mut NetworkStream) -> (r: Result<(), DumpError>) {
        stream.write_le::<u32>(self.code_exec());
        Ok(())
    }

    fn read(stream: &mut NetworkStream) -> (r: Result<FastVarValueType, DumpError>) {
        proof {
            assert(old(stream).remaining().len() >= 4 ==> old(stream).data@.subrange(
                old(stream).read_pointer as int,
                old(stream).read_pointer + 4,
            ) =~= old(stream).remaining().take(4));
        }
        match stream.read_le::<u32>() {
            Ok(c) => Ok(FastVarValueType::from_code(c)),
            Err(e) => Err(e),
        }
    }
}

/// One decimal digit as its ASCII character.
pub open spec fn spec_digit_char(d: int) -> char {
    if d == 0 {
        '0'
    } else if d == 1 {
        '1'
    } else if d == 2 {
        '2'
    } else if d == 3 {
        '3'
    } else if d == 4 {
        '4'
    } else if d == 5 {
        '5'
    } else if d == 6 {
        '6'
    } else if d == 7 {
        '7'
    } else if d == 8 {
        '8'
    } else {
        '9'
    }
}

/// The decimal digits of a nonnegative integer, most significant first.
pub open spec fn spec_decimal(n: int) -> Seq<char>
    recommends
        n >= 0,
    decreases n,
{
    if n < 10 {
        seq![spec_digit_char(n)]
    } else {
        spec_decimal(n / 10) + seq![spec_digit_char(n % 10)]
    }
}

/// The decimal text of a signed 32-bit integer, minus sign included.
pub open spec fn spec_i32_decimal(n: i32) -> Seq<char> {
    if n < 0 {
        seq!['-'] + spec_decimal(-(n as int))
    } else {
        spec_decimal(n as int)
    }
}

/// Decimal text is ASCII.
pub proof fn lemma_decimal_ascii(n: int)
    requires
        n >= 0,
    ensures
        is_ascii_chars(spec_decimal(n)),
    decreases n,
{
    if n >= 10 {
        lemma_decimal_ascii(n / 10);
        assert forall|i: int| 0 <= i < spec_decimal(n).len() implies '\0' <= #[trigger] spec_decimal(
            n,
        )[i] <= '\u{7f}' by {
            if i < spec_decimal(n / 10).len() {
                assert(spec_decimal(n)[i] == spec_decimal(n / 10)[i]);
            }
        }
    }
}

/// Appends the UTF-8 bytes of `n`'s decimal text.
fn push_decimal_bytes(n: u64, out: &mut Vec<u8>)
    ensures
        final(out)@ == old(out)@ + encode_utf8(spec_decimal(n as int)),
    decreases n,
{
    proof {
        broadcast use is_ascii_chars_encode_utf8;

        lemma_decimal_ascii(n as int);
    }
    if n >= 10 {
        push_decimal_bytes(n / 10, out);
        let d = (n % 10) as u8;
        out.push(48 + d);
        proof {
            lemma_decimal_ascii(n as int / 10);
            assert(out@ =~= old(out)@ + encode_utf8(spec_decimal(n as int)));
        }
    } else {
        let d = n as u8;
        out.push(48 + d);
        proof {
            assert(out@ =~= old(out)@ + encode_utf8(spec_decimal(n as int)));
        }
    }
}

/// The decimal text of an unsigned integer.
pub fn u64_to_decimal_string(n: u64) -> (r: String)
    ensures
        r@ == spec_decimal(n as int),
{
    let mut out: Vec<u8> = Vec::new();
    push_decimal_bytes(n, &mut out);
    proof {
        broadcast use encode_utf8_valid_utf8, encode_utf8_decode_utf8;

        assert(out@ =~= encode_utf8(spec_decimal(n as int)));
    }
    match crate::stream::bytes_to_string(out) {
        Some(s) => s,
        None => {
            proof {
                assert(false);
            }
            String::new()
        },
    }
}

/// The decimal text of a signed 32-bit integer.
pub fn i32_to_decimal_string(n: i32) -> (r: String)
    ensures
        r@ == spec_i32_decimal(n),
{
    if n < 0 {
        let mag = (-(n as i64)) as u64;
        let digits = u64_to_decimal_string(mag);
        let mut out = String::from_str("-");
        out.append(digits.as_str());
        proof {
            reveal_strlit("-");
            assert(("-")@ =~= seq!['-']);
        }
        out
    } else {
        u64_to_decimal_string(n as u64)
    }
}

/// A flag's tagged value. `Uninit` means the backing storage exists but was
/// not initialized in the scanned image; it is a legitimate outcome, not an
/// error.
pub enum FastVarValue {
    Invalid,
    Log(String),
    String(String),
    Int(i32),
    Flag(bool),
    Uninit,
}

/// The mathematical image of a `FastVarValue`.
pub enum FastVarValueView {
    Invalid,
    Log(Seq<char>),
    String(Seq<char>),
    Int(i32),
    Flag(bool),
    Uninit,
}

impl Clone for FastVarValue {
    fn clone(&self) -> (r: FastVarValue)
        ensures
            r@ == self@,
    {
        match self {
            FastVarValue::Invalid => FastVarValue::Invalid,
            FastVarValue::Log(s) => FastVarValue::Log(s.clone()),
            FastVarValue::String(s) => FastVarValue::String(s.clone()),
            FastVarValue::Int(i) => FastVarValue::Int(*i),
            FastVarValue::Flag(b) => FastVarValue::Flag(*b),
            FastVarValue::Uninit => FastVarValue::Uninit,
        }
    }
}

impl View for FastVarValue {
    type V = FastVarValueView;

    open spec fn view(&self) -> FastVarValueView {
        match self {
            FastVarValue::Invalid => FastVarValueView::Invalid,
            FastVarValue::Log(s) => FastVarValueView::Log(s@),
            FastVarValue::String(s) => FastVarValueView::String(s@),
            FastVarValue::Int(i) => FastVarValueView::Int(*i),
            FastVarValue::Flag(b) => FastVarValueView::Flag(*b),
            FastVarValue::Uninit => FastVarValueView::Uninit,
        }
    }
}

/// The value-type tag a value carries.
pub open spec fn spec_value_tag(v: FastVarValueView) -> FastVarValueType {
    match v {
        FastVarValueView::Invalid => FastVarValueType::Invalid,
        FastVarValueView::Log(_) => FastVarValueType::Log,
        FastVarValueView::String(_) => FastVarValueType::String,
        FastVarValueView::Int(_) => FastVarValueType::Int,
        FastVarValueView::Flag(_) => FastVarValueType::Flag,
        FastVarValueView::Uninit => FastVarValueType::Uninit,
    }
}

/// The display text of a value: numbers in decimal, booleans as `true` or
/// `false`, text verbatim, and a fixed message for the payload-free tags.
pub open spec fn spec_value_text(v: FastVarValueView) -> Seq<char> {
    match v {
        FastVarValueView::Int(i) => spec_i32_decimal(i),
        FastVarValueView::Log(s) => s,
        FastVarValueView::String(s) => s,
        FastVarValueView::Flag(b) => if b {
            "true"@
        } else {
            "false"@
        },
        FastVarValueView::Invalid => "INVALID VALUE TYPE"@,
        FastVarValueView::Uninit => "VALUE NOT IN INITIALIZED MEMORY"@,
    }
}

/// A value's encoding: its own type tag, then the payload (4 bytes
/// little-endian for `Int`, 1 byte for `Flag`, a 32-bit length-prefixed
/// string for `String` and `Log`, nothing for `Invalid` and `Uninit`).
pub open spec fn spec_write_value(v: FastVarValueView) -> Seq<u8> {
    spec_u32_to_le_bytes(spec_value_tag(v).code()) + (match v {
        FastVarValueView::Invalid => Seq::<u8>::empty(),
        FastVarValueView::Uninit => Seq::<u8>::empty(),
        FastVarValueView::Int(i) => spec_u32_to_le_bytes(i as u32),
        FastVarValueView::Flag(b) => seq![spec_bool_byte(b)],
        FastVarValueView::String(s) => spec_write_string_le::<u32>(s),
        FastVarValueView::Log(s) => spec_write_string_le::<u32>(s),
    })
}

/// Whether a value's string payload fits its 32-bit length prefix.
pub open spec fn spec_value_write_ok(v: FastVarValueView) -> bool {
    match v {
        FastVarValueView::String(s) => spec_string_fits::<u32>(s),
        FastVarValueView::Log(s) => spec_string_fits::<u32>(s),
        _ => true,
    }
}

/// Decode one tagged value from the front of `data`.
pub open spec fn spec_read_value(data: Seq<u8>) -> Result<(FastVarValueView, int), DumpError> {
    if data.len() < 4 {
        Err(DumpError::OutOfBounds)
    } else {
        let tag = FastVarValueType::spec_from_code(spec_u32_from_le_bytes(data.take(4)));
        match tag {
            FastVarValueType::Invalid => Ok((FastVarValueView::Invalid, 4)),
            FastVarValueType::Uninit => Ok((FastVarValueView::Uninit, 4)),
            FastVarValueType::Int => {
                if data.len() < 8 {
                    Err(DumpError::OutOfBounds)
                } else {
                    Ok(
                        (
                            FastVarValueView::Int(
                                spec_u32_from_le_bytes(data.subrange(4, 8)) as i32,
                            ),
                            8,
                        ),
                    )
                }
            },
            FastVarValueType::Flag => {
                if data.len() < 5 {
                    Err(DumpError::OutOfBounds)
                } else {
                    Ok((FastVarValueView::Flag(data[4] == 0x01), 5))
                }
            },
            FastVarValueType::String => match spec_read_string_le::<u32>(data.skip(4)) {
                Ok((s, n)) => Ok((FastVarValueView::String(s), 4 + n)),
                Err(e) => Err(e),
            },
            FastVarValueType::Log => match spec_read_string_le::<u32>(data.skip(4)) {
                Ok((s, n)) => Ok((FastVarValueView::Log(s), 4 + n)),
                Err(e) => Err(e),
            },
        }
    }
}

impl FastVarValue {
    /// The display text of this value.
    pub fn to_string(&self) -> (r: String)
        ensures
            r@ == spec_value_text(self@),
    {
        match self {
            FastVarValue::Int(i) => i32_to_decimal_string(*i),
            FastVarValue::Log(s) => s.clone(),
            FastVarValue::String(s) => s.clone(),
            FastVarValue::Flag(b) => {
                if *b {
                    String::from_str("true")
                } else {
                    String::from_str("false")
                }
            },
            FastVarValue::Invalid => String::from_str("INVALID VALUE TYPE"),
            FastVarValue::Uninit => String::from_str("VALUE NOT IN INITIALIZED MEMORY"),
        }
    }
}

impl Serialize<FastVarValue> for FastVarValue {
    open spec fn spec_write(&self) -> Seq<u8> {
        spec_write_value(self@)
    }

    open spec fn spec_write_ok(&self) -> bool {
        spec_value_write_ok(self@)
    }

    open spec fn spec_read(data: Seq<u8>) -> Result<(FastVarValueView, int), DumpError> {
        spec_read_value(data)
    }

    fn write(&mut self, stream: &mut NetworkStream) -> (r: Result<(), DumpError>) {
        match self {
            FastVarValue::Invalid => {
                stream.write_le::<u32>(0x00);
                Ok(())
            },
            FastVarValue::Uninit => {
                stream.write_le::<u32>(0xFFFFFFFF);
                Ok(())
            },
            FastVarValue::Int(i) => {
                stream.write_le::<u32>(0x03);
                stream.write_le::<u32>(*i as u32);
                proof {
                    assert(stream.data@ =~= old(stream).data@ + spec_write_value(old(self)@));
                }
                Ok(())
            },
            FastVarValue::Flag(b) => {
                stream.write_le::<u32>(0x04);
                stream.write_bool(*b);
                proof {
                    assert(stream.data@ =~= old(stream).data@ + spec_write_value(old(self)@));
                }
                Ok(())
            },
            FastVarValue::String(s) => {
                let bytes = s.as_str().as_bytes_vec();
                if bytes.len() > u32::MAX as usize {
                    return Err(DumpError::LengthOverflow);
                }
                stream.write_le::<u32>(0x02);
                let _ = stream.write_string_le::<u32>(s.as_str());
                proof {
                    assert(stream.data@ =~= old(stream).data@ + spec_write_value(old(self)@));
                }
                Ok(())
            },
            FastVarValue::Log(s) => {
                let bytes = s.as_str().as_bytes_vec();
                if bytes.len() > u32::MAX as usize {
                    return Err(DumpError::LengthOverflow);
                }
                stream.write_le::<u32>(0x01);
                let _ = stream.write_string_le::<u32>(s.as_str());
                proof {
                    assert(stream.data@ =~= old(stream).data@ + spec_write_value(old(self)@));
                }
                Ok(())
            },
        }
    }

    fn read(stream: &mut NetworkStream) -> (r: Result<FastVarValue, DumpError>) {
        let ghost rem = old(stream).remaining();
        proof {
            assert(rem.len() >= 4 ==> old(stream).data@.subrange(
                old(stream).read_pointer as int,
                old(stream).read_pointer + 4,
            ) =~= rem.take(4));
        }
        let tag = match stream.read_le::<u32>() {
            Ok(c) => FastVarValueType::from_code(c),
            Err(e) => {
                return Err(e);
            },
        };
        proof {
            assert(stream.remaining() =~= rem.skip(4));
        }
        match tag {
            FastVarValueType::Invalid => Ok(FastVarValue::Invalid),
            FastVarValueType::Uninit => Ok(FastVarValue::Uninit),
            FastVarValueType::Int => {
                proof {
                    assert(rem.len() >= 8 ==> stream.data@.subrange(
                        stream.read_pointer as int,
                        stream.read_pointer + 4,
                    ) =~= rem.subrange(4, 8));
                }
                match stream.read_le::<u32>() {
                    Ok(v) => Ok(FastVarValue::Int(v as i32)),
                    Err(e) => Err(e),
                }
            },
            FastVarValueType::Flag => {
                match stream.read_bool() {
                    Ok(b) => Ok(FastVarValue::Flag(b)),
                    Err(e) => Err(e),
                }
            },
            FastVarValueType::String => {
                match stream.read_string_le::<u32>() {
                    Ok(s) => Ok(FastVarValue::String(s)),
                    Err(e) => Err(e),
                }
            },
            FastVarValueType::Log => {
                match stream.read_string_le::<u32>() {
                    Ok(s) => Ok(FastVarValue::Log(s)),
                    Err(e) => Err(e),
                }
            },
        }
    }
}

/// One decoded feature flag.
pub struct FastVar {
    pub name: String,
    pub var_type: FastVarType,
    pub value_type: FastVarValueType,
    pub value: FastVarValue,
}

/// The mathematical image of a `FastVar`.
pub struct FastVarView {
    pub name: Seq<char>,
    pub var_type: FastVarType,
    pub value_type: FastVarValueType,
    pub value: FastVarValueView,
}

impl Clone for FastVar {
    fn clone(&self) -> (r: FastVar)
        ensures
            r@ == self@,
    {
        FastVar {
            name: self.name.clone(),
            var_type: self.var_type,
            value_type: self.value_type,
            value: self.value.clone(),
        }
    }
}

impl View for FastVar {
    type V = FastVarView;

    open spec fn view(&self) -> FastVarView {
        FastVarView {
            name: self.name@,
            var_type: self.var_type,
            value_type: self.value_type,
            value: self.value@,
        }
    }
}

/// A flag's encoding: its name as a 32-bit length-prefixed string, the two
/// type tags as 32-bit codes, then the tagged value.
pub open spec fn spec_write_fastvar(v: FastVarView) -> Seq<u8> {
    spec_write_string_le::<u32>(v.name) + spec_u32_to_le_bytes(v.var_type.code())
        + spec_u32_to_le_bytes(v.value_type.code()) + spec_write_value(v.value)
}

/// Whether a flag's strings fit their 32-bit length prefixes.
pub open spec fn spec_fastvar_write_ok(v: FastVarView) -> bool {
    spec_string_fits::<u32>(v.name) && spec_value_write_ok(v.value)
}

/// Decode one flag from the front of `data`.
pub open spec fn spec_read_fastvar(data: Seq<u8>) -> Result<(FastVarView, int), DumpError> {
    match spec_read_string_le::<u32>(data) {
        Err(e) => Err(e),
        Ok((name, n1)) => {
            match spec_read_var_type(data.skip(n1)) {
                Err(e) => Err(e),
                Ok((vt, _)) => {
                    match spec_read_value_type(data.skip(n1 + 4)) {
                        Err(e) => Err(e),
                        Ok((vvt, _)) => {
                            match spec_read_value(data.skip(n1 + 8)) {
                                Err(e) => Err(e),
                                Ok((val, n2)) => Ok(
                                    (
                                        FastVarView {
                                            name,
                                            var_type: vt,
                                            value_type: vvt,
                                            value: val,
                                        },
                                        n1 + 8 + n2,
                                    ),
                                ),
                            }
                        },
                    }
                },
            }
        },
    }
}

impl Serialize<FastVar> for FastVar {
    open spec fn spec_write(&self) -> Seq<u8> {
        spec_write_fastvar(self@)
    }

    open spec fn spec_write_ok(&self) -> bool {
        spec_fastvar_write_ok(self@)
    }

    open spec fn spec_read(data: Seq<u8>) -> Result<(FastVarView, int), DumpError> {
        spec_read_fastvar(data)
    }

    fn write(&mut self, stream: &mut NetworkStream) -> (r: Result<(), DumpError>) {
        let name_bytes = self.name.as_str().as_bytes_vec();
        if name_bytes.len() > u32::MAX as usize {
            return Err(DumpError::LengthOverflow);
        }
        match &self.value {
            FastVarValue::String(s) => {
                let b = s.as_str().as_bytes_vec();
                if b.len() > u32::MAX as usize {
                    return Err(DumpError::LengthOverflow);
                }
            },
            FastVarValue::Log(s) => {
                let b = s.as_str().as_bytes_vec();
                if b.len() > u32::MAX as usize {
                    return Err(DumpError::LengthOverflow);
                }
            },
            _ => {},
        }
        let _ = stream.write_string_le::<u32>(self.name.as_str());
        stream.write_le::<u32>(self.var_type.code_exec());
        stream.write_le::<u32>(self.value_type.code_exec());
        let _ = self.value.write(stream);
        proof {
            assert(stream.data@ =~= old(stream).data@ + spec_write_fastvar(old(self)@));
        }
        Ok(())
    }

    fn read(stream: &mut NetworkStream) -> (r: Result<FastVar, DumpError>) {
        let ghost rem = old(stream).remaining();
        let name = match stream.read_string_le::<u32>() {
            Ok(s) => s,
            Err(e) => {
                return Err(e);
            },
        };
        let ghost n1 = stream.read_pointer - old(stream).read_pointer;
        proof {
            assert(stream.remaining() =~= rem.skip(n1));
        }
        let ghost rem1 = stream.remaining();
        let var_type = match FastVarType::read(stream) {
            Ok(t) => t,
            Err(e) => {
                return Err(e);
            },
        };
        proof {
            assert(stream.remaining() =~= rem1.skip(4));
            assert(rem1.skip(4) =~= rem.skip(n1 + 4));
        }
        let ghost rem2 = stream.remaining();
        let value_type = match FastVarValueType::read(stream) {
            Ok(t) => t,
            Err(e) => {
                return Err(e);
            },
        };
        proof {
            assert(stream.remaining() =~= rem2.skip(4));
            assert(rem2.skip(4) =~= rem.skip(n1 + 8));
        }
        let value = match FastVarValue::read(stream) {
            Ok(v) => v,
            Err(e) => {
                return Err(e);
            },
        };
        Ok(FastVar { name, var_type, value_type, value })
    }
}

/// Law: a tagged value decodes back from its own encoding, at the front of
/// any longer buffer, consuming exactly the encoding.
pub proof fn lemma_value_round_trip(v: FastVarValueView, rest: Seq<u8>)
    requires
        spec_value_write_ok(v),
    ensures
        spec_read_value(spec_write_value(v) + rest) == Ok::<(FastVarValueView, int), DumpError>(
            (v, spec_write_value(v).len() as int),
        ),
{
    lemma_auto_spec_u32_to_from_le_bytes();
    let tag = spec_value_tag(v);
    let data = spec_write_value(v) + rest;
    assert(data.take(4) =~= spec_u32_to_le_bytes(tag.code()));
    tag.lemma_code_round_trip();
    match v {
        FastVarValueView::Invalid => {
        },
        FastVarValueView::Uninit => {
        },
        FastVarValueView::Int(i) => {
            assert(data.subrange(4, 8) =~= spec_u32_to_le_bytes(i as u32));
            assert(i as u32 as i32 == i) by (bit_vector);
        },
        FastVarValueView::Flag(b) => {
            assert(data[4] == spec_bool_byte(b));
        },
        FastVarValueView::String(s) => {
            assert(data.skip(4) =~= spec_write_string_le::<u32>(s) + rest);
            crate::stream::lemma_string_le_round_trip::<u32>(s, rest);
        },
        FastVarValueView::Log(s) => {
            assert(data.skip(4) =~= spec_write_string_le::<u32>(s) + rest);
            crate::stream::lemma_string_le_round_trip::<u32>(s, rest);
        },
    }
}

/// Law: decoding an encoded flag yields the flag back — name, classification,
/// value-type tag and value all preserved, for every value variant — from the
/// front of any longer buffer, consuming exactly the encoding.
pub proof fn lemma_fastvar_round_trip(v: FastVarView, rest: Seq<u8>)
    requires
        spec_fastvar_write_ok(v),
    ensures
        spec_read_fastvar(spec_write_fastvar(v) + rest) == Ok::<(FastVarView, int), DumpError>(
            (v, spec_write_fastvar(v).len() as int),
        ),
{
    lemma_auto_spec_u32_to_from_le_bytes();
    let name_bytes = spec_write_string_le::<u32>(v.name);
    let value_bytes = spec_write_value(v.value);
    let data = spec_write_fastvar(v) + rest;
    let tail = spec_u32_to_le_bytes(v.var_type.code()) + spec_u32_to_le_bytes(v.value_type.code())
        + value_bytes + rest;
    assert(data =~= name_bytes + tail);
    crate::stream::lemma_string_le_round_trip::<u32>(v.name, tail);
    let n1 = name_bytes.len() as int;
    assert(data.skip(n1) =~= tail);
    assert(tail.take(4) =~= spec_u32_to_le_bytes(v.var_type.code()));
    v.var_type.lemma_code_round_trip();
    let tail2 = spec_u32_to_le_bytes(v.value_type.code()) + value_bytes + rest;
    assert(data.skip(n1 + 4) =~= tail2);
    assert(tail2.take(4) =~= spec_u32_to_le_bytes(v.value_type.code()));
    v.value_type.lemma_code_round_trip();
    assert(data.skip(n1 + 8) =~= value_bytes + rest);
    lemma_value_round_trip(v.value, rest);
    match spec_read_fastvar(data) {
        Ok((got, n)) => {
            assert(got == v);
            assert(n == spec_write_fastvar(v).len());
        },
        Err(_) => {
            assert(false);
        },
    }
}


/// The host-language type name the runtime loader writes for a value-type
/// tag; empty for the payload-free tags.
pub open spec fn spec_type_str(t: FastVarValueType) -> Seq<char> {
    match t {
        FastVarValueType::Flag => "bool"@,
        FastVarValueType::Int => "i32"@,
        FastVarValueType::Log => "u16"@,
        FastVarValueType::String => "&str"@,
        FastVarValueType::Uninit => ""@,
        FastVarValueType::Invalid => ""@,
    }
}

/// The host-language type name for a value-type tag.
pub fn get_type_str_for_fast_var_value_type(value_type: FastVarValueType) -> (r: &'static str)
    ensures
        r@ == spec_type_str(value_type),
{
    match value_type {
        FastVarValueType::Flag => "bool",
        FastVarValueType::Int => "i32",
        FastVarValueType::Log => "u16",
        FastVarValueType::String => "&str",
        FastVarValueType::Uninit => "",
        FastVarValueType::Invalid => "",
    }
}

} // verus!
