//! Flag decoder: finds every flag-definition call site and every
//! string-table initializer in the code section by signature scan, follows
//! the instruction-relative displacements to the backing storage, and decodes
//! each site into a `FastVar`.

use vstd::arithmetic::div_mod::lemma_mod_multiples_vanish;
use vstd::arithmetic::div_mod::lemma_small_mod;
use vstd::bytes::*;
use vstd::prelude::*;
use vstd::utf8::*;

verus! {

use crate::DumpError;
use crate::binary::Sections;
use crate::binary::SectionView;
use crate::binary::get_sections_from_binary;
use crate::binary::image_sections_of;
use crate::binary::spec_find_section;
use crate::binary::spec_image_sections;
use crate::fastvar::FastVar;
use crate::fastvar::FastVarType;
use crate::fastvar::FastVarValue;
use crate::fastvar::FastVarValueType;
use crate::fastvar::FastVarValueView;
use crate::fastvar::FastVarView;
use crate::fastvar::spec_decimal;
use crate::fastvar::u64_to_decimal_string;
use crate::scanner::IDAPat;
use crate::scanner::scan;
use crate::scanner::spec_found_offsets;
use crate::scanner::spec_parse_pattern;
use crate::stream::Bytes;
use crate::stream::NetworkStream;
use crate::stream::bytes_to_string;

/// Signature of a flag-registration call site.
pub fn dyn_init_pat() -> (r: &'static str)
    ensures
        r@ == spec_dyn_init_pat(),
{
    "41 B8 ?? ?? ?? ?? 48 8D 15 ?? ?? ?? ?? 48 8D 0D ?? ?? ?? ?? E9 ?? ?? ?? ??"
}

/// The text of the flag-registration signature.
pub open spec fn spec_dyn_init_pat() -> Seq<char> {
    "41 B8 ?? ?? ?? ?? 48 8D 15 ?? ?? ?? ?? 48 8D 0D ?? ?? ?? ?? E9 ?? ?? ?? ??"@
}

/// Signature of a string-initializer call site.
pub fn str_init_pat() -> (r: &'static str)
    ensures
        r@ == spec_str_init_pat(),
{
    "48 83 EC ?? B9 ?? ?? ?? ?? E8 ?? ?? ?? ?? 0F 10 05 ?? ?? ?? ?? 48 C7 05 ?? ?? ?? ?? ?? ?? ?? ??"
}

/// The text of the string-initializer signature.
pub open spec fn spec_str_init_pat() -> Seq<char> {
    "48 83 EC ?? B9 ?? ?? ?? ?? E8 ?? ?? ?? ?? 0F 10 05 ?? ?? ?? ?? 48 C7 05 ?? ?? ?? ?? ?? ?? ?? ??"@
}

/// Bytes covered by one flag-registration site.
pub const DYN_INIT_SIZE: usize = 25;

/// Bytes covered by one string-initializer site.
pub const STR_INIT_SIZE: usize = 32;

/// One past the largest machine word: the modulus of address wrap-around.
pub open spec fn spec_addr_modulus() -> int {
    usize::MAX as int + 1
}

/// The absolute target a relative displacement resolves to, expressed in the
/// target section: `base + match offset + cursor + displacement − target
/// base`, with wrap-around (modulo machine-word) arithmetic.
pub open spec fn spec_resolve_offset(
    base: int,
    addr: int,
    cursor: int,
    disp: int,
    target: int,
) -> int {
    (base + addr + cursor + disp - target) % spec_addr_modulus()
}

/// A value that differs from `s` by whole moduli and lies inside the modulus
/// is `s`'s remainder.
proof fn lemma_wrap_eq(s: int, r: int, c: int, w: int)
    requires
        w > 0,
        r == s + c,
        c == -3 * w || c == -2 * w || c == -w || c == 0 || c == w || c == 2 * w,
        0 <= r < w,
    ensures
        r == s % w,
{
    if c == -3 * w {
        lemma_mod_multiples_vanish(-3, s, w);
    } else if c == -2 * w {
        lemma_mod_multiples_vanish(-2, s, w);
    } else if c == -w {
        lemma_mod_multiples_vanish(-1, s, w);
    } else if c == 0 {
        lemma_mod_multiples_vanish(0, s, w);
    } else if c == w {
        lemma_mod_multiples_vanish(1, s, w);
    } else {
        lemma_mod_multiples_vanish(2, s, w);
    }
    lemma_small_mod(r as nat, w as nat);
}

/// Read a 32-bit signed displacement at the cursor and resolve it: the
/// result is `base_section + addr + cursor-after-read + displacement −
/// new_section`, wrapped modulo the machine word (law: the offset resolver's
/// wrap-around arithmetic).
pub fn calc_instruction_offset(
    stream: &mut NetworkStream,
    addr: usize,
    base_section: usize,
    new_section: usize,
) -> (r: Result<usize, DumpError>)
    ensures
        final(stream).data@ == old(stream).data@,
        old(stream).read_pointer + 4 <= old(stream).data@.len() ==> {
            &&& r matches Ok(v) && v as int == spec_resolve_offset(
                base_section as int,
                addr as int,
                old(stream).read_pointer + 4,
                i32::from_le_spec(
                    old(stream).data@.subrange(
                        old(stream).read_pointer as int,
                        old(stream).read_pointer + 4,
                    ),
                ) as int,
                new_section as int,
            )
            &&& final(stream).read_pointer == old(stream).read_pointer + 4
        },
        old(stream).read_pointer + 4 > old(stream).data@.len() ==> (r matches Err(e) && e
            == DumpError::OutOfBounds && final(stream).read_pointer == old(stream).read_pointer),
{
    let offset: i32 = match stream.read_le::<i32>() {
        Ok(v) => v,
        Err(e) => {
            return Err(e);
        },
    };
    let rva = base_section.wrapping_add(addr);
    let rva2 = rva.wrapping_add(stream.read_pointer);
    let real_rva = rva2.wrapping_add_signed(offset as isize);
    let out = real_rva.wrapping_sub(new_section);
    proof {
        let w = spec_addr_modulus();
        let s = base_section + addr + stream.read_pointer + offset - new_section;
        let c1: int = if base_section + addr > usize::MAX {
            -w
        } else {
            0
        };
        assert(rva as int == base_section + addr + c1);
        let c2: int = if rva + stream.read_pointer > usize::MAX {
            -w
        } else {
            0
        };
        assert(rva2 as int == rva + stream.read_pointer + c2);
        let c3: int = if rva2 + offset > usize::MAX {
            -w
        } else if rva2 + offset < 0 {
            w
        } else {
            0
        };
        assert(real_rva as int == rva2 + offset + c3);
        let c4: int = if real_rva - new_section < 0 {
            w
        } else {
            0
        };
        assert(out as int == real_rva - new_section + c4);
        let c = c1 + c2 + c3 + c4;
        assert(c == -3 * w || c == -2 * w || c == -w || c == 0 || c == w || c == 2 * w);
        lemma_wrap_eq(s, out as int, c, w);
    }
    Ok(out)
}

/// A copy of `len` bytes starting at `start`.
fn slice_range(data: &Vec<u8>, start: usize, len: usize) -> (r: Vec<u8>)
    requires
        start + len <= data@.len(),
    ensures
        r@ == data@.subrange(start as int, start + len),
{
    let n = data.len();
    let mut r: Vec<u8> = Vec::new();
    let mut i: usize = 0;
    while i < len
        invariant
            i <= len,
            start + len <= n == data@.len(),
            r@.len() == i,
            forall|j: int| 0 <= j < i ==> r@[j] == data@[start + j],
        decreases len - i,
    {
        r.push(data[start + i]);
        i = i + 1;
    }
    proof {
        assert(r@ =~= data@.subrange(start as int, start + len));
    }
    r
}

/// A stream over the bytes of one flag-registration site.
pub fn read_fvar_at_addr(data: &Vec<u8>, addr: usize) -> (r: NetworkStream)
    requires
        addr + DYN_INIT_SIZE <= data@.len(),
    ensures
        r.data@ == data@.subrange(addr as int, addr + DYN_INIT_SIZE),
        r.read_pointer == 0,
{
    NetworkStream::from(slice_range(data, addr, DYN_INIT_SIZE))
}

/// The index of the first NUL byte at or after `addr`.
pub open spec fn spec_find_nul(data: Seq<u8>, addr: int) -> Option<int>
    decreases data.len() - addr,
{
    if addr < 0 || addr >= data.len() {
        None
    } else if data[addr] == 0 {
        Some(addr)
    } else {
        spec_find_nul(data, addr + 1)
    }
}

/// The NUL-terminated text at `addr`: the bytes up to the first NUL, decoded
/// as UTF-8. Running past the buffer end is an out-of-bounds error; invalid
/// UTF-8 is an encoding error.
pub open spec fn spec_read_cstyle(data: Seq<u8>, addr: int) -> Result<Seq<char>, DumpError> {
    match spec_find_nul(data, addr) {
        None => Err(DumpError::OutOfBounds),
        Some(end) => {
            let b = data.subrange(addr, end);
            if valid_utf8(b) {
                Ok(decode_utf8(b))
            } else {
                Err(DumpError::Encoding)
            }
        },
    }
}

/// Read the NUL-terminated text at `addr`.
pub fn read_cstyle_string(data: &Vec<u8>, addr: usize) -> (r: Result<String, DumpError>)
    ensures
        (match spec_read_cstyle(data@, addr as int) {
            Ok(s) => r matches Ok(got) && got@ == s,
            Err(e) => r matches Err(got) && got == e,
        }),
{
    let n = data.len();
    if addr >= n {
        return Err(DumpError::OutOfBounds);
    }
    let mut end = addr;
    while end < n && data[end] != 0
        invariant
            addr <= end <= n,
            n == data@.len(),
            spec_find_nul(data@, addr as int) == spec_find_nul(data@, end as int),
        decreases n - end,
    {
        end = end + 1;
    }
    if end >= n {
        return Err(DumpError::OutOfBounds);
    }
    let bytes = slice_range(data, addr, end - addr);
    match bytes_to_string(bytes) {
        Some(s) => Ok(s),
        None => Err(DumpError::Encoding),
    }
}

/// The backing-storage address → string table the string-initializer pass
/// builds. A later entry for the same address replaces the earlier one.
pub struct StringMap {
    pub entries: Vec<(usize, String)>,
}

impl View for StringMap {
    type V = Seq<(usize, Seq<char>)>;

    open spec fn view(&self) -> Seq<(usize, Seq<char>)> {
        Seq::new(self.entries@.len(), |i: int| (self.entries@[i].0, self.entries@[i].1@))
    }
}

/// The last entry with the given address.
pub open spec fn spec_string_lookup(s: Seq<(usize, Seq<char>)>, key: usize) -> Option<Seq<char>>
    decreases s.len(),
{
    if s.len() == 0 {
        None
    } else if s.last().0 == key {
        Some(s.last().1)
    } else {
        spec_string_lookup(s.drop_last(), key)
    }
}

impl StringMap {
    pub fn new() -> (r: StringMap)
        ensures
            r@ == Seq::<(usize, Seq<char>)>::empty(),
    {
        let r = StringMap { entries: Vec::new() };
        proof {
            assert(r@ =~= Seq::<(usize, Seq<char>)>::empty());
        }
        r
    }

    /// Record one address → string association.
    pub fn insert(&mut self, key: usize, value: String)
        ensures
            final(self)@ == old(self)@ + seq![(key, value@)],
    {
        self.entries.push((key, value));
        proof {
            assert(self@ =~= old(self)@ + seq![(key, value@)]);
        }
    }

    /// The string recorded for an address, the latest entry winning.
    pub fn get(&self, key: usize) -> (r: Option<&String>)
        ensures
            (match spec_string_lookup(self@, key) {
                Some(s) => r matches Some(v) && v@ == s,
                None => r is None,
            }),
    {
        let n = self.entries.len();
        let mut i: usize = n;
        proof {
            assert(self@.take(n as int) =~= self@);
        }
        while i > 0
            invariant
                i <= n,
                n == self.entries@.len(),
                spec_string_lookup(self@, key) == spec_string_lookup(self@.take(i as int), key),
            decreases i,
        {
            proof {
                assert(self@.take(i as int).last() == self@[i - 1]);
                assert(self@.take(i as int).drop_last() =~= self@.take(i - 1));
            }
            if self.entries[i - 1].0 == key {
                return Some(&self.entries[i - 1].1);
            }
            i = i - 1;
        }
        None
    }
}

/// What one string-initializer site yields: the flag's backing-storage
/// address (decoded at the asymmetric 12-byte target offset of the record
/// layout) and the string text, read from read-only data at the resolved
/// address with the 32-bit length that follows the displacements. Invalid
/// UTF-8 is tolerated as empty text; a string outside the read-only section
/// aborts the extraction.
pub open spec fn spec_string_init_at(
    text: Seq<u8>,
    rdata: Seq<u8>,
    addr: int,
    text_rva: int,
    rdata_rva: int,
    data_rva: int,
) -> Result<(usize, Seq<char>), DumpError> {
    if addr + STR_INIT_SIZE > text.len() {
        Err(DumpError::OutOfBounds)
    } else {
        let d1 = i32::from_le_spec(text.subrange(addr + 17, addr + 21)) as int;
        let str_rva = spec_resolve_offset(text_rva, addr, 21, d1, rdata_rva);
        let d2 = i32::from_le_spec(text.subrange(addr + 24, addr + 28)) as int;
        let fvar_rva = spec_resolve_offset(text_rva, addr, 28, d2, data_rva + 12);
        let size = spec_u32_from_le_bytes(text.subrange(addr + 28, addr + 32)) as int;
        if str_rva + size <= rdata.len() {
            let b = rdata.subrange(str_rva, str_rva + size);
            Ok(
                (
                    fvar_rva as usize,
                    if valid_utf8(b) {
                        decode_utf8(b)
                    } else {
                        Seq::<char>::empty()
                    },
                ),
            )
        } else {
            Err(DumpError::OutOfBounds)
        }
    }
}

/// The string table from the given string-initializer sites, in match order.
pub open spec fn spec_load_strings(
    matches: Seq<usize>,
    text: Seq<u8>,
    rdata: Seq<u8>,
    text_rva: int,
    rdata_rva: int,
    data_rva: int,
) -> Result<Seq<(usize, Seq<char>)>, DumpError>
    decreases matches.len(),
{
    if matches.len() == 0 {
        Ok(Seq::<(usize, Seq<char>)>::empty())
    } else {
        match spec_string_init_at(text, rdata, matches[0] as int, text_rva, rdata_rva, data_rva) {
            Err(e) => Err(e),
            Ok(p) => match spec_load_strings(
                matches.drop_first(),
                text,
                rdata,
                text_rva,
                rdata_rva,
                data_rva,
            ) {
                Err(e) => Err(e),
                Ok(rest) => Ok(seq![p] + rest),
            },
        }
    }
}

/// The whole string-initializer pass: parse the signature, scan the code
/// section, and decode every site.
pub open spec fn spec_load_fvar_strings(
    sections: Seq<SectionView>,
    text: Seq<u8>,
    rdata: Seq<u8>,
    text_rva: int,
    rdata_rva: int,
    data_rva: int,
) -> Result<Seq<(usize, Seq<char>)>, DumpError> {
    match spec_parse_pattern(encode_utf8(spec_str_init_pat())) {
        None => Err(DumpError::Format),
        Some(toks) => spec_load_strings(
            spec_found_offsets(sections, ".text"@, toks),
            text,
            rdata,
            text_rva,
            rdata_rva,
            data_rva,
        ),
    }
}

/// Scan the code section for string-initializer sites and build the
/// backing-storage address → string table.
pub fn load_fvar_strings(
    sections: &Sections,
    text_data: &Vec<u8>,
    rdata_data: &Vec<u8>,
    text_rva: usize,
    rdata_rva: usize,
    data_rva: usize,
) -> (r: Result<StringMap, DumpError>)
    requires
        data_rva + 12 <= usize::MAX,
    ensures
        (match spec_load_fvar_strings(
            sections@,
            text_data@,
            rdata_data@,
            text_rva as int,
            rdata_rva as int,
            data_rva as int,
        ) {
            Ok(entries) => r matches Ok(m) && m@ == entries,
            Err(e) => r matches Err(g) && g == e,
        }),
{
    let pat = match IDAPat::new(str_init_pat()) {
        Some(p) => p,
        None => {
            return Err(DumpError::Format);
        },
    };
    let matches = scan(sections, &pat, Some(".text"));
    let mut map = StringMap::new();
    let n = matches.len();
    let mut k: usize = 0;
    proof {
        assert(matches@.skip(0) =~= matches@);
        match spec_load_strings(
            matches@,
            text_data@,
            rdata_data@,
            text_rva as int,
            rdata_rva as int,
            data_rva as int,
        ) {
            Ok(rest) => {
                assert(map@ + rest =~= rest);
            },
            Err(_) => {},
        }
    }
    #[verifier::loop_isolation(false)]
    while k < n
        invariant
            k <= n,
            (match spec_load_strings(
                matches@.skip(k as int),
                text_data@,
                rdata_data@,
                text_rva as int,
                rdata_rva as int,
                data_rva as int,
            ) {
                Ok(rest) => spec_load_strings(
                    matches@,
                    text_data@,
                    rdata_data@,
                    text_rva as int,
                    rdata_rva as int,
                    data_rva as int,
                ) == Ok::<Seq<(usize, Seq<char>)>, DumpError>(map@ + rest),
                Err(e) => spec_load_strings(
                    matches@,
                    text_data@,
                    rdata_data@,
                    text_rva as int,
                    rdata_rva as int,
                    data_rva as int,
                ) == Err::<Seq<(usize, Seq<char>)>, DumpError>(e),
            }),
        decreases n - k,
    {
        let addr = matches[k];
        let tlen = text_data.len();
        if tlen < STR_INIT_SIZE || addr > tlen - STR_INIT_SIZE {
            return Err(DumpError::OutOfBounds);
        }
        let window = slice_range(text_data, addr, STR_INIT_SIZE);
        let ghost w = window@;
        let mut stream = NetworkStream::from(window);
        stream.ignore_bytes(17);
        proof {
            assert(w.subrange(17, 21) =~= text_data@.subrange(addr + 17, addr + 21));
            assert(w.subrange(24, 28) =~= text_data@.subrange(addr + 24, addr + 28));
            assert(w.subrange(28, 32) =~= text_data@.subrange(addr + 28, addr + 32));
        }
        let str_rva = match calc_instruction_offset(&mut stream, addr, text_rva, rdata_rva) {
            Ok(v) => v,
            Err(e) => {
                return Err(e);
            },
        };
        stream.ignore_bytes(3);
        let fvar_rva = match calc_instruction_offset(&mut stream, addr, text_rva, data_rva + 12) {
            Ok(v) => v,
            Err(e) => {
                return Err(e);
            },
        };
        let str_size: u32 = match stream.read_le::<u32>() {
            Ok(v) => v,
            Err(e) => {
                return Err(e);
            },
        };
        let rlen = rdata_data.len();
        if str_size as usize > rlen || str_rva > rlen - str_size as usize {
            return Err(DumpError::OutOfBounds);
        }
        let bytes = slice_range(rdata_data, str_rva, str_size as usize);
        let s = match bytes_to_string(bytes) {
            Some(s) => s,
            None => String::new(),
        };
        let ghost map_old = map@;
        map.insert(fvar_rva, s);
        k = k + 1;
        proof {
            assert(matches@.skip(k - 1).drop_first() =~= matches@.skip(k as int));
            assert(matches@.skip(k - 1)[0] == matches@[k - 1]);
            let step = spec_string_init_at(
                text_data@,
                rdata_data@,
                addr as int,
                text_rva as int,
                rdata_rva as int,
                data_rva as int,
            );
            assert(step == Ok::<(usize, Seq<char>), DumpError>((fvar_rva, s@)));
            match spec_load_strings(
                matches@.skip(k as int),
                text_data@,
                rdata_data@,
                text_rva as int,
                rdata_rva as int,
                data_rva as int,
            ) {
                Ok(rest) => {
                    assert(map_old + (seq![(fvar_rva, s@)] + rest) =~= map@ + rest);
                },
                Err(_) => {},
            }
        }
    }
    proof {
        assert(matches@.skip(n as int).len() == 0);
        assert(map@ + Seq::<(usize, Seq<char>)>::empty() =~= map@);
    }
    Ok(map)
}

/// The value stored for a flag, fetched from writable data at the resolved
/// slot address. Law (bounds policy): a numeric or boolean slot whose address
/// plus width exceeds the writable-data section decodes to `Uninit`, never an
/// error. A string slot takes its text from the string table, `Uninit` when
/// absent; an unknown tag is `Invalid`.
pub open spec fn spec_flag_value(
    vvt: FastVarValueType,
    data: Seq<u8>,
    strings: Seq<(usize, Seq<char>)>,
    val_rva: usize,
) -> FastVarValueView {
    match vvt {
        FastVarValueType::Int => {
            if val_rva + 4 > data.len() {
                FastVarValueView::Uninit
            } else {
                FastVarValueView::Int(
                    spec_u32_from_le_bytes(data.subrange(val_rva as int, val_rva + 4)) as i32,
                )
            }
        },
        FastVarValueType::Log => {
            if val_rva + 2 > data.len() {
                FastVarValueView::Uninit
            } else {
                FastVarValueView::Log(
                    spec_decimal(
                        spec_u16_from_le_bytes(data.subrange(val_rva as int, val_rva + 2)) as int,
                    ),
                )
            }
        },
        FastVarValueType::Flag => {
            if val_rva + 1 > data.len() {
                FastVarValueView::Uninit
            } else {
                FastVarValueView::Flag(data[val_rva as int] == 0x01)
            }
        },
        FastVarValueType::String => {
            match spec_string_lookup(strings, val_rva) {
                Some(s) => FastVarValueView::String(s),
                None => FastVarValueView::Uninit,
            }
        },
        _ => FastVarValueView::Invalid,
    }
}

/// Fetch a flag's value from writable data (see `spec_flag_value`).
pub fn decode_flag_value(
    value_type: FastVarValueType,
    data: &Vec<u8>,
    strings: &StringMap,
    val_rva: usize,
) -> (r: FastVarValue)
    ensures
        r@ == spec_flag_value(value_type, data@, strings@, val_rva),
{
    let dlen = data.len();
    match value_type {
        FastVarValueType::Int => {
            if dlen < 4 || val_rva > dlen - 4 {
                FastVarValue::Uninit
            } else {
                let bytes = slice_range(data, val_rva, 4);
                FastVarValue::Int(<u32 as Bytes>::from_le_bytes(bytes) as i32)
            }
        },
        FastVarValueType::Log => {
            if dlen < 2 || val_rva > dlen - 2 {
                FastVarValue::Uninit
            } else {
                let bytes = slice_range(data, val_rva, 2);
                let v = <u16 as Bytes>::from_le_bytes(bytes);
                FastVarValue::Log(u64_to_decimal_string(v as u64))
            }
        },
        FastVarValueType::Flag => {
            if dlen < 1 || val_rva > dlen - 1 {
                FastVarValue::Uninit
            } else {
                FastVarValue::Flag(data[val_rva] == 0x01)
            }
        },
        FastVarValueType::String => {
            match strings.get(val_rva) {
                Some(s) => FastVarValue::String(clone_string(s)),
                None => FastVarValue::Uninit,
            }
        },
        FastVarValueType::Invalid => FastVarValue::Invalid,
        FastVarValueType::Uninit => FastVarValue::Invalid,
    }
}

fn clone_string(s: &String) -> (r: String)
    ensures
        r@ == s@,
{
    s.clone()
}

/// What one flag-registration site decodes to: the classification code, the
/// value-slot address (resolved into writable data), the NUL-terminated name
/// (resolved into read-only data), then the nested indirection — a jump
/// displacement into the code section, a 16-bit big-endian opcode probe
/// choosing a 35- or 15-byte stride, one more displacement, and the value-type
/// tag 8 bytes past it — and finally the value fetched per `spec_flag_value`.
pub open spec fn spec_flag_at(
    text: Seq<u8>,
    rdata: Seq<u8>,
    data: Seq<u8>,
    strings: Seq<(usize, Seq<char>)>,
    addr: int,
    text_rva: int,
    rdata_rva: int,
    data_rva: int,
) -> Result<FastVarView, DumpError> {
    if addr + DYN_INIT_SIZE > text.len() {
        Err(DumpError::OutOfBounds)
    } else {
        let vt = FastVarType::spec_from_code(
            spec_u32_from_le_bytes(text.subrange(addr + 2, addr + 6)),
        );
        let d1 = i32::from_le_spec(text.subrange(addr + 9, addr + 13)) as int;
        let val_rva = spec_resolve_offset(text_rva, addr, 13, d1, data_rva);
        let d2 = i32::from_le_spec(text.subrange(addr + 16, addr + 20)) as int;
        let name_rva = spec_resolve_offset(text_rva, addr, 20, d2, rdata_rva);
        match spec_read_cstyle(rdata, name_rva) {
            Err(e) => Err(e),
            Ok(name) => {
                let d3 = i32::from_le_spec(text.subrange(addr + 21, addr + 25)) as int;
                let jmp_rva = spec_resolve_offset(text_rva, addr, 25, d3, text_rva);
                if jmp_rva + 0x3D > text.len() {
                    Err(DumpError::OutOfBounds)
                } else {
                    let inst = u16::from_be_spec(text.subrange(jmp_rva, jmp_rva + 2));
                    let joff: int = if inst == 0x4053 {
                        35
                    } else {
                        15
                    };
                    let d4 = i32::from_le_spec(
                        text.subrange(jmp_rva + 2 + joff, jmp_rva + 6 + joff),
                    ) as int;
                    let sub_rva = spec_resolve_offset(text_rva, jmp_rva, 6 + joff, d4, text_rva);
                    if sub_rva + 12 > text.len() {
                        Err(DumpError::OutOfBounds)
                    } else {
                        let vvt = FastVarValueType::spec_from_code(
                            spec_u32_from_le_bytes(text.subrange(sub_rva + 8, sub_rva + 12)),
                        );
                        Ok(
                            FastVarView {
                                name,
                                var_type: vt,
                                value_type: vvt,
                                value: spec_flag_value(vvt, data, strings, val_rva as usize),
                            },
                        )
                    }
                }
            },
        }
    }
}

/// Every flag the given registration sites decode to, in match order.
pub open spec fn spec_decode_flags(
    matches: Seq<usize>,
    text: Seq<u8>,
    rdata: Seq<u8>,
    data: Seq<u8>,
    strings: Seq<(usize, Seq<char>)>,
    text_rva: int,
    rdata_rva: int,
    data_rva: int,
) -> Result<Seq<FastVarView>, DumpError>
    decreases matches.len(),
{
    if matches.len() == 0 {
        Ok(Seq::<FastVarView>::empty())
    } else {
        match spec_flag_at(
            text,
            rdata,
            data,
            strings,
            matches[0] as int,
            text_rva,
            rdata_rva,
            data_rva,
        ) {
            Err(e) => Err(e),
            Ok(v) => match spec_decode_flags(
                matches.drop_first(),
                text,
                rdata,
                data,
                strings,
                text_rva,
                rdata_rva,
                data_rva,
            ) {
                Err(e) => Err(e),
                Ok(rest) => Ok(seq![v] + rest),
            },
        }
    }
}

/// The whole extraction over a loaded section table: both passes against the
/// code section, every site decoded, aborted whole on any structural failure.
pub open spec fn spec_dump(sections: Seq<SectionView>) -> Result<Seq<FastVarView>, DumpError> {
    match spec_find_section(sections, ".text"@) {
        None => Err(DumpError::SectionNotFound),
        Some(text) => match spec_find_section(sections, ".rdata"@) {
            None => Err(DumpError::SectionNotFound),
            Some(rdata) => match spec_find_section(sections, ".data"@) {
                None => Err(DumpError::SectionNotFound),
                Some(data) => {
                    if data.virtual_address + 12 > usize::MAX {
                        Err(DumpError::Format)
                    } else {
                        match spec_load_fvar_strings(
                            sections,
                            text.data,
                            rdata.data,
                            text.virtual_address as int,
                            rdata.virtual_address as int,
                            data.virtual_address as int,
                        ) {
                            Err(e) => Err(e),
                            Ok(strings) => match spec_parse_pattern(
                                encode_utf8(spec_dyn_init_pat()),
                            ) {
                                None => Err(DumpError::Format),
                                Some(dtoks) => spec_decode_flags(
                                    spec_found_offsets(sections, ".text"@, dtoks),
                                    text.data,
                                    rdata.data,
                                    data.data,
                                    strings,
                                    text.virtual_address as int,
                                    rdata.virtual_address as int,
                                    data.virtual_address as int,
                                ),
                            },
                        }
                    }
                },
            },
        },
    }
}

/// The whole extraction over raw image bytes: load the sections, then decode.
pub open spec fn spec_get_fflags(binary: Seq<u8>) -> Result<Seq<FastVarView>, DumpError> {
    if image_sections_of(binary) is None {
        Err(DumpError::Format)
    } else {
        spec_dump(spec_image_sections(binary))
    }
}

/// Decode one flag-registration site (see `spec_flag_at`).
fn decode_flag_site(
    text_data: &Vec<u8>,
    rdata_data: &Vec<u8>,
    data_data: &Vec<u8>,
    strings: &StringMap,
    addr: usize,
    text_rva: usize,
    rdata_rva: usize,
    data_rva: usize,
) -> (r: Result<FastVar, DumpError>)
    ensures
        (match spec_flag_at(
            text_data@,
            rdata_data@,
            data_data@,
            strings@,
            addr as int,
            text_rva as int,
            rdata_rva as int,
            data_rva as int,
        ) {
            Ok(v) => r matches Ok(f) && f@ == v,
            Err(e) => r matches Err(g) && g == e,
        }),
{
    let ghost tvd = text_data@;
    let tlen = text_data.len();
    if tlen < DYN_INIT_SIZE || addr > tlen - DYN_INIT_SIZE {
        return Err(DumpError::OutOfBounds);
    }
    let mut stream = read_fvar_at_addr(text_data, addr);
    let ghost w = stream.data@;
    proof {
        assert(w.subrange(2, 6) =~= tvd.subrange(addr + 2, addr + 6));
        assert(w.subrange(9, 13) =~= tvd.subrange(addr + 9, addr + 13));
        assert(w.subrange(16, 20) =~= tvd.subrange(addr + 16, addr + 20));
        assert(w.subrange(21, 25) =~= tvd.subrange(addr + 21, addr + 25));
    }
    stream.ignore_bytes(2);
    let vt_code: u32 = match stream.read_le::<u32>() {
        Ok(c) => c,
        Err(e) => {
            return Err(e);
        },
    };
    let fvar_type = FastVarType::from_code(vt_code);
    stream.ignore_bytes(3);
    let val_rva = match calc_instruction_offset(&mut stream, addr, text_rva, data_rva) {
        Ok(v) => v,
        Err(e) => {
            return Err(e);
        },
    };
    stream.ignore_bytes(3);
    let name_rva = match calc_instruction_offset(&mut stream, addr, text_rva, rdata_rva) {
        Ok(v) => v,
        Err(e) => {
            return Err(e);
        },
    };
    let fvar_name = match read_cstyle_string(rdata_data, name_rva) {
        Ok(s) => s,
        Err(e) => {
            return Err(e);
        },
    };
    stream.ignore_bytes(1);
    let jmp_rva = match calc_instruction_offset(&mut stream, addr, text_rva, text_rva) {
        Ok(v) => v,
        Err(e) => {
            return Err(e);
        },
    };
    if tlen < 0x3D || jmp_rva > tlen - 0x3D {
        return Err(DumpError::OutOfBounds);
    }
    let mut jmp_data = NetworkStream::from(slice_range(text_data, jmp_rva, 0x3D));
    let ghost jw = jmp_data.data@;
    proof {
        assert(jw.subrange(0, 2) =~= tvd.subrange(jmp_rva as int, jmp_rva + 2));
    }
    let inst: u16 = match jmp_data.read_be::<u16>() {
        Ok(v) => v,
        Err(e) => {
            return Err(e);
        },
    };
    let joff: usize = if inst == 0x4053 {
        35
    } else {
        15
    };
    jmp_data.ignore_bytes(joff);
    proof {
        assert(jw.subrange(2 + joff as int, 6 + joff as int) =~= tvd.subrange(
            jmp_rva + 2 + joff,
            jmp_rva + 6 + joff,
        ));
    }
    let sub_jmp_rva = match calc_instruction_offset(&mut jmp_data, jmp_rva, text_rva, text_rva) {
        Ok(v) => v,
        Err(e) => {
            return Err(e);
        },
    };
    if tlen < 12 || sub_jmp_rva > tlen - 12 {
        return Err(DumpError::OutOfBounds);
    }
    let mut sub_stream = NetworkStream::from(slice_range(text_data, sub_jmp_rva, 12));
    proof {
        assert(sub_stream.data@.subrange(8, 12) =~= tvd.subrange(
            sub_jmp_rva + 8,
            sub_jmp_rva + 12,
        ));
    }
    sub_stream.ignore_bytes(8);
    let vvt_code: u32 = match sub_stream.read_le::<u32>() {
        Ok(c) => c,
        Err(e) => {
            return Err(e);
        },
    };
    let fvar_val_type = FastVarValueType::from_code(vvt_code);
    let fvar_value = decode_flag_value(fvar_val_type, data_data, strings, val_rva);
    Ok(
        FastVar {
            name: fvar_name,
            var_type: fvar_type,
            value_type: fvar_val_type,
            value: fvar_value,
        },
    )
}

/// Decode the flags at every given registration site, in match order.
fn decode_flag_sites(
    matches: &Vec<usize>,
    text_data: &Vec<u8>,
    rdata_data: &Vec<u8>,
    data_data: &Vec<u8>,
    strings: &StringMap,
    text_rva: usize,
    rdata_rva: usize,
    data_rva: usize,
) -> (r: Result<Vec<FastVar>, DumpError>)
    ensures
        (match spec_decode_flags(
            matches@,
            text_data@,
            rdata_data@,
            data_data@,
            strings@,
            text_rva as int,
            rdata_rva as int,
            data_rva as int,
        ) {
            Ok(vs) => r matches Ok(flags) && flags@.len() == vs.len() && (forall|i: int|
                0 <= i < vs.len() ==> (#[trigger] flags@[i])@ == vs[i]),
            Err(e) => r matches Err(g) && g == e,
        }),
{
    let mut out: Vec<FastVar> = Vec::new();
    let ghost tvd = text_data@;
    let ghost rvd = rdata_data@;
    let ghost dvd = data_data@;
    let ghost svd = strings@;
    let n = matches.len();
    let mut k: usize = 0;
    proof {
        assert(matches@.skip(0) =~= matches@);
    }
    #[verifier::loop_isolation(false)]
    while k < n
        invariant
            k <= n,
            out@.len() == k,
            (match spec_decode_flags(
                matches@.skip(k as int),
                tvd,
                rvd,
                dvd,
                svd,
                text_rva as int,
                rdata_rva as int,
                data_rva as int,
            ) {
                Ok(rest) => (match spec_decode_flags(
                    matches@,
                    tvd,
                    rvd,
                    dvd,
                    svd,
                    text_rva as int,
                    rdata_rva as int,
                    data_rva as int,
                ) {
                    Ok(whole) => whole.len() == k + rest.len() && (forall|i: int|
                        0 <= i < k ==> (#[trigger] out@[i])@ == whole[i]) && (forall|i: int|
                        0 <= i < rest.len() ==> rest[i] == #[trigger] whole[k + i]),
                    Err(_) => false,
                }),
                Err(e) => spec_decode_flags(
                    matches@,
                    tvd,
                    rvd,
                    dvd,
                    svd,
                    text_rva as int,
                    rdata_rva as int,
                    data_rva as int,
                ) == Err::<Seq<FastVarView>, DumpError>(e),
            }),
        decreases n - k,
    {
        let addr = matches[k];
        let flag = match decode_flag_site(
            text_data,
            rdata_data,
            data_data,
            strings,
            addr,
            text_rva,
            rdata_rva,
            data_rva,
        ) {
            Ok(f) => f,
            Err(e) => {
                proof {
                    assert(matches@.skip(k as int)[0] == matches@[k as int]);
                }
                return Err(e);
            },
        };
        proof {
            assert(matches@.skip(k as int).drop_first() =~= matches@.skip(k + 1));
            assert(matches@.skip(k as int)[0] == matches@[k as int]);
        }
        out.push(flag);
        k = k + 1;
        proof {
            let ko = k - 1;
            let args_old = spec_decode_flags(
                matches@.skip(ko),
                tvd,
                rvd,
                dvd,
                svd,
                text_rva as int,
                rdata_rva as int,
                data_rva as int,
            );
            let args_new = spec_decode_flags(
                matches@.skip(k as int),
                tvd,
                rvd,
                dvd,
                svd,
                text_rva as int,
                rdata_rva as int,
                data_rva as int,
            );
            let args_all = spec_decode_flags(
                matches@,
                tvd,
                rvd,
                dvd,
                svd,
                text_rva as int,
                rdata_rva as int,
                data_rva as int,
            );
            match args_new {
                Ok(rest_new) => {
                    let rest_old = args_old->Ok_0;
                    assert(rest_old == seq![flag@] + rest_new);
                    match args_all {
                        Ok(whole) => {
                            assert(rest_old[0] == whole[ko + 0]);
                            assert(out@[ko]@ == whole[ko]);
                            assert forall|i: int| 0 <= i < rest_new.len() implies rest_new[i]
                                == #[trigger] whole[k + i] by {
                                assert(rest_old[i + 1] == whole[ko + (i + 1)]);
                                assert(rest_new[i] == rest_old[i + 1]);
                            }
                        },
                        Err(_) => {},
                    }
                },
                Err(_) => {},
            }
        }
    }
    proof {
        assert(matches@.skip(n as int).len() == 0);
    }
    Ok(out)
}

/// Decode every flag definition found in a loaded section table.
pub fn get_fflags_from_sections(sections: &Sections) -> (r: Result<Vec<FastVar>, DumpError>)
    ensures
        (match spec_dump(sections@) {
            Ok(vs) => r matches Ok(flags) && flags@.len() == vs.len() && (forall|i: int|
                0 <= i < vs.len() ==> (#[trigger] flags@[i])@ == vs[i]),
            Err(e) => r matches Err(g) && g == e,
        }),
{
    let text_section = match sections.get_section_by_name(".text") {
        Some(t) => t,
        None => {
            return Err(DumpError::SectionNotFound);
        },
    };
    let rdata_section = match sections.get_section_by_name(".rdata") {
        Some(t) => t,
        None => {
            return Err(DumpError::SectionNotFound);
        },
    };
    let data_section = match sections.get_section_by_name(".data") {
        Some(t) => t,
        None => {
            return Err(DumpError::SectionNotFound);
        },
    };
    let text_data = text_section.data;
    let rdata_data = rdata_section.data;
    let data_data = data_section.data;
    let text_rva = text_section.virtual_address;
    let rdata_rva = rdata_section.virtual_address;
    let data_rva = data_section.virtual_address;
    if data_rva > usize::MAX - 12 {
        return Err(DumpError::Format);
    }
    let strings = match load_fvar_strings(
        sections,
        &text_data,
        &rdata_data,
        text_rva,
        rdata_rva,
        data_rva,
    ) {
        Ok(m) => m,
        Err(e) => {
            return Err(e);
        },
    };
    let pat = match IDAPat::new(dyn_init_pat()) {
        Some(p) => p,
        None => {
            return Err(DumpError::Format);
        },
    };
    let matches = scan(sections, &pat, Some(".text"));
    decode_flag_sites(
        &matches,
        &text_data,
        &rdata_data,
        &data_data,
        &strings,
        text_rva,
        rdata_rva,
        data_rva,
    )
}

/// Extract every flag definition embedded in a raw executable image: parse
/// its sections, then run both scan passes and decode each site.
pub fn get_fflags(binary: Vec<u8>) -> (r: Result<Vec<FastVar>, DumpError>)
    ensures
        (match spec_get_fflags(binary@) {
            Ok(vs) => r matches Ok(flags) && flags@.len() == vs.len() && (forall|i: int|
                0 <= i < vs.len() ==> (#[trigger] flags@[i])@ == vs[i]),
            Err(e) => r matches Err(g) && g == e,
        }),
{
    let sections = match get_sections_from_binary(binary) {
        Ok(s) => s,
        Err(e) => {
            return Err(e);
        },
    };
    get_fflags_from_sections(&sections)
}

} // verus!