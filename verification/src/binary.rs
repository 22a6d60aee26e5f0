//! Executable image loader: parses the image headers through the `object`
//! crate and exposes the named sections — their raw bytes, virtual addresses
//! and raw-data file offsets — as plain values the rest of the library works
//! on.

use vstd::prelude::*;
use vstd::utf8::*;

verus! {

use crate::DumpError;
use crate::stream::bytes_to_string;

/// One named region of the executable image.
pub struct Section {
    /// The raw section-table name field, NUL padded.
    pub name: Vec<u8>,
    pub virtual_address: usize,
    pub pointer_to_raw_data: usize,
    pub data: Vec<u8>,
}

/// The mathematical image of a `Section`.
pub struct SectionView {
    pub name: Seq<u8>,
    pub virtual_address: usize,
    pub pointer_to_raw_data: usize,
    pub data: Seq<u8>,
}

impl View for Section {
    type V = SectionView;

    open spec fn view(&self) -> SectionView {
        SectionView {
            name: self.name@,
            virtual_address: self.virtual_address,
            pointer_to_raw_data: self.pointer_to_raw_data,
            data: self.data@,
        }
    }
}

impl Clone for Section {
    fn clone(&self) -> (r: Section)
        ensures
            r@ == self@,
    {
        Section {
            name: clone_bytes(&self.name),
            virtual_address: self.virtual_address,
            pointer_to_raw_data: self.pointer_to_raw_data,
            data: clone_bytes(&self.data),
        }
    }
}

fn clone_bytes(v: &Vec<u8>) -> (r: Vec<u8>)
    ensures
        r@ == v@,
{
    let n = v.len();
    let mut r: Vec<u8> = Vec::new();
    let mut i: usize = 0;
    while i < n
        invariant
            i <= n,
            n == v@.len(),
            r@ == v@.take(i as int),
        decreases n - i,
    {
        r.push(v[i]);
        i = i + 1;
        proof {
            assert(v@.take(i - 1).push(v@[i - 1]) =~= v@.take(i as int));
        }
    }
    proof {
        assert(v@.take(n as int) =~= v@);
    }
    r
}

/// A name with its trailing NUL padding removed.
pub open spec fn spec_trim_nul(b: Seq<u8>) -> Seq<u8>
    decreases b.len(),
{
    if b.len() > 0 && b.last() == 0 {
        spec_trim_nul(b.drop_last())
    } else {
        b
    }
}

/// The text of a section name: its bytes NUL-trimmed and decoded as UTF-8,
/// or empty text when they are not valid UTF-8.
pub open spec fn spec_section_name(name: Seq<u8>) -> Seq<char> {
    if valid_utf8(spec_trim_nul(name)) {
        decode_utf8(spec_trim_nul(name))
    } else {
        Seq::<char>::empty()
    }
}

impl Section {
    /// The section's name, NUL-trimmed; empty when it is not valid UTF-8.
    pub fn get_name(&self) -> (r: String)
        ensures
            r@ == spec_section_name(self.name@),
    {
        let mut end = self.name.len();
        proof {
            assert(self.name@.take(end as int) =~= self.name@);
        }
        while end > 0 && self.name[end - 1] == 0
            invariant
                end <= self.name@.len(),
                spec_trim_nul(self.name@) == spec_trim_nul(self.name@.take(end as int)),
            decreases end,
        {
            proof {
                assert(self.name@.take(end as int).drop_last() =~= self.name@.take(end - 1));
            }
            end = end - 1;
        }
        proof {
            if end > 0 {
                assert(self.name@.take(end as int).last() == self.name@[end - 1]);
            }
            assert(spec_trim_nul(self.name@) == self.name@.take(end as int));
        }
        let mut trimmed: Vec<u8> = Vec::new();
        let mut i: usize = 0;
        while i < end
            invariant
                i <= end <= self.name@.len(),
                trimmed@ == self.name@.take(end as int).take(i as int),
            decreases end - i,
        {
            proof {
                assert(self.name@.take(end as int).take(i as int).push(self.name@[i as int]) =~= self.name@.take(
                    end as int,
                ).take(i + 1));
            }
            trimmed.push(self.name[i]);
            i = i + 1;
        }
        proof {
            assert(self.name@.take(end as int).take(end as int) =~= self.name@.take(end as int));
        }
        match bytes_to_string(trimmed) {
            Some(s) => s,
            None => String::new(),
        }
    }
}

/// The first section with the given name.
pub open spec fn spec_find_section(sections: Seq<SectionView>, name: Seq<char>) -> Option<
    SectionView,
>
    decreases sections.len(),
{
    if sections.len() == 0 {
        None
    } else if spec_section_name(sections[0].name) == name {
        Some(sections[0])
    } else {
        spec_find_section(sections.drop_first(), name)
    }
}

/// The image's section table.
pub struct Sections {
    pub data: Vec<Section>,
}

impl View for Sections {
    type V = Seq<SectionView>;

    open spec fn view(&self) -> Seq<SectionView> {
        Seq::new(self.data@.len(), |i: int| self.data@[i]@)
    }
}

impl Sections {
    pub fn new() -> (r: Sections)
        ensures
            r@ == Seq::<SectionView>::empty(),
    {
        let r = Sections { data: Vec::new() };
        proof {
            assert(r@ =~= Seq::<SectionView>::empty());
        }
        r
    }

    /// First match, case-sensitive, against the NUL-trimmed names.
    pub fn get_section_by_name(&self, name: &str) -> (r: Option<Section>)
        ensures
            (match spec_find_section(self@, name@) {
                Some(v) => r matches Some(s) && s@ == v,
                None => r is None,
            }),
    {
        let wanted = String::from_str(name);
        let n = self.data.len();
        let mut i: usize = 0;
        proof {
            assert(self@.skip(0) =~= self@);
        }
        while i < n
            invariant
                i <= n,
                n == self.data@.len(),
                wanted@ == name@,
                spec_find_section(self@, name@) == spec_find_section(self@.skip(i as int), name@),
            decreases n - i,
        {
            let sec_name = self.data[i].get_name();
            if sec_name.eq(&wanted) {
                return Some(self.data[i].clone());
            }
            proof {
                assert(self@.skip(i as int).drop_first() =~= self@.skip(i + 1));
            }
            i = i + 1;
        }
        None
    }
}

/// What the image parser yields for given image bytes: each section's raw
/// name field, virtual address, raw-data file offset and raw bytes, in
/// section-table order; nothing when the headers are malformed.
pub uninterp spec fn image_sections_of(binary: Seq<u8>) -> Option<Seq<(Seq<u8>, u32, u32, Seq<u8>)>>;

/// Relies on the `object` crate's 64-bit portable-executable parsing —
/// `ImageDosHeader::parse`, `ImageNtHeaders64::parse`, `CoffHeader::sections`
/// and `ImageSectionHeader::pe_data` — to split an image into its sections.
/// Each yielded tuple carries one section's raw name field, virtual address,
/// raw-data file offset and raw bytes, in section-table order; `None` exactly
/// when those headers cannot be parsed. The result is a function of the bytes
/// alone.
#[verifier::external_body]
fn parse_image_sections(binary: &Vec<u8>) -> (r: Option<Vec<(Vec<u8>, u32, u32, Vec<u8>)>>)
    ensures
        r is Some <==> image_sections_of(binary@) is Some,
        r matches Some(v) ==> {
            let m = image_sections_of(binary@)->Some_0;
            &&& v@.len() == m.len()
            &&& forall|i: int|
                0 <= i < m.len() ==> (#[trigger] v@[i]).0@ == m[i].0 && v@[i].1 == m[i].1
                    && v@[i].2 == m[i].2 && v@[i].3@ == m[i].3
        },
{
    let b = binary.as_slice();
    let dos = object::pe::ImageDosHeader::parse(b).ok()?;
    let mut off: u64 = dos.nt_headers_offset().into();
    let (nt, _): (&object::pe::ImageNtHeaders64, _) = object::read::pe::ImageNtHeaders::parse(b, &mut off).ok()?;
    let fh = object::read::pe::ImageNtHeaders::file_header(nt);
    let table = object::read::coff::CoffHeader::sections(fh, b, off).ok()?;
    table.iter().map(|s| {
        let le = object::LittleEndian;
        Some((s.name.to_vec(), s.virtual_address.get(le), s.pointer_to_raw_data.get(le), s.pe_data(b).ok()?.to_vec()))
    }).collect()
}

/// The sections the loader exposes for given image bytes, as section views.
pub open spec fn spec_image_sections(binary: Seq<u8>) -> Seq<SectionView>
    recommends
        image_sections_of(binary) is Some,
{
    let m = image_sections_of(binary)->Some_0;
    Seq::new(
        m.len(),
        |i: int|
            SectionView {
                name: m[i].0,
                virtual_address: m[i].1 as usize,
                pointer_to_raw_data: m[i].2 as usize,
                data: m[i].3,
            },
    )
}

/// Parse the image headers and load every section. Fails with a format error
/// exactly when the headers are unparsable.
pub fn get_sections_from_binary(binary: Vec<u8>) -> (r: Result<Sections, DumpError>)
    ensures
        r is Ok <==> image_sections_of(binary@) is Some,
        r matches Ok(s) ==> s@ == spec_image_sections(binary@),
        r matches Err(e) ==> e == DumpError::Format,
{
    let parsed = match parse_image_sections(&binary) {
        Some(v) => v,
        None => {
            return Err(DumpError::Format);
        },
    };
    let mut sections = Sections::new();
    let n = parsed.len();
    let mut i: usize = 0;
    proof {
        assert(sections@ =~= spec_image_sections(binary@).take(0));
    }
    while i < n
        invariant
            i <= n,
            n == parsed@.len(),
            image_sections_of(binary@) is Some,
            n == image_sections_of(binary@)->Some_0.len(),
            forall|k: int|
                0 <= k < n ==> (#[trigger] parsed@[k]).0@ == image_sections_of(
                    binary@,
                )->Some_0[k].0 && parsed@[k].1 == image_sections_of(binary@)->Some_0[k].1
                    && parsed@[k].2 == image_sections_of(binary@)->Some_0[k].2 && parsed@[k].3@
                    == image_sections_of(binary@)->Some_0[k].3,
            sections.data@.len() == i,
            sections@ == spec_image_sections(binary@).take(i as int),
        decreases n - i,
    {
        let name = clone_bytes(&parsed[i].0);
        let va = parsed[i].1;
        let ptr = parsed[i].2;
        let data = clone_bytes(&parsed[i].3);
        sections.data.push(Section {
            name,
            virtual_address: va as usize,
            pointer_to_raw_data: ptr as usize,
            data,
        });
        i = i + 1;
        proof {
            let m = image_sections_of(binary@)->Some_0;
            assert(parsed@[i - 1].0@ == m[i - 1].0);
            assert(sections@[i - 1] == spec_image_sections(binary@)[i - 1]);
            assert(sections@ =~= spec_image_sections(binary@).take(i as int));
        }
    }
    proof {
        assert(spec_image_sections(binary@).take(n as int) =~= spec_image_sections(binary@));
    }
    Ok(sections)
}

} // verus!