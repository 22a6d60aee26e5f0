//! Pattern scanner: wildcard byte-signature search over one section or all
//! sections, by a naive sliding-window comparison. Overlapping matches are
//! all reported.

use vstd::prelude::*;
use vstd::string::*;

verus! {

use crate::binary::SectionView;
use crate::binary::Sections;
use crate::binary::spec_find_section;

/// One signature token: a literal byte, or a wildcard that matches any byte.
#[derive(Clone, Copy, Debug, PartialEq, Eq, Structural)]
pub enum PatToken {
    Byte(u8),
    Any,
}

/// Whether one token accepts one byte.
pub open spec fn token_matches(t: PatToken, b: u8) -> bool {
    match t {
        PatToken::Byte(x) => x == b,
        PatToken::Any => true,
    }
}

/// Whether the whole signature matches at offset `i`: the window fits and
/// every token accepts its byte.
pub open spec fn pat_matches_at(data: Seq<u8>, tokens: Seq<PatToken>, i: int) -> bool {
    &&& 0 <= i
    &&& i + tokens.len() <= data.len()
    &&& forall|j: int| 0 <= j < tokens.len() ==> token_matches(tokens[j], data[i + j])
}

/// Every match offset at or after `from`, in increasing order. Candidate
/// start offsets run over the whole section.
pub open spec fn spec_scan(data: Seq<u8>, tokens: Seq<PatToken>, from: int) -> Seq<usize>
    decreases data.len() - from,
{
    if from < 0 || from >= data.len() {
        Seq::<usize>::empty()
    } else if pat_matches_at(data, tokens, from) {
        seq![from as usize] + spec_scan(data, tokens, from + 1)
    } else {
        spec_scan(data, tokens, from + 1)
    }
}

/// The numeric value of one hex digit.
pub open spec fn spec_hex_digit(b: u8) -> Option<u8> {
    if 0x30 <= b <= 0x39 {
        Some((b - 0x30) as u8)
    } else if 0x41 <= b <= 0x46 {
        Some((b - 0x41 + 10) as u8)
    } else if 0x61 <= b <= 0x66 {
        Some((b - 0x61 + 10) as u8)
    } else {
        None
    }
}

/// One token of the human-authored signature text: `??` is a wildcard, two
/// hex digits are a literal byte.
pub open spec fn spec_parse_token(hi: u8, lo: u8) -> Option<PatToken> {
    if hi == 0x3F && lo == 0x3F {
        Some(PatToken::Any)
    } else {
        match (spec_hex_digit(hi), spec_hex_digit(lo)) {
            (Some(h), Some(l)) => Some(PatToken::Byte((h * 16 + l) as u8)),
            _ => None,
        }
    }
}

/// Parse the signature text bytes: two-character tokens separated by single
/// spaces.
pub open spec fn spec_parse_pattern(b: Seq<u8>) -> Option<Seq<PatToken>>
    decreases b.len(),
{
    if b.len() == 0 {
        Some(Seq::<PatToken>::empty())
    } else if b.len() < 2 {
        None
    } else {
        match spec_parse_token(b[0], b[1]) {
            None => None,
            Some(t) => {
                if b.len() == 2 {
                    Some(seq![t])
                } else if b[2] == 0x20 {
                    match spec_parse_pattern(b.skip(3)) {
                        None => None,
                        Some(ts) => Some(seq![t] + ts),
                    }
                } else {
                    None
                }
            },
        }
    }
}

/// An IDA-style byte signature: space-separated hex byte pairs or `??`
/// wildcards.
pub struct IDAPat {
    pub tokens: Vec<PatToken>,
}

impl View for IDAPat {
    type V = Seq<PatToken>;

    open spec fn view(&self) -> Seq<PatToken> {
        self.tokens@
    }
}

fn parse_hex_digit(b: u8) -> (r: Option<u8>)
    ensures
        r == spec_hex_digit(b),
{
    if 0x30 <= b && b <= 0x39 {
        Some(b - 0x30)
    } else if 0x41 <= b && b <= 0x46 {
        Some(b - 0x41 + 10)
    } else if 0x61 <= b && b <= 0x66 {
        Some(b - 0x61 + 10)
    } else {
        None
    }
}

impl IDAPat {
    /// Parse the human-authored signature text; `None` when it is malformed.
    pub fn new(pat: &str) -> (r: Option<IDAPat>)
        ensures
            (match spec_parse_pattern(pat.spec_bytes()) {
                Some(ts) => r matches Some(p) && p@ == ts,
                None => r is None,
            }),
    {
        let bytes = pat.as_bytes_vec();
        let n = bytes.len();
        let mut tokens: Vec<PatToken> = Vec::new();
        let mut i: usize = 0;
        proof {
            assert(bytes@.skip(0) =~= bytes@);
        }
        #[verifier::loop_isolation(false)]
        while i < n
            invariant
                i <= n,
                (match spec_parse_pattern(bytes@.skip(i as int)) {
                    Some(ts) => spec_parse_pattern(bytes@) == Some(tokens@ + ts),
                    None => spec_parse_pattern(bytes@) is None,
                }),
            decreases n - i,
        {
            proof {
                assert(bytes@.skip(i as int)[0] == bytes@[i as int]);
                if n - i >= 2 {
                    assert(bytes@.skip(i as int)[1] == bytes@[i + 1]);
                }
                if n - i >= 3 {
                    assert(bytes@.skip(i as int)[2] == bytes@[i + 2]);
                }
            }
            if n - i < 2 {
                return None;
            }
            let t = if bytes[i] == 0x3F && bytes[i + 1] == 0x3F {
                PatToken::Any
            } else {
                let hi = match parse_hex_digit(bytes[i]) {
                    Some(h) => h,
                    None => {
                        return None;
                    },
                };
                let lo = match parse_hex_digit(bytes[i + 1]) {
                    Some(l) => l,
                    None => {
                        return None;
                    },
                };
                PatToken::Byte(hi * 16 + lo)
            };
            let ghost tokens_old = tokens@;
            tokens.push(t);
            if n - i == 2 {
                i = n;
                proof {
                    assert(spec_parse_pattern(bytes@.skip(i as int)) == Some(
                        Seq::<PatToken>::empty(),
                    ));
                    assert(tokens_old + (seq![t] + Seq::<PatToken>::empty()) =~= tokens@
                        + Seq::<PatToken>::empty());
                }
            } else {
                if bytes[i + 2] != 0x20 {
                    return None;
                }
                i = i + 3;
                proof {
                    assert(bytes@.skip(i - 3).skip(3) =~= bytes@.skip(i as int));
                    match spec_parse_pattern(bytes@.skip(i as int)) {
                        Some(ts) => {
                            assert(tokens_old + (seq![t] + ts) =~= tokens@ + ts);
                        },
                        None => {},
                    }
                }
            }
        }
        proof {
            assert(bytes@.skip(n as int).len() == 0);
            assert(tokens@ + Seq::<PatToken>::empty() =~= tokens@);
        }
        Some(IDAPat { tokens })
    }

    pub fn get_len(&self) -> (r: usize)
        ensures
            r == self@.len(),
    {
        self.tokens.len()
    }
}

/// Whether the signature matches the section bytes at offset `i`.
fn matches_at(data: &Vec<u8>, tokens: &Vec<PatToken>, i: usize) -> (r: bool)
    requires
        i < data@.len(),
    ensures
        r == pat_matches_at(data@, tokens@, i as int),
{
    let k = tokens.len();
    let n = data.len();
    let mut j: usize = 0;
    while j < k
        invariant
            j <= k,
            k == tokens@.len(),
            n == data@.len(),
            i < n,
            forall|m: int| 0 <= m < j ==> i + m < n && token_matches(tokens@[m], data@[i + m]),
        decreases k - j,
    {
        if j >= n - i {
            return false;
        }
        let ok = match tokens[j] {
            PatToken::Any => true,
            PatToken::Byte(x) => x == data[i + j],
        };
        if !ok {
            return false;
        }
        j = j + 1;
    }
    proof {
        if k > 0 {
            assert(token_matches(tokens@[k - 1], data@[i + (k - 1)]));
        }
    }
    true
}

/// Scan one named section; no match when the section is absent.
fn scan_single_section(sections: &Sections, pattern: &IDAPat, section: &str) -> (out: Vec<usize>)
    ensures
        out@ == spec_found_offsets(sections@, section@, pattern@),
{
    let mut out: Vec<usize> = Vec::new();
    let found = sections.get_section_by_name(section);
    let sec = match found {
        Some(s) => s,
        None => {
            return out;
        },
    };
    let n = sec.data.len();
    let mut i: usize = 0;
    #[verifier::loop_isolation(false)]
    while i < n
        invariant
            i <= n,
            n == sec.data@.len(),
            spec_scan(sec.data@, pattern@, 0) == out@ + spec_scan(sec.data@, pattern@, i as int),
        decreases n - i,
    {
        let ghost out_old = out@;
        if matches_at(&sec.data, &pattern.tokens, i) {
            out.push(i);
        }
        i = i + 1;
        proof {
            if pat_matches_at(sec.data@, pattern@, i - 1) {
                assert(out_old + (seq![(i - 1) as usize] + spec_scan(sec.data@, pattern@, i as int))
                    =~= out@ + spec_scan(sec.data@, pattern@, i as int));
            }
        }
    }
    proof {
        assert(spec_scan(sec.data@, pattern@, n as int) =~= Seq::<usize>::empty());
        assert(out@ + Seq::<usize>::empty() =~= out@);
    }
    out
}

/// The name text of a section view.
pub open spec fn spec_section_name_of(sec: SectionView) -> Seq<char> {
    crate::binary::spec_section_name(sec.name)
}

/// What a scan of one named section yields: the match offsets of the first
/// section of that name, or nothing when none carries it.
pub open spec fn spec_found_offsets(
    sections: Seq<SectionView>,
    name: Seq<char>,
    tokens: Seq<PatToken>,
) -> Seq<usize> {
    match spec_find_section(sections, name) {
        Some(sec) => spec_scan(sec.data, tokens, 0),
        None => Seq::<usize>::empty(),
    }
}

/// The matches of one section shifted by a raw-data file offset.
pub open spec fn spec_shift(offsets: Seq<usize>, base: int) -> Seq<usize> {
    Seq::new(offsets.len(), |i: int| (offsets[i] + base) as usize)
}

/// Scanning all sections from table index `s` on: each section's name is
/// looked up afresh (the first section of that name is scanned) and the
/// matches are shifted by the iterated section's raw-data file offset, then
/// concatenated in table order.
pub open spec fn spec_scan_all_from(
    sections: Seq<SectionView>,
    tokens: Seq<PatToken>,
    s: int,
) -> Seq<usize>
    decreases sections.len() - s,
{
    if s < 0 || s >= sections.len() {
        Seq::<usize>::empty()
    } else {
        spec_shift(
            spec_found_offsets(sections, spec_section_name_of(sections[s]), tokens),
            sections[s].pointer_to_raw_data as int,
        ) + spec_scan_all_from(sections, tokens, s + 1)
    }
}

/// Per-section matches translated to absolute file-raw offsets.
pub open spec fn spec_scan_all(sections: Seq<SectionView>, tokens: Seq<PatToken>) -> Seq<usize> {
    spec_scan_all_from(sections, tokens, 0)
}

/// No raw-data offset plus a section length exceeds the machine word.
pub open spec fn sections_fit(sections: Seq<SectionView>) -> bool {
    forall|k: int, l: int|
        0 <= k < sections.len() && 0 <= l < sections.len() ==> (
        #[trigger] sections[k]).pointer_to_raw_data + (#[trigger] sections[l]).data.len()
            <= usize::MAX
}

/// A found section is a member of the table.
proof fn lemma_find_section_member(sections: Seq<SectionView>, name: Seq<char>)
    requires
        spec_find_section(sections, name) is Some,
    ensures
        exists|k: int|
            0 <= k < sections.len() && #[trigger] sections[k] == spec_find_section(
                sections,
                name,
            )->Some_0,
    decreases sections.len(),
{
    if sections.len() != 0 {
        if spec_section_name_of(sections[0]) == name {
            assert(sections[0] == spec_find_section(sections, name)->Some_0);
        } else {
            lemma_find_section_member(sections.drop_first(), name);
            let k = choose|k: int|
                0 <= k < sections.drop_first().len() && #[trigger] sections.drop_first()[k]
                    == spec_find_section(sections.drop_first(), name)->Some_0;
            assert(sections[k + 1] == sections.drop_first()[k]);
        }
    }
}

/// Every reported offset is inside the scanned bytes.
proof fn lemma_scan_offsets_in_range(data: Seq<u8>, tokens: Seq<PatToken>, from: int)
    requires
        data.len() <= usize::MAX,
    ensures
        forall|p: int|
            0 <= p < spec_scan(data, tokens, from).len() ==> from <= #[trigger] spec_scan(
                data,
                tokens,
                from,
            )[p] < data.len(),
    decreases data.len() - from,
{
    if 0 <= from < data.len() {
        lemma_scan_offsets_in_range(data, tokens, from + 1);
        let rest = spec_scan(data, tokens, from + 1);
        let whole = spec_scan(data, tokens, from);
        if pat_matches_at(data, tokens, from) {
            assert forall|p: int| 0 <= p < whole.len() implies from <= #[trigger] whole[p]
                < data.len() by {
                if p > 0 {
                    assert(whole[p] == rest[p - 1]);
                }
            }
        }
    }
}

/// Scan one named section, or every section with per-section offsets
/// translated to absolute file-raw offsets.
pub fn scan(sections: &Sections, pattern: &IDAPat, section: Option<&str>) -> (out: Vec<usize>)
    requires
        section is None ==> sections_fit(sections@),
    ensures
        (match section {
            Some(name) => out@ == spec_found_offsets(sections@, name@, pattern@),
            None => out@ == spec_scan_all(sections@, pattern@),
        }),
{
    match section {
        Some(name) => scan_single_section(sections, pattern, name),
        None => scan_all_sections(sections, pattern),
    }
}

/// Scan every section, translating each section's match offsets by its
/// raw-data file pointer.
fn scan_all_sections(sections: &Sections, pattern: &IDAPat) -> (out: Vec<usize>)
    requires
        sections_fit(sections@),
    ensures
        out@ == spec_scan_all(sections@, pattern@),
{
    let mut out: Vec<usize> = Vec::new();
    let n = sections.data.len();
    let mut s: usize = 0;
    #[verifier::loop_isolation(false)]
    while s < n
        invariant
            s <= n,
            n == sections@.len(),
            spec_scan_all(sections@, pattern@) == out@ + spec_scan_all_from(
                sections@,
                pattern@,
                s as int,
            ),
        decreases n - s,
    {
        let name = sections.data[s].get_name();
        let res = scan_single_section(sections, pattern, name.as_str());
        let base = sections.data[s].pointer_to_raw_data;
        let ghost out_old = out@;
        let ghost shifted = spec_shift(res@, base as int);
        proof {
            if spec_find_section(sections@, name@) is Some {
                lemma_find_section_member(sections@, name@);
                let sec = spec_find_section(sections@, name@)->Some_0;
                let k = choose|k: int|
                    0 <= k < sections@.len() && #[trigger] sections@[k] == sec;
                assert(sections@[k].pointer_to_raw_data + sections@[k].data.len() <= usize::MAX);
                lemma_scan_offsets_in_range(sec.data, pattern@, 0);
            }
            assert(forall|p: int| 0 <= p < res@.len() ==> #[trigger] res@[p] + base
                <= usize::MAX);
        }
        let m = res.len();
        let mut j: usize = 0;
        while j < m
            invariant
                j <= m,
                m == res@.len(),
                shifted == spec_shift(res@, base as int),
                forall|p: int| 0 <= p < m ==> #[trigger] res@[p] + base <= usize::MAX,
                out@ == out_old + shifted.take(j as int),
            decreases m - j,
        {
            out.push(res[j].wrapping_add(base));
            j = j + 1;
            proof {
                assert(out_old + shifted.take(j - 1) + seq![shifted[j - 1]] =~= out_old
                    + shifted.take(j as int));
            }
        }
        s = s + 1;
        proof {
            assert(shifted.take(m as int) =~= shifted);
            assert(name@ == spec_section_name_of(sections@[s - 1]));
            assert(out@ + spec_scan_all_from(sections@, pattern@, s as int) =~= spec_scan_all(
                sections@,
                pattern@,
            ));
        }
    }
    proof {
        assert(spec_scan_all_from(sections@, pattern@, n as int) =~= Seq::<usize>::empty());
        assert(out@ + Seq::<usize>::empty() =~= out@);
    }
    out
}

/// Law: the scanner is sound and complete. An offset is reported exactly when
/// its window fits in the section and every signature token matches there;
/// overlapping occurrences are therefore all reported, an all-literal
/// signature is found wherever its bytes occur verbatim, and an all-wildcard
/// signature of length `k` matches every offset up to the length minus `k`.
pub proof fn lemma_scan_characterization(data: Seq<u8>, tokens: Seq<PatToken>, i: usize)
    requires
        data.len() <= usize::MAX,
    ensures
        spec_scan(data, tokens, 0).contains(i) <==> (i < data.len() && pat_matches_at(
            data,
            tokens,
            i as int,
        )),
{
    lemma_scan_characterization_from(data, tokens, 0, i);
}

proof fn lemma_scan_characterization_from(data: Seq<u8>, tokens: Seq<PatToken>, from: int, i: usize)
    requires
        0 <= from,
        data.len() <= usize::MAX,
    ensures
        spec_scan(data, tokens, from).contains(i) <==> (from <= i < data.len() && pat_matches_at(
            data,
            tokens,
            i as int,
        )),
    decreases data.len() - from,
{
    if from < data.len() {
        lemma_scan_characterization_from(data, tokens, from + 1, i);
        let rest = spec_scan(data, tokens, from + 1);
        if pat_matches_at(data, tokens, from) {
            let whole = seq![from as usize] + rest;
            assert forall|v: usize| whole.contains(v) implies (v == from || rest.contains(v)) by {
                let p = choose|p: int| 0 <= p < whole.len() && whole[p] == v;
                if p > 0 {
                    assert(rest[p - 1] == v);
                }
            }
            assert(whole[0] == from as usize);
            if rest.contains(i) {
                let p = choose|p: int| 0 <= p < rest.len() && rest[p] == i;
                assert(whole[p + 1] == i);
            }
        }
    }
}

} // verus!
