//! The on-disk version cache format: one slot holding a version string (8-bit
//! length prefix), a 16-bit flag count, and that many flag records. Reading
//! for another version is a cache miss, never an error; a write always
//! replaces the whole slot.

use vstd::bytes::*;
use vstd::prelude::*;
use vstd::utf8::*;

verus! {

use crate::DumpError;
use crate::fastvar::FastVar;
use crate::fastvar::FastVarView;
use crate::fastvar::lemma_fastvar_round_trip;
use crate::fastvar::spec_fastvar_write_ok;
use crate::fastvar::spec_read_fastvar;
use crate::fastvar::spec_write_fastvar;
use crate::registry::Registry;
use crate::registry::spec_registry_from_seq;
use crate::registry::lemma_registry_from_seq_identity;
use crate::registry::registry_wf;
use crate::stream::NetworkStream;
use crate::stream::Serialize;
use crate::stream::lemma_string_le_round_trip;
use crate::stream::spec_read_string_le;
use crate::stream::spec_string_fits;
use crate::stream::spec_write_string_le;

/// The version tag used when the caller pins none.
pub fn default_version() -> (r: String)
    ensures
        r@ == "latest"@,
{
    String::from_str("latest")
}

/// The flag records, back to back.
pub open spec fn spec_write_registry(s: Seq<FastVarView>) -> Seq<u8>
    decreases s.len(),
{
    if s.len() == 0 {
        Seq::<u8>::empty()
    } else {
        spec_write_fastvar(s[0]) + spec_write_registry(s.drop_first())
    }
}

/// Whether a cache slot for this version and flag set can be written: the
/// version fits its 8-bit prefix, the count fits 16 bits, and every flag's
/// strings fit their prefixes.
pub open spec fn spec_cache_write_ok(version: Seq<char>, s: Seq<FastVarView>) -> bool {
    &&& spec_string_fits::<u8>(version)
    &&& s.len() <= u16::MAX
    &&& forall|i: int| 0 <= i < s.len() ==> spec_fastvar_write_ok(#[trigger] s[i])
}

/// The whole cache slot: version, count, records.
pub open spec fn spec_cache_bytes(version: Seq<char>, s: Seq<FastVarView>) -> Seq<u8> {
    spec_write_string_le::<u8>(version) + spec_u16_to_le_bytes(s.len() as u16)
        + spec_write_registry(s)
}

/// Decode `count` flag records from the front of `data`.
pub open spec fn spec_read_flags(data: Seq<u8>, count: int) -> Result<
    (Seq<FastVarView>, int),
    DumpError,
>
    decreases count,
{
    if count <= 0 {
        Ok((Seq::<FastVarView>::empty(), 0))
    } else {
        match spec_read_fastvar(data) {
            Err(e) => Err(e),
            Ok((v, n)) => match spec_read_flags(data.skip(n), count - 1) {
                Err(e) => Err(e),
                Ok((vs, m)) => Ok((seq![v] + vs, n + m)),
            },
        }
    }
}

/// Decode a cache slot for a requested version. An empty slot or a version
/// mismatch is `None` (no cache); only a malformed slot is an error.
pub open spec fn spec_read_cache(data: Seq<u8>, version: Seq<char>) -> Result<
    Option<Seq<FastVarView>>,
    DumpError,
> {
    if data.len() == 0 {
        Ok(None)
    } else {
        match spec_read_string_le::<u8>(data) {
            Err(e) => Err(e),
            Ok((cached, n)) => {
                if cached != version {
                    Ok(None)
                } else {
                    let d = data.skip(n);
                    if d.len() < 2 {
                        Err(DumpError::OutOfBounds)
                    } else {
                        match spec_read_flags(d.skip(2), spec_u16_from_le_bytes(d.take(2)) as int) {
                            Err(e) => Err(e),
                            Ok((vs, _)) => Ok(Some(vs)),
                        }
                    }
                }
            },
        }
    }
}

/// Serialize the registry for one version into the bytes of a cache slot.
/// The slot is always rewritten whole: the result depends on nothing but the
/// version and the flags handed in.
pub fn write_flags_to_cache(version: &String, flags: &Registry) -> (r: Result<Vec<u8>, DumpError>)
    ensures
        spec_cache_write_ok(version@, flags@) ==> (r matches Ok(b) && b@ == spec_cache_bytes(
            version@,
            flags@,
        )),
        !spec_cache_write_ok(version@, flags@) ==> r == Err::<Vec<u8>, DumpError>(
            DumpError::LengthOverflow,
        ),
{
    let mut stream = NetworkStream::new();
    match stream.write_string_le::<u8>(version.as_str()) {
        Ok(_) => {},
        Err(e) => {
            return Err(DumpError::LengthOverflow);
        },
    }
    let count = flags.len();
    if count > u16::MAX as usize {
        return Err(DumpError::LengthOverflow);
    }
    stream.write_le::<u16>(count as u16);
    let ghost base = stream.data@;
    let mut i: usize = 0;
    while i < count
        invariant
            i <= count,
            count == flags@.len(),
            stream.data@ == base + spec_write_registry(flags@.take(i as int)),
            forall|k: int| 0 <= k < i ==> spec_fastvar_write_ok(#[trigger] flags@[k]),
        decreases count - i,
    {
        let mut flag = flags.index(i).clone();
        match stream.write(&mut flag) {
            Ok(_) => {},
            Err(_) => {
                return Err(DumpError::LengthOverflow);
            },
        }
        i = i + 1;
        proof {
            lemma_write_registry_snoc(flags@.take(i - 1), flags@[i - 1]);
            assert(flags@.take(i - 1) + seq![flags@[i - 1]] =~= flags@.take(i as int));
        }
    }
    proof {
        assert(flags@.take(count as int) =~= flags@);
        assert(stream.data@ =~= spec_cache_bytes(version@, flags@));
    }
    Ok(stream.data)
}

/// Appending one record to the records of a sequence.
proof fn lemma_write_registry_snoc(s: Seq<FastVarView>, v: FastVarView)
    ensures
        spec_write_registry(s + seq![v]) == spec_write_registry(s) + spec_write_fastvar(v),
    decreases s.len(),
{
    if s.len() == 0 {
        assert(s + seq![v] =~= seq![v]);
        assert(seq![v].drop_first() =~= Seq::<FastVarView>::empty());
        assert(spec_write_registry(seq![v].drop_first()) == Seq::<u8>::empty());
        assert(spec_write_registry(seq![v]) =~= spec_write_fastvar(v));
        assert(spec_write_registry(s + seq![v]) =~= spec_write_registry(s) + spec_write_fastvar(v));
    } else {
        assert((s + seq![v]).drop_first() =~= s.drop_first() + seq![v]);
        lemma_write_registry_snoc(s.drop_first(), v);
        assert(spec_write_registry(s + seq![v]) =~= spec_write_registry(s) + spec_write_fastvar(v));
    }
}

/// Decode a cache slot previously read from disk. `Ok(None)` is "no cache":
/// the slot is empty, or it belongs to another version (stale). The returned
/// registry holds the decoded records, a later record replacing an earlier
/// one of the same name.
#[verifier::rlimit(60)]
pub fn get_fflags_if_version_cached(version: &String, cache_bytes: Vec<u8>) -> (r: Result<
    Option<Registry>,
    DumpError,
>)
    ensures
        (match spec_read_cache(cache_bytes@, version@) {
            Ok(Some(entries)) => r matches Ok(o) && o matches Some(reg) && reg@
                == spec_registry_from_seq(entries),
            Ok(None) => r matches Ok(o) && o is None,
            Err(e) => r matches Err(g) && g == e,
        }),
{
    if cache_bytes.len() == 0 {
        return Ok(None);
    }
    let mut stream = NetworkStream::from(cache_bytes);
    proof {
        assert(stream.remaining() =~= stream.data@);
    }
    let cached_version = match stream.read_string_le::<u8>() {
        Ok(s) => s,
        Err(e) => {
            return Err(e);
        },
    };
    if !cached_version.eq(version) {
        return Ok(None);
    }
    let ghost rem1 = stream.remaining();
    proof {
        assert(rem1 =~= stream.data@.skip(stream.read_pointer as int));
    }
    let count = match stream.read_le::<u16>() {
        Ok(c) => c,
        Err(e) => {
            proof {
                assert(rem1.len() < 2);
            }
            return Err(e);
        },
    };
    proof {
        assert(stream.data@.subrange(
            stream.read_pointer - 2,
            stream.read_pointer as int,
        ) =~= rem1.take(2));
        assert(stream.remaining() =~= rem1.skip(2));
    }
    let ghost rem2 = stream.remaining();
    let mut reg = Registry::new();
    let ghost decoded = Seq::<FastVarView>::empty();
    let mut k: u16 = 0;
    proof {
        if spec_read_flags(rem2, count as int) is Ok {
            let (vs0, m0) = spec_read_flags(rem2, count as int)->Ok_0;
            assert(decoded + vs0 =~= vs0);
        }
        assert(spec_registry_from_seq(decoded) =~= Seq::<FastVarView>::empty());
        assert(reg@ =~= Seq::<FastVarView>::empty());
    }
    #[verifier::loop_isolation(false)]
    while k < count
        invariant
            k <= count,
            stream.data@ == cache_bytes@,
            reg@ == spec_registry_from_seq(decoded),
            (match spec_read_flags(stream.remaining(), count - k) {
                Ok((vs, m)) => spec_read_flags(rem2, count as int) == Ok::<
                    (Seq<FastVarView>, int),
                    DumpError,
                >((decoded + vs, stream.read_pointer - (cache_bytes@.len() - rem2.len()) + m)),
                Err(e) => spec_read_flags(rem2, count as int) == Err::<
                    (Seq<FastVarView>, int),
                    DumpError,
                >(e),
            }),
        decreases count - k,
    {
        let ghost rem_here = stream.remaining();
        let ghost decoded_old = decoded;
        let flag = match FastVar::read(&mut stream) {
            Ok(f) => f,
            Err(e) => {
                return Err(e);
            },
        };
        proof {
            decoded = decoded + seq![flag@];
            let n = stream.read_pointer - (cache_bytes@.len() - rem_here.len());
            assert(stream.remaining() =~= rem_here.skip(n));
            if spec_read_flags(stream.remaining(), count - k - 1) is Ok {
                let (vs2, m2) = spec_read_flags(stream.remaining(), count - k - 1)->Ok_0;
                assert(decoded_old + (seq![flag@] + vs2) =~= decoded + vs2);
            }
        }
        reg.insert(flag);
        k = k + 1;
        proof {
            assert(decoded.drop_last() =~= decoded_old);
            assert(decoded.last() == flag@);
        }
    }
    proof {
        assert(spec_read_flags(stream.remaining(), 0) == Ok::<(Seq<FastVarView>, int), DumpError>(
            (Seq::<FastVarView>::empty(), 0),
        ));
        assert(decoded + Seq::<FastVarView>::empty() =~= decoded);
    }
    Ok(Some(reg))
}

/// Law: cache idempotence. Writing a registry for a version and decoding for
/// the same version yields an equal registry; decoding for any other version
/// is "no cache".
pub proof fn lemma_cache_round_trip(version: Seq<char>, s: Seq<FastVarView>, other: Seq<char>)
    requires
        spec_cache_write_ok(version, s),
        registry_wf(s),
    ensures
        spec_read_cache(spec_cache_bytes(version, s), version) == Ok::<
            Option<Seq<FastVarView>>,
            DumpError,
        >(Some(s)),
        spec_registry_from_seq(s) == s,
        other != version ==> spec_read_cache(spec_cache_bytes(version, s), other) == Ok::<
            Option<Seq<FastVarView>>,
            DumpError,
        >(None),
{
    broadcast use encode_utf8_valid_utf8;

    lemma_auto_spec_u16_to_from_le_bytes();
    let data = spec_cache_bytes(version, s);
    let tail = spec_u16_to_le_bytes(s.len() as u16) + spec_write_registry(s);
    assert(data =~= spec_write_string_le::<u8>(version) + tail);
    assert(data.len() != 0);
    lemma_string_le_round_trip::<u8>(version, tail);
    let n = spec_write_string_le::<u8>(version).len() as int;
    assert(data.skip(n) =~= tail);
    assert(tail.take(2) =~= spec_u16_to_le_bytes(s.len() as u16));
    assert(tail.skip(2) =~= spec_write_registry(s));
    lemma_flags_round_trip(s);
    lemma_registry_from_seq_identity(s);
}

/// Law: cache truncation. A write replaces the slot whole — its bytes are a
/// function of the new version and flags alone — so decoding the new slot for
/// any older version leaves no trace: it is "no cache".
pub proof fn lemma_cache_truncation(
    new_version: Seq<char>,
    new_flags: Seq<FastVarView>,
    old_version: Seq<char>,
)
    requires
        spec_cache_write_ok(new_version, new_flags),
        registry_wf(new_flags),
        old_version != new_version,
    ensures
        spec_read_cache(spec_cache_bytes(new_version, new_flags), old_version) == Ok::<
            Option<Seq<FastVarView>>,
            DumpError,
        >(None),
{
    lemma_cache_round_trip(new_version, new_flags, old_version);
}

/// Back-to-back records decode back to the sequence they were written from.
proof fn lemma_flags_round_trip(s: Seq<FastVarView>)
    requires
        forall|i: int| 0 <= i < s.len() ==> spec_fastvar_write_ok(#[trigger] s[i]),
    ensures
        spec_read_flags(spec_write_registry(s), s.len() as int) == Ok::<
            (Seq<FastVarView>, int),
            DumpError,
        >((s, spec_write_registry(s).len() as int)),
    decreases s.len(),
{
    if s.len() == 0 {
        assert(spec_read_flags(spec_write_registry(s), 0) == Ok::<
            (Seq<FastVarView>, int),
            DumpError,
        >((Seq::<FastVarView>::empty(), 0)));
        assert(s =~= Seq::<FastVarView>::empty());
    } else {
        let rest = spec_write_registry(s.drop_first());
        lemma_fastvar_round_trip(s[0], rest);
        let n = spec_write_fastvar(s[0]).len() as int;
        assert(spec_write_registry(s).skip(n) =~= rest);
        lemma_flags_round_trip(s.drop_first());
        assert(seq![s[0]] + s.drop_first() =~= s);
    }
}

} // verus!