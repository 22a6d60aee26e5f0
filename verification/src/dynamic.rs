//! Dynamic settings decoder: turns the flat key/value text payload of the
//! remote configuration endpoint into the same flag model the binary decoder
//! produces. Keys carry the flag's kind as naming-convention words; values
//! are plain text, truncated at the first `;`.

use vstd::prelude::*;
use vstd::string::StrSliceExecFns;

verus! {

use crate::fastvar::FastVar;
use crate::fastvar::FastVarType;
use crate::fastvar::FastVarValue;
use crate::fastvar::FastVarValueType;
use crate::fastvar::FastVarValueView;
use crate::fastvar::FastVarView;
use crate::registry::Registry;
use crate::registry::spec_insert;

/// The flat key → value text mapping a settings payload carries.
pub struct ClientSettings {
    pub application_settings: Vec<(String, String)>,
}

impl View for ClientSettings {
    type V = Seq<(Seq<char>, Seq<char>)>;

    open spec fn view(&self) -> Seq<(Seq<char>, Seq<char>)> {
        Seq::new(
            self.application_settings@.len(),
            |i: int| (self.application_settings@[i].0@, self.application_settings@[i].1@),
        )
    }
}

/// An uppercase letter starts a new key word.
pub open spec fn is_upper(c: char) -> bool {
    'A' <= c <= 'Z'
}

/// The first index at or after `i` holding an uppercase letter, or the end.
pub open spec fn spec_next_upper(s: Seq<char>, i: int) -> int
    decreases s.len() - i,
{
    if i < 0 || i >= s.len() {
        s.len() as int
    } else if is_upper(s[i]) {
        i
    } else {
        spec_next_upper(s, i + 1)
    }
}

/// The accumulated value of a run of decimal digits, or nothing when any
/// character is not a digit (the empty run keeps the accumulator).
pub open spec fn spec_digits_acc(s: Seq<char>, acc: int) -> Option<int>
    decreases s.len(),
{
    if s.len() == 0 {
        Some(acc)
    } else if '0' <= s[0] <= '9' {
        spec_digits_acc(s.drop_first(), acc * 10 + (s[0] as int - 48))
    } else {
        None
    }
}

/// The value of a base-10 signed integer literal: an optional sign, then one
/// or more digits, within the 32-bit signed range.
pub open spec fn spec_parse_int(s: Seq<char>) -> Option<i32> {
    if s.len() == 0 {
        None
    } else if s[0] == '-' {
        if s.len() == 1 {
            None
        } else {
            match spec_digits_acc(s.skip(1), 0) {
                Some(v) => if v <= 0x8000_0000 {
                    Some((-v) as i32)
                } else {
                    None
                },
                None => None,
            }
        }
    } else if s[0] == '+' {
        if s.len() == 1 {
            None
        } else {
            match spec_digits_acc(s.skip(1), 0) {
                Some(v) => if v <= i32::MAX {
                    Some(v as i32)
                } else {
                    None
                },
                None => None,
            }
        }
    } else {
        match spec_digits_acc(s, 0) {
            Some(v) => if v <= i32::MAX {
                Some(v as i32)
            } else {
                None
            },
            None => None,
        }
    }
}

/// Digits only grow the accumulator.
proof fn lemma_digits_acc_lower(s: Seq<char>, acc: int)
    requires
        acc >= 0,
    ensures
        (match spec_digits_acc(s, acc) {
            Some(v) => v >= acc,
            None => true,
        }),
    decreases s.len(),
{
    if s.len() != 0 && '0' <= s[0] <= '9' {
        lemma_digits_acc_lower(s.drop_first(), acc * 10 + (s[0] as int - 48));
    }
}

/// Outcome of scanning a digit run.
enum DigitScan {
    Exact(u64),
    TooBig,
    Bad,
}

/// Scan the digits of `s` from index `from` on.
fn parse_digits(s: &str, from: usize) -> (r: DigitScan)
    requires
        from <= s@.len(),
        s@.len() <= usize::MAX,
    ensures
        (match r {
            DigitScan::Exact(got) => spec_digits_acc(s@.skip(from as int), 0) == Some(got as int)
                && got <= 0x8000_0000u64,
            DigitScan::Bad => spec_digits_acc(s@.skip(from as int), 0) is None,
            DigitScan::TooBig => !(match spec_digits_acc(s@.skip(from as int), 0) {
                Some(v) => v <= 0x8000_0000,
                None => false,
            }),
        }),
{
    let n = s.unicode_len();
    let mut acc: u64 = 0;
    let mut i: usize = from;
    #[verifier::loop_isolation(false)]
    while i < n
        invariant
            from <= i <= n,
            n == s@.len(),
            acc <= 0x8000_0000u64,
            spec_digits_acc(s@.skip(from as int), 0) == spec_digits_acc(
                s@.skip(i as int),
                acc as int,
            ),
        decreases n - i,
    {
        let c = s.get_char(i);
        if !('0' <= c && c <= '9') {
            return DigitScan::Bad;
        }
        let d = (c as u32) - 48;
        let next: u64 = acc * 10 + d as u64;
        proof {
            assert(s@.skip(i as int)[0] == s@[i as int]);
            assert(s@.skip(i as int).drop_first() =~= s@.skip(i + 1));
        }
        if next > 0x8000_0000u64 {
            proof {
                lemma_digits_acc_lower(s@.skip(i + 1), next as int);
            }
            return DigitScan::TooBig;
        }
        acc = next;
        i = i + 1;
    }
    proof {
        assert(s@.skip(n as int).len() == 0);
    }
    DigitScan::Exact(acc)
}

/// Parse a base-10 signed 32-bit integer literal.
pub fn parse_int_text(s: &str) -> (r: Option<i32>)
    requires
        s@.len() <= usize::MAX,
    ensures
        r == spec_parse_int(s@),
{
    let n = s.unicode_len();
    if n == 0 {
        return None;
    }
    let first = s.get_char(0);
    if first == '-' {
        if n == 1 {
            return None;
        }
        proof {
            assert(s@.skip(1).len() > 0);
        }
        match parse_digits(s, 1) {
            DigitScan::Exact(v) => Some((-(v as i64)) as i32),
            DigitScan::TooBig => None,
            DigitScan::Bad => None,
        }
    } else if first == '+' {
        if n == 1 {
            return None;
        }
        match parse_digits(s, 1) {
            DigitScan::Exact(v) => {
                if v <= i32::MAX as u64 {
                    Some(v as i32)
                } else {
                    None
                }
            },
            DigitScan::TooBig => None,
            DigitScan::Bad => None,
        }
    } else {
        proof {
            assert(s@.skip(0) =~= s@);
        }
        match parse_digits(s, 0) {
            DigitScan::Exact(v) => {
                if v <= i32::MAX as u64 {
                    Some(v as i32)
                } else {
                    None
                }
            },
            DigitScan::TooBig => None,
            DigitScan::Bad => None,
        }
    }
}

/// The first index holding `;`, or the end.
pub open spec fn spec_find_semi(s: Seq<char>, i: int) -> int
    decreases s.len() - i,
{
    if i < 0 || i >= s.len() {
        s.len() as int
    } else if s[i] == ';' {
        i
    } else {
        spec_find_semi(s, i + 1)
    }
}

/// A value truncated at its first `;`.
pub open spec fn spec_truncate_value(s: Seq<char>) -> Seq<char> {
    s.take(spec_find_semi(s, 0))
}

/// The value-type tag a tag word names; anything unknown is `Invalid`.
pub open spec fn spec_tag_of_word(w: Seq<char>) -> FastVarValueType {
    if w == "String"@ {
        FastVarValueType::String
    } else if w == "Flag"@ {
        FastVarValueType::Flag
    } else if w == "Int"@ {
        FastVarValueType::Int
    } else if w == "Log"@ {
        FastVarValueType::Log
    } else {
        FastVarValueType::Invalid
    }
}

/// The value a dynamic setting's text decodes to under a tag: text verbatim
/// for `String` and `Log`, `true` exactly on the text `True` for `Flag`, a
/// base-10 signed integer for `Int` — tolerated as `Uninit` when the text is
/// not a number — and `Invalid` for an unknown tag.
pub open spec fn spec_dynamic_value(tag: FastVarValueType, text: Seq<char>) -> FastVarValueView {
    match tag {
        FastVarValueType::String => FastVarValueView::String(text),
        FastVarValueType::Log => FastVarValueView::Log(text),
        FastVarValueType::Flag => FastVarValueView::Flag(text == "True"@),
        FastVarValueType::Int => match spec_parse_int(text) {
            Some(v) => FastVarValueView::Int(v),
            None => FastVarValueView::Uninit,
        },
        _ => FastVarValueView::Invalid,
    }
}

/// What one key/value pair decodes to. The key splits into words at
/// uppercase-letter boundaries; a key whose first word is not `D`- or
/// `F`-prefixed is ignored. The tag is the second word — the third for
/// `D`-prefixed keys — and the remaining words, concatenated, form the name.
/// The classification is always `Dynamic`.
pub open spec fn spec_decode_setting(key: Seq<char>, value: Seq<char>) -> Option<FastVarView> {
    if key.len() == 0 || !(key[0] == 'D' || key[0] == 'F') {
        None
    } else {
        let b1 = spec_next_upper(key, 1);
        let b2 = spec_next_upper(key, b1 + 1);
        let tag_end = if key[0] == 'D' {
            spec_next_upper(key, b2 + 1)
        } else {
            b2
        };
        let tag_start = if key[0] == 'D' {
            b2
        } else {
            b1
        };
        let tag = spec_tag_of_word(key.subrange(tag_start, tag_end));
        let text = spec_truncate_value(value);
        Some(
            FastVarView {
                name: key.subrange(tag_end, key.len() as int),
                var_type: FastVarType::Dynamic,
                value_type: tag,
                value: spec_dynamic_value(tag, text),
            },
        )
    }
}

/// The registry a settings payload decodes to, pairs in order, a later key
/// replacing an earlier equal name.
pub open spec fn spec_decode_settings(pairs: Seq<(Seq<char>, Seq<char>)>) -> Seq<FastVarView>
    decreases pairs.len(),
{
    if pairs.len() == 0 {
        Seq::<FastVarView>::empty()
    } else {
        let prefix = spec_decode_settings(pairs.drop_last());
        match spec_decode_setting(pairs.last().0, pairs.last().1) {
            Some(v) => spec_insert(prefix, v),
            None => prefix,
        }
    }
}

/// The next-word search never goes backwards past its start.
proof fn lemma_next_upper_range(s: Seq<char>, from: int)
    ensures
        spec_next_upper(s, from) <= s.len(),
        from <= s.len() ==> from <= spec_next_upper(s, from),
    decreases s.len() - from,
{
    if 0 <= from < s.len() && !is_upper(s[from]) {
        lemma_next_upper_range(s, from + 1);
    }
}

/// The first uppercase letter at or after `from`.
fn next_upper(s: &str, from: usize) -> (r: usize)
    requires
        s@.len() <= usize::MAX,
    ensures
        r == spec_next_upper(s@, from as int),
        r <= s@.len(),
{
    let n = s.unicode_len();
    if from > n {
        proof {
            assert(spec_next_upper(s@, from as int) == s@.len());
        }
        return n;
    }
    let mut i: usize = from;
    #[verifier::loop_isolation(false)]
    while i < n
        invariant
            from <= i <= n,
            spec_next_upper(s@, from as int) == spec_next_upper(s@, i as int),
        decreases n - i,
    {
        let c = s.get_char(i);
        if 'A' <= c && c <= 'Z' {
            return i;
        }
        i = i + 1;
    }
    n
}

/// Decode one key/value pair (see `spec_decode_setting`).
pub fn decode_dynamic_setting(key: &str, value: &str) -> (r: Option<FastVar>)
    requires
        key@.len() < usize::MAX,
        value@.len() <= usize::MAX,
    ensures
        (match spec_decode_setting(key@, value@) {
            Some(v) => r matches Some(f) && f@ == v,
            None => r is None,
        }),
{
    let n = key.unicode_len();
    if n == 0 {
        return None;
    }
    let first = key.get_char(0);
    if !(first == 'D' || first == 'F') {
        return None;
    }
    let b1 = next_upper(key, 1);
    proof {
        lemma_next_upper_range(key@, b1 + 1);
    }
    let b2 = next_upper(key, b1 + 1);
    let (tag_start, tag_end) = if first == 'D' {
        proof {
            lemma_next_upper_range(key@, b2 + 1);
        }
        (b2, next_upper(key, b2 + 1))
    } else {
        (b1, b2)
    };
    let tag_word = key.substring_char(tag_start, tag_end);
    let tag = tag_of_word(tag_word);
    let name = String::from_str(key.substring_char(tag_end, n));
    let vlen = value.unicode_len();
    let mut semi: usize = vlen;
    let mut i: usize = 0;
    #[verifier::loop_isolation(false)]
    while i < vlen
        invariant
            i <= vlen,
            vlen == value@.len(),
            semi == vlen,
            spec_find_semi(value@, 0) == spec_find_semi(value@, i as int),
        decreases vlen - i,
    {
        let c = value.get_char(i);
        if c == ';' {
            semi = i;
            break ;
        }
        i = i + 1;
    }
    proof {
        if i < vlen {
            assert(spec_find_semi(value@, i as int) == i);
        }
        assert(semi == spec_find_semi(value@, 0));
    }
    let text = String::from_str(value.substring_char(0, semi));
    let val = match tag {
        FastVarValueType::String => FastVarValue::String(text),
        FastVarValueType::Log => FastVarValue::Log(text),
        FastVarValueType::Flag => {
            let truth = String::from_str("True");
            FastVarValue::Flag(text.eq(&truth))
        },
        FastVarValueType::Int => {
            match parse_int_text(text.as_str()) {
                Some(v) => FastVarValue::Int(v),
                None => FastVarValue::Uninit,
            }
        },
        _ => FastVarValue::Invalid,
    };
    Some(FastVar { name, var_type: FastVarType::Dynamic, value_type: tag, value: val })
}

/// The tag a tag word names.
fn tag_of_word(w: &str) -> (r: FastVarValueType)
    ensures
        r == spec_tag_of_word(w@),
{
    let word = String::from_str(w);
    if word.eq(&String::from_str("String")) {
        FastVarValueType::String
    } else if word.eq(&String::from_str("Flag")) {
        FastVarValueType::Flag
    } else if word.eq(&String::from_str("Int")) {
        FastVarValueType::Int
    } else if word.eq(&String::from_str("Log")) {
        FastVarValueType::Log
    } else {
        FastVarValueType::Invalid
    }
}

/// Decode a whole settings payload into a registry; ignored keys leave no
/// entry, and a later pair replaces an earlier one of the same name.
pub fn decode_dynamic_settings(settings: &ClientSettings) -> (r: Registry)
    requires
        forall|i: int|
            0 <= i < settings@.len() ==> (#[trigger] settings@[i]).0.len() < usize::MAX
                && settings@[i].1.len() <= usize::MAX,
    ensures
        r@ == spec_decode_settings(settings@),
{
    let mut reg = Registry::new();
    let n = settings.application_settings.len();
    let mut k: usize = 0;
    proof {
        assert(settings@.take(0) =~= Seq::<(Seq<char>, Seq<char>)>::empty());
    }
    #[verifier::loop_isolation(false)]
    while k < n
        invariant
            k <= n,
            n == settings@.len(),
            reg@ == spec_decode_settings(settings@.take(k as int)),
        decreases n - k,
    {
        let pair = &settings.application_settings[k];
        proof {
            assert(settings@[k as int].0 == pair.0@);
        }
        match decode_dynamic_setting(pair.0.as_str(), pair.1.as_str()) {
            Some(flag) => {
                reg.insert(flag);
            },
            None => {},
        }
        k = k + 1;
        proof {
            assert(settings@.take(k as int).drop_last() =~= settings@.take(k - 1));
            assert(settings@.take(k as int).last() == settings@[k - 1]);
        }
    }
    proof {
        assert(settings@.take(n as int) =~= settings@);
    }
    reg
}

} // verus!