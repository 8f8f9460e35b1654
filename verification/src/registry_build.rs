//! Building the embedded registry from a PROJ database: method and format
//! codes, the byte encodings the writer uses, the normalized digest payload
//! of the source database, and the generator's command line.

use vstd::prelude::*;
use vstd::string::StringSliceAdditionalSpecFns;
use crate::registry_format::{
    le_u16, le_u64, METHOD_ALBERS, METHOD_EQUIDISTANT_CYL, METHOD_LCC, METHOD_MERCATOR,
    METHOD_POLAR_STEREO, METHOD_TRANSVERSE_MERCATOR, METHOD_WEB_MERCATOR, OP_CONCATENATED,
    OP_GRID_SHIFT, OP_HELMERT,
};
use crate::text::{
    append_decimal, append_str, ascii_lower, chars_of, decimal, parse_u32, parse_u32_spec,
    push_char, same_text, str_trim, trim,
};

verus! {

pub const METHOD_LAEA: u8 = 8;
pub const METHOD_OBLIQUE_STEREO: u8 = 9;
pub const METHOD_HOTINE_OBLIQUE_MERCATOR_A: u8 = 10;
pub const METHOD_HOTINE_OBLIQUE_MERCATOR_B: u8 = 11;
pub const METHOD_CASSINI_SOLDNER: u8 = 12;
pub const METHOD_LAEA_SPHERICAL: u8 = 13;

pub const BUILD_GRID_FORMAT_NTV2: u8 = 1;
pub const BUILD_GRID_FORMAT_GTX: u8 = 2;
pub const BUILD_GRID_FORMAT_UNSUPPORTED: u8 = 255;

/// The bits the writer stores for an absent floating-point value: the
/// canonical quiet NaN.
pub const CANONICAL_NAN_BITS: u64 = 0x7ff8_0000_0000_0000;

/// The registry method id for an EPSG conversion method code.
pub open spec fn method_code_to_id_spec(code: i64) -> Option<u8> {
    if code == 9807 {
        Some(METHOD_TRANSVERSE_MERCATOR)
    } else if code == 9804 || code == 9805 {
        Some(METHOD_MERCATOR)
    } else if code == 9801 || code == 9802 {
        Some(METHOD_LCC)
    } else if code == 9822 {
        Some(METHOD_ALBERS)
    } else if code == 9810 || code == 9829 {
        Some(METHOD_POLAR_STEREO)
    } else if code == 1028 || code == 1029 || code == 9823 || code == 9842 {
        Some(METHOD_EQUIDISTANT_CYL)
    } else if code == 9820 {
        Some(METHOD_LAEA)
    } else if code == 1027 {
        Some(METHOD_LAEA_SPHERICAL)
    } else if code == 9809 {
        Some(METHOD_OBLIQUE_STEREO)
    } else if code == 9812 {
        Some(METHOD_HOTINE_OBLIQUE_MERCATOR_A)
    } else if code == 9815 {
        Some(METHOD_HOTINE_OBLIQUE_MERCATOR_B)
    } else if code == 9806 {
        Some(METHOD_CASSINI_SOLDNER)
    } else if code == 1024 {
        Some(METHOD_WEB_MERCATOR)
    } else {
        None
    }
}

/// Maps an EPSG conversion method code to the registry's method id; none
/// for an unsupported method.
pub fn method_code_to_id(code: i64) -> (r: Option<u8>)
    ensures
        r == method_code_to_id_spec(code),
{
    match code {
        9807 => Some(METHOD_TRANSVERSE_MERCATOR),
        9804 | 9805 => Some(METHOD_MERCATOR),
        9801 | 9802 => Some(METHOD_LCC),
        9822 => Some(METHOD_ALBERS),
        9810 | 9829 => Some(METHOD_POLAR_STEREO),
        1028 | 1029 | 9823 | 9842 => Some(METHOD_EQUIDISTANT_CYL),
        9820 => Some(METHOD_LAEA),
        1027 => Some(METHOD_LAEA_SPHERICAL),
        9809 => Some(METHOD_OBLIQUE_STEREO),
        9812 => Some(METHOD_HOTINE_OBLIQUE_MERCATOR_A),
        9815 => Some(METHOD_HOTINE_OBLIQUE_MERCATOR_B),
        9806 => Some(METHOD_CASSINI_SOLDNER),
        1024 => Some(METHOD_WEB_MERCATOR),
        _ => None,
    }
}

/// Parses a code column: the trimmed text as a decimal `u32`.
pub fn parse_u32_code(text: &str) -> (r: Option<u32>)
    ensures
        r == parse_u32_spec(str_trim(text@)),
{
    let t = trim(text);
    parse_u32(t.as_str())
}

/// `s` with ASCII letters folded to lower case.
pub open spec fn ascii_lowercase(s: Seq<char>) -> Seq<char> {
    s.map_values(|c: char| ascii_lower(c))
}

/// Whether `pat` occurs in `s`.
pub open spec fn contains_text(s: Seq<char>, pat: Seq<char>) -> bool {
    exists|i: int| 0 <= i <= s.len() - pat.len() && #[trigger] s.subrange(i, i + pat.len()) == pat
}

fn lowercase_chars(s: &str) -> (r: Vec<char>)
    ensures
        r@ == ascii_lowercase(s@),
{
    let cs = chars_of(s);
    let mut out: Vec<char> = Vec::new();
    let mut i: usize = 0;
    while i < cs.len()
        invariant
            i <= cs@.len(),
            cs@ == s@,
            out@ == ascii_lowercase(s@.take(i as int)),
        decreases cs.len() - i,
    {
        let c = cs[i];
        let l = if 'A' <= c && c <= 'Z' {
            let b: u8 = ((c as u32) + 32) as u8;
            b as char
        } else {
            c
        };
        out.push(l);
        assert(out@ =~= ascii_lowercase(s@.take(i + 1)));
        i = i + 1;
    }
    assert(s@.take(s@.len() as int) =~= s@);
    out
}

pub(crate) fn contains_chars(s: &Vec<char>, pat: &Vec<char>) -> (r: bool)
    ensures
        r == contains_text(s@, pat@),
{
    if pat.len() > s.len() {
        return false;
    }
    if pat.len() == 0 {
        assert(s@.subrange(0int, 0int + pat@.len()) =~= pat@);
        return true;
    }
    let n = s.len();
    let last = s.len() - pat.len();
    let mut i: usize = 0;
    while i <= last
        invariant
            i <= last + 1,
            n == s@.len(),
            last < n,
            last == s@.len() - pat@.len(),
            forall|k: int| 0 <= k < i ==> #[trigger] s@.subrange(k, k + pat@.len()) != pat@,
        decreases last + 1 - i,
    {
        let mut j: usize = 0;
        let mut same = true;
        while j < pat.len()
            invariant
                j <= pat@.len(),
                i <= last,
                n == s@.len(),
                last == s@.len() - pat@.len(),
                same == (forall|k: int| 0 <= k < j ==> s@[i + k] == pat@[k]),
            decreases pat.len() - j,
        {
            if s[i + j] != pat[j] {
                same = false;
            }
            j = j + 1;
        }
        if same {
            assert(s@.subrange(i as int, i + pat@.len()) =~= pat@);
            return true;
        }
        assert(s@.subrange(i as int, i + pat@.len()) != pat@) by {
            let k = choose|k: int| 0 <= k < j && s@[i + k] != pat@[k];
            assert(s@.subrange(i as int, i + pat@.len())[k] != pat@[k]);
        }
        i = i + 1;
    }
    false
}

/// The grid format code for a PROJ grid transformation method name:
/// `NTv2` exactly, then any name mentioning `(gtx)` in any ASCII case.
pub open spec fn grid_format_from_method_spec(name: Seq<char>) -> u8 {
    if name == "NTv2"@ {
        BUILD_GRID_FORMAT_NTV2
    } else if contains_text(ascii_lowercase(name), "(gtx)"@) {
        BUILD_GRID_FORMAT_GTX
    } else {
        BUILD_GRID_FORMAT_UNSUPPORTED
    }
}

/// Classifies a grid transformation method name.
pub fn grid_format_from_method(method_name: &str) -> (r: u8)
    ensures
        r == grid_format_from_method_spec(method_name@),
{
    if same_text(method_name, "NTv2") {
        return BUILD_GRID_FORMAT_NTV2;
    }
    let lower = lowercase_chars(method_name);
    let pat = chars_of("(gtx)");
    if contains_chars(&lower, &pat) {
        BUILD_GRID_FORMAT_GTX
    } else {
        BUILD_GRID_FORMAT_UNSUPPORTED
    }
}

/// `s` with every `"` doubled.
pub open spec fn double_quotes(s: Seq<char>) -> Seq<char>
    decreases s.len(),
{
    if s.len() == 0 {
        Seq::empty()
    } else if s.last() == '"' {
        double_quotes(s.drop_last()) + seq!['"', '"']
    } else {
        double_quotes(s.drop_last()).push(s.last())
    }
}

/// Quotes an SQL identifier: wraps it in `"` and doubles each `"` inside.
pub fn quote_identifier(value: &str) -> (r: String)
    ensures
        r@ == seq!['"'] + double_quotes(value@) + seq!['"'],
{
    let cs = chars_of(value);
    let mut r = String::new();
    push_char(&mut r, '"');
    let mut i: usize = 0;
    while i < cs.len()
        invariant
            i <= cs@.len(),
            cs@ == value@,
            r@ == seq!['"'] + double_quotes(value@.take(i as int)),
        decreases cs.len() - i,
    {
        let c = cs[i];
        assert(value@.take(i + 1).drop_last() =~= value@.take(i as int));
        if c == '"' {
            push_char(&mut r, '"');
            push_char(&mut r, '"');
        } else {
            push_char(&mut r, c);
        }
        assert(r@ =~= seq!['"'] + double_quotes(value@.take(i + 1)));
        i = i + 1;
    }
    push_char(&mut r, '"');
    assert(value@.take(value@.len() as int) =~= value@);
    r
}

/// The little-endian bytes of a `u16`.
pub open spec fn le_bytes_u16(v: u16) -> Seq<u8> {
    seq![v as u8, (v >> 8u16) as u8]
}

/// The little-endian bytes of a `u64`.
pub open spec fn le_bytes_u64(v: u64) -> Seq<u8> {
    seq![
        v as u8,
        (v >> 8u64) as u8,
        (v >> 16u64) as u8,
        (v >> 24u64) as u8,
        (v >> 32u64) as u8,
        (v >> 40u64) as u8,
        (v >> 48u64) as u8,
        (v >> 56u64) as u8,
    ]
}

fn push_u16_le(buf: &mut Vec<u8>, v: u16)
    ensures
        final(buf)@ == old(buf)@ + le_bytes_u16(v),
{
    buf.push(v as u8);
    buf.push((v >> 8u16) as u8);
    assert(buf@ =~= old(buf)@ + le_bytes_u16(v));
}

/// Appends the little-endian bytes of a `u64`.
pub fn push_u64_le(buf: &mut Vec<u8>, v: u64)
    ensures
        final(buf)@ == old(buf)@ + le_bytes_u64(v),
{
    buf.push(v as u8);
    buf.push((v >> 8u64) as u8);
    buf.push((v >> 16u64) as u8);
    buf.push((v >> 24u64) as u8);
    buf.push((v >> 32u64) as u8);
    buf.push((v >> 40u64) as u8);
    buf.push((v >> 48u64) as u8);
    buf.push((v >> 56u64) as u8);
    assert(buf@ =~= old(buf)@ + le_bytes_u64(v));
}

pub(crate) fn push_bytes(buf: &mut Vec<u8>, bytes: &[u8])
    ensures
        final(buf)@ == old(buf)@ + bytes@,
{
    let mut i: usize = 0;
    while i < bytes.len()
        invariant
            i <= bytes@.len(),
            buf@ == old(buf)@ + bytes@.take(i as int),
        decreases bytes.len() - i,
    {
        buf.push(bytes[i]);
        assert(buf@ =~= old(buf)@ + bytes@.take(i + 1));
        i = i + 1;
    }
    assert(bytes@.take(bytes@.len() as int) =~= bytes@);
}

/// Appends a length-prefixed field to a digest payload: the marker byte,
/// the length as a little-endian `u64`, then the bytes.
pub fn append_bytes(payload: &mut Vec<u8>, marker: u8, bytes: &[u8])
    ensures
        final(payload)@ == old(payload)@ + seq![marker] + le_bytes_u64(bytes@.len() as u64)
            + bytes@,
{
    payload.push(marker);
    push_u64_le(payload, bytes.len() as u64);
    push_bytes(payload, bytes);
    assert(payload@ =~= old(payload)@ + seq![marker] + le_bytes_u64(bytes@.len() as u64) + bytes@);
}

/// Appends a string as the registry stores it: its UTF-8 length as a
/// little-endian `u16`, then its bytes. The string must fit a `u16` length.
pub fn write_string_u16(buf: &mut Vec<u8>, value: &str)
    requires
        value.spec_bytes().len() <= u16::MAX,
    ensures
        final(buf)@ == old(buf)@ + le_bytes_u16(value.spec_bytes().len() as u16)
            + value.spec_bytes(),
{
    let bytes = value.as_bytes();
    let len = bytes.len() as u16;
    push_u16_le(buf, len);
    push_bytes(buf, bytes);
}

/// Appends an optional floating-point value given by its bits, storing
/// the canonical NaN when it is absent.
pub fn write_optional_bits(buf: &mut Vec<u8>, bits: Option<u64>)
    ensures
        final(buf)@ == old(buf)@ + le_bytes_u64(
            match bits {
                Some(b) => b,
                None => CANONICAL_NAN_BITS,
            },
        ),
{
    match bits {
        Some(b) => push_u64_le(buf, b),
        None => push_u64_le(buf, CANONICAL_NAN_BITS),
    }
}

/// Reading back a written `u16` gives the value written.
pub proof fn lemma_u16_round_trip(v: u16)
    ensures
        le_u16(le_bytes_u16(v), 0) == v,
{
    let s = le_bytes_u16(v);
    assert(s[0] == v as u8 && s[1] == (v >> 8u16) as u8);
    assert(((v as u8) as u16) | ((((v >> 8u16) as u8) as u16) << 8u16) == v) by (bit_vector);
}

/// Reading back a written `u64` gives the value written.
pub proof fn lemma_u64_round_trip(v: u64)
    ensures
        le_u64(le_bytes_u64(v), 0) == v,
{
    let s = le_bytes_u64(v);
    assert(s[0] == v as u8 && s[1] == (v >> 8u64) as u8 && s[2] == (v >> 16u64) as u8 && s[3] == (v
        >> 24u64) as u8 && s[4] == (v >> 32u64) as u8 && s[5] == (v >> 40u64) as u8 && s[6] == (v
        >> 48u64) as u8 && s[7] == (v >> 56u64) as u8);
    assert((((v as u8) as u64) | ((((v >> 8u64) as u8) as u64) << 8u64) | ((((v >> 16u64) as u8)
        as u64) << 16u64) | ((((v >> 24u64) as u8) as u64) << 24u64) | ((((v >> 32u64) as u8)
        as u64) << 32u64) | ((((v >> 40u64) as u8) as u64) << 40u64) | ((((v >> 48u64) as u8)
        as u64) << 48u64) | ((((v >> 56u64) as u8) as u64) << 56u64)) == v) by (bit_vector);
}

// ---------------------------------------------------------------------------
// Named code tables
// ---------------------------------------------------------------------------

/// Strings in code-point order, the order in which `String` keys sort.
pub open spec fn text_lt(a: Seq<char>, b: Seq<char>) -> bool
    decreases a.len(),
{
    if b.len() == 0 {
        false
    } else if a.len() == 0 {
        true
    } else if a[0] != b[0] {
        a[0] < b[0]
    } else {
        text_lt(a.drop_first(), b.drop_first())
    }
}

/// No two strings come before each other.
pub proof fn lemma_text_lt_asymmetric(a: Seq<char>, b: Seq<char>)
    ensures
        text_lt(a, b) ==> !text_lt(b, a),
    decreases a.len(),
{
    if a.len() > 0 && b.len() > 0 && a[0] == b[0] {
        lemma_text_lt_asymmetric(a.drop_first(), b.drop_first());
    }
}

/// Of two different strings, one comes before the other.
pub proof fn lemma_text_lt_total(a: Seq<char>, b: Seq<char>)
    ensures
        a != b ==> text_lt(a, b) || text_lt(b, a),
    decreases a.len(),
{
    if a.len() > 0 && b.len() > 0 && a[0] == b[0] {
        lemma_text_lt_total(a.drop_first(), b.drop_first());
        if a.drop_first() == b.drop_first() {
            assert(a =~= b) by {
                assert forall|i: int| 0 <= i < a.len() implies #[trigger] a[i] == b[i] by {
                    if i > 0 {
                        assert(a[i] == a.drop_first()[i - 1]);
                        assert(b[i] == b.drop_first()[i - 1]);
                    }
                }
            }
        }
    } else if a.len() == 0 && b.len() == 0 {
        assert(a =~= b);
    }
}

/// The order of strings is transitive.
pub proof fn lemma_text_lt_transitive(a: Seq<char>, b: Seq<char>, c: Seq<char>)
    requires
        text_lt(a, b),
        text_lt(b, c),
    ensures
        text_lt(a, c),
    decreases a.len(),
{
    if a.len() > 0 && b.len() > 0 && c.len() > 0 && a[0] == b[0] && b[0] == c[0] {
        lemma_text_lt_transitive(a.drop_first(), b.drop_first(), c.drop_first());
    }
}

fn text_less(a: &str, b: &str) -> (r: bool)
    ensures
        r == text_lt(a@, b@),
{
    let ca = chars_of(a);
    let cb = chars_of(b);
    let mut i: usize = 0;
    assert(a@.skip(0) =~= a@);
    assert(b@.skip(0) =~= b@);
    while i < ca.len() && i < cb.len() && ca[i] == cb[i]
        invariant
            i <= ca@.len(),
            i <= cb@.len(),
            ca@ == a@,
            cb@ == b@,
            text_lt(a@, b@) == text_lt(a@.skip(i as int), b@.skip(i as int)),
        decreases ca.len() - i,
    {
        assert(a@.skip(i as int).drop_first() =~= a@.skip(i + 1));
        assert(b@.skip(i as int).drop_first() =~= b@.skip(i + 1));
        i = i + 1;
    }
    if i == cb.len() {
        assert(b@.skip(i as int).len() == 0);
        false
    } else if i == ca.len() {
        assert(a@.skip(i as int).len() == 0);
        true
    } else {
        assert(a@.skip(i as int)[0] == ca@[i as int]);
        assert(b@.skip(i as int)[0] == cb@[i as int]);
        ca[i] < cb[i]
    }
}

/// The code the last item named `key` carries.
pub open spec fn last_code(items: Seq<(Seq<char>, u8)>, key: Seq<char>) -> Option<u8>
    decreases items.len(),
{
    if items.len() == 0 {
        None
    } else if items.last().0 == key {
        Some(items.last().1)
    } else {
        last_code(items.drop_last(), key)
    }
}

/// A table of named codes as a `BTreeMap` holds it: names in ascending
/// order, each with the code of the last item that named it, and every
/// named item present.
pub open spec fn is_code_table(e: Seq<(Seq<char>, u8)>, items: Seq<(Seq<char>, u8)>) -> bool {
    &&& forall|i: int, j: int| 0 <= i < j < e.len() ==> text_lt(#[trigger] e[i].0, #[trigger] e[j].0)
    &&& forall|i: int| 0 <= i < e.len() ==> last_code(items, #[trigger] e[i].0) == Some(e[i].1)
    &&& forall|k: Seq<char>| #[trigger] last_code(items, k) is Some ==> exists|i: int|
        0 <= i < e.len() && e[i].0 == k
}

pub open spec fn items_view(items: Seq<(&str, u8)>) -> Seq<(Seq<char>, u8)> {
    items.map_values(|it: (&str, u8)| (it.0@, it.1))
}

pub open spec fn entries_view(e: Seq<(String, u8)>) -> Seq<(Seq<char>, u8)> {
    e.map_values(|it: (String, u8)| (it.0@, it.1))
}

/// Collects named codes into a table sorted by name; a repeated name keeps
/// the code of its last item.
pub fn named_codes(items: &[(&str, u8)]) -> (r: Vec<(String, u8)>)
    ensures
        is_code_table(entries_view(r@), items_view(items@)),
{
    let ghost iv = items_view(items@);
    let mut table: Vec<(String, u8)> = Vec::new();
    let mut k: usize = 0;
    assert(is_code_table(entries_view(table@), iv.take(0)));
    while k < items.len()
        invariant
            k <= items@.len(),
            iv == items_view(items@),
            is_code_table(entries_view(table@), iv.take(k as int)),
        decreases items.len() - k,
    {
        let (name, code) = items[k];
        let ghost before = entries_view(table@);
        let ghost prev = iv.take(k as int);
        let ghost next = iv.take(k + 1);
        assert(next.drop_last() =~= prev);
        assert(next.last() == (name@, code));
        assert forall|key: Seq<char>| key != name@ implies last_code(next, key) == last_code(
            prev,
            key,
        ) by {}
        let mut p: usize = 0;
        while p < table.len() && text_less(table[p].0.as_str(), name)
            invariant
                p <= table@.len(),
                before == entries_view(table@),
                forall|i: int| 0 <= i < p ==> text_lt(#[trigger] before[i].0, name@),
            decreases table.len() - p,
        {
            p = p + 1;
        }
        if p < table.len() && same_text(table[p].0.as_str(), name) {
            assert(before[p as int].0 == name@);
            let (old_name, _) = table.remove(p);
            table.insert(p, (old_name, code));
            assert(entries_view(table@) =~= before.update(p as int, (name@, code)));
            assert(is_code_table(entries_view(table@), next)) by {
                let after = entries_view(table@);
                assert forall|i: int| 0 <= i < after.len() implies #[trigger] after[i].0
                    == before[i].0 by {}
                assert forall|i: int, j: int| 0 <= i < j < after.len() implies text_lt(
                    #[trigger] after[i].0,
                    #[trigger] after[j].0,
                ) by {
                    assert(after[i].0 == before[i].0 && after[j].0 == before[j].0);
                }
                assert forall|i: int| 0 <= i < after.len() implies last_code(
                    next,
                    #[trigger] after[i].0,
                ) == Some(after[i].1) by {
                    if i != p {
                        assert(after[i] == before[i]);
                        if before[i].0 == name@ {
                            if i < p {
                                assert(text_lt(before[i].0, before[p as int].0));
                            } else {
                                assert(text_lt(before[p as int].0, before[i].0));
                            }
                            lemma_text_lt_asymmetric(name@, name@);
                        }
                    }
                }
                assert forall|key: Seq<char>| #[trigger] last_code(next, key) is Some implies exists|
                    i: int,
                | 0 <= i < after.len() && after[i].0 == key by {
                    if key != name@ {
                        let i = choose|i: int| 0 <= i < before.len() && before[i].0 == key;
                        assert(after[i].0 == key);
                    } else {
                        assert(after[p as int].0 == key);
                    }
                }
            }
        } else {
            proof {
                if p < table@.len() {
                    lemma_text_lt_total(before[p as int].0, name@);
                }
            }
            table.insert(p, (name.to_owned(), code));
            let ghost after = entries_view(table@);
            assert(after =~= before.insert(p as int, (name@, code)));
            assert(is_code_table(after, next)) by {
                assert forall|i: int, j: int| 0 <= i < j < after.len() implies text_lt(
                    #[trigger] after[i].0,
                    #[trigger] after[j].0,
                ) by {
                    if j < p {
                        assert(after[i] == before[i] && after[j] == before[j]);
                    } else if j == p {
                        assert(after[i] == before[i]);
                    } else if i < p {
                        assert(after[i] == before[i] && after[j] == before[j - 1]);
                        lemma_text_lt_transitive(before[i].0, name@, before[p as int].0);
                        if j - 1 > p {
                            lemma_text_lt_transitive(before[i].0, before[p as int].0, before[j - 1].0);
                        }
                    } else if i == p {
                        assert(after[j] == before[j - 1]);
                        if j - 1 > p {
                            lemma_text_lt_transitive(name@, before[p as int].0, before[j - 1].0);
                        }
                    } else {
                        assert(after[i] == before[i - 1] && after[j] == before[j - 1]);
                    }
                }
                assert forall|i: int| 0 <= i < after.len() implies last_code(
                    next,
                    #[trigger] after[i].0,
                ) == Some(after[i].1) by {
                    if i < p {
                        assert(after[i] == before[i]);
                        assert(before[i].0 != name@) by {
                            lemma_text_lt_asymmetric(before[i].0, name@);
                        }
                    } else if i > p {
                        assert(after[i] == before[i - 1]);
                        if before[i - 1].0 == name@ {
                            lemma_text_lt_asymmetric(name@, before[p as int].0);
                            if i - 1 > p {
                                lemma_text_lt_asymmetric(before[p as int].0, name@);
                            }
                        }
                    }
                }
                assert forall|key: Seq<char>| #[trigger] last_code(next, key) is Some implies exists|
                    i: int,
                | 0 <= i < after.len() && after[i].0 == key by {
                    if key != name@ {
                        let i = choose|i: int| 0 <= i < before.len() && before[i].0 == key;
                        if i < p {
                            assert(after[i].0 == key);
                        } else {
                            assert(after[i + 1].0 == key);
                        }
                    } else {
                        assert(after[p as int].0 == key);
                    }
                }
            }
        }
        k = k + 1;
    }
    assert(iv.take(items@.len() as int) =~= iv);
    table
}

/// The projection methods the registry supports, by name.
pub open spec fn projection_method_items() -> Seq<(Seq<char>, u8)> {
    seq![
        ("Albers Equal Area"@, METHOD_ALBERS),
        ("Cassini-Soldner"@, METHOD_CASSINI_SOLDNER),
        ("Equidistant Cylindrical"@, METHOD_EQUIDISTANT_CYL),
        ("Hotine Oblique Mercator A"@, METHOD_HOTINE_OBLIQUE_MERCATOR_A),
        ("Hotine Oblique Mercator B"@, METHOD_HOTINE_OBLIQUE_MERCATOR_B),
        ("Lambert Azimuthal Equal Area"@, METHOD_LAEA),
        ("Lambert Azimuthal Equal Area (Spherical)"@, METHOD_LAEA_SPHERICAL),
        ("Lambert Conformal Conic"@, METHOD_LCC),
        ("Mercator"@, METHOD_MERCATOR),
        ("Oblique Stereographic"@, METHOD_OBLIQUE_STEREO),
        ("Polar Stereographic"@, METHOD_POLAR_STEREO),
        ("Transverse Mercator"@, METHOD_TRANSVERSE_MERCATOR),
        ("Web Mercator"@, METHOD_WEB_MERCATOR),
    ]
}

/// The table of supported projection methods.
pub fn supported_projection_methods() -> (r: Vec<(String, u8)>)
    ensures
        is_code_table(entries_view(r@), projection_method_items()),
{
    let items: [(&str, u8); 13] = [
        ("Albers Equal Area", METHOD_ALBERS),
        ("Cassini-Soldner", METHOD_CASSINI_SOLDNER),
        ("Equidistant Cylindrical", METHOD_EQUIDISTANT_CYL),
        ("Hotine Oblique Mercator A", METHOD_HOTINE_OBLIQUE_MERCATOR_A),
        ("Hotine Oblique Mercator B", METHOD_HOTINE_OBLIQUE_MERCATOR_B),
        ("Lambert Azimuthal Equal Area", METHOD_LAEA),
        ("Lambert Azimuthal Equal Area (Spherical)", METHOD_LAEA_SPHERICAL),
        ("Lambert Conformal Conic", METHOD_LCC),
        ("Mercator", METHOD_MERCATOR),
        ("Oblique Stereographic", METHOD_OBLIQUE_STEREO),
        ("Polar Stereographic", METHOD_POLAR_STEREO),
        ("Transverse Mercator", METHOD_TRANSVERSE_MERCATOR),
        ("Web Mercator", METHOD_WEB_MERCATOR),
    ];
    assert(items_view(items@) =~= projection_method_items());
    named_codes(items.as_slice())
}

/// The grid formats the registry records, by name.
pub open spec fn grid_format_items() -> Seq<(Seq<char>, u8)> {
    seq![
        ("GTX"@, BUILD_GRID_FORMAT_GTX),
        ("NTv2"@, BUILD_GRID_FORMAT_NTV2),
        ("Unsupported"@, BUILD_GRID_FORMAT_UNSUPPORTED),
    ]
}

/// The table of grid format codes.
pub fn supported_grid_formats() -> (r: Vec<(String, u8)>)
    ensures
        is_code_table(entries_view(r@), grid_format_items()),
{
    let items: [(&str, u8); 3] = [
        ("GTX", BUILD_GRID_FORMAT_GTX),
        ("NTv2", BUILD_GRID_FORMAT_NTV2),
        ("Unsupported", BUILD_GRID_FORMAT_UNSUPPORTED),
    ];
    assert(items_view(items@) =~= grid_format_items());
    named_codes(items.as_slice())
}

/// The operation payload kinds the registry records, by name.
pub open spec fn operation_payload_items() -> Seq<(Seq<char>, u8)> {
    seq![
        ("Concatenated"@, OP_CONCATENATED),
        ("GridShift"@, OP_GRID_SHIFT),
        ("Helmert"@, OP_HELMERT),
    ]
}

/// The table of operation payload codes.
pub fn supported_operation_payloads() -> (r: Vec<(String, u8)>)
    ensures
        is_code_table(entries_view(r@), operation_payload_items()),
{
    let items: [(&str, u8); 3] = [
        ("Concatenated", OP_CONCATENATED),
        ("GridShift", OP_GRID_SHIFT),
        ("Helmert", OP_HELMERT),
    ];
    assert(items_view(items@) =~= operation_payload_items());
    named_codes(items.as_slice())
}

/// Deprecated projected CRS codes the registry keeps anyway.
pub open spec fn explicitly_supported_deprecated_projected_crs_spec() -> Seq<u32> {
    seq![32662u32]
}

pub fn explicitly_supported_deprecated_projected_crs() -> (r: Vec<u32>)
    ensures
        r@ == explicitly_supported_deprecated_projected_crs_spec(),
{
    let r: Vec<u32> = vec![32662u32];
    assert(r@ =~= seq![32662u32]);
    r
}

/// Codes in decimal, separated by `, `.
pub open spec fn joined_codes(codes: Seq<u32>) -> Seq<char>
    decreases codes.len(),
{
    if codes.len() == 0 {
        Seq::empty()
    } else if codes.len() == 1 {
        decimal(codes[0] as nat)
    } else {
        joined_codes(codes.drop_last()) + ", "@ + decimal(codes.last() as nat)
    }
}

/// The deprecated projected CRS codes the registry keeps, as an SQL list.
pub fn explicitly_supported_deprecated_projected_crs_sql_list() -> (r: String)
    ensures
        r@ == joined_codes(explicitly_supported_deprecated_projected_crs_spec()),
{
    let codes = explicitly_supported_deprecated_projected_crs();
    let mut r = String::new();
    let mut i: usize = 0;
    while i < codes.len()
        invariant
            i <= codes@.len(),
            r@ == joined_codes(codes@.take(i as int)),
        decreases codes.len() - i,
    {
        assert(codes@.take(i + 1).drop_last() =~= codes@.take(i as int));
        if i > 0 {
            append_str(&mut r, ", ");
        } else {
            assert(r@ =~= Seq::<char>::empty());
        }
        append_decimal(&mut r, codes[i] as u64);
        i = i + 1;
        assert(r@ =~= joined_codes(codes@.take(i as int)));
    }
    assert(codes@.take(codes@.len() as int) =~= codes@);
    r
}

// ---------------------------------------------------------------------------
// Command line of the generator
// ---------------------------------------------------------------------------

/// Whether the generator writes the registry or checks that it reproduces.
#[derive(Debug, Clone, Copy, PartialEq, Eq, Structural)]
pub enum RegistryMode {
    Write,
    Check,
}

/// The generator's parsed command line.
#[derive(Debug)]
pub struct RegistryArgs {
    pub mode: RegistryMode,
    pub proj_db: Option<String>,
    pub out_dir: String,
}

/// The generator's usage text.
pub open spec fn usage_text() -> Seq<char> {
    "usage: gen-registry [--write|--check] [--proj-db PATH] [--out-dir DIR]\ndefault: write epsg.bin and epsg.provenance.json"@
}

/// The outcome of reading the arguments from position `i` on, with the
/// settings read so far; an error carries its message.
pub open spec fn parse_args_spec(
    args: Seq<Seq<char>>,
    i: int,
    mode: RegistryMode,
    proj_db: Option<Seq<char>>,
    out_dir: Seq<char>,
) -> Result<(RegistryMode, Option<Seq<char>>, Seq<char>), Seq<char>>
    decreases args.len() - i,
{
    if i < 0 || i >= args.len() {
        Ok((mode, proj_db, out_dir))
    } else {
        let a = args[i];
        if a == "--check"@ {
            parse_args_spec(args, i + 1, RegistryMode::Check, proj_db, out_dir)
        } else if a == "--write"@ {
            parse_args_spec(args, i + 1, RegistryMode::Write, proj_db, out_dir)
        } else if a == "--proj-db"@ {
            if i + 1 < args.len() {
                parse_args_spec(args, i + 2, mode, Some(args[i + 1]), out_dir)
            } else {
                Err("--proj-db requires a path"@)
            }
        } else if a == "--out-dir"@ {
            if i + 1 < args.len() {
                parse_args_spec(args, i + 2, mode, proj_db, args[i + 1])
            } else {
                Err("--out-dir requires a path"@)
            }
        } else if a == "--help"@ || a == "-h"@ {
            Err(usage_text())
        } else {
            Err("unknown argument: "@ + a)
        }
    }
}

fn copy_string(s: &String) -> (r: String)
    ensures
        r@ == s@,
{
    s.as_str().to_owned()
}

impl RegistryArgs {
    /// Reads the generator's arguments: `--write` (the default) or
    /// `--check`, `--proj-db PATH`, `--out-dir DIR` (else `default_out_dir`);
    /// `--help` and unknown arguments are refused with a message.
    pub fn parse_from(args: Vec<String>, default_out_dir: String) -> (r: Result<Self, String>)
        ensures
            match parse_args_spec(
                args@.map_values(|a: String| a@),
                0,
                RegistryMode::Write,
                None,
                default_out_dir@,
            ) {
                Ok((mode, proj_db, out_dir)) => r matches Ok(a) && a.mode == mode && match a.proj_db {
                    Some(p) => proj_db == Some(p@),
                    None => proj_db is None,
                } && a.out_dir@ == out_dir,
                Err(m) => r matches Err(e) && e@ == m,
            },
    {
        let ghost av = args@.map_values(|a: String| a@);
        let mut mode = RegistryMode::Write;
        let mut proj_db: Option<String> = None;
        let mut out_dir = default_out_dir;
        let mut i: usize = 0;
        while i < args.len()
            invariant
                i <= args@.len(),
                av == args@.map_values(|a: String| a@),
                parse_args_spec(av, 0, RegistryMode::Write, None, default_out_dir@)
                    == parse_args_spec(
                    av,
                    i as int,
                    mode,
                    match proj_db {
                        Some(p) => Some(p@),
                        None => None,
                    },
                    out_dir@,
                ),
            decreases args.len() - i,
        {
            let arg = args[i].as_str();
            assert(av[i as int] == arg@);
            if same_text(arg, "--check") {
                mode = RegistryMode::Check;
                i = i + 1;
            } else if same_text(arg, "--write") {
                mode = RegistryMode::Write;
                i = i + 1;
            } else if same_text(arg, "--proj-db") {
                if i + 1 < args.len() {
                    assert(av[i + 1] == args@[i + 1]@);
                    proj_db = Some(copy_string(&args[i + 1]));
                    i = i + 2;
                } else {
                    return Err("--proj-db requires a path".to_owned());
                }
            } else if same_text(arg, "--out-dir") {
                if i + 1 < args.len() {
                    assert(av[i + 1] == args@[i + 1]@);
                    out_dir = copy_string(&args[i + 1]);
                    i = i + 2;
                } else {
                    return Err("--out-dir requires a path".to_owned());
                }
            } else if same_text(arg, "--help") || same_text(arg, "-h") {
                return Err(
                    "usage: gen-registry [--write|--check] [--proj-db PATH] [--out-dir DIR]\ndefault: write epsg.bin and epsg.provenance.json".to_owned(),
                );
            } else {
                let mut m = "unknown argument: ".to_owned();
                append_str(&mut m, arg);
                return Err(m);
            }
        }
        Ok(RegistryArgs { mode, proj_db, out_dir })
    }
}

// ---------------------------------------------------------------------------
// Normalized digest of the source database
// ---------------------------------------------------------------------------

/// One column value of a database row. A real value is carried as the bits
/// of its canonical form.
#[derive(Debug)]
pub enum SqlValue {
    Null,
    Integer(i64),
    Real(u64),
    Text(Vec<u8>),
    Blob(Vec<u8>),
}

pub enum SqlValueModel {
    Null,
    Integer(i64),
    Real(u64),
    Text(Seq<u8>),
    Blob(Seq<u8>),
}

impl View for SqlValue {
    type V = SqlValueModel;

    open spec fn view(&self) -> SqlValueModel {
        match self {
            SqlValue::Null => SqlValueModel::Null,
            SqlValue::Integer(v) => SqlValueModel::Integer(*v),
            SqlValue::Real(b) => SqlValueModel::Real(*b),
            SqlValue::Text(t) => SqlValueModel::Text(t@),
            SqlValue::Blob(b) => SqlValueModel::Blob(b@),
        }
    }
}

/// A length-prefixed field of the digest payload.
pub open spec fn framed(marker: u8, bytes: Seq<u8>) -> Seq<u8> {
    seq![marker] + le_bytes_u64(bytes.len() as u64) + bytes
}

/// The digest payload bytes of one value.
pub open spec fn value_payload(v: SqlValueModel) -> Seq<u8> {
    match v {
        SqlValueModel::Null => seq![0x6eu8],
        SqlValueModel::Integer(i) => seq![0x69u8] + le_bytes_u64(i as u64),
        SqlValueModel::Real(b) => seq![0x66u8] + le_bytes_u64(b),
        SqlValueModel::Text(t) => framed(0x73u8, t),
        SqlValueModel::Blob(b) => framed(0x62u8, b),
    }
}

/// The digest payload bytes of the values of a row, in order.
pub open spec fn values_payload(vs: Seq<SqlValueModel>) -> Seq<u8>
    decreases vs.len(),
{
    if vs.len() == 0 {
        Seq::empty()
    } else {
        values_payload(vs.drop_last()) + value_payload(vs.last())
    }
}

/// Appends a table name to the digest payload.
pub fn append_table(payload: &mut Vec<u8>, table: &str)
    ensures
        final(payload)@ == old(payload)@ + framed(0x74u8, table.spec_bytes()),
{
    append_bytes(payload, 0x74u8, table.as_bytes());
}

/// Appends a column name to the digest payload.
pub fn append_column(payload: &mut Vec<u8>, column: &str)
    ensures
        final(payload)@ == old(payload)@ + framed(0x63u8, column.spec_bytes()),
{
    append_bytes(payload, 0x63u8, column.as_bytes());
}

/// Appends one row to the digest payload: a row marker, then each value
/// tagged with its type.
pub fn append_row(payload: &mut Vec<u8>, values: &Vec<SqlValue>)
    ensures
        final(payload)@ == old(payload)@ + seq![0x72u8] + values_payload(
            values@.map_values(|v: SqlValue| v@),
        ),
{
    let ghost vs = values@.map_values(|v: SqlValue| v@);
    payload.push(0x72u8);
    let ghost start = payload@;
    let mut i: usize = 0;
    while i < values.len()
        invariant
            i <= values@.len(),
            vs == values@.map_values(|v: SqlValue| v@),
            start == old(payload)@ + seq![0x72u8],
            payload@ == start + values_payload(vs.take(i as int)),
        decreases values.len() - i,
    {
        let ghost before = payload@;
        match &values[i] {
            SqlValue::Null => {
                payload.push(0x6eu8);
            },
            SqlValue::Integer(v) => {
                payload.push(0x69u8);
                push_u64_le(payload, *v as u64);
            },
            SqlValue::Real(b) => {
                payload.push(0x66u8);
                push_u64_le(payload, *b);
            },
            SqlValue::Text(t) => {
                append_bytes(payload, 0x73u8, t.as_slice());
            },
            SqlValue::Blob(b) => {
                append_bytes(payload, 0x62u8, b.as_slice());
            },
        }
        assert(payload@ =~= before + value_payload(vs[i as int]));
        assert(vs.take(i + 1).drop_last() =~= vs.take(i as int));
        assert(payload@ =~= start + values_payload(vs.take(i + 1)));
        i = i + 1;
    }
    assert(vs.take(values@.len() as int) =~= vs);
}

/// One table of the source database as the digest reads it: its name, its
/// columns in order and its rows in the digest's order.
pub struct DigestTable {
    pub name: String,
    pub columns: Vec<String>,
    pub rows: Vec<Vec<SqlValue>>,
}

/// The model of a table: name, column names and row values.
pub type DigestTableModel = (Seq<char>, Seq<Seq<char>>, Seq<Seq<SqlValueModel>>);

impl View for DigestTable {
    type V = DigestTableModel;

    open spec fn view(&self) -> DigestTableModel {
        (
            self.name@,
            self.columns@.map_values(|c: String| c@),
            self.rows@.map_values(|r: Vec<SqlValue>| r@.map_values(|v: SqlValue| v@)),
        )
    }
}

/// The digest payload bytes of a table's column names, in order.
pub open spec fn columns_payload(columns: Seq<Seq<char>>) -> Seq<u8>
    decreases columns.len(),
{
    if columns.len() == 0 {
        Seq::empty()
    } else {
        columns_payload(columns.drop_last()) + framed(
            0x63u8,
            vstd::utf8::encode_utf8(columns.last()),
        )
    }
}

/// The digest payload bytes of a table's rows, in order.
pub open spec fn rows_payload(rows: Seq<Seq<SqlValueModel>>) -> Seq<u8>
    decreases rows.len(),
{
    if rows.len() == 0 {
        Seq::empty()
    } else {
        rows_payload(rows.drop_last()) + seq![0x72u8] + values_payload(rows.last())
    }
}

/// The digest payload bytes of one table: its name, its columns, its rows.
pub open spec fn table_payload(t: DigestTableModel) -> Seq<u8> {
    framed(0x74u8, vstd::utf8::encode_utf8(t.0)) + columns_payload(t.1) + rows_payload(t.2)
}

/// The digest payload of a database: its tables one after another.
pub open spec fn tables_payload(tables: Seq<DigestTableModel>) -> Seq<u8>
    decreases tables.len(),
{
    if tables.len() == 0 {
        Seq::empty()
    } else {
        tables_payload(tables.drop_last()) + table_payload(tables.last())
    }
}

fn append_digest_table(payload: &mut Vec<u8>, table: &DigestTable)
    ensures
        final(payload)@ == old(payload)@ + table_payload(table@),
{
    let ghost cs = table.columns@.map_values(|c: String| c@);
    let ghost rs = table.rows@.map_values(|r: Vec<SqlValue>| r@.map_values(|v: SqlValue| v@));
    append_table(payload, table.name.as_str());
    let ghost after_name = payload@;
    let mut i: usize = 0;
    while i < table.columns.len()
        invariant
            i <= table.columns@.len(),
            cs == table.columns@.map_values(|c: String| c@),
            payload@ == after_name + columns_payload(cs.take(i as int)),
        decreases table.columns.len() - i,
    {
        append_column(payload, table.columns[i].as_str());
        assert(cs.take(i + 1).drop_last() =~= cs.take(i as int));
        assert(cs[i as int] == table.columns@[i as int]@);
        i = i + 1;
        assert(payload@ =~= after_name + columns_payload(cs.take(i as int)));
    }
    assert(cs.take(table.columns@.len() as int) =~= cs);
    let ghost after_columns = payload@;
    let mut j: usize = 0;
    while j < table.rows.len()
        invariant
            j <= table.rows@.len(),
            rs == table.rows@.map_values(|r: Vec<SqlValue>| r@.map_values(|v: SqlValue| v@)),
            payload@ == after_columns + rows_payload(rs.take(j as int)),
        decreases table.rows.len() - j,
    {
        append_row(payload, &table.rows[j]);
        assert(rs.take(j + 1).drop_last() =~= rs.take(j as int));
        assert(rs[j as int] == table.rows@[j as int]@.map_values(|v: SqlValue| v@));
        j = j + 1;
        assert(payload@ =~= after_columns + rows_payload(rs.take(j as int)));
    }
    assert(rs.take(table.rows@.len() as int) =~= rs);
    assert(payload@ =~= old(payload)@ + table_payload(table@));
}

/// The payload the normalized digest of a database hashes: for each table
/// in order, its name, its column names and its rows, each field tagged
/// and length-prefixed.
pub fn digest_payload(tables: &Vec<DigestTable>) -> (r: Vec<u8>)
    ensures
        r@ == tables_payload(tables@.map_values(|t: DigestTable| t@)),
{
    let ghost ts = tables@.map_values(|t: DigestTable| t@);
    let mut payload: Vec<u8> = Vec::new();
    let mut i: usize = 0;
    while i < tables.len()
        invariant
            i <= tables@.len(),
            ts == tables@.map_values(|t: DigestTable| t@),
            payload@ == tables_payload(ts.take(i as int)),
        decreases tables.len() - i,
    {
        append_digest_table(&mut payload, &tables[i]);
        assert(ts.take(i + 1).drop_last() =~= ts.take(i as int));
        assert(ts[i as int] == tables@[i as int]@);
        i = i + 1;
        assert(payload@ =~= tables_payload(ts.take(i as int)));
    }
    assert(ts.take(tables@.len() as int) =~= ts);
    payload
}

/// Column names quoted and separated by `, `.
pub open spec fn quoted_list(columns: Seq<Seq<char>>) -> Seq<char>
    decreases columns.len(),
{
    if columns.len() == 0 {
        Seq::empty()
    } else if columns.len() == 1 {
        seq!['"'] + double_quotes(columns[0]) + seq!['"']
    } else {
        quoted_list(columns.drop_last()) + ", "@ + seq!['"'] + double_quotes(columns.last())
            + seq!['"']
    }
}

fn quoted_columns(columns: &Vec<String>) -> (r: String)
    ensures
        r@ == quoted_list(columns@.map_values(|c: String| c@)),
{
    let ghost cs = columns@.map_values(|c: String| c@);
    let mut r = String::new();
    let mut i: usize = 0;
    while i < columns.len()
        invariant
            i <= columns@.len(),
            cs == columns@.map_values(|c: String| c@),
            r@ == quoted_list(cs.take(i as int)),
        decreases columns.len() - i,
    {
        assert(cs.take(i + 1).drop_last() =~= cs.take(i as int));
        assert(cs[i as int] == columns@[i as int]@);
        if i > 0 {
            append_str(&mut r, ", ");
        } else {
            assert(r@ =~= Seq::<char>::empty());
        }
        let q = quote_identifier(columns[i].as_str());
        append_str(&mut r, q.as_str());
        i = i + 1;
        assert(r@ =~= quoted_list(cs.take(i as int)));
    }
    assert(cs.take(columns@.len() as int) =~= cs);
    r
}

/// The query that reads a table's rows for the digest, every column in
/// order and the rows sorted by all of them.
pub open spec fn digest_query_spec(table: Seq<char>, columns: Seq<Seq<char>>) -> Seq<char> {
    "SELECT "@ + quoted_list(columns) + " FROM "@ + seq!['"'] + double_quotes(table) + seq!['"']
        + " ORDER BY "@ + quoted_list(columns)
}

pub fn digest_query(table: &str, columns: &Vec<String>) -> (r: String)
    ensures
        r@ == digest_query_spec(table@, columns@.map_values(|c: String| c@)),
{
    let cols = quoted_columns(columns);
    let mut r = "SELECT ".to_owned();
    append_str(&mut r, cols.as_str());
    append_str(&mut r, " FROM ");
    let qt = quote_identifier(table);
    append_str(&mut r, qt.as_str());
    append_str(&mut r, " ORDER BY ");
    append_str(&mut r, cols.as_str());
    r
}

/// The query that lists a table's columns.
pub fn table_info_query(table: &str) -> (r: String)
    ensures
        r@ == "PRAGMA table_info("@ + seq!['"'] + double_quotes(table@) + seq!['"'] + ")"@,
{
    let mut r = "PRAGMA table_info(".to_owned();
    let qt = quote_identifier(table);
    append_str(&mut r, qt.as_str());
    append_str(&mut r, ")");
    r
}

/// A string field written after `prefix` reads back as the string: its
/// length word is at the field's start and its bytes follow.
pub proof fn lemma_string_field_round_trip(prefix: Seq<u8>, bytes: Seq<u8>)
    requires
        bytes.len() <= u16::MAX,
    ensures
        ({
            let buf = prefix + le_bytes_u16(bytes.len() as u16) + bytes;
            let o = prefix.len() as int;
            &&& le_u16(buf, o) == bytes.len()
            &&& buf.subrange(o + 2, o + 2 + bytes.len()) == bytes
        }),
{
    let len = bytes.len() as u16;
    let buf = prefix + le_bytes_u16(len) + bytes;
    let o = prefix.len() as int;
    lemma_u16_round_trip(len);
    assert(buf[o] == le_bytes_u16(len)[0]);
    assert(buf[o + 1] == le_bytes_u16(len)[1]);
    assert(buf.subrange(o + 2, o + 2 + bytes.len()) =~= bytes);
}

// ---------------------------------------------------------------------------
// Operations reported by the reference implementation
// ---------------------------------------------------------------------------

/// The operation a reference transformation reports having used.
#[derive(Debug)]
pub struct UsedOperation {
    pub auth: String,
    pub code: Option<u32>,
    pub name: String,
}

/// The EPSG code a used operation is identified by: its own code, else,
/// for a concatenated pipeline without one, the code of its single EPSG
/// transformation step (none when it has several or none).
pub open spec fn used_operation_code_spec(
    own_code: Option<u32>,
    concatenated: bool,
    step_codes: Seq<u32>,
) -> Option<u32> {
    if own_code is None && concatenated && step_codes.len() == 1 {
        Some(step_codes[0])
    } else {
        own_code
    }
}

pub fn used_operation_code(own_code: Option<u32>, concatenated: bool, step_codes: &Vec<u32>) -> (r:
    Option<u32>)
    ensures
        r == used_operation_code_spec(own_code, concatenated, step_codes@),
{
    if own_code.is_none() && concatenated && step_codes.len() == 1 {
        Some(step_codes[0])
    } else {
        own_code
    }
}

impl UsedOperation {
    /// A used operation whose code text is read as a decimal `u32` (text
    /// that is not one gives no code), recovered from its steps when absent.
    pub fn new(
        auth: String,
        code_text: Option<&str>,
        name: String,
        concatenated: bool,
        step_codes: &Vec<u32>,
    ) -> (r: Self)
        ensures
            r.auth@ == auth@,
            r.name@ == name@,
            r.code == used_operation_code_spec(
                match code_text {
                    Some(t) => parse_u32_spec(t@),
                    None => None,
                },
                concatenated,
                step_codes@,
            ),
    {
        let own = match code_text {
            Some(t) => parse_u32(t),
            None => None,
        };
        UsedOperation { auth, code: used_operation_code(own, concatenated, step_codes), name }
    }
}

// ---------------------------------------------------------------------------
// Choosing the source database
// ---------------------------------------------------------------------------

/// The path the first item with checksum `key` carries.
pub open spec fn first_path(items: Seq<(Seq<char>, Seq<char>)>, key: Seq<char>) -> Option<Seq<char>>
    decreases items.len(),
{
    if items.len() == 0 {
        None
    } else {
        match first_path(items.drop_last(), key) {
            Some(p) => Some(p),
            None => if items.last().0 == key {
                Some(items.last().1)
            } else {
                None
            },
        }
    }
}

/// Distinct checksums in ascending order, each with the first path that
/// has it, every checksum present.
pub open spec fn is_checksum_table(
    e: Seq<(Seq<char>, Seq<char>)>,
    items: Seq<(Seq<char>, Seq<char>)>,
) -> bool {
    &&& forall|i: int, j: int| 0 <= i < j < e.len() ==> text_lt(#[trigger] e[i].0, #[trigger] e[j].0)
    &&& forall|i: int| 0 <= i < e.len() ==> first_path(items, #[trigger] e[i].0) == Some(e[i].1)
    &&& forall|k: Seq<char>| #[trigger] first_path(items, k) is Some ==> exists|i: int|
        0 <= i < e.len() && e[i].0 == k
}

pub open spec fn pairs_view(e: Seq<(String, String)>) -> Seq<(Seq<char>, Seq<char>)> {
    e.map_values(|it: (String, String)| (it.0@, it.1@))
}

/// Candidates paired with their checksums.
pub open spec fn checksum_items(checksums: Seq<String>, paths: Seq<String>) -> Seq<
    (Seq<char>, Seq<char>),
> {
    Seq::new(checksums.len(), |i: int| (checksums[i]@, paths[i]@))
}

/// Groups candidate paths by checksum, keeping the first path of each.
pub fn checksum_table(checksums: &Vec<String>, paths: &Vec<String>) -> (r: Vec<(String, String)>)
    requires
        checksums@.len() == paths@.len(),
    ensures
        is_checksum_table(pairs_view(r@), checksum_items(checksums@, paths@)),
{
    let ghost iv = checksum_items(checksums@, paths@);
    let mut table: Vec<(String, String)> = Vec::new();
    let mut k: usize = 0;
    assert(is_checksum_table(pairs_view(table@), iv.take(0)));
    while k < checksums.len()
        invariant
            k <= checksums@.len(),
            checksums@.len() == paths@.len(),
            iv == checksum_items(checksums@, paths@),
            is_checksum_table(pairs_view(table@), iv.take(k as int)),
        decreases checksums.len() - k,
    {
        let key = checksums[k].as_str();
        let path = paths[k].as_str();
        let ghost before = pairs_view(table@);
        let ghost prev = iv.take(k as int);
        let ghost next = iv.take(k + 1);
        assert(next.drop_last() =~= prev);
        assert(next.last() == (key@, path@));
        assert forall|kk: Seq<char>| kk != key@ implies first_path(next, kk) == first_path(prev, kk)
            by {}
        let mut p: usize = 0;
        while p < table.len() && text_less(table[p].0.as_str(), key)
            invariant
                p <= table@.len(),
                before == pairs_view(table@),
                forall|i: int| 0 <= i < p ==> text_lt(#[trigger] before[i].0, key@),
            decreases table.len() - p,
        {
            p = p + 1;
        }
        if p < table.len() && same_text(table[p].0.as_str(), key) {
            assert(before[p as int].0 == key@);
            assert(first_path(prev, key@) is Some);
            assert(is_checksum_table(before, next)) by {
                assert forall|i: int| 0 <= i < before.len() implies first_path(
                    next,
                    #[trigger] before[i].0,
                ) == Some(before[i].1) by {
                    if before[i].0 == key@ {
                        assert(first_path(prev, key@) == Some(before[i].1));
                    }
                }
                assert forall|kk: Seq<char>| #[trigger] first_path(next, kk) is Some implies exists|
                    i: int,
                | 0 <= i < before.len() && before[i].0 == kk by {
                    if kk == key@ {
                        assert(before[p as int].0 == kk);
                    }
                }
            }
        } else {
            proof {
                if p < table@.len() {
                    lemma_text_lt_total(before[p as int].0, key@);
                }
                if first_path(prev, key@) is Some {
                    let i = choose|i: int| 0 <= i < before.len() && before[i].0 == key@;
                    if i < p {
                        lemma_text_lt_asymmetric(key@, key@);
                    } else if i > p {
                        assert(text_lt(before[p as int].0, before[i].0));
                        lemma_text_lt_asymmetric(key@, before[p as int].0);
                    }
                }
            }
            assert(first_path(prev, key@) is None);
            table.insert(p, (key.to_owned(), path.to_owned()));
            let ghost after = pairs_view(table@);
            assert(after =~= before.insert(p as int, (key@, path@)));
            assert(is_checksum_table(after, next)) by {
                assert forall|i: int, j: int| 0 <= i < j < after.len() implies text_lt(
                    #[trigger] after[i].0,
                    #[trigger] after[j].0,
                ) by {
                    if j < p {
                        assert(after[i] == before[i] && after[j] == before[j]);
                    } else if j == p {
                        assert(after[i] == before[i]);
                    } else if i < p {
                        assert(after[i] == before[i] && after[j] == before[j - 1]);
                        lemma_text_lt_transitive(before[i].0, key@, before[p as int].0);
                        if j - 1 > p {
                            lemma_text_lt_transitive(before[i].0, before[p as int].0, before[j - 1].0);
                        }
                    } else if i == p {
                        assert(after[j] == before[j - 1]);
                        if j - 1 > p {
                            lemma_text_lt_transitive(key@, before[p as int].0, before[j - 1].0);
                        }
                    } else {
                        assert(after[i] == before[i - 1] && after[j] == before[j - 1]);
                    }
                }
                assert forall|i: int| 0 <= i < after.len() implies first_path(
                    next,
                    #[trigger] after[i].0,
                ) == Some(after[i].1) by {
                    if i < p {
                        assert(after[i] == before[i]);
                        assert(before[i].0 != key@) by {
                            lemma_text_lt_asymmetric(before[i].0, key@);
                        }
                    } else if i > p {
                        assert(after[i] == before[i - 1]);
                        if before[i - 1].0 == key@ {
                            lemma_text_lt_asymmetric(key@, before[p as int].0);
                            if i - 1 > p {
                                lemma_text_lt_asymmetric(before[p as int].0, key@);
                            }
                        }
                    }
                }
                assert forall|kk: Seq<char>| #[trigger] first_path(next, kk) is Some implies exists|
                    i: int,
                | 0 <= i < after.len() && after[i].0 == kk by {
                    if kk != key@ {
                        let i = choose|i: int| 0 <= i < before.len() && before[i].0 == kk;
                        if i < p {
                            assert(after[i].0 == kk);
                        } else {
                            assert(after[i + 1].0 == kk);
                        }
                    } else {
                        assert(after[p as int].0 == kk);
                    }
                }
            }
        }
        k = k + 1;
    }
    assert(iv.take(checksums@.len() as int) =~= iv);
    table
}

/// The checksum table of `items`; `is_checksum_table` determines it.
pub open spec fn checksum_table_spec(items: Seq<(Seq<char>, Seq<char>)>) -> Seq<
    (Seq<char>, Seq<char>),
> {
    choose|e: Seq<(Seq<char>, Seq<char>)>| is_checksum_table(e, items)
}

pub open spec fn text_sorted(k: Seq<Seq<char>>) -> bool {
    forall|i: int, j: int| 0 <= i < j < k.len() ==> text_lt(#[trigger] k[i], #[trigger] k[j])
}

/// Two sequences of strings in strictly ascending order with the same
/// elements are equal.
proof fn lemma_sorted_texts_unique(k1: Seq<Seq<char>>, k2: Seq<Seq<char>>)
    requires
        text_sorted(k1),
        text_sorted(k2),
        forall|x: Seq<char>| k1.contains(x) <==> k2.contains(x),
    ensures
        k1 == k2,
    decreases k1.len() + k2.len(),
{
    if k1.len() == 0 {
        if k2.len() > 0 {
            assert(k2.contains(k2[0]));
        }
        assert(k1 =~= k2);
    } else if k2.len() == 0 {
        assert(k1.contains(k1[0]));
    } else {
        assert(k1.contains(k1[0]));
        assert(k2.contains(k2[0]));
        let i1 = choose|i: int| 0 <= i < k1.len() && k1[i] == k2[0];
        let i2 = choose|i: int| 0 <= i < k2.len() && k2[i] == k1[0];
        assert(k1[0] == k2[0]) by {
            if k1[0] != k2[0] {
                assert(i1 > 0 && i2 > 0);
                assert(text_lt(k1[0], k1[i1]));
                assert(text_lt(k2[0], k2[i2]));
                lemma_text_lt_asymmetric(k1[0], k2[0]);
            }
        }
        let t1 = k1.drop_first();
        let t2 = k2.drop_first();
        assert forall|x: Seq<char>| t1.contains(x) <==> t2.contains(x) by {
            if t1.contains(x) {
                let a = choose|a: int| 0 <= a < t1.len() && t1[a] == x;
                assert(k1[a + 1] == x);
                assert(k1.contains(x));
                let b = choose|b: int| 0 <= b < k2.len() && k2[b] == x;
                assert(text_lt(k1[0], x));
                if b == 0 {
                    lemma_text_lt_asymmetric(x, x);
                }
                assert(t2[b - 1] == x);
            }
            if t2.contains(x) {
                let a = choose|a: int| 0 <= a < t2.len() && t2[a] == x;
                assert(k2[a + 1] == x);
                assert(k2.contains(x));
                let b = choose|b: int| 0 <= b < k1.len() && k1[b] == x;
                assert(text_lt(k2[0], x));
                if b == 0 {
                    lemma_text_lt_asymmetric(x, x);
                }
                assert(t1[b - 1] == x);
            }
        }
        lemma_sorted_texts_unique(t1, t2);
        assert(k1 =~= k2) by {
            assert forall|i: int| 0 <= i < k1.len() implies #[trigger] k1[i] == k2[i] by {
                if i > 0 {
                    assert(t1[i - 1] == k1[i]);
                    assert(t2[i - 1] == k2[i]);
                }
            }
        }
    }
}

/// A checksum table is determined by its items.
pub proof fn lemma_checksum_table_unique(
    e1: Seq<(Seq<char>, Seq<char>)>,
    e2: Seq<(Seq<char>, Seq<char>)>,
    items: Seq<(Seq<char>, Seq<char>)>,
)
    requires
        is_checksum_table(e1, items),
        is_checksum_table(e2, items),
    ensures
        e1 == e2,
{
    let k1 = e1.map_values(|e: (Seq<char>, Seq<char>)| e.0);
    let k2 = e2.map_values(|e: (Seq<char>, Seq<char>)| e.0);
    assert(text_sorted(k1)) by {
        assert forall|i: int, j: int| 0 <= i < j < k1.len() implies text_lt(
            #[trigger] k1[i],
            #[trigger] k1[j],
        ) by {
            assert(text_lt(e1[i].0, e1[j].0));
        }
    }
    assert(text_sorted(k2)) by {
        assert forall|i: int, j: int| 0 <= i < j < k2.len() implies text_lt(
            #[trigger] k2[i],
            #[trigger] k2[j],
        ) by {
            assert(text_lt(e2[i].0, e2[j].0));
        }
    }
    assert forall|x: Seq<char>| k1.contains(x) <==> k2.contains(x) by {
        if k1.contains(x) {
            let i = choose|i: int| 0 <= i < k1.len() && k1[i] == x;
            assert(first_path(items, e1[i].0) == Some(e1[i].1));
            let j = choose|j: int| 0 <= j < e2.len() && e2[j].0 == x;
            assert(k2[j] == x);
        }
        if k2.contains(x) {
            let i = choose|i: int| 0 <= i < k2.len() && k2[i] == x;
            assert(first_path(items, e2[i].0) == Some(e2[i].1));
            let j = choose|j: int| 0 <= j < e1.len() && e1[j].0 == x;
            assert(k1[j] == x);
        }
    }
    lemma_sorted_texts_unique(k1, k2);
    assert(e1 =~= e2) by {
        assert forall|i: int| 0 <= i < e1.len() implies #[trigger] e1[i] == e2[i] by {
            assert(k1[i] == k2[i]);
            assert(first_path(items, e1[i].0) == Some(e1[i].1));
            assert(first_path(items, e2[i].0) == Some(e2[i].1));
        }
    }
}

/// Entries `checksum path`, one per line.
pub open spec fn checksum_lines(e: Seq<(Seq<char>, Seq<char>)>) -> Seq<char>
    decreases e.len(),
{
    if e.len() == 0 {
        Seq::empty()
    } else if e.len() == 1 {
        e[0].0 + seq![' '] + e[0].1
    } else {
        checksum_lines(e.drop_last()) + seq!['\n'] + e.last().0 + seq![' '] + e.last().1
    }
}

fn lines_of(table: &Vec<(String, String)>) -> (r: String)
    ensures
        r@ == checksum_lines(pairs_view(table@)),
{
    let ghost e = pairs_view(table@);
    let mut r = String::new();
    let mut i: usize = 0;
    while i < table.len()
        invariant
            i <= table@.len(),
            e == pairs_view(table@),
            r@ == checksum_lines(e.take(i as int)),
        decreases table.len() - i,
    {
        assert(e.take(i + 1).drop_last() =~= e.take(i as int));
        if i > 0 {
            push_char(&mut r, '\n');
        } else {
            assert(r@ =~= Seq::<char>::empty());
        }
        append_str(&mut r, table[i].0.as_str());
        push_char(&mut r, ' ');
        append_str(&mut r, table[i].1.as_str());
        i = i + 1;
        assert(r@ =~= checksum_lines(e.take(i as int)));
    }
    assert(e.take(table@.len() as int) =~= e);
    r
}

/// Whether a `proj.db` found below the build directory may serve as the
/// source: copies built for tests are skipped.
pub fn is_proj_db_candidate(path: &str) -> (r: bool)
    ensures
        r == !contains_text(path@, "for_tests"@),
{
    let cs = chars_of(path);
    let pat = chars_of("for_tests");
    !contains_chars(&cs, &pat)
}

/// Which candidate database to use, or why none can be chosen: there must
/// be at least one, and all must have the same normalized digest; the
/// first is then used.
pub open spec fn proj_db_choice_spec(
    target_dir: Seq<char>,
    table: Seq<(Seq<char>, Seq<char>)>,
    candidates: nat,
) -> Result<usize, Seq<char>> {
    if candidates == 0 {
        Err(
            "proj.db not found below "@ + target_dir
                + ". Run `cargo build --manifest-path gen-reference/Cargo.toml --bin gen-registry` first."@,
        )
    } else if table.len() > 1 {
        Err(
            "multiple distinct proj.db files were found; pass --proj-db explicitly:\n"@
                + checksum_lines(table),
        )
    } else {
        Ok(0)
    }
}

/// Chooses among the candidate databases found below `target_dir`, given
/// in path order with their digests.
pub fn choose_proj_db(target_dir: &str, candidates: &Vec<String>, checksums: &Vec<String>) -> (r:
    Result<usize, String>)
    requires
        candidates@.len() == checksums@.len(),
    ensures
        match r {
            Ok(i) => Ok::<usize, Seq<char>>(i) == proj_db_choice_spec(
                target_dir@,
                checksum_table_spec(checksum_items(checksums@, candidates@)),
                candidates@.len(),
            ),
            Err(m) => Err::<usize, Seq<char>>(m@) == proj_db_choice_spec(
                target_dir@,
                checksum_table_spec(checksum_items(checksums@, candidates@)),
                candidates@.len(),
            ),
        },
{
    if candidates.len() == 0 {
        let mut m = "proj.db not found below ".to_owned();
        append_str(&mut m, target_dir);
        append_str(
            &mut m,
            ". Run `cargo build --manifest-path gen-reference/Cargo.toml --bin gen-registry` first.",
        );
        return Err(m);
    }
    let table = checksum_table(checksums, candidates);
    proof {
        let items = checksum_items(checksums@, candidates@);
        lemma_checksum_table_unique(pairs_view(table@), checksum_table_spec(items), items);
    }
    if table.len() > 1 {
        let mut m = "multiple distinct proj.db files were found; pass --proj-db explicitly:\n".to_owned();
        let lines = lines_of(&table);
        append_str(&mut m, lines.as_str());
        return Err(m);
    }
    Ok(0)
}

} // verus!
