use vstd::prelude::*;

use super::errors::{BencodeDecoderError, ValueKind};

verus! {

/// The mathematical model of a bencode value.
pub enum SpecValue {
    Str(Seq<u8>),
    Int(int),
    List(Seq<SpecValue>),
    /// Entries in the order the dictionary keeps them.
    Dict(Seq<(Seq<u8>, SpecValue)>),
    End,
}

pub const INTEGER_START: u8 = 105;  // 'i'
pub const LIST_START: u8 = 108;  // 'l'
pub const DICTIONARY_START: u8 = 100;  // 'd'
pub const END_TOKEN: u8 = 101;  // 'e'
pub const STRING_SEPARATOR: u8 = 58;  // ':'
pub const NEGATIVE_SIGN: u8 = 45;  // '-'
pub const DIGIT_ZERO: u8 = 48;  // '0'

pub open spec fn is_digit(b: u8) -> bool {
    DIGIT_ZERO <= b <= DIGIT_ZERO + 9
}

pub open spec fn digit_value(b: u8) -> nat {
    (b - DIGIT_ZERO) as nat
}

pub open spec fn kind_of(v: SpecValue) -> ValueKind {
    match v {
        SpecValue::Str(_) => ValueKind::String,
        SpecValue::Int(_) => ValueKind::Integer,
        SpecValue::List(_) => ValueKind::List,
        SpecValue::Dict(_) => ValueKind::Dictionary,
        SpecValue::End => ValueKind::End,
    }
}

// ---------------------------------------------------------------------------
// Order of dictionary keys

/// Lexicographic order on byte strings (a proper prefix comes first).
pub open spec fn bytes_lt(a: Seq<u8>, b: Seq<u8>) -> bool
    decreases a.len(),
{
    if b.len() == 0 {
        false
    } else if a.len() == 0 {
        true
    } else if a[0] != b[0] {
        a[0] < b[0]
    } else {
        bytes_lt(a.drop_first(), b.drop_first())
    }
}

pub proof fn lemma_bytes_lt_irreflexive(a: Seq<u8>)
    ensures
        !bytes_lt(a, a),
    decreases a.len(),
{
    if a.len() > 0 {
        lemma_bytes_lt_irreflexive(a.drop_first());
    }
}

pub proof fn lemma_bytes_lt_asymmetric(a: Seq<u8>, b: Seq<u8>)
    requires
        bytes_lt(a, b),
    ensures
        !bytes_lt(b, a),
        a != b,
    decreases a.len(),
{
    if a.len() > 0 && b.len() > 0 && a[0] == b[0] {
        lemma_bytes_lt_asymmetric(a.drop_first(), b.drop_first());
    }
    if a == b {
        lemma_bytes_lt_irreflexive(a);
    }
}

pub proof fn lemma_bytes_lt_transitive(a: Seq<u8>, b: Seq<u8>, c: Seq<u8>)
    requires
        bytes_lt(a, b),
        bytes_lt(b, c),
    ensures
        bytes_lt(a, c),
    decreases a.len(),
{
    if a.len() > 0 && b.len() > 0 && c.len() > 0 && a[0] == b[0] && b[0] == c[0] {
        lemma_bytes_lt_transitive(a.drop_first(), b.drop_first(), c.drop_first());
    }
}

pub proof fn lemma_bytes_lt_total(a: Seq<u8>, b: Seq<u8>)
    requires
        a != b,
    ensures
        bytes_lt(a, b) || bytes_lt(b, a),
    decreases a.len(),
{
    if a.len() > 0 && b.len() > 0 && a[0] == b[0] {
        if a.drop_first() == b.drop_first() {
            assert(a =~= seq![a[0]] + a.drop_first());
            assert(b =~= seq![b[0]] + b.drop_first());
        }
        lemma_bytes_lt_total(a.drop_first(), b.drop_first());
    }
    if a.len() == 0 && b.len() == 0 {
        assert(a =~= b);
    }
}

/// The keys of `entries` are in strictly increasing order.
pub open spec fn keys_sorted(entries: Seq<(Seq<u8>, SpecValue)>) -> bool {
    forall|i: int, j: int|
        0 <= i < j < entries.len() ==> bytes_lt(#[trigger] entries[i].0, #[trigger] entries[j].0)
}

/// Every key of `entries` is smaller than `key`.
pub open spec fn keys_below(entries: Seq<(Seq<u8>, SpecValue)>, key: Seq<u8>) -> bool {
    forall|i: int| 0 <= i < entries.len() ==> bytes_lt(#[trigger] entries[i].0, key)
}

/// `entries` with `key` bound to `value`: an entry with that key is replaced in place,
/// otherwise a new entry goes where the key order puts it.
pub open spec fn dict_insert(
    entries: Seq<(Seq<u8>, SpecValue)>,
    key: Seq<u8>,
    value: SpecValue,
) -> Seq<(Seq<u8>, SpecValue)>
    decreases entries.len(),
{
    if entries.len() == 0 {
        seq![(key, value)]
    } else if entries[0].0 == key {
        entries.update(0, (key, value))
    } else if bytes_lt(key, entries[0].0) {
        seq![(key, value)] + entries
    } else {
        seq![entries[0]] + dict_insert(entries.drop_first(), key, value)
    }
}

/// The value bound to `key` in `entries`, if any.
pub open spec fn dict_get(entries: Seq<(Seq<u8>, SpecValue)>, key: Seq<u8>) -> Option<SpecValue>
    decreases entries.len(),
{
    if entries.len() == 0 {
        None
    } else if entries[0].0 == key {
        Some(entries[0].1)
    } else {
        dict_get(entries.drop_first(), key)
    }
}

/// The dictionary made by inserting `pairs` one after another, so that a later pair wins.
pub open spec fn dict_from(pairs: Seq<(Seq<u8>, SpecValue)>) -> Seq<(Seq<u8>, SpecValue)>
    decreases pairs.len(),
{
    if pairs.len() == 0 {
        Seq::empty()
    } else {
        dict_insert(dict_from(pairs.drop_last()), pairs.last().0, pairs.last().1)
    }
}

pub proof fn lemma_dict_insert_keys(entries: Seq<(Seq<u8>, SpecValue)>, key: Seq<u8>, value: SpecValue)
    requires
        keys_sorted(entries),
    ensures
        keys_sorted(dict_insert(entries, key, value)),
        dict_get(dict_insert(entries, key, value), key) == Some(value),
        forall|k: Seq<u8>| k != key ==> dict_get(dict_insert(entries, key, value), k) == dict_get(entries, k),
        forall|i: int| 0 <= i < dict_insert(entries, key, value).len() ==>
            (#[trigger] dict_insert(entries, key, value)[i]).0 == key
            || exists|j: int| 0 <= j < entries.len() && entries[j].0 == dict_insert(entries, key, value)[i].0,
    decreases entries.len(),
{
    let r = dict_insert(entries, key, value);
    if entries.len() == 0 {
        assert forall|k: Seq<u8>| k != key implies dict_get(r, k) == dict_get(entries, k) by {
            assert(dict_get(r, k) == dict_get(r.drop_first(), k));
            assert(r.drop_first().len() == 0);
        }
    } else if entries[0].0 == key {
        assert forall|i: int, j: int| 0 <= i < j < r.len() implies bytes_lt(#[trigger] r[i].0, #[trigger] r[j].0) by {
            assert(entries[i].0 == r[i].0);
            assert(entries[j].0 == r[j].0);
        }
        assert forall|k: Seq<u8>| k != key implies dict_get(r, k) == dict_get(entries, k) by {
            assert(r.drop_first() =~= entries.drop_first());
        }
        assert forall|i: int| 0 <= i < r.len() implies (#[trigger] r[i]).0 == key
            || exists|j: int| 0 <= j < entries.len() && entries[j].0 == r[i].0 by {
            if i > 0 {
                assert(entries[i].0 == r[i].0);
            }
        }
    } else if bytes_lt(key, entries[0].0) {
        assert forall|i: int, j: int| 0 <= i < j < r.len() implies bytes_lt(#[trigger] r[i].0, #[trigger] r[j].0) by {
            if i == 0 {
                if j > 1 {
                    lemma_bytes_lt_transitive(key, entries[0].0, entries[j - 1].0);
                }
            } else {
                assert(r[i] == entries[i - 1]);
                assert(r[j] == entries[j - 1]);
            }
        }
        assert(r.drop_first() =~= entries);
        assert forall|k: Seq<u8>| k != key implies dict_get(r, k) == dict_get(entries, k) by {
        }
        assert forall|i: int| 0 <= i < r.len() implies (#[trigger] r[i]).0 == key
            || exists|j: int| 0 <= j < entries.len() && entries[j].0 == r[i].0 by {
            if i > 0 {
                assert(entries[i - 1].0 == r[i].0);
            }
        }
    } else {
        let rest = entries.drop_first();
        assert forall|i: int, j: int| 0 <= i < j < rest.len() implies bytes_lt(#[trigger] rest[i].0, #[trigger] rest[j].0) by {
            assert(rest[i] == entries[i + 1]);
            assert(rest[j] == entries[j + 1]);
        }
        lemma_dict_insert_keys(rest, key, value);
        let tail = dict_insert(rest, key, value);
        lemma_bytes_lt_total(key, entries[0].0);
        assert(r.drop_first() =~= tail);
        assert(r[0] == entries[0]);
        assert forall|i: int, j: int| 0 <= i < j < r.len() implies bytes_lt(#[trigger] r[i].0, #[trigger] r[j].0) by {
            if i == 0 {
                assert(r[j] == tail[j - 1]);
                assert(tail[j - 1].0 == key || exists|m: int| 0 <= m < rest.len() && rest[m].0 == tail[j - 1].0);
                if tail[j - 1].0 != key {
                    let m = choose|m: int| 0 <= m < rest.len() && rest[m].0 == tail[j - 1].0;
                    assert(rest[m] == entries[m + 1]);
                }
            } else {
                assert(r[i] == tail[i - 1]);
                assert(r[j] == tail[j - 1]);
            }
        }
        assert forall|k: Seq<u8>| k != key implies dict_get(r, k) == dict_get(entries, k) by {
            if entries[0].0 != k {
                assert(dict_get(r, k) == dict_get(r.drop_first(), k));
                assert(dict_get(entries, k) == dict_get(rest, k));
                assert(dict_get(tail, k) == dict_get(rest, k));
            }
        }
        assert forall|i: int| 0 <= i < r.len() implies (#[trigger] r[i]).0 == key
            || exists|j: int| 0 <= j < entries.len() && entries[j].0 == r[i].0 by {
            if i > 0 {
                assert(r[i] == tail[i - 1]);
                if tail[i - 1].0 != key {
                    let m = choose|m: int| 0 <= m < rest.len() && rest[m].0 == tail[i - 1].0;
                    assert(rest[m] == entries[m + 1]);
                }
            } else {
                assert(entries[0].0 == r[0].0);
            }
        }
    }
}

// ---------------------------------------------------------------------------
// Decoding
//
// The decoder reads the input from a position on, one byte after another. Each function
// below gives what the decoder makes of the bytes from `pos` on: the value and the position
// just after it, or the first error it meets.

/// The value that starts at `pos`.
pub open spec fn parse_value(s: Seq<u8>, pos: int) -> Result<(SpecValue, int), BencodeDecoderError>
    decreases s.len() - pos, 0int,
{
    if pos < 0 || pos >= s.len() {
        Err(BencodeDecoderError::UnexpectedEndOfStream)
    } else {
        let b = s[pos];
        if b == INTEGER_START {
            match parse_integer(s, pos + 1, 0, false, true, false) {
                Ok((n, next)) => Ok((SpecValue::Int(n), next)),
                Err(e) => Err(e),
            }
        } else if b == LIST_START {
            parse_list(s, pos + 1, Seq::empty())
        } else if is_digit(b) {
            match parse_string(s, pos + 1, digit_value(b)) {
                Ok((bytes, next)) => Ok((SpecValue::Str(bytes), next)),
                Err(e) => Err(e),
            }
        } else if b == DICTIONARY_START {
            parse_dictionary(s, pos + 1, Seq::empty())
        } else if b == END_TOKEN {
            Ok((SpecValue::End, pos + 1))
        } else {
            Err(BencodeDecoderError::UnknownToken(b, pos as usize))
        }
    }
}

/// The rest of an integer: `magnitude` holds the digits read so far, `first` says that no
/// byte of the integer has been read yet, `zero` that its first digit was a `0`.
pub open spec fn parse_integer(
    s: Seq<u8>,
    pos: int,
    magnitude: int,
    negative: bool,
    first: bool,
    zero: bool,
) -> Result<(int, int), BencodeDecoderError>
    decreases s.len() - pos,
{
    if pos < 0 || pos >= s.len() {
        Err(BencodeDecoderError::EndOfStreamInInteger)
    } else {
        let b = s[pos];
        if b == END_TOKEN {
            Ok((
                if negative {
                    -magnitude
                } else {
                    magnitude
                },
                pos + 1,
            ))
        } else if b == NEGATIVE_SIGN && first {
            parse_integer(s, pos + 1, magnitude, true, false, zero)
        } else if b == DIGIT_ZERO && first {
            parse_integer(s, pos + 1, magnitude, negative, false, true)
        } else if is_digit(b) && !zero {
            let m = magnitude * 10 + digit_value(b);
            if m > i64::MAX {
                Err(BencodeDecoderError::IntegerOverflow(pos as usize))
            } else {
                parse_integer(s, pos + 1, m, negative, false, false)
            }
        } else if is_digit(b) {
            Err(BencodeDecoderError::UnexpectedZero(pos as usize))
        } else {
            Err(BencodeDecoderError::InvalidIntegerByte(b, pos as usize))
        }
    }
}

/// The rest of a string whose length digits read so far make `length`.
pub open spec fn parse_string(s: Seq<u8>, pos: int, length: nat) -> Result<(Seq<u8>, int), BencodeDecoderError>
    decreases s.len() - pos,
{
    if pos < 0 || pos >= s.len() {
        Err(BencodeDecoderError::EndOfStreamInStringLength)
    } else if s[pos] == STRING_SEPARATOR {
        if pos + 1 + length <= s.len() {
            Ok((s.subrange(pos + 1, pos + 1 + length), pos + 1 + length))
        } else {
            Err(BencodeDecoderError::EndOfStreamInString)
        }
    } else if is_digit(s[pos]) {
        parse_string(s, pos + 1, length * 10 + digit_value(s[pos]))
    } else {
        Err(BencodeDecoderError::InvalidStringLengthDigit(s[pos], pos as usize))
    }
}

/// The rest of a list whose items read so far are `items`.
pub open spec fn parse_list(s: Seq<u8>, pos: int, items: Seq<SpecValue>) -> Result<(SpecValue, int), BencodeDecoderError>
    decreases s.len() - pos, 1int,
{
    match parse_value(s, pos) {
        Err(e) => Err(e),
        Ok((SpecValue::End, next)) => Ok((SpecValue::List(items), next)),
        Ok((item, next)) => {
            if pos < next <= s.len() {
                parse_list(s, next, items.push(item))
            } else {
                Err(BencodeDecoderError::UnexpectedEndOfStream)
            }
        },
    }
}

/// The rest of a dictionary whose entries read so far are `entries`.
pub open spec fn parse_dictionary(
    s: Seq<u8>,
    pos: int,
    entries: Seq<(Seq<u8>, SpecValue)>,
) -> Result<(SpecValue, int), BencodeDecoderError>
    decreases s.len() - pos, 1int,
{
    match parse_value(s, pos) {
        Err(e) => Err(e),
        Ok((SpecValue::End, next)) => Ok((SpecValue::Dict(entries), next)),
        Ok((SpecValue::Str(key), after_key)) => {
            if pos < after_key <= s.len() {
                match parse_value(s, after_key) {
                    Err(e) => Err(e),
                    Ok((value, next)) => {
                        if after_key < next <= s.len() {
                            parse_dictionary(s, next, dict_insert(entries, key, value))
                        } else {
                            Err(BencodeDecoderError::UnexpectedEndOfStream)
                        }
                    },
                }
            } else {
                Err(BencodeDecoderError::UnexpectedEndOfStream)
            }
        },
        Ok((key, _)) => Err(BencodeDecoderError::InvalidDictionaryKey(kind_of(key))),
    }
}

/// What decoding `s` gives: the value at its start; the bytes after it are not read.
pub open spec fn spec_decode(s: Seq<u8>) -> Result<SpecValue, BencodeDecoderError> {
    match parse_value(s, 0) {
        Ok((v, _)) => Ok(v),
        Err(e) => Err(e),
    }
}

// ---------------------------------------------------------------------------
// Encoding

/// The decimal digits of `n`, without leading zeros.
pub open spec fn decimal(n: nat) -> Seq<u8>
    decreases n,
{
    if n < 10 {
        seq![(DIGIT_ZERO + n) as u8]
    } else {
        decimal(n / 10).push((DIGIT_ZERO + n % 10) as u8)
    }
}

/// The bencoding of a string: its length in decimal, a `:`, and its bytes.
pub open spec fn encode_string(bytes: Seq<u8>) -> Seq<u8> {
    decimal(bytes.len()) + seq![STRING_SEPARATOR] + bytes
}

/// The bencoding of `v`; the end marker is its token, `e`.
pub open spec fn spec_encode(v: SpecValue) -> Seq<u8>
    decreases v,
{
    match v {
        SpecValue::Str(bytes) => encode_string(bytes),
        SpecValue::Int(n) => seq![INTEGER_START] + (if n < 0 {
            seq![NEGATIVE_SIGN] + decimal((-n) as nat)
        } else {
            decimal(n as nat)
        }) + seq![END_TOKEN],
        SpecValue::List(items) => seq![LIST_START] + encode_items(items) + seq![END_TOKEN],
        SpecValue::Dict(entries) => seq![DICTIONARY_START] + encode_entries(entries) + seq![
            END_TOKEN,
        ],
        SpecValue::End => seq![END_TOKEN],
    }
}

/// The bencodings of `items`, one after another.
pub open spec fn encode_items(items: Seq<SpecValue>) -> Seq<u8>
    decreases items,
{
    if items.len() == 0 {
        Seq::empty()
    } else {
        encode_items(items.subrange(0, items.len() - 1)) + spec_encode(items[items.len() - 1])
    }
}

/// The bencodings of each key followed by its value, one entry after another.
pub open spec fn encode_entries(entries: Seq<(Seq<u8>, SpecValue)>) -> Seq<u8>
    decreases entries,
{
    if entries.len() == 0 {
        Seq::empty()
    } else {
        let last = entries[entries.len() - 1];
        encode_entries(entries.subrange(0, entries.len() - 1)) + encode_string(last.0) + spec_encode(
            last.1,
        )
    }
}

/// Where `dict_insert` puts a key: after every smaller key, replacing an equal one.
pub proof fn lemma_dict_insert_at(entries: Seq<(Seq<u8>, SpecValue)>, key: Seq<u8>, value: SpecValue, i: int)
    requires
        0 <= i <= entries.len(),
        forall|j: int| 0 <= j < i ==> bytes_lt(#[trigger] entries[j].0, key),
        i < entries.len() ==> (entries[i].0 == key || bytes_lt(key, entries[i].0)),
    ensures
        i < entries.len() && entries[i].0 == key ==> dict_insert(entries, key, value) == entries.update(i, (key, value)),
        !(i < entries.len() && entries[i].0 == key) ==> dict_insert(entries, key, value) == entries.insert(i, (key, value)),
    decreases i,
{
    if i == 0 {
        if entries.len() == 0 {
            assert(seq![(key, value)] =~= entries.insert(0, (key, value)));
        } else if entries[0].0 == key {
        } else {
            assert(seq![(key, value)] + entries =~= entries.insert(0, (key, value)));
        }
    } else {
        let rest = entries.drop_first();
        lemma_bytes_lt_asymmetric(entries[0].0, key);
        assert forall|j: int| 0 <= j < i - 1 implies bytes_lt(#[trigger] rest[j].0, key) by {
            assert(rest[j] == entries[j + 1]);
        }
        lemma_dict_insert_at(rest, key, value, i - 1);
        if i < entries.len() && entries[i].0 == key {
            assert(seq![entries[0]] + rest.update(i - 1, (key, value)) =~= entries.update(i, (key, value)));
        } else {
            assert(seq![entries[0]] + rest.insert(i - 1, (key, value)) =~= entries.insert(i, (key, value)));
        }
    }
}

} // verus!
