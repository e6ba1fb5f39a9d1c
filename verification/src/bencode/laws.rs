use vstd::prelude::*;

use super::spec::{
    bytes_lt, decimal, dict_insert, digit_value, encode_entries, encode_items, encode_string,
    is_digit, keys_below, keys_sorted, lemma_bytes_lt_asymmetric, lemma_bytes_lt_transitive,
    parse_dictionary, parse_integer, parse_list, parse_string, parse_value, spec_decode,
    spec_encode, SpecValue, DICTIONARY_START, DIGIT_ZERO, END_TOKEN, INTEGER_START, LIST_START,
    NEGATIVE_SIGN, STRING_SEPARATOR,
};
use super::errors::BencodeDecoderError;

verus! {

/// `v` is a value that decoding can give back from its encoding: it holds no end marker, the
/// keys of each of its dictionaries are in increasing order, and each of its integers is
/// above `i64::MIN`, whose magnitude the decoder cannot hold.
pub open spec fn encodable(v: SpecValue) -> bool
    decreases v,
{
    match v {
        SpecValue::Str(_) => true,
        SpecValue::Int(n) => i64::MIN < n <= i64::MAX,
        SpecValue::List(items) => forall|i: int|
            0 <= i < items.len() ==> encodable(#[trigger] items[i]),
        SpecValue::Dict(entries) => keys_sorted(entries) && forall|i: int|
            0 <= i < entries.len() ==> encodable(#[trigger] entries[i].1),
        SpecValue::End => false,
    }
}

/// Law: decoding the encoding of a value gives the value back.
///
/// This holds of every value that holds no end marker (whose token, inside a list or a
/// dictionary, would close it early), whose dictionaries keep
/// their keys in increasing order (as every decoded dictionary does), and whose integers
/// are above `i64::MIN`.
pub proof fn lemma_decode_encode(v: SpecValue)
    requires
        encodable(v),
    ensures
        spec_decode(spec_encode(v)) == Ok::<SpecValue, BencodeDecoderError>(v),
{
    let s = spec_encode(v);
    assert(s.subrange(0, s.len() as int) =~= s);
    lemma_parse_encoded(v, s, 0);
}

/// `s` holds `t` from position `p` on.
pub open spec fn holds_at(s: Seq<u8>, t: Seq<u8>, p: int) -> bool {
    0 <= p && p + t.len() <= s.len() && s.subrange(p, p + t.len()) == t
}

proof fn lemma_holds_at_split(s: Seq<u8>, a: Seq<u8>, b: Seq<u8>, p: int)
    requires
        holds_at(s, a + b, p),
    ensures
        holds_at(s, a, p),
        holds_at(s, b, p + a.len()),
{
    assert(s.subrange(p, p + a.len()) =~= (a + b).subrange(0, a.len() as int));
    assert(s.subrange(p + a.len(), p + a.len() + b.len()) =~= (a + b).subrange(
        a.len() as int,
        (a + b).len() as int,
    ));
    assert((a + b).subrange(0, a.len() as int) =~= a);
    assert((a + b).subrange(a.len() as int, (a + b).len() as int) =~= b);
}

proof fn lemma_holds_at_byte(s: Seq<u8>, t: Seq<u8>, p: int, i: int)
    requires
        holds_at(s, t, p),
        0 <= i < t.len(),
    ensures
        s[p + i] == t[i],
{
    assert(s.subrange(p, p + t.len())[i] == s[p + i]);
}

proof fn lemma_decimal_digits(n: nat)
    ensures
        decimal(n).len() >= 1,
        forall|i: int| 0 <= i < decimal(n).len() ==> is_digit(#[trigger] decimal(n)[i]),
        n >= 1 ==> decimal(n)[0] != DIGIT_ZERO,
        n < 10 ==> decimal(n).len() == 1,
        n >= 10 ==> decimal(n) == decimal(n / 10).push((DIGIT_ZERO + n % 10) as u8),
        n >= 10 ==> decimal(n)[0] == decimal(n / 10)[0],
    decreases n,
{
    if n >= 10 {
        lemma_decimal_digits(n / 10);
    }
}

/// Reading the digits of `m >= 1` inside an integer accumulates `m`.
proof fn lemma_parse_integer_digits(s: Seq<u8>, p: int, m: nat, negative: bool, first: bool)
    requires
        1 <= m <= i64::MAX,
        holds_at(s, decimal(m), p),
    ensures
        parse_integer(s, p, 0, negative, first, false) == parse_integer(
            s,
            p + decimal(m).len(),
            m as int,
            negative,
            false,
            false,
        ),
    decreases m,
{
    lemma_decimal_digits(m);
    let l = decimal(m).len() as int;
    lemma_holds_at_byte(s, decimal(m), p, l - 1);
    if m < 10 {
        lemma_holds_at_byte(s, decimal(m), p, 0);
        assert(s[p] == DIGIT_ZERO + m);
    } else {
        let prefix = decimal(m / 10);
        assert(decimal(m) =~= prefix + seq![(DIGIT_ZERO + m % 10) as u8]);
        lemma_holds_at_split(s, prefix, seq![(DIGIT_ZERO + m % 10) as u8], p);
        lemma_parse_integer_digits(s, p, m / 10, negative, first);
        assert(s[p + l - 1] == DIGIT_ZERO + m % 10);
        assert((m / 10) * 10 + m % 10 == m);
    }
}

/// Reading the digits of `n` as a string length gives `n`.
proof fn lemma_parse_string_digits(s: Seq<u8>, p: int, n: nat)
    requires
        holds_at(s, decimal(n), p),
    ensures
        parse_string(s, p + 1, digit_value(s[p])) == parse_string(s, p + decimal(n).len(), n),
    decreases n,
{
    lemma_decimal_digits(n);
    let l = decimal(n).len() as int;
    lemma_holds_at_byte(s, decimal(n), p, 0);
    if n < 10 {
    } else {
        let prefix = decimal(n / 10);
        lemma_decimal_digits(n / 10);
        assert(decimal(n) =~= prefix + seq![(DIGIT_ZERO + n % 10) as u8]);
        lemma_holds_at_split(s, prefix, seq![(DIGIT_ZERO + n % 10) as u8], p);
        lemma_holds_at_byte(s, prefix, p, 0);
        lemma_parse_string_digits(s, p, n / 10);
        lemma_holds_at_byte(s, decimal(n), p, l - 1);
        assert(s[p + l - 1] == DIGIT_ZERO + n % 10);
        assert((n / 10) * 10 + n % 10 == n);
    }
}

proof fn lemma_parse_encoded_string(b: Seq<u8>, s: Seq<u8>, p: int)
    requires
        holds_at(s, encode_string(b), p),
    ensures
        parse_value(s, p) == Ok::<(SpecValue, int), BencodeDecoderError>(
            (SpecValue::Str(b), p + encode_string(b).len()),
        ),
{
    let digits = decimal(b.len());
    lemma_holds_at_split(s, digits + seq![STRING_SEPARATOR], b, p);
    lemma_holds_at_split(s, digits, seq![STRING_SEPARATOR], p);
    lemma_decimal_digits(b.len());
    lemma_holds_at_byte(s, digits, p, 0);
    lemma_holds_at_byte(s, seq![STRING_SEPARATOR], p + digits.len(), 0);
    lemma_parse_string_digits(s, p, b.len());
    let q = p + digits.len();
    assert(s.subrange(q + 1, q + 1 + b.len()) == b);
}

proof fn lemma_parse_encoded_integer(n: int, s: Seq<u8>, p: int)
    requires
        i64::MIN < n <= i64::MAX,
        holds_at(s, spec_encode(SpecValue::Int(n)), p),
    ensures
        parse_value(s, p) == Ok::<(SpecValue, int), BencodeDecoderError>(
            (SpecValue::Int(n), p + spec_encode(SpecValue::Int(n)).len()),
        ),
{
    let body = if n < 0 {
        seq![NEGATIVE_SIGN] + decimal((-n) as nat)
    } else {
        decimal(n as nat)
    };
    let e = spec_encode(SpecValue::Int(n));
    assert(e == seq![INTEGER_START] + body + seq![END_TOKEN]);
    lemma_holds_at_split(s, seq![INTEGER_START] + body, seq![END_TOKEN], p);
    lemma_holds_at_split(s, seq![INTEGER_START], body, p);
    lemma_holds_at_byte(s, seq![INTEGER_START], p, 0);
    lemma_holds_at_byte(s, seq![END_TOKEN], p + 1 + body.len(), 0);
    let close = p + 1 + body.len();
    assert(s[close] == END_TOKEN);
    assert(s[p] == INTEGER_START);
    if n < 0 {
        let m = (-n) as nat;
        lemma_holds_at_split(s, seq![NEGATIVE_SIGN], decimal(m), p + 1);
        lemma_holds_at_byte(s, seq![NEGATIVE_SIGN], p + 1, 0);
        lemma_parse_integer_digits(s, p + 2, m, true, false);
        assert(parse_integer(s, p + 1, 0, false, true, false) == parse_integer(s, p + 2, 0, true, false, false));
        assert(p + 2 + decimal(m).len() == close);
        assert(parse_integer(s, close, m as int, true, false, false) == Ok::<(int, int), BencodeDecoderError>((n, close + 1)));
    } else if n == 0 {
        lemma_holds_at_byte(s, decimal(0), p + 1, 0);
        assert(s[p + 1] == DIGIT_ZERO);
        assert(close == p + 2);
        assert(parse_integer(s, p + 2, 0, false, false, true) == Ok::<(int, int), BencodeDecoderError>((0, close + 1)));
    } else {
        lemma_decimal_digits(n as nat);
        lemma_holds_at_byte(s, decimal(n as nat), p + 1, 0);
        lemma_parse_integer_digits(s, p + 1, n as nat, false, true);
        assert(parse_integer(s, close, n, false, false, false) == Ok::<(int, int), BencodeDecoderError>((n, close + 1)));
    }
}

/// Every value but the end marker has a non-empty encoding.
proof fn lemma_encoding_not_empty(v: SpecValue)
    requires
        !(v is End),
    ensures
        spec_encode(v).len() > 0,
{
    match v {
        SpecValue::Str(b) => {
            lemma_decimal_digits(b.len());
        },
        _ => {},
    }
}

proof fn lemma_encode_items_prefix(items: Seq<SpecValue>, k: int)
    requires
        0 <= k <= items.len(),
    ensures
        exists|rest: Seq<u8>| encode_items(items) == encode_items(items.take(k)) + rest,
    decreases items.len(),
{
    if k == items.len() {
        assert(items.take(k) =~= items);
        assert(encode_items(items) =~= encode_items(items.take(k)) + Seq::<u8>::empty());
    } else {
        let shorter = items.subrange(0, items.len() - 1);
        lemma_encode_items_prefix(shorter, k);
        assert(shorter.take(k) =~= items.take(k));
        let rest = choose|rest: Seq<u8>| encode_items(shorter) == encode_items(shorter.take(k)) + rest;
        assert(encode_items(items) =~= encode_items(items.take(k)) + (rest + spec_encode(
            items[items.len() - 1],
        )));
    }
}

proof fn lemma_encode_entries_prefix(entries: Seq<(Seq<u8>, SpecValue)>, k: int)
    requires
        0 <= k <= entries.len(),
    ensures
        exists|rest: Seq<u8>| encode_entries(entries) == encode_entries(entries.take(k)) + rest,
    decreases entries.len(),
{
    if k == entries.len() {
        assert(entries.take(k) =~= entries);
        assert(encode_entries(entries) =~= encode_entries(entries.take(k)) + Seq::<u8>::empty());
    } else {
        let shorter = entries.subrange(0, entries.len() - 1);
        lemma_encode_entries_prefix(shorter, k);
        assert(shorter.take(k) =~= entries.take(k));
        let rest = choose|rest: Seq<u8>| encode_entries(shorter) == encode_entries(shorter.take(k)) + rest;
        let last = entries[entries.len() - 1];
        assert(encode_entries(entries) =~= encode_entries(entries.take(k)) + (rest + encode_string(
            last.0,
        ) + spec_encode(last.1)));
    }
}

/// Inserting a key greater than every key appends it.
proof fn lemma_dict_insert_greatest(entries: Seq<(Seq<u8>, SpecValue)>, key: Seq<u8>, value: SpecValue)
    requires
        keys_below(entries, key),
    ensures
        dict_insert(entries, key, value) == entries.push((key, value)),
    decreases entries.len(),
{
    if entries.len() == 0 {
        assert(seq![(key, value)] =~= entries.push((key, value)));
    } else {
        lemma_bytes_lt_asymmetric(entries[0].0, key);
        let rest = entries.drop_first();
        assert forall|i: int| 0 <= i < rest.len() implies bytes_lt(#[trigger] rest[i].0, key) by {
            assert(rest[i] == entries[i + 1]);
        }
        lemma_dict_insert_greatest(rest, key, value);
        assert(seq![entries[0]] + rest.push((key, value)) =~= entries.push((key, value)));
    }
}

/// The decoder reads back the encoding of an encodable value wherever it stands in its input.
proof fn lemma_parse_encoded(v: SpecValue, s: Seq<u8>, p: int)
    requires
        encodable(v),
        holds_at(s, spec_encode(v), p),
    ensures
        parse_value(s, p) == Ok::<(SpecValue, int), BencodeDecoderError>(
            (v, p + spec_encode(v).len()),
        ),
    decreases v, 0nat,
{
    match v {
        SpecValue::Str(b) => {
            lemma_parse_encoded_string(b, s, p);
        },
        SpecValue::Int(n) => {
            lemma_parse_encoded_integer(n, s, p);
        },
        SpecValue::List(items) => {
            let body = encode_items(items);
            lemma_holds_at_split(s, seq![LIST_START] + body, seq![END_TOKEN], p);
            lemma_holds_at_split(s, seq![LIST_START], body, p);
            lemma_holds_at_byte(s, seq![LIST_START], p, 0);
            lemma_holds_at_byte(s, seq![END_TOKEN], p + 1 + body.len(), 0);
            assert forall|i: int| 0 <= i < items.len() implies encodable(#[trigger] items[i]) by {
                lemma_encodable_list(items, i);
            }
            lemma_parse_encoded_items(items, items.len() as int, s, p + 1);
            assert(items.take(items.len() as int) =~= items);
            let q = p + 1 + body.len();
            assert(parse_value(s, q) == Ok::<(SpecValue, int), BencodeDecoderError>(
                (SpecValue::End, q + 1),
            ));
        },
        SpecValue::Dict(entries) => {
            let body = encode_entries(entries);
            lemma_holds_at_split(s, seq![DICTIONARY_START] + body, seq![END_TOKEN], p);
            lemma_holds_at_split(s, seq![DICTIONARY_START], body, p);
            lemma_holds_at_byte(s, seq![DICTIONARY_START], p, 0);
            lemma_holds_at_byte(s, seq![END_TOKEN], p + 1 + body.len(), 0);
            assert forall|i: int| 0 <= i < entries.len() implies encodable(#[trigger] entries[i].1) by {
                lemma_encodable_dict(entries, i);
            }
            lemma_encodable_dict_sorted(entries);
            lemma_parse_encoded_entries(entries, entries.len() as int, s, p + 1);
            assert(entries.take(entries.len() as int) =~= entries);
            let q = p + 1 + body.len();
            assert(parse_value(s, q) == Ok::<(SpecValue, int), BencodeDecoderError>(
                (SpecValue::End, q + 1),
            ));
        },
        SpecValue::End => {},
    }
}

proof fn lemma_encodable_list(items: Seq<SpecValue>, i: int)
    requires
        encodable(SpecValue::List(items)),
        0 <= i < items.len(),
    ensures
        encodable(items[i]),
{
    let v = SpecValue::List(items);
    assert(v->List_0 == items);
    assert(forall|j: int| 0 <= j < items.len() ==> encodable(#[trigger] items[j]));
}

proof fn lemma_encodable_dict(entries: Seq<(Seq<u8>, SpecValue)>, i: int)
    requires
        encodable(SpecValue::Dict(entries)),
        0 <= i < entries.len(),
    ensures
        encodable(entries[i].1),
{
    let v = SpecValue::Dict(entries);
    assert(v->Dict_0 == entries);
    assert(forall|j: int| 0 <= j < entries.len() ==> encodable(#[trigger] entries[j].1));
}

proof fn lemma_encodable_dict_sorted(entries: Seq<(Seq<u8>, SpecValue)>)
    requires
        encodable(SpecValue::Dict(entries)),
    ensures
        keys_sorted(entries),
{
    let v = SpecValue::Dict(entries);
    assert(v->Dict_0 == entries);
}

/// After reading the encodings of the first `k` items, the decoder holds those items.
proof fn lemma_parse_encoded_items(items: Seq<SpecValue>, k: int, s: Seq<u8>, p: int)
    requires
        0 <= k <= items.len(),
        forall|i: int| 0 <= i < items.len() ==> encodable(#[trigger] items[i]),
        holds_at(s, encode_items(items), p),
    ensures
        parse_list(s, p, Seq::empty()) == parse_list(
            s,
            p + encode_items(items.take(k)).len(),
            items.take(k),
        ),
    decreases items, k,
{
    if k == 0 {
        assert(items.take(0) =~= Seq::<SpecValue>::empty());
    } else {
        lemma_parse_encoded_items(items, k - 1, s, p);
        let before = items.take(k - 1);
        let item = items[k - 1];
        assert(items.take(k).subrange(0, k - 1) =~= before);
        assert(items.take(k)[k - 1] == item);
        assert(encode_items(items.take(k)) == encode_items(before) + spec_encode(item));
        lemma_encode_items_prefix(items, k);
        let rest = choose|rest: Seq<u8>| encode_items(items) == encode_items(items.take(k)) + rest;
        lemma_holds_at_split(s, encode_items(items.take(k)), rest, p);
        lemma_holds_at_split(s, encode_items(before), spec_encode(item), p);
        let q = p + encode_items(before).len();
        assert(decreases_to!(items => items[k - 1]));
        lemma_parse_encoded(item, s, q);
        lemma_encoding_not_empty(item);
        assert(before.push(item) =~= items.take(k));
    }
}

/// After reading the encodings of the first `k` entries, the decoder holds those entries.
proof fn lemma_parse_encoded_entries(entries: Seq<(Seq<u8>, SpecValue)>, k: int, s: Seq<u8>, p: int)
    requires
        0 <= k <= entries.len(),
        keys_sorted(entries),
        forall|i: int| 0 <= i < entries.len() ==> encodable(#[trigger] entries[i].1),
        holds_at(s, encode_entries(entries), p),
    ensures
        parse_dictionary(s, p, Seq::empty()) == parse_dictionary(
            s,
            p + encode_entries(entries.take(k)).len(),
            entries.take(k),
        ),
    decreases entries, k,
{
    if k == 0 {
        assert(entries.take(0) =~= Seq::<(Seq<u8>, SpecValue)>::empty());
    } else {
        lemma_parse_encoded_entries(entries, k - 1, s, p);
        let before = entries.take(k - 1);
        let entry = entries[k - 1];
        assert(entries.take(k).subrange(0, k - 1) =~= before);
        assert(entries.take(k)[k - 1] == entry);
        assert(encode_entries(entries.take(k)) == encode_entries(before) + encode_string(entry.0)
            + spec_encode(entry.1));
        lemma_encode_entries_prefix(entries, k);
        let rest = choose|rest: Seq<u8>| encode_entries(entries) == encode_entries(entries.take(k)) + rest;
        lemma_holds_at_split(s, encode_entries(entries.take(k)), rest, p);
        lemma_holds_at_split(s, encode_entries(before) + encode_string(entry.0), spec_encode(entry.1), p);
        lemma_holds_at_split(s, encode_entries(before), encode_string(entry.0), p);
        let q = p + encode_entries(before).len();
        let r = q + encode_string(entry.0).len();
        lemma_parse_encoded_string(entry.0, s, q);
        lemma_encoding_not_empty(SpecValue::Str(entry.0));
        assert(decreases_to!(entries => entries[k - 1]));
        assert(decreases_to!(entries[k - 1] => entries[k - 1].1));
        lemma_parse_encoded(entry.1, s, r);
        lemma_encoding_not_empty(entry.1);
        assert forall|i: int| 0 <= i < before.len() implies bytes_lt(#[trigger] before[i].0, entry.0) by {
            assert(before[i] == entries[i]);
        }
        lemma_dict_insert_greatest(before, entry.0, entry.1);
        assert(before.push((entry.0, entry.1)) =~= entries.take(k));
    }
}


/// The number that the decimal digits `digits` spell, read from left to right.
pub open spec fn digits_value(digits: Seq<u8>) -> nat
    decreases digits.len(),
{
    if digits.len() == 0 {
        0
    } else {
        digits_value(digits.drop_last()) * 10 + digit_value(digits.last())
    }
}

/// The string reader, from the length digit at `start + k` on, sees the same string as from
/// the first one.
proof fn lemma_string_digits(s: Seq<u8>, start: int, digits: Seq<u8>, data: Seq<u8>, k: int)
    requires
        0 <= start,
        1 <= k <= digits.len(),
        forall|i: int| 0 <= i < digits.len() ==> is_digit(#[trigger] digits[i]),
        data.len() == digits_value(digits),
        s.len() >= start + digits.len() + 1 + data.len(),
        s.subrange(start, start + digits.len()) == digits,
        s[start + digits.len()] == STRING_SEPARATOR,
        s.subrange(start + digits.len() + 1, start + digits.len() + 1 + data.len()) == data,
    ensures
        parse_string(s, start + k, digits_value(digits.take(k))) == Ok::<
            (Seq<u8>, int),
            BencodeDecoderError,
        >((data, start + digits.len() + 1 + data.len())),
    decreases digits.len() - k,
{
    if k == digits.len() {
        assert(digits.take(k) =~= digits);
    } else {
        assert(s[start + k] == digits[k]) by {
            assert(s.subrange(start, start + digits.len())[k] == s[start + k]);
        }
        assert(digits.take(k + 1).drop_last() =~= digits.take(k));
        assert(digits.take(k + 1).last() == digits[k]);
        lemma_string_digits(s, start, digits, data, k + 1);
    }
}

/// Law: the string reader takes exactly the declared number of bytes. When the input holds,
/// from `start` on, length digits that spell `n`, a `:`, then `n` bytes `data`, the reader
/// (called after the first digit, with its value) gives `data` and the position just after
/// it: exactly `n` bytes after the `:` are taken, and none of what follows.
pub proof fn lemma_read_string_takes_declared_length(
    s: Seq<u8>,
    start: int,
    digits: Seq<u8>,
    data: Seq<u8>,
)
    requires
        0 <= start,
        digits.len() > 0,
        forall|i: int| 0 <= i < digits.len() ==> is_digit(#[trigger] digits[i]),
        data.len() == digits_value(digits),
        s.len() >= start + digits.len() + 1 + data.len(),
        s.subrange(start, start + digits.len()) == digits,
        s[start + digits.len()] == STRING_SEPARATOR,
        s.subrange(start + digits.len() + 1, start + digits.len() + 1 + data.len()) == data,
    ensures
        parse_string(s, start + 1, digit_value(digits[0])) == Ok::<
            (Seq<u8>, int),
            BencodeDecoderError,
        >((data, start + digits.len() + 1 + data.len())),
        parse_value(s, start) == Ok::<(SpecValue, int), BencodeDecoderError>(
            (SpecValue::Str(data), start + digits.len() + 1 + data.len()),
        ),
{
    assert(s[start] == digits[0]) by {
        assert(s.subrange(start, start + digits.len())[0] == s[start]);
    }
    assert(digits.take(1).drop_last() =~= Seq::<u8>::empty());
    assert(digits_value(Seq::<u8>::empty()) == 0);
    assert(digits.take(1).last() == digits[0]);
    assert(digits_value(digits.take(1)) == digit_value(digits[0]));
    lemma_string_digits(s, start, digits, data, 1);
}

/// Law: a bencoded string is read to exactly its declared length. After the length digits
/// and the `:`, the decoder takes the bytes that the digits count and stops there: the
/// position it gives is just after them, whatever bytes follow.
pub proof fn lemma_string_reads_declared_length(digits: Seq<u8>, data: Seq<u8>, rest: Seq<u8>)
    requires
        digits.len() > 0,
        forall|i: int| 0 <= i < digits.len() ==> is_digit(#[trigger] digits[i]),
        data.len() == digits_value(digits),
    ensures
        parse_value(digits + seq![STRING_SEPARATOR] + data + rest, 0) == Ok::<
            (SpecValue, int),
            BencodeDecoderError,
        >((SpecValue::Str(data), digits.len() + 1 + data.len() as int)),
        spec_decode(digits + seq![STRING_SEPARATOR] + data + rest) == Ok::<
            SpecValue,
            BencodeDecoderError,
        >(SpecValue::Str(data)),
{
    let s = digits + seq![STRING_SEPARATOR] + data + rest;
    assert(s.subrange(0, digits.len() as int) =~= digits);
    assert(s.subrange(digits.len() + 1 as int, digits.len() + 1 + data.len() as int) =~= data);
    lemma_read_string_takes_declared_length(s, 0, digits, data);
}

} // verus!
