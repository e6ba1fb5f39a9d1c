use vstd::prelude::*;

use super::errors::BencodeDecoderError;
use super::spec::{
    decimal, encode_entries, encode_items, encode_string, spec_encode, DICTIONARY_START,
    DIGIT_ZERO, END_TOKEN, INTEGER_START, LIST_START, NEGATIVE_SIGN, STRING_SEPARATOR,
};
use super::spec::SpecValue;
use super::types::{entry_models, models, BencodeDecodedValue};

verus! {

/// Bencodes a value. Dictionary entries are written in the order the dictionary keeps
/// them, which is increasing key order. The end marker, which a decoded list or dictionary
/// can hold where its end token stood, is written as that token, `e`.
pub fn encode(value: &BencodeDecodedValue) -> (res: Result<Vec<u8>, BencodeDecoderError>)
    ensures
        res matches Ok(bytes) && bytes@ == spec_encode(value.model()),
{
    let mut out: Vec<u8> = Vec::new();
    encode_into(value, &mut out);
    assert(out@ =~= spec_encode(value.model()));
    Ok(out)
}

/// Appends the decimal digits of `n` to `out`.
fn push_decimal(out: &mut Vec<u8>, n: u64)
    ensures
        final(out)@ == old(out)@ + decimal(n as nat),
    decreases n,
{
    if n < 10 {
        out.push(DIGIT_ZERO + n as u8);
        assert(final(out)@ =~= old(out)@ + decimal(n as nat));
    } else {
        push_decimal(out, n / 10);
        out.push(DIGIT_ZERO + (n % 10) as u8);
        assert(final(out)@ =~= old(out)@ + decimal(n as nat));
    }
}

/// Appends the encoding of a string to `out`.
fn push_string(out: &mut Vec<u8>, bytes: &[u8])
    ensures
        final(out)@ == old(out)@ + encode_string(bytes@),
{
    push_decimal(out, bytes.len() as u64);
    out.push(STRING_SEPARATOR);
    let mut i: usize = 0;
    let ghost start = out@;
    while i < bytes.len()
        invariant
            0 <= i <= bytes.len(),
            out@ == start + bytes@.take(i as int),
        decreases bytes.len() - i,
    {
        out.push(bytes[i]);
        assert(bytes@.take(i + 1) =~= bytes@.take(i as int).push(bytes@[i as int]));
        i = i + 1;
    }
    assert(bytes@.take(i as int) =~= bytes@);
    assert(final(out)@ =~= old(out)@ + encode_string(bytes@));
}

/// Appends the encoding of `value` to `out`.
fn encode_into(value: &BencodeDecodedValue, out: &mut Vec<u8>)
    ensures
        final(out)@ == old(out)@ + spec_encode(value.model()),
    decreases value,
{
    match value {
        BencodeDecodedValue::String(bytes) => {
            push_string(out, bytes.as_slice());
        },
        BencodeDecodedValue::Integer(n) => {
            out.push(INTEGER_START);
            if *n < 0 {
                out.push(NEGATIVE_SIGN);
                let magnitude = (-(*n as i128)) as u64;
                push_decimal(out, magnitude);
            } else {
                push_decimal(out, *n as u64);
            }
            out.push(END_TOKEN);
            assert(final(out)@ =~= old(out)@ + spec_encode(value.model()));
        },
        BencodeDecodedValue::List(items) => {
            out.push(LIST_START);
            let ghost start = out@;
            let ghost ms = models(items@);
            let mut i: usize = 0;
            proof {
                assert forall|j: int| 0 <= j < items.len() implies decreases_to!(*value => #[trigger] items@[j]) by {
                    assert(decreases_to!(*value => *items));
                    assert(decreases_to!(*items => items@));
                    assert(decreases_to!(items@ => items@[j]));
                }
            }
            while i < items.len()
                invariant
                    0 <= i <= items.len(),
                    ms == models(items@),
                    value.model() == SpecValue::List(ms),
                    forall|j: int| 0 <= j < items.len() ==> decreases_to!(*value => #[trigger] items@[j]),
                    out@ == start + encode_items(ms.take(i as int)),
                decreases items.len() - i,
            {
                assert(ms[i as int] == items@[i as int].model());
                encode_into(&items[i], out);
                assert(ms.take(i + 1).subrange(0, i as int) =~= ms.take(i as int));
                assert(ms.take(i + 1)[i as int] == ms[i as int]);
                i = i + 1;
            }
            out.push(END_TOKEN);
            assert(ms.take(i as int) =~= ms);
            assert(final(out)@ =~= old(out)@ + spec_encode(value.model()));
        },
        BencodeDecodedValue::Dictionary(dictionary) => {
            out.push(DICTIONARY_START);
            let entries = dictionary.entries();
            let ghost start = out@;
            let ghost es = entry_models(entries@);
            let mut i: usize = 0;
            proof {
                assert forall|j: int| 0 <= j < entries.len() implies decreases_to!(*value => (#[trigger] entries@[j]).1) by {
                    assert(decreases_to!(*value => *dictionary));
                }
            }
            while i < entries.len()
                invariant
                    0 <= i <= entries.len(),
                    value.model() == SpecValue::Dict(es),
                    forall|j: int| 0 <= j < entries.len() ==> decreases_to!(*value => (#[trigger] entries@[j]).1),
                    es == entry_models(entries@),
                    es == dictionary.model(),
                    out@ == start + encode_entries(es.take(i as int)),
                decreases entries.len() - i,
            {
                let (key, item) = &entries[i];
                assert(es[i as int] == (key@, item.model()));
                push_string(out, key.as_slice());
                encode_into(item, out);
                assert(es.take(i + 1).subrange(0, i as int) =~= es.take(i as int));
                assert(es.take(i + 1)[i as int] == es[i as int]);
                assert(out@ =~= start + encode_entries(es.take(i + 1)));
                i = i + 1;
            }
            out.push(END_TOKEN);
            assert(es.take(i as int) =~= es);
            assert(final(out)@ =~= old(out)@ + spec_encode(value.model()));
        },
        BencodeDecodedValue::End => {
            out.push(END_TOKEN);
            assert(final(out)@ =~= old(out)@ + spec_encode(value.model()));
        },
    }
}

} // verus!
