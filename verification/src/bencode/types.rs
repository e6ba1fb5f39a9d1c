use vstd::prelude::*;

use super::errors::{BencodeDecoderError, ValueKind};
use super::spec::{
    bytes_lt, dict_from, dict_get, dict_insert, keys_sorted, kind_of, lemma_bytes_lt_irreflexive,
    lemma_dict_insert_at, lemma_dict_insert_keys, SpecValue,
};

verus! {

/// The type that is returned by the decoder and is used to represent a decoded bencode value.
/// It can be a string, an integer, a list or a dictionary; `End` is the marker that closes
/// a list or a dictionary.
#[derive(Debug, PartialEq, Eq)]
pub enum BencodeDecodedValue {
    String(Vec<u8>),
    Integer(i64),
    List(Vec<BencodeDecodedValue>),
    Dictionary(BencodeDictionary),
    End,
}

/// A bencode dictionary. Its entries are kept in increasing key order, so each key occurs
/// at most once and two dictionaries are equal exactly when they bind the same keys to the
/// same values.
#[derive(Debug, PartialEq, Eq)]
pub struct BencodeDictionary {
    entries: Vec<(Vec<u8>, BencodeDecodedValue)>,
}

/// The models of a sequence of values.
pub open spec fn models(items: Seq<BencodeDecodedValue>) -> Seq<SpecValue>
    decreases items,
{
    proof {
        assert forall|i: int| 0 <= i < items.len() implies decreases_to!(items => items[i]) by {
        }
    }
    Seq::new(
        items.len() as nat,
        |i: int|
            if 0 <= i < items.len() {
                items[i].model()
            } else {
                SpecValue::End
            },
    )
}

/// The models of a sequence of dictionary entries.
pub open spec fn entry_models(entries: Seq<(Vec<u8>, BencodeDecodedValue)>) -> Seq<(Seq<u8>, SpecValue)> {
    Seq::new(entries.len() as nat, |i: int| (entries[i].0@, entries[i].1.model()))
}

impl BencodeDecodedValue {
    pub open spec fn model(self) -> SpecValue
        decreases self,
    {
        match self {
            BencodeDecodedValue::String(s) => SpecValue::Str(s@),
            BencodeDecodedValue::Integer(n) => SpecValue::Int(n as int),
            BencodeDecodedValue::List(items) => {
                proof {
                    assert(decreases_to!(items => items@));
                }
                SpecValue::List(models(items@))
            },
            BencodeDecodedValue::Dictionary(d) => SpecValue::Dict(d.model()),
            BencodeDecodedValue::End => SpecValue::End,
        }
    }

    /// The kind of this value.
    pub fn kind(&self) -> (kind: ValueKind)
        ensures
            kind == kind_of(self.model()),
    {
        match self {
            BencodeDecodedValue::String(_) => ValueKind::String,
            BencodeDecodedValue::Integer(_) => ValueKind::Integer,
            BencodeDecodedValue::List(_) => ValueKind::List,
            BencodeDecodedValue::Dictionary(_) => ValueKind::Dictionary,
            BencodeDecodedValue::End => ValueKind::End,
        }
    }

    /// The bytes of a string value.
    pub fn get_as_string(&self) -> (res: Result<&Vec<u8>, BencodeDecoderError>)
        ensures
            match self {
                BencodeDecodedValue::String(s) => res == Ok::<&Vec<u8>, BencodeDecoderError>(s),
                _ => res == Err::<&Vec<u8>, BencodeDecoderError>(
                    BencodeDecoderError::WrongExpectedValue(ValueKind::String, kind_of(self.model())),
                ),
            },
    {
        match self {
            BencodeDecodedValue::String(value) => Ok(value),
            _ => Err(BencodeDecoderError::WrongExpectedValue(ValueKind::String, self.kind())),
        }
    }

    /// The number held by an integer value.
    pub fn get_as_integer(&self) -> (res: Result<&i64, BencodeDecoderError>)
        ensures
            match self {
                BencodeDecodedValue::Integer(n) => res == Ok::<&i64, BencodeDecoderError>(n),
                _ => res == Err::<&i64, BencodeDecoderError>(
                    BencodeDecoderError::WrongExpectedValue(ValueKind::Integer, kind_of(self.model())),
                ),
            },
    {
        match self {
            BencodeDecodedValue::Integer(value) => Ok(value),
            _ => Err(BencodeDecoderError::WrongExpectedValue(ValueKind::Integer, self.kind())),
        }
    }

    /// The items of a list value.
    pub fn get_as_list(&self) -> (res: Result<&Vec<BencodeDecodedValue>, BencodeDecoderError>)
        ensures
            match self {
                BencodeDecodedValue::List(items) => res == Ok::<
                    &Vec<BencodeDecodedValue>,
                    BencodeDecoderError,
                >(items),
                _ => res == Err::<&Vec<BencodeDecodedValue>, BencodeDecoderError>(
                    BencodeDecoderError::WrongExpectedValue(ValueKind::List, kind_of(self.model())),
                ),
            },
    {
        match self {
            BencodeDecodedValue::List(value) => Ok(value),
            _ => Err(BencodeDecoderError::WrongExpectedValue(ValueKind::List, self.kind())),
        }
    }

    /// The dictionary held by a dictionary value.
    pub fn get_as_dictionary(&self) -> (res: Result<&BencodeDictionary, BencodeDecoderError>)
        ensures
            match self {
                BencodeDecodedValue::Dictionary(d) => res == Ok::<
                    &BencodeDictionary,
                    BencodeDecoderError,
                >(d),
                _ => res == Err::<&BencodeDictionary, BencodeDecoderError>(
                    BencodeDecoderError::WrongExpectedValue(
                        ValueKind::Dictionary,
                        kind_of(self.model()),
                    ),
                ),
            },
    {
        match self {
            BencodeDecodedValue::Dictionary(value) => Ok(value),
            _ => Err(BencodeDecoderError::WrongExpectedValue(ValueKind::Dictionary, self.kind())),
        }
    }
}

impl BencodeDictionary {
    #[verifier::type_invariant]
    spec fn keys_in_order(self) -> bool {
        forall|i: int, j: int|
            0 <= i < j < self.entries.len() ==> bytes_lt(
                #[trigger] self.entries@[i].0@,
                #[trigger] self.entries@[j].0@,
            )
    }

    /// The entries of the dictionary, in increasing key order.
    pub closed spec fn model(self) -> Seq<(Seq<u8>, SpecValue)>
        decreases self,
    {
        proof {
            assert forall|i: int| 0 <= i < self.entries.len() implies decreases_to!(
                self => self.entries@[i].1
            ) by {
                assert(decreases_to!(self.entries => self.entries@));
                assert(decreases_to!(self.entries@ => self.entries@[i]));
                assert(decreases_to!(self.entries@[i] => self.entries@[i].1));
            }
        }
        Seq::new(
            self.entries.len() as nat,
            |i: int|
                if 0 <= i < self.entries.len() {
                    (self.entries@[i].0@, self.entries@[i].1.model())
                } else {
                    (Seq::empty(), SpecValue::End)
                },
        )
    }

    proof fn lemma_model_sorted(self)
        requires
            self.keys_in_order(),
        ensures
            keys_sorted(self.model()),
    {
        assert forall|i: int, j: int| 0 <= i < j < self.model().len() implies bytes_lt(
            #[trigger] self.model()[i].0,
            #[trigger] self.model()[j].0,
        ) by {
            assert(self.model()[i].0 == self.entries@[i].0@);
            assert(self.model()[j].0 == self.entries@[j].0@);
        }
    }

    /// The entries, in increasing key order.
    pub fn entries(&self) -> (entries: &Vec<(Vec<u8>, BencodeDecodedValue)>)
        ensures
            entry_models(entries@) == self.model(),
            forall|i: int| 0 <= i < entries.len() ==> decreases_to!(*self => (#[trigger] entries@[i]).1),
    {
        assert(entry_models(self.entries@) =~= self.model());
        assert forall|i: int| 0 <= i < self.entries.len() implies decreases_to!(*self => (#[trigger] self.entries@[i]).1) by {
            assert(decreases_to!(self.entries => self.entries@));
            assert(decreases_to!(self.entries@ => self.entries@[i]));
            assert(decreases_to!(self.entries@[i] => self.entries@[i].1));
        }
        &self.entries
    }

    /// An empty dictionary.
    pub fn new() -> (d: Self)
        ensures
            d.model() == Seq::<(Seq<u8>, SpecValue)>::empty(),
            keys_sorted(d.model()),
    {
        let d = BencodeDictionary { entries: Vec::new() };
        assert(d.model() =~= Seq::<(Seq<u8>, SpecValue)>::empty());
        d
    }

    /// The number of entries.
    pub fn len(&self) -> (n: usize)
        ensures
            n == self.model().len(),
    {
        self.entries.len()
    }

    /// Whether the dictionary has no entry.
    pub fn is_empty(&self) -> (empty: bool)
        ensures
            empty == (self.model().len() == 0),
    {
        self.entries.len() == 0
    }

    /// Binds `key` to `value`, replacing the value that the key had.
    pub fn insert(&mut self, key: Vec<u8>, value: BencodeDecodedValue)
        ensures
            final(self).model() == dict_insert(old(self).model(), key@, value.model()),
            keys_sorted(final(self).model()),
    {
        proof {
            use_type_invariant(&*self);
        }
        let ghost old_model = self.model();
        let ghost kv = key@;
        let ghost vv = value.model();
        let mut entries: Vec<(Vec<u8>, BencodeDecodedValue)> = Vec::new();
        std::mem::swap(&mut entries, &mut self.entries);
        let ghost orig = entries@;
        assert(old_model =~= Seq::new(
            orig.len() as nat,
            |i: int| (orig[i].0@, orig[i].1.model()),
        ));
        let mut i: usize = 0;
        let mut found_place = false;
        let mut same_key = false;
        while i < entries.len()
            invariant_except_break
                entries@ == orig,
                key@ == kv,
                0 <= i <= orig.len(),
                forall|j: int| 0 <= j < i ==> bytes_lt(#[trigger] orig[j].0@, kv),
                !found_place,
            ensures
                entries@ == orig,
                key@ == kv,
                0 <= i <= orig.len(),
                forall|j: int| 0 <= j < i ==> bytes_lt(#[trigger] orig[j].0@, kv),
                found_place ==> i < orig.len() && (same_key == (orig[i as int].0@ == kv)) && (
                !same_key ==> bytes_lt(kv, orig[i as int].0@)),
                !found_place ==> i == orig.len(),
            decreases orig.len() - i,
        {
            let current = &entries[i].0;
            assert(current@ == orig[i as int].0@);
            let order = compare_bytes(current.as_slice(), key.as_slice());
            match order {
                KeyOrder::Less => {
                    assert(bytes_lt(orig[i as int].0@, kv));
                    i = i + 1;
                },
                KeyOrder::Equal => {
                    found_place = true;
                    same_key = true;
                    break;
                },
                KeyOrder::Greater => {
                    found_place = true;
                    same_key = false;
                    break;
                },
            }
        }
        proof {
            lemma_dict_insert_at(old_model, kv, vv, i as int);
        }
        if found_place && same_key {
            let ghost before = entries@;
            let (k_old, _v_old) = entries.remove(i);
            entries.insert(i, (k_old, value));
            assert(entries@ =~= before.update(i as int, entries@[i as int]));
        } else {
            entries.insert(i, (key, value));
        }
        let ghost new_entries = entries@;
        proof {
            lemma_dict_insert_keys(old_model, kv, vv);
            let r = dict_insert(old_model, kv, vv);
            assert(r.len() == new_entries.len());
            assert forall|j: int| 0 <= j < new_entries.len() implies #[trigger] r[j] == (
            new_entries[j].0@, new_entries[j].1.model()) by {
                if j < i {
                    assert(new_entries[j] == orig[j]);
                } else if j > i {
                    if found_place && same_key {
                        assert(new_entries[j] == orig[j]);
                    } else {
                        assert(new_entries[j] == orig[j - 1]);
                    }
                }
            }
            assert forall|a: int, b: int| 0 <= a < b < new_entries.len() implies bytes_lt(
                #[trigger] new_entries[a].0@,
                #[trigger] new_entries[b].0@,
            ) by {
                assert(r[a].0 == new_entries[a].0@);
                assert(r[b].0 == new_entries[b].0@);
            }
        }
        self.entries = entries;
        assert(self.model() =~= dict_insert(old_model, kv, vv));
        proof {
            self.lemma_model_sorted();
        }
    }

    /// The value bound to `key`, if any.
    pub fn get(&self, key: &[u8]) -> (res: Option<&BencodeDecodedValue>)
        ensures
            match res {
                None => dict_get(self.model(), key@) is None,
                Some(v) => dict_get(self.model(), key@) == Some(v.model()),
            },
    {
        let ghost m = self.model();
        let mut i: usize = 0;
        assert(m.skip(0) =~= m);
        while i < self.entries.len()
            invariant
                0 <= i <= self.entries.len(),
                m == self.model(),
                dict_get(m, key@) == dict_get(m.skip(i as int), key@),
            decreases self.entries.len() - i,
        {
            proof {
                assert(m.skip(i as int).drop_first() =~= m.skip(i + 1));
                assert(m.skip(i as int)[0] == m[i as int]);
            }
            if equal_bytes(self.entries[i].0.as_slice(), key) {
                return Some(&self.entries[i].1);
            }
            i = i + 1;
        }
        None
    }

    /// A dictionary that binds the keys of `pairs` to their values, inserted in order, so
    /// that where a key occurs twice the later value stays.
    pub fn from_entries(pairs: Vec<(Vec<u8>, BencodeDecodedValue)>) -> (d: Self)
        ensures
            d.model() == dict_from(
                Seq::new(pairs.len() as nat, |i: int| (pairs@[i].0@, pairs@[i].1.model())),
            ),
            keys_sorted(d.model()),
    {
        let ghost all = Seq::new(pairs.len() as nat, |i: int| (pairs@[i].0@, pairs@[i].1.model()));
        let mut rest = pairs;
        let mut d = BencodeDictionary::new();
        let ghost mut taken: int = 0;
        while rest.len() > 0
            invariant
                0 <= taken <= all.len(),
                rest.len() == all.len() - taken,
                forall|j: int| 0 <= j < rest.len() ==> (#[trigger] rest@[j].0@, rest@[j].1.model())
                    == all[taken + j],
                d.model() == dict_from(all.take(taken)),
                keys_sorted(d.model()),
            decreases rest.len(),
        {
            let ghost before = rest@;
            let (k, v) = rest.remove(0);
            proof {
                assert(all.take(taken + 1).drop_last() =~= all.take(taken));
                assert((k@, v.model()) == all[taken]) by {
                    assert((before[0].0@, before[0].1.model()) == all[taken + 0]);
                }
                assert forall|j: int| 0 <= j < rest.len() implies (#[trigger] rest@[j].0@, rest@[j].1.model())
                    == all[taken + 1 + j] by {
                    assert(rest@[j] == before[j + 1]);
                }
            }
            d.insert(k, v);
            proof {
                taken = taken + 1;
            }
        }
        assert(all.take(taken) =~= all);
        d
    }
}

/// How one byte string compares with another in key order.
pub enum KeyOrder {
    Less,
    Equal,
    Greater,
}

/// Compares two byte strings in key order.
pub fn compare_bytes(a: &[u8], b: &[u8]) -> (order: KeyOrder)
    ensures
        (order is Less) == bytes_lt(a@, b@),
        (order is Equal) == (a@ == b@),
        (order is Greater) == bytes_lt(b@, a@),
{
    let mut i: usize = 0;
    assert(a@.skip(0) =~= a@);
    assert(b@.skip(0) =~= b@);
    assert(a@.take(0) =~= b@.take(0));
    while i < a.len() && i < b.len()
        invariant
            0 <= i <= a.len(),
            i <= b.len(),
            a@.take(i as int) == b@.take(i as int),
            bytes_lt(a@, b@) == bytes_lt(a@.skip(i as int), b@.skip(i as int)),
            bytes_lt(b@, a@) == bytes_lt(b@.skip(i as int), a@.skip(i as int)),
        decreases a.len() - i,
    {
        if a[i] != b[i] {
            proof {
                assert(a@.skip(i as int)[0] == a@[i as int]);
                assert(b@.skip(i as int)[0] == b@[i as int]);
                if a@ == b@ {
                    assert(a@[i as int] == b@[i as int]);
                }
            }
            if a[i] < b[i] {
                return KeyOrder::Less;
            } else {
                return KeyOrder::Greater;
            }
        }
        proof {
            assert(a@.skip(i as int).drop_first() =~= a@.skip(i + 1));
            assert(b@.skip(i as int).drop_first() =~= b@.skip(i + 1));
            assert(a@.take(i + 1) =~= a@.take(i as int).push(a@[i as int]));
            assert(b@.take(i + 1) =~= b@.take(i as int).push(b@[i as int]));
        }
        i = i + 1;
    }
    proof {
        assert(a@.take(i as int) =~= a@.subrange(0, i as int));
    }
    if a.len() == b.len() {
        assert(a@ =~= a@.take(i as int));
        assert(b@ =~= b@.take(i as int));
        proof {
            lemma_bytes_lt_irreflexive(a@);
        }
        KeyOrder::Equal
    } else if a.len() < b.len() {
        proof {
            if a@ == b@ {
                assert(a@.len() == b@.len());
            }
        }
        KeyOrder::Less
    } else {
        proof {
            if a@ == b@ {
                assert(a@.len() == b@.len());
            }
        }
        KeyOrder::Greater
    }
}

/// Whether two byte strings are equal.
pub fn equal_bytes(a: &[u8], b: &[u8]) -> (same: bool)
    ensures
        same == (a@ == b@),
{
    match compare_bytes(a, b) {
        KeyOrder::Equal => true,
        _ => false,
    }
}

} // verus!
