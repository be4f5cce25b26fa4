//! Header fields: names with their values, each name at most once, in the
//! order in which the names first came.

use vstd::prelude::*;

verus! {

/// A list of header fields as texts.
pub type Fields = Seq<(Seq<char>, Seq<char>)>;

/// The fields that a vector of pairs of strings holds.
pub open spec fn pairs(headers: Seq<(String, String)>) -> Fields {
    Seq::new(headers.len(), |i: int| (headers[i].0@, headers[i].1@))
}

/// How many fields stand before the first one named `key`; the number of
/// fields where none has that name.
pub open spec fn key_index(fields: Fields, key: Seq<char>) -> nat
    decreases fields.len(),
{
    if fields.len() == 0 || fields[0].0 == key {
        0
    } else {
        1 + key_index(fields.skip(1), key)
    }
}

/// The fields with `key` set to `value`: the field of that name gets the
/// new value where there is one, else a new field comes last.
pub open spec fn with_field(fields: Fields, key: Seq<char>, value: Seq<char>) -> Fields {
    let i = key_index(fields, key);
    if i < fields.len() {
        fields.update(i as int, (key, value))
    } else {
        fields.push((key, value))
    }
}

/// No two fields have the same name.
pub open spec fn distinct_keys(fields: Fields) -> bool {
    forall|i: int, j: int|
        0 <= i < j < fields.len() ==> (#[trigger] fields[i]).0 != (#[trigger] fields[j]).0
}

/// A count of fields before the first one named `key` is its index.
pub proof fn lemma_key_index(fields: Fields, key: Seq<char>, n: int)
    requires
        0 <= n <= fields.len(),
        forall|j: int| 0 <= j < n ==> fields[j].0 != key,
        n == fields.len() || fields[n].0 == key,
    ensures
        key_index(fields, key) == n,
    decreases n,
{
    if n > 0 {
        lemma_key_index(fields.skip(1), key, n - 1);
    }
}

/// The index of a name is within the list, no field before it has the
/// name, and the field at it has the name where it is a field at all.
pub proof fn lemma_key_index_found(fields: Fields, key: Seq<char>)
    ensures
        key_index(fields, key) <= fields.len(),
        forall|j: int| 0 <= j < key_index(fields, key) ==> (#[trigger] fields[j]).0 != key,
        key_index(fields, key) < fields.len() ==> fields[key_index(fields, key) as int].0 == key,
    decreases fields.len(),
{
    if fields.len() == 0 || fields[0].0 == key {
    } else {
        let rest = fields.skip(1);
        lemma_key_index_found(rest, key);
        assert forall|j: int| 0 <= j < key_index(fields, key) implies (#[trigger] fields[j]).0
            != key by {
            if j > 0 {
                assert(rest[j - 1] == fields[j]);
            }
        }
    }
}

/// Setting a field keeps every name unique.
pub proof fn lemma_with_field_distinct(fields: Fields, key: Seq<char>, value: Seq<char>)
    requires
        distinct_keys(fields),
    ensures
        distinct_keys(with_field(fields, key, value)),
{
    lemma_key_index_found(fields, key);
    let i = key_index(fields, key) as int;
    let after = with_field(fields, key, value);
    assert forall|a: int, b: int| 0 <= a < b < after.len() implies (#[trigger] after[a]).0 != (
    #[trigger] after[b]).0 by {
        if i < fields.len() {
            assert(fields[a].0 != fields[b].0);
        } else {
            if b < fields.len() {
                assert(fields[a].0 != fields[b].0);
            } else {
                assert(fields[a].0 != key);
            }
        }
    }
}

/// Sets the field named `key` to `value`.
pub fn set_field(headers: &mut Vec<(String, String)>, key: String, value: String)
    ensures
        pairs(final(headers)@) == with_field(pairs(old(headers)@), key@, value@),
{
    let mut i: usize = 0;
    while i < headers.len()
        invariant
            i <= headers@.len(),
            headers@ == old(headers)@,
            forall|j: int| 0 <= j < i ==> pairs(headers@)[j].0 != key@,
        decreases headers@.len() - i,
    {
        if headers[i].0 == key {
            proof {
                lemma_key_index(pairs(headers@), key@, i as int);
            }
            headers.set(i, (key, value));
            proof {
                assert(pairs(headers@) =~= with_field(pairs(old(headers)@), key@, value@));
            }
            return ;
        }
        i += 1;
    }
    proof {
        lemma_key_index(pairs(headers@), key@, i as int);
    }
    headers.push((key, value));
    proof {
        assert(pairs(headers@) =~= with_field(pairs(old(headers)@), key@, value@));
    }
}

} // verus!
