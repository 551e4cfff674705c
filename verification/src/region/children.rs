//! Child regions of a region.
//!
//! Children are kept in an insertion-ordered map from their key to their index
//! in the region tree.

use core::cmp::Ordering;

use indexmap::IndexMap;
use vstd::prelude::*;
use vstd::utf8::*;

use crate::text::lemma_encode_injective;

verus! {

/// Insertion-ordered hash map of the `indexmap` crate.
#[verifier::external_type_specification]
#[verifier::external_body]
#[verifier::reject_recursive_types(K)]
#[verifier::reject_recursive_types(V)]
#[verifier::reject_recursive_types(S)]
pub struct ExIndexMap<K, V, S>(IndexMap<K, V, S>);

/// Keys and values of a map, in their order.
pub uninterp spec fn entries(map: IndexMap<String, usize>) -> Seq<(Seq<char>, usize)>;

/// Position of a key in a list of entries, or `-1`.
pub open spec fn key_position(list: Seq<(Seq<char>, usize)>, key: Seq<char>) -> int
    decreases list.len(),
{
    if list.len() == 0 {
        -1
    } else if list.last().0 == key {
        list.len() - 1
    } else {
        key_position(list.drop_last(), key)
    }
}

/// Lexicographic order of byte strings.
pub open spec fn bytes_less(a: Seq<u8>, b: Seq<u8>) -> bool
    decreases a.len(),
{
    if b.len() == 0 {
        false
    } else if a.len() == 0 {
        true
    } else if a[0] != b[0] {
        a[0] < b[0]
    } else {
        bytes_less(a.drop_first(), b.drop_first())
    }
}

/// Keys are found at the position where they are.
pub proof fn lemma_key_position(list: Seq<(Seq<char>, usize)>, key: Seq<char>)
    ensures
        -1 <= key_position(list, key) < list.len(),
        key_position(list, key) >= 0 ==> list[key_position(list, key)].0 == key,
        key_position(list, key) == -1 ==> forall|i: int|
            0 <= i < list.len() ==> (#[trigger] list[i]).0 != key,
    decreases list.len(),
{
    if list.len() > 0 && list.last().0 != key {
        lemma_key_position(list.drop_last(), key);
        if key_position(list, key) == -1 {
            assert forall|i: int| 0 <= i < list.len() implies (#[trigger] list[i]).0 != key by {
                if i < list.len() - 1 {
                    assert(list.drop_last()[i] == list[i]);
                }
            }
        }
    }
}

/// Keys are ordered by their encoding.
pub open spec fn key_less(a: Seq<char>, b: Seq<char>) -> bool {
    bytes_less(encode_utf8(a), encode_utf8(b))
}

/// Every key comes before the smaller ones.
pub open spec fn descending(list: Seq<(Seq<char>, usize)>) -> bool {
    forall|i: int, j: int|
        0 <= i < j < list.len() ==> !key_less(#[trigger] list[i].0, #[trigger] list[j].0)
}

/// Create a map without entries, by `IndexMap::new`.
#[verifier::external_body]
pub(crate) fn new_map() -> (map: IndexMap<String, usize>)
    ensures
        entries(map) == Seq::<(Seq<char>, usize)>::empty(),
{
    IndexMap::new()
}

/// Get the number of entries in a map, by `IndexMap::len`.
#[verifier::external_body]
pub(crate) fn map_len(map: &IndexMap<String, usize>) -> (len: usize)
    ensures
        len == entries(*map).len(),
{
    map.len()
}

/// Get the entry at a position of a map, by `IndexMap::get_index`.
///
/// There is an entry for every position in front of the map's length.
#[verifier::external_body]
pub(crate) fn map_entry(map: &IndexMap<String, usize>, index: usize) -> (entry: Option<
    (&String, usize),
>)
    ensures
        match entry {
            Some((key, value)) => index < entries(*map).len() && (key@, value) == entries(
                *map,
            )[index as int],
            None => index >= entries(*map).len(),
        },
{
    map.get_index(index).map(|entry| (entry.0, *entry.1))
}

/// Get the value of a key, or add the key with a default value to the end of
/// the map, by `IndexMap::entry` and `Entry::or_insert`.
///
/// A key never occurs twice in a map.
#[verifier::external_body]
pub(crate) fn map_or_insert(map: &mut IndexMap<String, usize>, key: String, default: usize) -> (value:
    usize)
    ensures
        ({
            let position = key_position(entries(*old(map)), key@);
            if position >= 0 {
                &&& entries(*final(map)) == entries(*old(map))
                &&& value == entries(*old(map))[position].1
            } else {
                &&& entries(*final(map)) == entries(*old(map)).push((key@, default))
                &&& value == default
            }
        }),
{
    *map.entry(key).or_insert(default)
}

/// Sort a map by descending key, by `IndexMap::sort_unstable_by`.
///
/// Sorting keeps all entries, with every key in front of the smaller ones.
#[verifier::external_body]
pub(crate) fn sort_descending(map: &mut IndexMap<String, usize>)
    ensures
        entries(*final(map)).to_multiset() == entries(*old(map)).to_multiset(),
        descending(entries(*final(map))),
{
    map.sort_unstable_by(|k1, _, k2, _| key_order(k2.as_str(), k1.as_str()));
}

/// Order of two keys.
pub open spec fn is_key_order(a: Seq<char>, b: Seq<char>, order: Ordering) -> bool {
    match order {
        Ordering::Less => key_less(a, b),
        Ordering::Equal => a == b,
        Ordering::Greater => key_less(b, a),
    }
}

/// Get the lexicographic order of two keys.
pub fn key_order(a: &str, b: &str) -> (order: Ordering)
    ensures
        is_key_order(a@, b@, order),
{
    if is_before(a, b) {
        Ordering::Less
    } else if is_before(b, a) {
        Ordering::Greater
    } else {
        proof {
            lemma_bytes_total(encode_utf8(a@), encode_utf8(b@));
            lemma_encode_injective(a@, b@);
        }
        Ordering::Equal
    }
}

/// Check whether a key comes before another one.
fn is_before(a: &str, b: &str) -> (before: bool)
    ensures
        before == key_less(a@, b@),
{
    let x = a.as_bytes();
    let y = b.as_bytes();
    let mut i: usize = 0;
    proof {
        assert(x@.skip(0) =~= x@);
        assert(y@.skip(0) =~= y@);
    }
    while i < x.len() && i < y.len()
        invariant
            i <= x.len(),
            i <= y.len(),
            x@ == encode_utf8(a@),
            y@ == encode_utf8(b@),
            bytes_less(x@, y@) == bytes_less(x@.skip(i as int), y@.skip(i as int)),
        decreases x.len() - i,
    {
        if x[i] != y[i] {
            return x[i] < y[i];
        }
        proof {
            assert(x@.skip(i as int).drop_first() =~= x@.skip(i + 1));
            assert(y@.skip(i as int).drop_first() =~= y@.skip(i + 1));
        }
        i += 1;
    }
    x.len() < y.len()
}

/// Byte strings without order between them are the same.
proof fn lemma_bytes_total(a: Seq<u8>, b: Seq<u8>)
    requires
        !bytes_less(a, b),
        !bytes_less(b, a),
    ensures
        a == b,
    decreases a.len(),
{
    if a.len() > 0 && b.len() > 0 {
        lemma_bytes_total(a.drop_first(), b.drop_first());
        assert(a =~= seq![a[0]] + a.drop_first());
        assert(b =~= seq![b[0]] + b.drop_first());
    } else {
        assert(a =~= b);
    }
}

/// Two byte strings are ordered by the first byte in which they differ, with a
/// prefix coming before everything which starts with it.
pub proof fn law_first_difference_decides(a: Seq<u8>, b: Seq<u8>, n: int)
    requires
        0 <= n <= a.len(),
        n <= b.len(),
        forall|i: int| 0 <= i < n ==> #[trigger] a[i] == b[i],
    ensures
        n == a.len() ==> (bytes_less(a, b) <==> n < b.len()),
        n == b.len() ==> !bytes_less(a, b),
        n < a.len() && n < b.len() && a[n] != b[n] ==> (bytes_less(a, b) <==> a[n] < b[n]),
    decreases n,
{
    if n > 0 {
        let x = a.drop_first();
        let y = b.drop_first();
        assert(a[0] == b[0]);
        assert forall|i: int| 0 <= i < n - 1 implies #[trigger] x[i] == y[i] by {
            assert(a[i + 1] == b[i + 1]);
        }
        law_first_difference_decides(x, y, n - 1);
    }
}

/// Sorted keys come in reverse order: none of them is in front of a bigger one.
pub proof fn law_sorted_keys_descend(list: Seq<(Seq<char>, usize)>, i: int, j: int)
    requires
        descending(list),
        0 <= i < j < list.len(),
    ensures
        list[i].0 == list[j].0 || key_less(list[j].0, list[i].0),
{
    let a = encode_utf8(list[i].0);
    let b = encode_utf8(list[j].0);
    assert(!key_less(list[i].0, list[j].0));
    if !bytes_less(b, a) {
        lemma_bytes_total(a, b);
        lemma_encode_injective(list[i].0, list[j].0);
    }
}

} // verus!
