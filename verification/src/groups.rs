//! Sorting of items by a key.

use vstd::hash_map::StringHashMap;
use vstd::prelude::*;

verus! {

/// What the strings `list` hold.
pub open spec fn texts(list: Seq<String>) -> Seq<Seq<char>> {
    Seq::new(list.len(), |i: int| list[i]@)
}

/// No key before key `i` equals it.
pub open spec fn is_first_key(keys: Seq<Seq<char>>, i: int) -> bool {
    forall|j: int| 0 <= j < i ==> #[trigger] keys[j] != keys[i]
}

/// The indices before `upto` of the keys that are the first of their
/// kind, in rising order.
pub open spec fn key_firsts(keys: Seq<Seq<char>>, upto: int) -> Seq<usize>
    decreases upto,
{
    if upto <= 0 {
        Seq::empty()
    } else if is_first_key(keys, upto - 1) {
        key_firsts(keys, upto - 1).push((upto - 1) as usize)
    } else {
        key_firsts(keys, upto - 1)
    }
}

/// The indices before `upto` of the keys that equal key `first`, in
/// rising order.
pub open spec fn key_members(keys: Seq<Seq<char>>, first: int, upto: int) -> Seq<usize>
    decreases upto,
{
    if upto <= 0 {
        Seq::empty()
    } else if keys[upto - 1] == keys[first] {
        key_members(keys, first, upto - 1).push((upto - 1) as usize)
    } else {
        key_members(keys, first, upto - 1)
    }
}

proof fn lemma_no_members_before_first(keys: Seq<Seq<char>>, first: int, upto: int)
    requires
        is_first_key(keys, first),
        upto <= first,
    ensures
        key_members(keys, first, upto) == Seq::<usize>::empty(),
    decreases upto,
{
    if upto > 0 {
        lemma_no_members_before_first(keys, first, upto - 1);
    }
}

/// The members of a key are indices before `upto` of keys that equal it,
/// in rising order, and every such index is a member.
pub proof fn lemma_key_members(keys: Seq<Seq<char>>, first: int, upto: int)
    requires
        0 <= upto <= usize::MAX,
    ensures
        forall|k: int|
            0 <= k < key_members(keys, first, upto).len() ==> (#[trigger] key_members(
                keys,
                first,
                upto,
            )[k]) < upto && keys[key_members(keys, first, upto)[k] as int] == keys[first],
        forall|k: int, l: int|
            0 <= k < l < key_members(keys, first, upto).len() ==> (#[trigger] key_members(
                keys,
                first,
                upto,
            )[k]) < (#[trigger] key_members(keys, first, upto)[l]),
        forall|i: int|
            0 <= i < upto && keys[i] == keys[first] ==> key_members(keys, first, upto).contains(
                i as usize,
            ),
    decreases upto,
{
    if upto > 0 {
        lemma_key_members(keys, first, upto - 1);
        let before = key_members(keys, first, upto - 1);
        let now = key_members(keys, first, upto);
        assert forall|i: int| 0 <= i < upto && keys[i] == keys[first] implies now.contains(
            i as usize,
        ) by {
            if i < upto - 1 {
                let k = choose|k: int| 0 <= k < before.len() && before[k] == i as usize;
                assert(now[k] == i as usize);
            } else {
                assert(now[now.len() - 1] == i as usize);
            }
        }
    }
}

/// The first keys come in rising order, each is the first of its kind,
/// and none is missing.
pub proof fn lemma_key_firsts(keys: Seq<Seq<char>>, upto: int)
    requires
        0 <= upto <= usize::MAX,
    ensures
        forall|g: int|
            0 <= g < key_firsts(keys, upto).len() ==> (#[trigger] key_firsts(keys, upto)[g]) < upto
                && is_first_key(keys, key_firsts(keys, upto)[g] as int),
        forall|g: int, h: int|
            0 <= g < h < key_firsts(keys, upto).len() ==> (#[trigger] key_firsts(keys, upto)[g]) < (
            #[trigger] key_firsts(keys, upto)[h]),
        forall|i: int|
            0 <= i < upto && is_first_key(keys, i) ==> exists|g: int|
                0 <= g < key_firsts(keys, upto).len() && #[trigger] key_firsts(keys, upto)[g] == i,
    decreases upto,
{
    if upto > 0 {
        lemma_key_firsts(keys, upto - 1);
        let before = key_firsts(keys, upto - 1);
        let now = key_firsts(keys, upto);
        assert forall|i: int| 0 <= i < upto && is_first_key(keys, i) implies exists|g: int|
            0 <= g < now.len() && #[trigger] now[g] == i by {
            if i < upto - 1 {
                let g = choose|g: int| 0 <= g < before.len() && #[trigger] before[g] == i;
                assert(now[g] == i);
            } else {
                assert(now[now.len() - 1] == i);
            }
        }
    }
}

/// Sorts the indices of `keys` by key. Returns, for each kind of key, the
/// index at which it first occurs, in rising order, and beside it the
/// indices of all the keys of that kind, in rising order. Returns also,
/// for each index, the number of the kind of its key.
pub fn group_keys(keys: &Vec<String>) -> (groups: (Vec<usize>, Vec<Vec<usize>>, Vec<usize>))
    ensures
        groups.0@ == key_firsts(texts(keys@), keys@.len() as int),
        groups.1@.len() == groups.0@.len(),
        forall|g: int|
            0 <= g < groups.0@.len() ==> (#[trigger] groups.1@[g])@ == key_members(
                texts(keys@),
                groups.0@[g] as int,
                keys@.len() as int,
            ),
        groups.2@.len() == keys@.len(),
        forall|i: int|
            0 <= i < keys@.len() ==> (#[trigger] groups.2@[i]) < groups.0@.len() && keys@[groups.0@[groups.2@[i] as int] as int]@
                == keys@[i]@,
{
    let ghost all = texts(keys@);
    let mut firsts: Vec<usize> = Vec::new();
    let mut members: Vec<Vec<usize>> = Vec::new();
    let mut kinds: Vec<usize> = Vec::new();
    let mut slots: StringHashMap<usize> = StringHashMap::new();
    let mut i: usize = 0;
    while i < keys.len()
        invariant
            all == texts(keys@),
            i <= keys@.len(),
            firsts@ == key_firsts(all, i as int),
            members@.len() == firsts@.len(),
            kinds@.len() == i,
            forall|g: int| 0 <= g < firsts@.len() ==> #[trigger] firsts@[g] < i,
            forall|g: int|
                0 <= g < firsts@.len() ==> (#[trigger] members@[g])@ == key_members(
                    all,
                    firsts@[g] as int,
                    i as int,
                ),
            forall|j: int|
                0 <= j < i ==> (#[trigger] kinds@[j]) < firsts@.len() && all[firsts@[kinds@[j] as int] as int]
                    == all[j],
            forall|id: Seq<char>| #[trigger]
                slots@.contains_key(id) ==> slots@[id] < firsts@.len() && all[firsts@[slots@[id] as int] as int]
                    == id,
            forall|g: int|
                0 <= g < firsts@.len() ==> slots@.contains_key(all[#[trigger] firsts@[g] as int])
                    && slots@[all[firsts@[g] as int]] == g,
            forall|j: int| 0 <= j < i ==> slots@.contains_key(#[trigger] all[j]),
        decreases keys@.len() - i,
    {
        let key = &keys[i];
        let known = match slots.get(key.as_str()) {
            Some(g) => Some(*g),
            None => None,
        };
        match known {
            Some(g) => {
                members[g].push(i);
                kinds.push(g);
            },
            None => {
                let g = firsts.len();
                firsts.push(i);
                let mut list: Vec<usize> = Vec::new();
                list.push(i);
                members.push(list);
                kinds.push(g);
                slots.insert(key.clone(), g);
                proof {
                    lemma_no_members_before_first(all, i as int, i as int);
                }
            },
        }
        i = i + 1;
    }
    (firsts, members, kinds)
}

} // verus!
