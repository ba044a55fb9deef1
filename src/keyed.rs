use vstd::prelude::*;

verus! {

/// A stored record that carries the serial it is looked up by.
pub trait Keyed {
    /// The record's serial.
    spec fn key_spec(&self) -> u64;

    /// Returns the record's serial.
    fn key(&self) -> (r: u64)
        ensures
            r == self.key_spec(),
    ;
}

/// The serials of a sequence of records, in order.
pub open spec fn keys_of<T: Keyed>(s: Seq<T>) -> Seq<u64> {
    s.map_values(|t: T| t.key_spec())
}

/// Position of the last occurrence of `id` in `keys`, or -1 if there is none.
pub open spec fn key_index(keys: Seq<u64>, id: u64) -> int
    decreases keys.len(),
{
    if keys.len() == 0 {
        -1
    } else if keys.last() == id {
        keys.len() - 1
    } else {
        key_index(keys.drop_last(), id)
    }
}

/// Where `key_index` points, and that -1 means that `id` does not occur.
pub proof fn lemma_key_index_bounds(keys: Seq<u64>, id: u64)
    ensures
        -1 <= key_index(keys, id) < keys.len(),
        key_index(keys, id) >= 0 ==> keys[key_index(keys, id)] == id,
        key_index(keys, id) == -1 ==> forall|j: int| 0 <= j < keys.len() ==> #[trigger] keys[j] != id,
    decreases keys.len(),
{
    if keys.len() > 0 {
        lemma_key_index_bounds(keys.drop_last(), id);
        if keys.last() != id {
            assert forall|j: int| 0 <= j < keys.len() && key_index(keys, id) == -1 implies #[trigger] keys[j]
                != id by {
                if j < keys.len() - 1 {
                    assert(keys.drop_last()[j] == keys[j]);
                }
            }
        }
    }
}

/// Position of the last record with serial `id` in `v`.
pub fn last_position<T: Keyed>(v: &Vec<T>, id: u64) -> (r: Option<usize>)
    ensures
        match r {
            Some(i) => i as int == key_index(keys_of(v@), id) && i < v@.len(),
            None => key_index(keys_of(v@), id) == -1,
        },
{
    let ghost keys = keys_of(v@);
    proof {
        lemma_key_index_bounds(keys, id);
    }
    let mut i: usize = v.len();
    assert(keys.subrange(0, i as int) =~= keys);
    while i > 0
        invariant
            i <= v@.len(),
            keys == keys_of(v@),
            key_index(keys, id) == key_index(keys.subrange(0, i as int), id),
        decreases i,
    {
        let ghost pre = keys.subrange(0, i as int);
        assert(pre.drop_last() =~= keys.subrange(0, i as int - 1));
        if v[i - 1].key() == id {
            return Some(i - 1);
        }
        i -= 1;
    }
    None
}

} // verus!
