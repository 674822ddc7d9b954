//! A bounded cache of what passed through a node, evicted first in, first out.

use vstd::prelude::*;

verus! {

/// What an entry is found by: the session and the index of the fragment.
pub type Key = (u64, u64);

/// The largest capacity that a buffer can be resized to.
pub const MAX_BUFFER_SIZE: usize = 1024;

/// The keys of a list of entries, in the entries' order.
pub open spec fn keys<V>(entries: Seq<(Key, V)>) -> Seq<Key> {
    Seq::new(entries.len(), |i: int| entries[i].0)
}

/// What is stored under `key`, if anything.
pub open spec fn lookup<V>(entries: Seq<(Key, V)>, key: Key) -> Option<V> {
    if keys(entries).contains(key) {
        Some(entries[keys(entries).index_of(key)].1)
    } else {
        None
    }
}

/// The entries once room has been made: with the buffer at or over its
/// capacity the oldest entry leaves.
pub open spec fn after_eviction<V>(entries: Seq<(Key, V)>, capacity: nat) -> Seq<(Key, V)> {
    if entries.len() > 0 && entries.len() >= capacity {
        entries.drop_first()
    } else {
        entries
    }
}

/// The entries after `value` has been stored under `key`: room is made first;
/// then a key that is still there keeps its place and gets the new value, and
/// a new key goes to the back.
pub open spec fn after_put<V>(entries: Seq<(Key, V)>, capacity: nat, key: Key, value: V) -> Seq<
    (Key, V),
> {
    let kept = after_eviction(entries, capacity);
    if keys(kept).contains(key) {
        kept.update(keys(kept).index_of(key), (key, value))
    } else {
        kept.push((key, value))
    }
}

/// The entries after the one under `key` has been taken out.
pub open spec fn after_take<V>(entries: Seq<(Key, V)>, key: Key) -> Seq<(Key, V)> {
    if keys(entries).contains(key) {
        entries.remove(keys(entries).index_of(key))
    } else {
        entries
    }
}

/// The entries after each of `items` has been stored, first to last.
pub open spec fn after_puts<V>(entries: Seq<(Key, V)>, capacity: nat, items: Seq<(Key, V)>) -> Seq<
    (Key, V),
>
    decreases items.len(),
{
    if items.len() == 0 {
        entries
    } else {
        after_put(
            after_puts(entries, capacity, items.drop_last()),
            capacity,
            items.last().0,
            items.last().1,
        )
    }
}

/// With distinct keys, the place of a key is the place of any entry that has
/// it.
pub proof fn lemma_index_of_key<V>(entries: Seq<(Key, V)>, i: int)
    requires
        keys(entries).no_duplicates(),
        0 <= i < entries.len(),
    ensures
        keys(entries).contains(entries[i].0),
        keys(entries).index_of(entries[i].0) == i,
{
    let ks = keys(entries);
    assert(ks[i] == entries[i].0);
    let j = ks.index_of(entries[i].0);
    assert(0 <= j < ks.len() && ks[j] == entries[i].0);
}

/// Making room keeps the keys distinct.
pub proof fn lemma_eviction_keeps_keys_distinct<V>(entries: Seq<(Key, V)>, capacity: nat)
    requires
        keys(entries).no_duplicates(),
    ensures
        keys(after_eviction(entries, capacity)).no_duplicates(),
{
    let kept = after_eviction(entries, capacity);
    let ks = keys(kept);
    if kept != entries {
        assert forall|i: int, j: int| 0 <= i < ks.len() && 0 <= j < ks.len() && i != j implies ks[i]
            != ks[j] by {
            assert(ks[i] == keys(entries)[i + 1]);
            assert(ks[j] == keys(entries)[j + 1]);
        }
    }
}

/// Storing keeps the keys distinct, and the value stored is then found under
/// its key.
pub proof fn lemma_put_keeps_keys_distinct<V>(
    entries: Seq<(Key, V)>,
    capacity: nat,
    key: Key,
    value: V,
)
    requires
        keys(entries).no_duplicates(),
    ensures
        keys(after_put(entries, capacity, key, value)).no_duplicates(),
        lookup(after_put(entries, capacity, key, value), key) == Some(value),
{
    let kept = after_eviction(entries, capacity);
    let ks = keys(kept);
    lemma_eviction_keeps_keys_distinct(entries, capacity);
    let next = after_put(entries, capacity, key, value);
    if ks.contains(key) {
        let p = ks.index_of(key);
        assert(0 <= p < ks.len() && ks[p] == key);
        assert(keys(next) =~= ks);
        assert(next[p] == (key, value));
        lemma_index_of_key(next, p);
    } else {
        let p = kept.len() as int;
        assert(keys(next) =~= ks.push(key));
        assert forall|i: int, j: int|
            0 <= i < keys(next).len() && 0 <= j < keys(next).len() && i != j implies keys(next)[i]
            != keys(next)[j] by {
            if i < p {
                assert(ks.contains(ks[i]));
            }
            if j < p {
                assert(ks.contains(ks[j]));
            }
        }
        assert(next[p] == (key, value));
        lemma_index_of_key(next, p);
    }
}

/// Taking out keeps the keys distinct, and the key taken is gone.
pub proof fn lemma_take_keeps_keys_distinct<V>(entries: Seq<(Key, V)>, key: Key)
    requires
        keys(entries).no_duplicates(),
    ensures
        keys(after_take(entries, key)).no_duplicates(),
        !keys(after_take(entries, key)).contains(key),
{
    let ks = keys(entries);
    let rest = after_take(entries, key);
    if ks.contains(key) {
        let p = ks.index_of(key);
        assert(0 <= p < ks.len() && ks[p] == key);
        assert(keys(rest) =~= ks.remove(p));
        assert forall|i: int, j: int|
            0 <= i < keys(rest).len() && 0 <= j < keys(rest).len() && i != j implies keys(rest)[i]
            != keys(rest)[j] by {
            let a = if i < p { i } else { i + 1 };
            let b = if j < p { j } else { j + 1 };
            assert(keys(rest)[i] == ks[a]);
            assert(keys(rest)[j] == ks[b]);
        }
        assert forall|i: int| 0 <= i < keys(rest).len() implies keys(rest)[i] != key by {
            let a = if i < p { i } else { i + 1 };
            assert(keys(rest)[i] == ks[a]);
        }
    }
}

/// Reading is destructive: once an entry has been taken out, taking the same
/// key again finds nothing, as long as nothing was stored in between.
pub proof fn lemma_take_twice_finds_nothing<V>(entries: Seq<(Key, V)>, key: Key)
    requires
        keys(entries).no_duplicates(),
        lookup(entries, key).is_some(),
    ensures
        lookup(after_take(entries, key), key).is_none(),
        after_take(after_take(entries, key), key) == after_take(entries, key),
{
    lemma_take_keeps_keys_distinct(entries, key);
}

/// While there is room, the buffer holds exactly what was stored, in the
/// order in which it was stored.
pub proof fn lemma_puts_below_capacity<V>(capacity: nat, items: Seq<(Key, V)>)
    requires
        items.len() <= capacity,
        keys(items).no_duplicates(),
    ensures
        after_puts(Seq::<(Key, V)>::empty(), capacity, items) == items,
    decreases items.len(),
{
    if items.len() > 0 {
        let front = items.drop_last();
        assert forall|i: int, j: int|
            0 <= i < keys(front).len() && 0 <= j < keys(front).len() && i != j implies keys(front)[i]
            != keys(front)[j] by {
            assert(keys(front)[i] == keys(items)[i]);
            assert(keys(front)[j] == keys(items)[j]);
        }
        lemma_puts_below_capacity(capacity, front);
        let last = items.last();
        assert(!keys(front).contains(last.0)) by {
            if keys(front).contains(last.0) {
                let p = keys(front).index_of(last.0);
                assert(keys(items)[p] == last.0);
                assert(keys(items)[items.len() - 1] == last.0);
            }
        }
        assert(after_eviction(front, capacity) == front);
        assert(front.push(last) =~= items);
    } else {
        assert(items =~= Seq::<(Key, V)>::empty());
    }
}

/// First in, first out: when one entry more than the capacity is stored into
/// an empty buffer, all under different keys, exactly the first one has left.
/// Its key is absent, and every later key still gives its value. A capacity of
/// zero is left out: such a buffer still keeps the entry stored last.
pub proof fn lemma_first_in_first_out<V>(capacity: nat, items: Seq<(Key, V)>)
    requires
        capacity >= 1,
        items.len() == capacity + 1,
        keys(items).no_duplicates(),
    ensures
        after_puts(Seq::<(Key, V)>::empty(), capacity, items) == items.drop_first(),
        lookup(after_puts(Seq::<(Key, V)>::empty(), capacity, items), items[0].0).is_none(),
        forall|i: int|
            1 <= i < items.len() ==> lookup(
                after_puts(Seq::<(Key, V)>::empty(), capacity, items),
                #[trigger] items[i].0,
            ) == Some(items[i].1),
{
    let front = items.drop_last();
    let last = items.last();
    assert forall|i: int, j: int|
        0 <= i < keys(front).len() && 0 <= j < keys(front).len() && i != j implies keys(front)[i]
        != keys(front)[j] by {
        assert(keys(front)[i] == keys(items)[i]);
        assert(keys(front)[j] == keys(items)[j]);
    }
    lemma_puts_below_capacity(capacity, front);
    let kept = after_eviction(front, capacity);
    assert(kept == front.drop_first());
    assert(!keys(kept).contains(last.0)) by {
        if keys(kept).contains(last.0) {
            let p = keys(kept).index_of(last.0);
            assert(keys(items)[p + 1] == last.0);
            assert(keys(items)[items.len() - 1] == last.0);
        }
    }
    let result = after_puts(Seq::<(Key, V)>::empty(), capacity, items);
    assert(result == kept.push(last));
    assert(kept.push(last) =~= items.drop_first());
    assert forall|i: int, j: int|
        0 <= i < keys(result).len() && 0 <= j < keys(result).len() && i != j implies keys(result)[i]
        != keys(result)[j] by {
        assert(keys(result)[i] == keys(items)[i + 1]);
        assert(keys(result)[j] == keys(items)[j + 1]);
    }
    assert(!keys(result).contains(items[0].0)) by {
        if keys(result).contains(items[0].0) {
            let p = keys(result).index_of(items[0].0);
            assert(keys(items)[p + 1] == items[0].0);
            assert(keys(items)[0] == items[0].0);
        }
    }
    assert forall|i: int| 1 <= i < items.len() implies lookup(result, #[trigger] items[i].0) == Some(
        items[i].1,
    ) by {
        assert(result[i - 1] == items[i]);
        lemma_index_of_key(result, i - 1);
    }
}

/// A bounded store of values under `(session_id, fragment_index)`. When it is
/// full, storing evicts the entry that was stored first; reading an entry
/// takes it out.
#[derive(Debug)]
pub struct PacketBuffer<V> {
    /// The entries, oldest first. No key occurs twice.
    entries: Vec<(Key, V)>,
    /// How many entries the buffer may hold before storing evicts.
    max_size: usize,
}

impl<V> View for PacketBuffer<V> {
    type V = Seq<(Key, V)>;

    closed spec fn view(&self) -> Seq<(Key, V)> {
        self.entries@
    }
}

impl<V> PacketBuffer<V> {
    #[verifier::type_invariant]
    spec fn keys_are_distinct(self) -> bool {
        keys(self.entries@).no_duplicates()
    }

    /// The capacity: the number of entries from which on storing evicts.
    pub closed spec fn capacity(self) -> nat {
        self.max_size as nat
    }

    /// An empty buffer of the given capacity.
    pub fn new(max_size: usize) -> (buffer: Self)
        ensures
            buffer@ == Seq::<(Key, V)>::empty(),
            buffer.capacity() == max_size,
            keys(buffer@).no_duplicates(),
    {
        let buffer = PacketBuffer { entries: Vec::new(), max_size };
        assert(keys(buffer.entries@) =~= Seq::<Key>::empty());
        buffer
    }

    /// Where the entry under `key` stands, if there is one.
    fn position(&self, key: Key) -> (place: Option<usize>)
        ensures
            match place {
                Some(i) => keys(self@).contains(key) && i == keys(self@).index_of(key) && i
                    < self@.len(),
                None => !keys(self@).contains(key),
            },
    {
        proof {
            use_type_invariant(self);
        }
        let mut i: usize = 0;
        while i < self.entries.len()
            invariant
                i <= self.entries.len(),
                keys(self.entries@).no_duplicates(),
                forall|k: int| 0 <= k < i ==> self.entries@[k].0 != key,
            decreases self.entries.len() - i,
        {
            let stored: Key = self.entries[i].0;
            if stored.0 == key.0 && stored.1 == key.1 {
                proof {
                    lemma_index_of_key(self.entries@, i as int);
                }
                return Some(i);
            }
            i += 1;
        }
        proof {
            let ks = keys(self.entries@);
            if ks.contains(key) {
                let p = ks.index_of(key);
                assert(ks[p] == key);
                assert(self.entries@[p].0 == key);
            }
        }
        None
    }

    /// Stores `packet` under `(session_id, fragment_index)`. With the buffer
    /// at or over its capacity the oldest entry is evicted first. A key that
    /// is then still present keeps its place and gets the new value.
    pub fn add_fragment(&mut self, session_id: u64, fragment_index: u64, packet: V)
        ensures
            final(self)@ == after_put(
                old(self)@,
                old(self).capacity(),
                (session_id, fragment_index),
                packet,
            ),
            final(self).capacity() == old(self).capacity(),
            keys(old(self)@).no_duplicates(),
            keys(final(self)@).no_duplicates(),
    {
        proof {
            use_type_invariant(&*self);
            lemma_eviction_keeps_keys_distinct(self.entries@, self.max_size as nat);
            lemma_put_keeps_keys_distinct(
                self.entries@,
                self.max_size as nat,
                (session_id, fragment_index),
                packet,
            );
        }
        let key: Key = (session_id, fragment_index);
        let mut taken: PacketBuffer<V> = PacketBuffer::new(self.max_size);
        std::mem::swap(self, &mut taken);
        let PacketBuffer { entries: mut entries, max_size } = taken;
        if entries.len() > 0 && entries.len() >= max_size {
            entries.remove(0);
        }
        assert(entries@ =~= after_eviction(old(self).entries@, old(self).max_size as nat));
        let kept: PacketBuffer<V> = PacketBuffer { entries, max_size };
        let place: Option<usize> = kept.position(key);
        let PacketBuffer { entries: mut entries, max_size } = kept;
        match place {
            Some(i) => {
                entries.set(i, (key, packet));
            },
            None => {
                entries.push((key, packet));
            },
        }
        *self = PacketBuffer { entries, max_size };
    }

    /// Takes out and returns what is stored under
    /// `(session_id, fragment_index)`, or returns `None` and leaves the buffer
    /// as it is where nothing is stored there.
    pub fn get_fragment(&mut self, session_id: u64, fragment_index: u64) -> (found: Option<V>)
        ensures
            found == lookup(old(self)@, (session_id, fragment_index)),
            final(self)@ == after_take(old(self)@, (session_id, fragment_index)),
            final(self).capacity() == old(self).capacity(),
            !keys(final(self)@).contains((session_id, fragment_index)),
            keys(old(self)@).no_duplicates(),
            keys(final(self)@).no_duplicates(),
    {
        proof {
            use_type_invariant(&*self);
            lemma_take_keeps_keys_distinct(self.entries@, (session_id, fragment_index));
        }
        let key: Key = (session_id, fragment_index);
        match self.position(key) {
            Some(i) => {
                let mut taken: PacketBuffer<V> = PacketBuffer::new(self.max_size);
                std::mem::swap(self, &mut taken);
                let PacketBuffer { entries: mut entries, max_size } = taken;
                let entry: (Key, V) = entries.remove(i);
                *self = PacketBuffer { entries, max_size };
                Some(entry.1)
            },
            None => None,
        }
    }

    /// Sets the capacity to `new_size`, or to 1024 where `new_size` is larger.
    /// The entries stay, also where there are more of them than the new
    /// capacity.
    pub fn edit_max_size_buffer(&mut self, new_size: usize)
        ensures
            final(self).capacity() == if new_size > MAX_BUFFER_SIZE {
                MAX_BUFFER_SIZE as nat
            } else {
                new_size as nat
            },
            final(self)@ == old(self)@,
    {
        proof {
            use_type_invariant(&*self);
        }
        if new_size > MAX_BUFFER_SIZE {
            self.max_size = MAX_BUFFER_SIZE;
        } else {
            self.max_size = new_size;
        }
    }

    /// How many entries the buffer holds.
    pub fn len(&self) -> (n: usize)
        ensures
            n == self@.len(),
    {
        self.entries.len()
    }

    /// The capacity the buffer has now.
    pub fn max_size(&self) -> (n: usize)
        ensures
            n == self.capacity(),
    {
        self.max_size
    }

    /// Whether something is stored under `(session_id, fragment_index)`.
    pub fn contains(&self, session_id: u64, fragment_index: u64) -> (present: bool)
        ensures
            present == keys(self@).contains((session_id, fragment_index)),
    {
        self.position((session_id, fragment_index)).is_some()
    }
}

} // verus!
