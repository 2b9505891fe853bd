//! Long lists in chunks.
use vstd::prelude::*;

verus! {

/// The maximum number of query results we can store in a single message
pub const MAX_ENTRIES_PER_MESSAGE: usize = 64;

/// Turn a list into vectors of chunks of a given size
pub struct Chunker<T> {
    /// What has not been handed out yet.
    pub inner: Vec<T>,
    pub chunk_size: usize,
}

/// How many of some items go into the next chunk. A size of zero sets no limit.
pub open spec fn chunk_len(items: nat, chunk_size: nat) -> nat {
    if chunk_size == 0 || items < chunk_size {
        items
    } else {
        chunk_size
    }
}

/// The chunks of a list.
pub open spec fn chunks<T>(items: Seq<T>, chunk_size: nat) -> Seq<Seq<T>>
    decreases items.len(),
{
    if items.len() == 0 {
        Seq::empty()
    } else {
        let n = chunk_len(items.len(), chunk_size) as int;
        seq![items.take(n)] + chunks(items.skip(n), chunk_size)
    }
}

/// The chunks one after the other.
pub open spec fn flattened<T>(chunks: Seq<Seq<T>>) -> Seq<T>
    decreases chunks.len(),
{
    if chunks.len() == 0 {
        Seq::empty()
    } else {
        chunks[0] + flattened(chunks.drop_first())
    }
}

impl<T> Chunker<T> {
    /// The next chunk, or nothing once all items were handed out.
    pub fn next(&mut self) -> (r: Option<Vec<T>>)
        ensures
            final(self).chunk_size == old(self).chunk_size,
            match r {
                Some(chunk) => {
                    let n = chunk_len(old(self).inner@.len(), old(self).chunk_size as nat) as int;
                    &&& old(self).inner@.len() > 0
                    &&& chunk@ == old(self).inner@.take(n)
                    &&& final(self).inner@ == old(self).inner@.skip(n)
                },
                None => old(self).inner@.len() == 0 && final(self).inner@ == old(self).inner@,
            },
    {
        let length: usize = self.inner.len();
        if length == 0 {
            return None;
        }
        let n: usize = if self.chunk_size == 0 || length < self.chunk_size {
            length
        } else {
            self.chunk_size
        };
        let ghost all = self.inner@;
        let mut rest = self.inner.split_off(n);
        std::mem::swap(&mut rest, &mut self.inner);
        assert(rest@ =~= all.take(n as int));
        assert(self.inner@ =~= all.skip(n as int));
        Some(rest)
    }

    /// All chunks that are left.
    pub fn all(self) -> (r: Vec<Vec<T>>)
        ensures
            r@.map_values(|chunk: Vec<T>| chunk@) == chunks(self.inner@, self.chunk_size as nat),
    {
        let mut r: Vec<Vec<T>> = Vec::new();
        let ghost size = self.chunk_size as nat;
        let ghost all = self.inner@;
        let mut rest = self;
        assert(r@.map_values(|chunk: Vec<T>| chunk@) + chunks(rest.inner@, size) =~= chunks(
            all,
            size,
        ));
        while rest.inner.len() > 0
            invariant
                rest.chunk_size == size,
                r@.map_values(|chunk: Vec<T>| chunk@) + chunks(rest.inner@, size) == chunks(
                    all,
                    size,
                ),
            decreases rest.inner@.len(),
        {
            let ghost before = rest.inner@;
            let ghost handed = r@.map_values(|chunk: Vec<T>| chunk@);
            match rest.next() {
                Some(chunk) => {
                    r.push(chunk);
                    assert(r@.map_values(|chunk: Vec<T>| chunk@) =~= handed.push(chunk@));
                    assert(r@.map_values(|chunk: Vec<T>| chunk@) + chunks(rest.inner@, size)
                        =~= handed + chunks(before, size));
                },
                None => {},
            }
        }
        assert(chunks(rest.inner@, size) =~= Seq::<Seq<T>>::empty());
        assert(r@.map_values(|chunk: Vec<T>| chunk@) =~= chunks(all, size));
        r
    }
}

/// Nothing is lost or put in another order: the chunks one after the other are the list.
pub proof fn law_chunks_keep_the_list<T>(items: Seq<T>, chunk_size: nat)
    ensures
        flattened(chunks(items, chunk_size)) == items,
    decreases items.len(),
{
    if items.len() > 0 {
        let n = chunk_len(items.len(), chunk_size) as int;
        law_chunks_keep_the_list(items.skip(n), chunk_size);
        let all = chunks(items, chunk_size);
        assert(all.drop_first() =~= chunks(items.skip(n), chunk_size));
        assert(items.take(n) + items.skip(n) =~= items);
    } else {
        assert(flattened(chunks(items, chunk_size)) =~= items);
    }
}

/// No chunk is empty or larger than the size that was asked for.
pub proof fn law_chunk_sizes<T>(items: Seq<T>, chunk_size: nat, i: int)
    requires
        chunk_size > 0,
        0 <= i < chunks(items, chunk_size).len(),
    ensures
        0 < chunks(items, chunk_size)[i].len() <= chunk_size,
        i < chunks(items, chunk_size).len() - 1 ==> chunks(items, chunk_size)[i].len()
            == chunk_size,
    decreases items.len(),
{
    let n = chunk_len(items.len(), chunk_size) as int;
    let rest = chunks(items.skip(n), chunk_size);
    if i > 0 {
        assert(chunks(items, chunk_size)[i] == rest[i - 1]);
        law_chunk_sizes(items.skip(n), chunk_size, i - 1);
    } else {
        assert(chunks(items, chunk_size)[0] == items.take(n));
    }
}

} // verus!
