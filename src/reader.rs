use vstd::prelude::*;

use crate::cursor::ChunkCursor;

verus! {

/// `std::io::Error`, carried opaquely in the result type of `Read::read`;
/// no value of it is ever made here.
#[verifier::external_type_specification]
#[verifier::external_body]
pub struct ExIoError(std::io::Error);

/// The most producer calls that one read makes before it hands back what it
/// has so far, so that every read returns.
pub const MAX_PULLS_PER_READ: u64 = u64::MAX;

/// A cursor whose chunk in hand, once used up, is replaced before a read
/// returns (but for an empty chunk just taken in).
pub open spec fn refreshed(c: ChunkCursor) -> bool {
    &&& c.wf()
    &&& !c.is_finished() && c.pending().len() == 0 ==> c.chunks().len() == 0
        || c.chunks().last().len() == 0
}

/// A cursor that is always `refreshed`.
struct State {
    cursor: ChunkCursor,
}

impl State {
    #[verifier::type_invariant]
    spec fn inv(&self) -> bool {
        refreshed(self.cursor)
    }
}

/// Relies on `AsRef<[u8]>::as_ref` of the chunk type for the chunk's bytes.
/// Nothing is assumed of what they are.
#[verifier::external_body]
fn chunk_bytes<S: AsRef<[u8]>>(chunk: &S) -> &[u8] {
    chunk.as_ref()
}

/// Calls the producer that the user supplied, for its next chunk. Nothing is
/// assumed of what it returns; it is a plain closure, called with no
/// precondition.
#[verifier::external_body]
fn produce<F, S>(f: &mut F) -> Option<S> where F: FnMut() -> Option<S> {
    f()
}

/// A reader that gets its data incrementally from the function `f`.
///
/// `f` is called whenever the chunk in hand has been used up; it returns the
/// next chunk, or `None` once the data has run out. After the first `None`
/// it is never called again.
#[verifier::reject_recursive_types(F)]
#[verifier::reject_recursive_types(S)]
pub struct ReadWith<F, S> where F: FnMut() -> Option<S> {
    f: F,
    state: State,
    kind: std::marker::PhantomData<S>,
}

impl<F, S> ReadWith<F, S> where F: FnMut() -> Option<S> {
    /// The producer the reader calls for its chunks.
    pub closed spec fn producer(&self) -> F {
        self.f
    }

    /// Every chunk received from the producer so far, as bytes, in order.
    pub closed spec fn chunks(&self) -> Seq<Seq<u8>> {
        self.state.cursor.chunks()
    }

    /// Every byte handed out by the reads so far, in order.
    pub closed spec fn delivered(&self) -> Seq<u8> {
        self.state.cursor.delivered()
    }

    /// Whether the producer has said that the data has run out.
    pub closed spec fn is_finished(&self) -> bool {
        self.state.cursor.is_finished()
    }

    /// The bytes received and not yet handed out: the rest of the chunk in hand.
    pub closed spec fn pending(&self) -> Seq<u8> {
        self.state.cursor.pending()
    }

    /// The reader's internal consistency, which `new` sets up and every read
    /// keeps.
    pub closed spec fn wf(&self) -> bool {
        refreshed(self.state.cursor)
    }

    /// How many times the producer has been called.
    pub open spec fn calls(&self) -> nat {
        self.chunks().len() + if self.is_finished() {
            1nat
        } else {
            0nat
        }
    }

    /// Create a reader that will read from the given function.
    ///
    /// It keeps on calling `f` until it returns `None`. A chunk may be of any
    /// type that turns into a `&[u8]`, `String` and `&str` among them.
    pub fn new(f: F) -> (r: Self)
        ensures
            r.producer() == f,
            r.wf(),
            r.chunks() == Seq::<Seq<u8>>::empty(),
            r.delivered() == Seq::<u8>::empty(),
            r.pending() == Seq::<u8>::empty(),
            !r.is_finished(),
    {
        ReadWith {
            f,
            state: State { cursor: ChunkCursor::new() },
            kind: std::marker::PhantomData,
        }
    }

    /// What the reads have handed out, followed by what is held back, is the
    /// concatenation of every chunk received so far; what is held back is the
    /// rest of the latest chunk alone.
    pub proof fn lemma_stream_is_chunks_so_far(&self)
        requires
            self.wf(),
        ensures
            self.delivered() + self.pending() == self.chunks().flatten(),
            self.is_finished() ==> self.pending() == Seq::<u8>::empty(),
            self.chunks().len() == 0 ==> self.pending() == Seq::<u8>::empty(),
            self.chunks().len() > 0 ==> self.chunks().last().subrange(
                self.chunks().last().len() - self.pending().len(),
                self.chunks().last().len() as int,
            ) == self.pending(),
    {
        self.state.cursor.lemma_pending_is_tail();
    }

    /// Once the producer has said that the data has run out, the reads have
    /// handed out exactly the concatenation of all the chunks it returned, in
    /// order; empty chunks add nothing.
    pub proof fn lemma_drained_is_concatenation(&self)
        requires
            self.wf(),
            self.is_finished(),
        ensures
            self.delivered() == self.chunks().flatten(),
            self.pending() == Seq::<u8>::empty(),
    {
        self.lemma_stream_is_chunks_so_far();
        assert(self.delivered() + self.pending() =~= self.delivered());
    }

    /// Two drained readers whose producers returned the same chunks have
    /// handed out the same bytes, whatever buffer sizes their reads used.
    pub proof fn lemma_chunking_independent(&self, other: &Self)
        requires
            self.wf(),
            other.wf(),
            self.is_finished(),
            other.is_finished(),
            self.chunks() == other.chunks(),
        ensures
            self.delivered() == other.delivered(),
    {
        self.lemma_drained_is_concatenation();
        other.lemma_drained_is_concatenation();
    }
}

/// An empty chunk put anywhere among the chunks leaves their concatenation,
/// and so what a drained reader hands out, as it was.
pub proof fn lemma_empty_chunk_transparent(chunks: Seq<Seq<u8>>, i: int)
    requires
        0 <= i <= chunks.len(),
    ensures
        chunks.insert(i, Seq::<u8>::empty()).flatten() == chunks.flatten(),
    decreases chunks.len(),
{
    let with = chunks.insert(i, Seq::<u8>::empty());
    if i == 0 {
        assert(with.drop_first() =~= chunks);
        assert(with.flatten() =~= chunks.flatten());
    } else {
        assert(with.first() == chunks.first());
        assert(with.drop_first() =~= chunks.drop_first().insert(i - 1, Seq::<u8>::empty()));
        lemma_empty_chunk_transparent(chunks.drop_first(), i - 1);
    }
}

impl<F, S> ReadWith<F, S> where F: FnMut() -> Option<S>, S: AsRef<[u8]> {
    /// Fills `buf` from the chunks, calling the producer whenever the chunk in
    /// hand runs out, and returns how many bytes were written.
    ///
    /// The count is short of `buf.len()` only once the producer has said that
    /// the data has run out (or, in theory, after `MAX_PULLS_PER_READ` calls
    /// in this one read). It is `0` for an empty `buf` and once the data has
    /// run out; then neither the reader nor `buf` changes and the producer is
    /// not called. Empty chunks are skipped over.
    pub fn read_into(&mut self, buf: &mut [u8]) -> (n: usize)
        ensures
            final(self).wf(),
            n <= old(buf)@.len(),
            final(buf)@.len() == old(buf)@.len(),
            final(buf)@.subrange(n as int, old(buf)@.len() as int) == old(buf)@.subrange(
                n as int,
                old(buf)@.len() as int,
            ),
            final(self).delivered() == old(self).delivered() + final(buf)@.subrange(0, n as int),
            old(self).chunks().len() <= final(self).chunks().len(),
            final(self).chunks().subrange(0, old(self).chunks().len() as int) == old(
                self,
            ).chunks(),
            old(self).is_finished() ==> final(self).is_finished(),
            old(self).is_finished() || old(buf)@.len() == 0 ==> n == 0 && *final(self) == *old(
                self,
            ),
            n < old(buf)@.len() ==> final(self).is_finished() || final(self).calls() == old(
                self,
            ).calls() + MAX_PULLS_PER_READ,
    {
        proof {
            use_type_invariant(&self.state);
        }
        if self.state.cursor.ended() || buf.len() == 0 {
            return 0;
        }
        let mut st = ChunkCursor::new();
        std::mem::swap(&mut st, &mut self.state.cursor);
        let mut wrote: usize = 0;
        let mut budget: u64 = MAX_PULLS_PER_READ;
        while !st.ended() && wrote < buf.len() && budget > 0
            invariant
                refreshed(st),
                wrote <= buf@.len(),
                buf@.len() == old(buf)@.len(),
                forall|i: int| wrote <= i < buf@.len() ==> buf@[i] == old(buf)@[i],
                st.delivered() == old(self).delivered() + buf@.subrange(0, wrote as int),
                old(self).chunks().len() <= st.chunks().len(),
                st.chunks().subrange(0, old(self).chunks().len() as int) == old(self).chunks(),
                st.chunks().len() + (if st.is_finished() {
                    1int
                } else {
                    0int
                }) + budget == old(self).calls() + MAX_PULLS_PER_READ,
            decreases budget, buf@.len() - wrote,
        {
            let ghost before = buf@;
            let ghost pend = st.pending();
            let count = st.copy_out(buf, wrote);
            assert(buf@.subrange(0, wrote + count) =~= before.subrange(0, wrote as int)
                + pend.subrange(0, count as int));
            assert(st.delivered() =~= old(self).delivered() + buf@.subrange(0, wrote + count));
            wrote = wrote + count;
            if st.needs_chunk() {
                let next = produce(&mut self.f);
                let bytes = match next {
                    Some(c) => Some(vstd::slice::slice_to_vec(chunk_bytes(&c))),
                    None => None,
                };
                st.accept(bytes);
                budget = budget - 1;
            } else {
                assert(wrote == buf@.len());
            }
        }
        std::mem::swap(&mut st, &mut self.state.cursor);
        assert(buf@.subrange(wrote as int, buf@.len() as int) =~= old(buf)@.subrange(
            wrote as int,
            old(buf)@.len() as int,
        ));
        wrote
    }
}

impl<F, S> std::io::Read for ReadWith<F, S> where F: FnMut() -> Option<S>, S: AsRef<[u8]> {
    /// Reads as `read_into` does; it never fails.
    fn read(&mut self, buf: &mut [u8]) -> (r: std::io::Result<usize>)
        ensures
            r is Ok,
            final(self).wf(),
            r->Ok_0 <= old(buf)@.len(),
            final(buf)@.len() == old(buf)@.len(),
            final(buf)@.subrange(r->Ok_0 as int, old(buf)@.len() as int) == old(buf)@.subrange(
                r->Ok_0 as int,
                old(buf)@.len() as int,
            ),
            final(self).delivered() == old(self).delivered() + final(buf)@.subrange(
                0,
                r->Ok_0 as int,
            ),
            old(self).chunks().len() <= final(self).chunks().len(),
            final(self).chunks().subrange(0, old(self).chunks().len() as int) == old(
                self,
            ).chunks(),
            old(self).is_finished() ==> final(self).is_finished(),
            old(self).is_finished() || old(buf)@.len() == 0 ==> r->Ok_0 == 0 && *final(self)
                == *old(self),
            r->Ok_0 < old(buf)@.len() ==> final(self).is_finished() || final(self).calls() == old(
                self,
            ).calls() + MAX_PULLS_PER_READ,
    {
        Ok(self.read_into(buf))
    }
}

} // verus!
