use vstd::prelude::*;

verus! {

/// The buffering state of a chunked stream: the chunk in hand and how much
/// of it has been handed out.
///
/// It is fed the producer's answers one at a time with `accept` and emptied
/// into caller buffers with `copy_out`.
pub struct ChunkCursor {
    current: Vec<u8>,
    offset: usize,
    end: bool,
    chunks: Ghost<Seq<Seq<u8>>>,
    delivered: Ghost<Seq<u8>>,
}

impl ChunkCursor {
    /// Every chunk accepted so far, in order.
    pub closed spec fn chunks(&self) -> Seq<Seq<u8>> {
        self.chunks@
    }

    /// Every byte handed out so far, in order.
    pub closed spec fn delivered(&self) -> Seq<u8> {
        self.delivered@
    }

    /// Whether the end of the data has been accepted.
    pub closed spec fn is_finished(&self) -> bool {
        self.end
    }

    /// The bytes accepted and not yet handed out: the rest of the chunk in hand.
    pub closed spec fn pending(&self) -> Seq<u8> {
        if self.end {
            Seq::empty()
        } else {
            self.current@.subrange(self.offset as int, self.current@.len() as int)
        }
    }

    /// The offset stays within the chunk in hand, which is the latest chunk
    /// accepted, and what was handed out followed by what is held back is the
    /// concatenation of the chunks.
    pub closed spec fn wf(&self) -> bool {
        &&& self.offset <= self.current@.len()
        &&& self.chunks@.len() == 0 ==> self.current@ == Seq::<u8>::empty()
        &&& self.chunks@.len() > 0 ==> self.current@ == self.chunks@.last()
        &&& self.delivered@ + self.pending() == self.chunks@.flatten()
    }

    /// What is held back is the rest of the latest chunk alone.
    pub proof fn lemma_pending_is_tail(&self)
        requires
            self.wf(),
        ensures
            self.delivered() + self.pending() == self.chunks().flatten(),
            self.is_finished() ==> self.pending() == Seq::<u8>::empty(),
            self.chunks().len() == 0 ==> self.pending() == Seq::<u8>::empty(),
            self.chunks().len() > 0 ==> self.chunks().last().subrange(
                self.chunks().last().len() - self.pending().len(),
                self.chunks().last().len() as int,
            ) == self.pending(),
    {
        if !self.end {
            assert(self.pending() =~= self.current@.subrange(
                self.current@.len() - self.pending().len(),
                self.current@.len() as int,
            ));
        } else {
            assert(self.current@.subrange(self.current@.len() as int, self.current@.len() as int)
                =~= Seq::<u8>::empty());
        }
    }

    /// A cursor with no chunk yet.
    pub fn new() -> (c: ChunkCursor)
        ensures
            c.wf(),
            c.chunks() == Seq::<Seq<u8>>::empty(),
            c.delivered() == Seq::<u8>::empty(),
            c.pending() == Seq::<u8>::empty(),
            !c.is_finished(),
    {
        let c = ChunkCursor {
            current: Vec::new(),
            offset: 0,
            end: false,
            chunks: Ghost(Seq::empty()),
            delivered: Ghost(Seq::empty()),
        };
        assert(c.pending() =~= Seq::<u8>::empty());
        c
    }

    /// Whether the end of the data has been accepted.
    pub fn ended(&self) -> (r: bool)
        ensures
            r == self.is_finished(),
    {
        self.end
    }

    /// Whether the chunk in hand is used up while the data goes on, so that
    /// the next chunk must be accepted before anything more can be copied.
    pub fn needs_chunk(&self) -> (r: bool)
        requires
            self.wf(),
        ensures
            r == (!self.is_finished() && self.pending().len() == 0),
    {
        !self.end && self.offset == self.current.len()
    }

    /// Copies as much of the chunk in hand as fits into `buf` from `at` on,
    /// and returns how many bytes that was.
    pub fn copy_out(&mut self, buf: &mut [u8], at: usize) -> (count: usize)
        requires
            old(self).wf(),
            !old(self).is_finished(),
            at <= old(buf)@.len(),
        ensures
            count == vstd::math::min(
                old(buf)@.len() - at,
                old(self).pending().len() as int,
            ),
            final(self).wf(),
            !final(self).is_finished(),
            final(self).chunks() == old(self).chunks(),
            final(self).delivered() == old(self).delivered() + old(self).pending().subrange(
                0,
                count as int,
            ),
            final(self).pending() == old(self).pending().subrange(
                count as int,
                old(self).pending().len() as int,
            ),
            final(buf)@.len() == old(buf)@.len(),
            forall|i: int| 0 <= i < at ==> final(buf)@[i] == old(buf)@[i],
            forall|i: int|
                at <= i < at + count ==> final(buf)@[i] == old(self).pending()[i - at],
            forall|i: int| at + count <= i < old(buf)@.len() ==> final(buf)@[i] == old(buf)@[i],
    {
        let room = buf.len() - at;
        let left = self.current.len() - self.offset;
        let count = if room < left {
            room
        } else {
            left
        };
        let ghost pend = self.pending();
        let mut k: usize = 0;
        while k < count
            invariant
                k <= count,
                count <= buf@.len() - at,
                at + count <= usize::MAX,
                self.offset + count <= self.current@.len(),
                self.offset + count <= usize::MAX,
                buf@.len() == old(buf)@.len(),
                *self == *old(self),
                pend == self.pending(),
                pend == self.current@.subrange(self.offset as int, self.current@.len() as int),
                forall|i: int| 0 <= i < at ==> buf@[i] == old(buf)@[i],
                forall|i: int| at <= i < at + k ==> buf@[i] == pend[i - at],
                forall|i: int| at + k <= i < buf@.len() ==> buf@[i] == old(buf)@[i],
            decreases count - k,
        {
            buf[at + k] = self.current[self.offset + k];
            k += 1;
        }
        let ghost taken = pend.subrange(0, count as int);
        self.offset = self.offset + count;
        self.delivered = Ghost(self.delivered@ + taken);
        assert(self.pending() =~= pend.subrange(count as int, pend.len() as int));
        assert(pend =~= taken + self.pending());
        assert(self.delivered@ + self.pending() =~= old(self).delivered@ + pend);
        count
    }

    /// Takes in what one call of the producer returned, as bytes: the next
    /// chunk, which may be empty, or `None` for the end of the data.
    pub fn accept(&mut self, next: Option<Vec<u8>>)
        requires
            old(self).wf(),
            !old(self).is_finished(),
            old(self).pending().len() == 0,
        ensures
            final(self).wf(),
            final(self).delivered() == old(self).delivered(),
            next is None ==> final(self).is_finished() && final(self).chunks() == old(
                self,
            ).chunks() && final(self).pending() == Seq::<u8>::empty(),
            next is Some ==> !final(self).is_finished() && final(self).chunks() == old(
                self,
            ).chunks().push(next->Some_0@) && final(self).pending() == next->Some_0@,
    {
        assert(old(self).pending() =~= Seq::<u8>::empty());
        self.offset = 0;
        match next {
            Some(c) => {
                let ghost bytes = c@;
                self.current = c;
                self.chunks = Ghost(self.chunks@.push(bytes));
                proof {
                    old(self).chunks@.lemma_flatten_push(bytes);
                    assert(self.pending() =~= bytes);
                    assert(self.delivered@ + self.pending() =~= self.chunks@.flatten());
                }
            },
            None => {
                self.end = true;
                assert(self.delivered@ + self.pending() =~= self.delivered@);
            },
        }
    }
}

} // verus!
