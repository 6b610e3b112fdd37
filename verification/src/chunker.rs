//! Content-defined chunking of an upload body into storage blocks.
//!
//! The chunker buffers what the body delivers until it holds at least one
//! maximal block (or the body has ended), then cuts the next block where the
//! FastCDC rolling hash says.

use fastcdc::FastCDC;
use std::collections::VecDeque;
use vstd::prelude::*;

verus! {

/// The length of the first chunk that FastCDC cuts from `source`, or `None`
/// where it cuts nothing; the rolling-hash decision is named here, not
/// written out.
pub uninterp spec fn fastcdc_first_chunk(
    source: Seq<u8>,
    min_size: usize,
    avg_size: usize,
    max_size: usize,
    eof: bool,
) -> Option<usize>;

/// Chunk sizes that FastCDC accepts without panicking, with a minimum below
/// the maximum.
pub open spec fn fastcdc_sizes_ok(min_size: usize, avg_size: usize, max_size: usize) -> bool {
    &&& 64 <= min_size <= 67_108_864
    &&& 256 <= avg_size <= 268_435_456
    &&& 1024 <= max_size <= 1_073_741_824
    &&& min_size < max_size
}

/// `FastCDC::with_eof(..).next()` on the contents of `buf`, which
/// `VecDeque::make_contiguous` first lays out as one slice without changing
/// them: the length of the first chunk. FastCDC's source shows that an empty
/// source gives no chunk; a source no longer than the minimum is one chunk at
/// end of input and none otherwise; a longer source gives a chunk longer than
/// the minimum and at most the maximum, always at end of input or when the
/// source reaches the maximum. A source of at least the maximum size is cut
/// as its first maximum-size bytes are at end of input: `cut` reads no byte
/// past them and then returns the maximum whatever `eof` says. Where the cut
/// falls is not stated.
#[verifier::external_body]
fn fastcdc_first_chunk_len(
    buf: &mut VecDeque<u8>,
    min_size: usize,
    avg_size: usize,
    max_size: usize,
    eof: bool,
) -> (r: Option<usize>)
    requires
        fastcdc_sizes_ok(min_size, avg_size, max_size),
    ensures
        final(buf)@ == old(buf)@,
        r == fastcdc_first_chunk(old(buf)@, min_size, avg_size, max_size, eof),
        old(buf)@.len() == 0 ==> r is None,
        0 < old(buf)@.len() <= min_size ==> r == (if eof {
            Some(old(buf)@.len() as usize)
        } else {
            None::<usize>
        }),
        old(buf)@.len() > min_size ==> (r matches Some(n) ==> min_size < n <= old(buf)@.len() && n
            <= max_size),
        old(buf)@.len() > min_size && (eof || old(buf)@.len() >= max_size) ==> r is Some,
        old(buf)@.len() >= max_size ==> r == fastcdc_first_chunk(
            old(buf)@.take(max_size as int),
            min_size,
            avg_size,
            max_size,
            true,
        ),
{
    match FastCDC::with_eof(buf.make_contiguous(), min_size, avg_size, max_size, eof).next() {
        Some(chunk) => Some(chunk.length),
        None => None,
    }
}

/// Where FastCDC cuts the first block off `data`, the rest of a body: at
/// most its first `max` bytes are read, as at the end of input.
pub open spec fn first_cut(data: Seq<u8>, min: usize, avg: usize, max: usize) -> Option<usize> {
    if data.len() >= max {
        fastcdc_first_chunk(data.take(max as int), min, avg, max, true)
    } else {
        fastcdc_first_chunk(data, min, avg, max, true)
    }
}

/// The blocks that a whole body is cut into, one [`first_cut`] after the
/// other.
pub open spec fn body_blocks(data: Seq<u8>, min: usize, avg: usize, max: usize) -> Seq<Seq<u8>>
    decreases data.len(),
{
    match first_cut(data, min, avg, max) {
        Some(n) => if 0 < n <= data.len() {
            seq![data.take(n as int)] + body_blocks(data.skip(n as int), min, avg, max)
        } else {
            Seq::empty()
        },
        None => Seq::empty(),
    }
}

/// The blocks are non-empty and at most `max` bytes long, and all but the
/// last are longer than `min` bytes.
pub open spec fn blocks_shape(blocks: Seq<Seq<u8>>, min: usize, max: usize) -> bool {
    &&& forall|i: int| 0 <= i < blocks.len() ==> 0 < #[trigger] blocks[i].len() <= max
    &&& forall|i: int| 0 <= i < blocks.len() - 1 ==> #[trigger] blocks[i].len() > min
}

/// Splits an upload body into blocks. The body itself is read by the caller,
/// which hands over each piece with [`BodyChunker::push`].
pub struct BodyChunker {
    read_all: bool,
    min_block_size: usize,
    avg_block_size: usize,
    max_block_size: usize,
    buf: VecDeque<u8>,
    received: Ghost<Seq<u8>>,
    blocks: Ghost<Seq<Seq<u8>>>,
}

impl BodyChunker {
    /// Everything the body has delivered so far, in order.
    pub closed spec fn received(&self) -> Seq<u8> {
        self.received@
    }

    /// The blocks handed out so far, in order.
    pub closed spec fn blocks(&self) -> Seq<Seq<u8>> {
        self.blocks@
    }

    /// Everything handed out as blocks so far, in order.
    pub open spec fn emitted(&self) -> Seq<u8> {
        self.blocks().flatten()
    }

    /// Bytes received and not yet handed out.
    pub closed spec fn pending(&self) -> Seq<u8> {
        self.buf@
    }

    /// Whether the body has ended.
    pub closed spec fn body_ended(&self) -> bool {
        self.read_all
    }

    pub closed spec fn min_size(&self) -> usize {
        self.min_block_size
    }

    pub closed spec fn avg_size(&self) -> usize {
        self.avg_block_size
    }

    pub closed spec fn max_size(&self) -> usize {
        self.max_block_size
    }

    /// No byte is lost or repeated: what was received is what was emitted,
    /// followed by what is pending. The blocks have the sizes of
    /// [`blocks_shape`], and a block no longer than the minimum is the last
    /// one: the body has ended and nothing is pending after it. The blocks
    /// are those the whole body is cut into, whatever follows.
    pub open spec fn wf(&self) -> bool {
        &&& self.received() == self.emitted() + self.pending()
        &&& blocks_shape(self.blocks(), self.min_size(), self.max_size())
        &&& self.blocks().len() > 0 && self.blocks().last().len() <= self.min_size()
            ==> self.body_ended() && self.pending().len() == 0
        &&& !self.body_ended() ==> forall|x: Seq<u8>|
            #[trigger] body_blocks(self.received() + x, self.min_size(), self.avg_size(), self.max_size())
                == self.blocks() + body_blocks(
                self.pending() + x,
                self.min_size(),
                self.avg_size(),
                self.max_size(),
            )
        &&& self.body_ended() ==> body_blocks(
            self.received(),
            self.min_size(),
            self.avg_size(),
            self.max_size(),
        ) == self.blocks() + body_blocks(
            self.pending(),
            self.min_size(),
            self.avg_size(),
            self.max_size(),
        )
    }

    /// Whether the chunker wants another piece of the body before it cuts.
    pub open spec fn wants_input(&self) -> bool {
        !self.body_ended() && self.pending().len() < self.max_size()
    }

    /// A chunker for blocks of about `block_size` bytes: blocks are longer
    /// than three quarters of it (except the last) and at most twice it.
    pub fn new(block_size: usize) -> (c: Self)
        requires
            block_size <= usize::MAX / 4,
        ensures
            c.wf(),
            c.min_size() == block_size / 4 * 3,
            c.avg_size() == block_size,
            c.max_size() == block_size * 2,
            !c.body_ended(),
            c.received() == Seq::<u8>::empty(),
            c.blocks() == Seq::<Seq<u8>>::empty(),
            c.pending() == Seq::<u8>::empty(),
    {
        let min_block_size = block_size / 4 * 3;
        let avg_block_size = block_size;
        let max_block_size = block_size * 2;
        let c = BodyChunker {
            read_all: false,
            min_block_size,
            avg_block_size,
            max_block_size,
            buf: VecDeque::with_capacity(2 * max_block_size),
            received: Ghost(Seq::empty()),
            blocks: Ghost(Seq::empty()),
        };
        assert(c.blocks@.flatten() =~= Seq::<u8>::empty());
        assert(c.received@ =~= c.blocks@.flatten() + c.buf@);
        assert forall|x: Seq<u8>|
            #[trigger] body_blocks(c.received@ + x, min_block_size, avg_block_size, max_block_size)
                == c.blocks@ + body_blocks(c.buf@ + x, min_block_size, avg_block_size, max_block_size) by {
            assert(c.received@ + x =~= x);
            assert(c.buf@ + x =~= x);
            assert(c.blocks@ + body_blocks(x, min_block_size, avg_block_size, max_block_size)
                =~= body_blocks(x, min_block_size, avg_block_size, max_block_size));
        }
        c
    }

    /// Whether the chunker wants another piece of the body before it cuts.
    pub fn wants_more(&self) -> (r: bool)
        ensures
            r == self.wants_input(),
    {
        !self.read_all && self.buf.len() < self.max_block_size
    }

    /// Whether bytes are pending.
    pub fn has_pending(&self) -> (r: bool)
        ensures
            r == (self.pending().len() > 0),
    {
        self.buf.len() > 0
    }

    /// Whether the block sizes are ones that FastCDC accepts.
    pub fn sizes_ok(&self) -> (r: bool)
        ensures
            r == fastcdc_sizes_ok(self.min_size(), self.avg_size(), self.max_size()),
    {
        64 <= self.min_block_size && self.min_block_size <= 67_108_864 && 256 <= self.avg_block_size
            && self.avg_block_size <= 268_435_456 && 1024 <= self.max_block_size
            && self.max_block_size <= 1_073_741_824 && self.min_block_size < self.max_block_size
    }

    /// Hands over the next piece of the body, or `None` when the body has
    /// ended; nothing is handed over after the end.
    pub fn push(&mut self, piece: Option<&[u8]>)
        requires
            old(self).wf(),
            !old(self).body_ended(),
        ensures
            final(self).wf(),
            final(self).blocks() == old(self).blocks(),
            final(self).min_size() == old(self).min_size(),
            final(self).avg_size() == old(self).avg_size(),
            final(self).max_size() == old(self).max_size(),
            match piece {
                Some(d) => {
                    &&& final(self).received() == old(self).received() + d@
                    &&& final(self).pending() == old(self).pending() + d@
                    &&& !final(self).body_ended()
                },
                None => {
                    &&& final(self).received() == old(self).received()
                    &&& final(self).pending() == old(self).pending()
                    &&& final(self).body_ended()
                },
            },
    {
        match piece {
            Some(d) => {
                let ghost start = self.buf@;
                let mut i: usize = 0;
                while i < d.len()
                    invariant
                        i <= d@.len(),
                        self.buf@ == start + d@.take(i as int),
                        start == old(self).buf@,
                        self.received == old(self).received,
                        self.blocks == old(self).blocks,
                        self.read_all == old(self).read_all,
                        self.min_block_size == old(self).min_block_size,
                        self.avg_block_size == old(self).avg_block_size,
                        self.max_block_size == old(self).max_block_size,
                    decreases d@.len() - i,
                {
                    self.buf.push_back(d[i]);
                    assert(d@.take(i + 1) =~= d@.take(i as int).push(d@[i as int]));
                    i = i + 1;
                }
                assert(d@.take(d@.len() as int) =~= d@);
                self.received = Ghost(self.received@ + d@);
                assert(self.buf@ =~= old(self).buf@ + d@);
                assert(self.received@ =~= self.blocks@.flatten() + self.buf@);
                let ghost (mn, av, mx) = (self.min_block_size, self.avg_block_size, self.max_block_size);
                assert forall|x: Seq<u8>|
                    #[trigger] body_blocks(self.received@ + x, mn, av, mx) == self.blocks@ + body_blocks(
                        self.buf@ + x,
                        mn,
                        av,
                        mx,
                    ) by {
                    let y = d@ + x;
                    assert(old(self).received@ + y =~= self.received@ + x);
                    assert(old(self).buf@ + y =~= self.buf@ + x);
                    assert(body_blocks(old(self).received() + y, old(self).min_size(), old(self).avg_size(), old(self).max_size())
                        == old(self).blocks() + body_blocks(old(self).pending() + y, old(self).min_size(), old(self).avg_size(), old(self).max_size()));
                }
            },
            None => {
                self.read_all = true;
                assert(old(self).received@ + Seq::<u8>::empty() =~= self.received@);
                assert(old(self).buf@ + Seq::<u8>::empty() =~= self.buf@);
                assert(body_blocks(old(self).received() + Seq::<u8>::empty(), old(self).min_size(), old(self).avg_size(), old(self).max_size())
                    == old(self).blocks() + body_blocks(old(self).pending() + Seq::<u8>::empty(), old(self).min_size(), old(self).avg_size(), old(self).max_size()));
            },
        }
    }

    /// Cuts the first `n` pending bytes off as a block.
    fn take_block(&mut self, n: usize) -> (b: Vec<u8>)
        requires
            0 < n <= old(self).pending().len(),
        ensures
            b@ == old(self).pending().take(n as int),
            final(self).pending() == old(self).pending().skip(n as int),
            final(self).blocks() == old(self).blocks(),
            final(self).received() == old(self).received(),
            final(self).body_ended() == old(self).body_ended(),
            final(self).min_size() == old(self).min_size(),
            final(self).avg_size() == old(self).avg_size(),
            final(self).max_size() == old(self).max_size(),
    {
        let mut front = self.buf.split_off(n);
        std::mem::swap(&mut front, &mut self.buf);
        let mut block: Vec<u8> = Vec::new();
        let mut i: usize = 0;
        while i < front.len()
            invariant
                i <= front@.len(),
                block@ == front@.take(i as int),
            decreases front@.len() - i,
        {
            block.push(front[i]);
            assert(front@.take(i + 1) =~= front@.take(i as int).push(front@[i as int]));
            i = i + 1;
        }
        assert(front@.take(front@.len() as int) =~= front@);
        assert(self.buf@ =~= old(self).buf@.skip(n as int));
        assert(block@ =~= old(self).buf@.take(n as int));
        block
    }

    /// The next block of the body, once the chunker wants no more input: the
    /// first chunk that FastCDC cuts from what is pending (the end of the
    /// body counts as end of input), or `None` when nothing is pending.
    pub fn next_block(&mut self) -> (r: Option<Vec<u8>>)
        requires
            old(self).wf(),
            !old(self).wants_input(),
            old(self).pending().len() > 0 ==> fastcdc_sizes_ok(
                old(self).min_size(),
                old(self).avg_size(),
                old(self).max_size(),
            ),
        ensures
            final(self).wf(),
            final(self).received() == old(self).received(),
            final(self).body_ended() == old(self).body_ended(),
            final(self).min_size() == old(self).min_size(),
            final(self).avg_size() == old(self).avg_size(),
            final(self).max_size() == old(self).max_size(),
            r is None <==> old(self).pending().len() == 0,
            r is None ==> final(self).pending() == old(self).pending() && final(self).blocks()
                == old(self).blocks() && final(self).emitted() == final(self).received(),
            r matches Some(b) ==> {
                &&& fastcdc_first_chunk(
                    old(self).pending(),
                    old(self).min_size(),
                    old(self).avg_size(),
                    old(self).max_size(),
                    old(self).body_ended(),
                ) == Some(b@.len() as usize)
                &&& old(self).pending() == b@ + final(self).pending()
                &&& final(self).blocks() == old(self).blocks().push(b@)
                &&& 0 < b@.len() <= old(self).max_size()
                &&& b@.len() <= old(self).min_size() ==> old(self).body_ended()
                    && final(self).pending().len() == 0
            },
    {
        if self.buf.len() == 0 {
            assert(self.buf@ =~= Seq::<u8>::empty());
            assert(self.received@ =~= self.blocks@.flatten());
            return None;
        }
        let ghost before = self.buf@;
        let cut = fastcdc_first_chunk_len(
            &mut self.buf,
            self.min_block_size,
            self.avg_block_size,
            self.max_block_size,
            self.read_all,
        );
        let n = match cut {
            Some(n) => n,
            None => {
                assert(false);
                0
            },
        };
        let ghost (mn, av, mx) = (self.min_block_size, self.avg_block_size, self.max_block_size);
        assert(first_cut(before, mn, av, mx) == Some(n));
        let block = self.take_block(n);
        proof {
            let old_blocks = self.blocks@;
            assert(block@ =~= before.take(n as int));
            assert(self.buf@ =~= before.skip(n as int));
            if self.read_all {
                assert(body_blocks(before, mn, av, mx) == seq![block@] + body_blocks(self.buf@, mn, av, mx));
                assert(old_blocks + (seq![block@] + body_blocks(self.buf@, mn, av, mx)) =~= old_blocks.push(block@)
                    + body_blocks(self.buf@, mn, av, mx));
            } else {
                assert forall|x: Seq<u8>|
                    #[trigger] body_blocks(self.received@ + x, mn, av, mx) == old_blocks.push(block@)
                        + body_blocks(self.buf@ + x, mn, av, mx) by {
                    let px = before + x;
                    assert(px.take(mx as int) =~= before.take(mx as int));
                    assert(first_cut(px, mn, av, mx) == Some(n));
                    assert(px.take(n as int) =~= block@);
                    assert(px.skip(n as int) =~= self.buf@ + x);
                    assert(body_blocks(px, mn, av, mx) == seq![block@] + body_blocks(self.buf@ + x, mn, av, mx));
                    assert(old_blocks + (seq![block@] + body_blocks(self.buf@ + x, mn, av, mx)) =~= old_blocks.push(block@)
                        + body_blocks(self.buf@ + x, mn, av, mx));
                }
            }
            self.blocks@ = old_blocks.push(block@);
            old_blocks.lemma_flatten_push(block@);
            assert(before =~= block@ + self.buf@);
            assert(self.received@ =~= self.blocks@.flatten() + self.buf@);
            assert(self.blocks@.last() == block@);
            assert forall|i: int| 0 <= i < self.blocks@.len() - 1 implies #[trigger] self.blocks@[i].len()
                > self.min_block_size by {
                assert(self.blocks@[i] == old_blocks[i]);
                if i == old_blocks.len() - 1 {
                    assert(old_blocks.last() == old_blocks[i]);
                }
            }
            assert forall|i: int| 0 <= i < self.blocks@.len() implies 0 < #[trigger] self.blocks@[i].len()
                <= self.max_block_size by {
                if i < old_blocks.len() {
                    assert(self.blocks@[i] == old_blocks[i]);
                }
            }
        }
        Some(block)
    }
}

/// Once the body has ended and nothing is pending, the blocks handed out, in
/// order, make up the whole body: nothing is lost, repeated or reordered.
/// Each block is non-empty and at most the maximum size, and only the last
/// one may be no longer than the minimum size. The blocks are those of the
/// body alone, however it was delivered: where each is cut does not depend
/// on how the body was split into pieces.
pub proof fn lemma_whole_body(c: &BodyChunker)
    requires
        c.wf(),
        c.body_ended(),
        c.pending().len() == 0,
    ensures
        c.blocks().flatten() == c.received(),
        c.blocks() == body_blocks(c.received(), c.min_size(), c.avg_size(), c.max_size()),
        forall|i: int| 0 <= i < c.blocks().len() ==> 0 < #[trigger] c.blocks()[i].len() <= c.max_size(),
        forall|i: int| 0 <= i < c.blocks().len() - 1 ==> #[trigger] c.blocks()[i].len() > c.min_size(),
{
    assert(c.pending() =~= Seq::<u8>::empty());
    assert(c.emitted() + c.pending() =~= c.emitted());
    assert(body_blocks(c.pending(), c.min_size(), c.avg_size(), c.max_size()) =~= Seq::<Seq<u8>>::empty());
    assert(c.blocks() + Seq::<Seq<u8>>::empty() =~= c.blocks());
}

} // verus!
