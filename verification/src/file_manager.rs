//! The chunks of a file that is being downloaded, from the moment they are
//! asked for to the moment they go to disk.

use crate::digest::{same_bytes, sha1, sha1_digest};
use crate::manifest::{byte_strings, description, law_pieces_join, pieces, Manifest, PIECE_LENGTH};
use crate::proto::opt_bytes;
use crate::text::{
    bool_text, bytes_pretty_debug, decimal, pretty_debug_bytes, push_decimal, show_bool,
};
use rand::seq::IteratorRandom;
use vstd::prelude::*;
use vstd::std_specs::cmp::PartialEqSpec;

verus! {

/// A piece of the file that is not on disk yet. Its data is empty until the
/// piece has arrived.
#[derive(Debug)]
pub struct Chunk {
    pub index: usize,
    pub data: Vec<u8>,
}

/// A [`Chunk`] as mathematical values.
#[verifier::ext_equal]
pub struct ChunkView {
    pub index: usize,
    pub data: Seq<u8>,
}

impl View for Chunk {
    type V = ChunkView;

    open spec fn view(&self) -> ChunkView {
        ChunkView { index: self.index, data: self.data@ }
    }
}

impl Chunk {
    /// One chunk without data for each piece of a file.
    pub fn new_dummy_chunks(chunk_count: usize) -> (res: Vec<Chunk>)
        ensures
            res@.len() == chunk_count,
            forall|i: int| 0 <= i < chunk_count ==> #[trigger] res@[i].index == i,
            forall|i: int| 0 <= i < chunk_count ==> (#[trigger] res@[i]).data@ == Seq::<u8>::empty(),
    {
        let mut chunks: Vec<Chunk> = Vec::new();
        let mut i: usize = 0;
        while i < chunk_count
            invariant
                i <= chunk_count,
                chunks@.len() == i,
                forall|j: int| 0 <= j < i ==> #[trigger] chunks@[j].index == j,
                forall|j: int| 0 <= j < i ==> (#[trigger] chunks@[j]).data@ == Seq::<u8>::empty(),
            decreases chunk_count - i,
        {
            chunks.push(Chunk { index: i, data: Vec::new() });
            i += 1;
        }
        chunks
    }
}

/// The indices of the chunks without data, in order.
pub open spec fn absent_indices(chunks: Seq<ChunkView>) -> Seq<usize>
    decreases chunks.len(),
{
    if chunks.len() == 0 {
        Seq::empty()
    } else if chunks.last().data.len() == 0 {
        absent_indices(chunks.drop_last()).push(chunks.last().index)
    } else {
        absent_indices(chunks.drop_last())
    }
}

/// Whether `index` is that of a chunk without data.
pub open spec fn is_absent(chunks: Seq<ChunkView>, index: usize) -> bool {
    exists|k: int|
        0 <= k < chunks.len() && (#[trigger] chunks[k]).index == index && chunks[k].data.len() == 0
}

/// The number of chunks with data before the first one without.
pub open spec fn filled_prefix(chunks: Seq<ChunkView>) -> nat
    decreases chunks.len(),
{
    if chunks.len() == 0 || chunks[0].data.len() == 0 {
        0
    } else {
        1 + filled_prefix(chunks.drop_first())
    }
}

/// The first position at which `hash` stands among `sharps`.
pub open spec fn first_match(sharps: Seq<Seq<u8>>, hash: Seq<u8>) -> Option<int>
    decreases sharps.len(),
{
    if sharps.len() == 0 {
        None
    } else {
        match first_match(sharps.drop_last(), hash) {
            Some(i) => Some(i),
            None => if sharps.last() == hash {
                Some(sharps.len() - 1)
            } else {
                None
            },
        }
    }
}

/// What a peer is told of data that is no piece of the file.
pub open spec fn unrelated_text(data: Seq<u8>, filename: Seq<char>) -> Seq<char> {
    bytes_pretty_debug(data) + " is not related to "@ + filename
}

/// What a peer is told where the file could not be rewound.
pub open spec fn rewind_failed_text(index: usize, found: bool) -> Seq<char> {
    "we might find needed chunk under "@ + decimal(index as nat) + " index("@ + bool_text(found)
        + "), but the file rewind failed"@
}

/// The file of a manifest, and the chunks of it that are not on disk yet.
#[derive(Debug)]
pub struct FileManager {
    pub manifest: Manifest,
    pub dummy_chunks: Vec<Chunk>,
    /// The chunk that was last suggested for download.
    pub suggested: Option<usize>,
}

impl FileManager {
    /// The chunks that are not on disk yet.
    pub open spec fn chunks(&self) -> Seq<ChunkView> {
        self.dummy_chunks@.map_values(|c: Chunk| c@)
    }

    /// The digests of the pieces of the file.
    pub open spec fn digests(&self) -> Seq<Seq<u8>> {
        byte_strings(self.manifest.inner.sharps@)
    }

    /// The number of chunks that have been handed to the file.
    pub open spec fn written(&self) -> int {
        self.manifest.inner.sharps@.len() - self.dummy_chunks@.len()
    }

    /// The chunks are those of the last pieces of the file, one for each, in
    /// order.
    pub open spec fn wf(&self) -> bool {
        &&& self.written() >= 0
        &&& forall|k: int|
            0 <= k < self.chunks().len() ==> (#[trigger] self.chunks()[k]).index == self.written()
                + k
    }

    /// The data of each chunk has the digest that the manifest lists for it.
    pub open spec fn genuine(&self) -> bool {
        forall|k: int|
            0 <= k < self.chunks().len() && (#[trigger] self.chunks()[k]).data.len() > 0
                ==> sha1_digest(self.chunks()[k].data) == self.digests()[self.written() + k]
    }

    /// The data that waits for its turn to go to disk under `index`.
    pub open spec fn buffered(&self, index: usize) -> Option<Seq<u8>> {
        let k = index - self.written();
        if 0 <= k < self.chunks().len() && self.chunks()[k].data.len() > 0 {
            Some(self.chunks()[k].data)
        } else {
            None
        }
    }

    /// Whether a piece with this digest may be filled in: it is no piece of the
    /// file, or one whose chunk is not on disk yet.
    pub open spec fn can_fill(&self, hash: Seq<u8>) -> bool {
        first_match(self.digests(), hash) matches Some(i) ==> i >= self.written()
    }

    /// A file of which nothing has arrived.
    pub fn new(manifest: Manifest) -> (res: Self)
        ensures
            res.manifest == manifest,
            res.wf(),
            res.genuine(),
            res.written() == 0,
            res.suggested is None,
            res.dummy_chunks@.len() == manifest.inner.sharps@.len(),
            forall|k: int|
                0 <= k < res.dummy_chunks@.len() ==> (#[trigger] res.dummy_chunks@[k]).index == k
                    && res.dummy_chunks@[k].data@.len() == 0,
            forall|k: int|
                0 <= k < res.chunks().len() ==> (#[trigger] res.chunks()[k]).data == Seq::<u8>::empty(),
    {
        let sharps_size = manifest.pieces_count();
        let dummy_chunks = Chunk::new_dummy_chunks(sharps_size);
        let res = FileManager { manifest, dummy_chunks, suggested: None };
        assert forall|k: int| 0 <= k < res.chunks().len() implies (#[trigger] res.chunks()[k]).index
            == k && res.chunks()[k].data == Seq::<u8>::empty() by {
            assert(res.dummy_chunks@[k].index == k);
        }
        res
    }

    /// The manifest of the file.
    pub fn manifest(&self) -> (res: &Manifest)
        ensures
            *res == self.manifest,
    {
        &self.manifest
    }
}

/// The items of a list but for one.
pub open spec fn without(items: Seq<usize>, left_out: Option<usize>) -> Seq<usize>
    decreases items.len(),
{
    if items.len() == 0 {
        Seq::empty()
    } else if left_out == Some(items.last()) {
        without(items.drop_last(), left_out)
    } else {
        without(items.drop_last(), left_out).push(items.last())
    }
}

/// The chunks that may be suggested for download: those without data but for
/// the one that was suggested last, unless it is the only one.
pub open spec fn suggestions_of(chunks: Seq<ChunkView>, suggested: Option<usize>) -> Seq<usize> {
    if without(absent_indices(chunks), suggested).len() > 0 {
        without(absent_indices(chunks), suggested)
    } else {
        absent_indices(chunks)
    }
}

proof fn lemma_absent_indices(chunks: Seq<ChunkView>, index: usize)
    ensures
        absent_indices(chunks).contains(index) <==> is_absent(chunks, index),
    decreases chunks.len(),
{
    if chunks.len() > 0 {
        let front = chunks.drop_last();
        lemma_absent_indices(front, index);
        let inner = absent_indices(front);
        let outer = absent_indices(chunks);
        if is_absent(front, index) {
            let k = choose|k: int|
                0 <= k < front.len() && (#[trigger] front[k]).index == index
                    && front[k].data.len() == 0;
            assert(chunks[k] == front[k]);
            let j = choose|j: int| 0 <= j < inner.len() && inner[j] == index;
            assert(outer[j] == index);
        }
        if chunks.last().data.len() == 0 && chunks.last().index == index {
            assert(chunks[chunks.len() - 1].index == index);
            assert(outer[outer.len() - 1] == index);
        }
        if is_absent(chunks, index) {
            let k = choose|k: int|
                0 <= k < chunks.len() && (#[trigger] chunks[k]).index == index
                    && chunks[k].data.len() == 0;
            if k < chunks.len() - 1 {
                assert(front[k] == chunks[k]);
            }
        }
        if outer.contains(index) {
            let j = choose|j: int| 0 <= j < outer.len() && outer[j] == index;
            if j < inner.len() {
                assert(inner[j] == index);
            }
        }
    }
}

proof fn lemma_absent_by_chunks(manager: FileManager, index: usize)
    ensures
        is_absent(manager.chunks(), index) <==> exists|k: int|
            0 <= k < manager.dummy_chunks@.len() && (#[trigger] manager.dummy_chunks@[k]).index
                == index && manager.dummy_chunks@[k].data@.len() == 0,
{
    let chunks = manager.chunks();
    if is_absent(chunks, index) {
        let k = choose|k: int|
            0 <= k < chunks.len() && (#[trigger] chunks[k]).index == index && chunks[k].data.len()
                == 0;
        assert(manager.dummy_chunks@[k].index == index);
    }
    if exists|k: int|
        0 <= k < manager.dummy_chunks@.len() && (#[trigger] manager.dummy_chunks@[k]).index == index
            && manager.dummy_chunks@[k].data@.len() == 0 {
        let k = choose|k: int|
            0 <= k < manager.dummy_chunks@.len() && (#[trigger] manager.dummy_chunks@[k]).index
                == index && manager.dummy_chunks@[k].data@.len() == 0;
        assert(chunks[k].index == index);
    }
}

proof fn lemma_without(items: Seq<usize>, left_out: Option<usize>, item: usize)
    ensures
        without(items, left_out).contains(item) <==> items.contains(item) && left_out != Some(item),
    decreases items.len(),
{
    if items.len() > 0 {
        let front = items.drop_last();
        lemma_without(front, left_out, item);
        let inner = without(front, left_out);
        let outer = without(items, left_out);
        if front.contains(item) {
            let j = choose|j: int| 0 <= j < front.len() && front[j] == item;
            assert(items[j] == item);
        }
        if items.contains(item) {
            let j = choose|j: int| 0 <= j < items.len() && items[j] == item;
            if j < front.len() {
                assert(front[j] == item);
            }
        }
        if inner.contains(item) {
            let j = choose|j: int| 0 <= j < inner.len() && inner[j] == item;
            assert(outer[j] == item);
        }
        if outer.contains(item) {
            let j = choose|j: int| 0 <= j < outer.len() && outer[j] == item;
            if j < inner.len() {
                assert(inner[j] == item);
            }
        }
        if left_out != Some(items.last()) {
            assert(outer[outer.len() - 1] == items.last());
        }
    }
}

/// Calls `choose` of `rand::seq::IteratorRandom` on the candidates with the
/// generator of the thread. It gives one of them, at random, and nothing only
/// where there is none.
#[verifier::external_body]
fn choose_one(candidates: &Vec<usize>) -> (res: Option<usize>)
    ensures
        res is None <==> candidates@.len() == 0,
        res matches Some(choice) ==> candidates@.contains(choice),
{
    candidates.iter().copied().choose(&mut rand::thread_rng())
}

impl FileManager {
    /// The indices of the chunks without data.
    pub fn absent_chunk_indices(&self) -> (res: Vec<usize>)
        ensures
            res@ == absent_indices(self.chunks()),
            forall|index: usize| #[trigger]
                res@.contains(index) <==> exists|k: int|
                    0 <= k < self.dummy_chunks@.len() && (#[trigger] self.dummy_chunks@[k]).index
                        == index && self.dummy_chunks@[k].data@.len() == 0,
    {
        let mut absent: Vec<usize> = Vec::new();
        let mut i: usize = 0;
        while i < self.dummy_chunks.len()
            invariant
                i <= self.dummy_chunks@.len(),
                absent@ == absent_indices(self.chunks().take(i as int)),
            decreases self.dummy_chunks@.len() - i,
        {
            assert(self.chunks().take(i + 1).drop_last() =~= self.chunks().take(i as int));
            let chunk = &self.dummy_chunks[i];
            if chunk.data.is_empty() {
                absent.push(chunk.index);
            }
            i += 1;
        }
        assert(self.chunks().take(i as int) =~= self.chunks());
        proof {
            assert forall|index: usize| #[trigger] absent@.contains(index) <==> exists|k: int|
                0 <= k < self.dummy_chunks@.len() && (#[trigger] self.dummy_chunks@[k]).index
                    == index && self.dummy_chunks@[k].data@.len() == 0 by {
                lemma_absent_indices(self.chunks(), index);
                lemma_absent_by_chunks(*self, index);
            }
        }
        absent
    }

    /// The indices of the chunks that may be suggested for download.
    pub fn suggestions(&self) -> (res: Vec<usize>)
        ensures
            res@ == suggestions_of(self.chunks(), self.suggested),
            forall|k: int|
                0 <= k < self.dummy_chunks@.len() && (#[trigger] self.dummy_chunks@[k]).data@.len()
                    == 0 && self.suggested != Some(self.dummy_chunks@[k].index) ==> res@.contains(
                    self.dummy_chunks@[k].index,
                ),
    {
        let absent = self.absent_chunk_indices();
        let mut fresh: Vec<usize> = Vec::new();
        let mut i: usize = 0;
        while i < absent.len()
            invariant
                i <= absent@.len(),
                fresh@ == without(absent@.take(i as int), self.suggested),
            decreases absent@.len() - i,
        {
            assert(absent@.take(i + 1).drop_last() =~= absent@.take(i as int));
            let index = absent[i];
            let again = match self.suggested {
                Some(last) => last == index,
                None => false,
            };
            if !again {
                fresh.push(index);
            }
            i += 1;
        }
        assert(absent@.take(i as int) =~= absent@);
        proof {
            assert forall|k: int|
                0 <= k < self.dummy_chunks@.len() && (#[trigger] self.dummy_chunks@[k]).data@.len()
                    == 0 && self.suggested != Some(
                    self.dummy_chunks@[k].index,
                ) implies fresh@.contains(self.dummy_chunks@[k].index) by {
                let index = self.dummy_chunks@[k].index;
                assert(absent@.contains(index));
                lemma_without(absent@, self.suggested, index);
            }
        }
        if fresh.len() > 0 {
            fresh
        } else {
            absent
        }
    }

    /// Picks, at random, a chunk that has to be downloaded. Nothing is picked
    /// only where every chunk has arrived, and the same chunk is not picked
    /// twice in a row while another one is absent too.
    pub fn absent_chunk_index(&mut self) -> (res: Option<usize>)
        ensures
            final(self).manifest == old(self).manifest,
            final(self).dummy_chunks == old(self).dummy_chunks,
            final(self).suggested == res,
            res is None <==> (forall|index: usize| !is_absent(old(self).chunks(), index)),
            res matches Some(index) ==> is_absent(old(self).chunks(), index),
            (res is Some && res == old(self).suggested) ==> (forall|index: usize|
                is_absent(old(self).chunks(), index) ==> Some(index) == res),
            res is None <==> (forall|k: int|
                0 <= k < old(self).dummy_chunks@.len() ==> (
                #[trigger] old(self).dummy_chunks@[k]).data@.len() > 0),
            res matches Some(index) ==> exists|k: int|
                0 <= k < old(self).dummy_chunks@.len() && (
                #[trigger] old(self).dummy_chunks@[k]).index == index
                    && old(self).dummy_chunks@[k].data@.len() == 0,
            (res is Some && res == old(self).suggested) ==> (forall|k: int|
                0 <= k < old(self).dummy_chunks@.len() && (
                #[trigger] old(self).dummy_chunks@[k]).data@.len() == 0 ==> Some(
                    old(self).dummy_chunks@[k].index,
                ) == res),
    {
        let candidates = self.suggestions();
        let choice = choose_one(&candidates);
        proof {
            let chunks = self.chunks();
            let absent = absent_indices(chunks);
            let fresh = without(absent, self.suggested);
            assert forall|index: usize| absent.contains(index) <==> is_absent(chunks, index) by {
                lemma_absent_indices(chunks, index);
            }
            assert forall|index: usize|
                fresh.contains(index) <==> absent.contains(index) && self.suggested != Some(
                    index,
                ) by {
                lemma_without(absent, self.suggested, index);
            }
            if candidates@.len() > 0 {
                assert(candidates@.contains(candidates@[0]));
                assert(is_absent(chunks, candidates@[0]));
            } else {
                assert(absent.len() == 0);
            }
            assert forall|k: int|
                0 <= k < self.dummy_chunks@.len() && (#[trigger] self.dummy_chunks@[k]).data@.len()
                    == 0 implies is_absent(chunks, self.dummy_chunks@[k].index) by {
                lemma_absent_by_chunks(*self, self.dummy_chunks@[k].index);
            }
            if choice is Some {
                lemma_absent_by_chunks(*self, choice->0);
            }
            if choice is None {
                assert forall|k: int| 0 <= k < self.dummy_chunks@.len() implies (
                #[trigger] self.dummy_chunks@[k]).data@.len() > 0 by {
                    if self.dummy_chunks@[k].data@.len() == 0 {
                        assert(is_absent(chunks, self.dummy_chunks@[k].index));
                    }
                }
            }
            if choice is Some && choice == self.suggested {
                assert(fresh.len() == 0);
                assert forall|index: usize| is_absent(chunks, index) implies Some(index)
                    == choice by {
                    if Some(index) != choice {
                        assert(fresh.contains(index));
                    }
                }
            }
        }
        self.suggested = choice;
        choice
    }

    /// Fills in a piece whose digest is `hash`. The piece goes to the first
    /// chunk that the manifest lists this digest for.
    pub fn fill_chunk_with_hash(&mut self, hash: &[u8], data: Vec<u8>) -> (res: Result<(), String>)
        requires
            old(self).wf(),
            old(self).can_fill(hash@),
        ensures
            final(self).wf(),
            final(self).manifest == old(self).manifest,
            final(self).suggested == old(self).suggested,
            match first_match(old(self).digests(), hash@) {
                Some(i) => {
                    &&& res is Ok
                    &&& filled_in(old(self), i, data@, final(self))
                },
                None => {
                    &&& res matches Err(text)
                    &&& text@ == unrelated_text(data@, old(self).manifest.inner.filename@)
                    &&& text@ == bytes_pretty_debug(data@) + " is not related to "@
                        + old(self).manifest.inner.filename@
                    &&& final(self).dummy_chunks == old(self).dummy_chunks
                },
            },
    {
        match self.position_of(hash) {
            Some(position) => {
                let offset = position - (self.manifest.pieces_count() - self.dummy_chunks.len());
                let ghost before = self.chunks();
                assert(before[offset as int].index == position);
                self.dummy_chunks[offset] = Chunk { index: position, data };
                assert(self.chunks() =~= before.update(
                    offset as int,
                    ChunkView { index: position, data: data@ },
                ));
                assert forall|k: int| 0 <= k < self.chunks().len() implies (
                #[trigger] self.chunks()[k]).index == self.written() + k by {
                    assert(before[k].index == old(self).written() + k);
                }
                Ok(())
            },
            None => {
                let mut text = pretty_debug_bytes(data.as_slice());
                text.append(" is not related to ");
                text.append(self.manifest.filename());
                Err(text)
            },
        }
    }

    /// The first position at which the manifest lists this digest.
    fn position_of(&self, hash: &[u8]) -> (res: Option<usize>)
        ensures
            match res {
                Some(i) => first_match(self.digests(), hash@) == Some(i as int) && i
                    < self.digests().len(),
                None => first_match(self.digests(), hash@) is None,
            },
    {
        let sharps = self.manifest.sharps();
        let ghost digests = self.digests();
        let mut i: usize = 0;
        while i < sharps.len()
            invariant
                i <= sharps@.len(),
                digests == byte_strings(sharps@),
                digests == self.digests(),
                first_match(digests.take(i as int), hash@) is None,
            decreases sharps@.len() - i,
        {
            assert(digests.take(i + 1).drop_last() =~= digests.take(i as int));
            if same_bytes(sharps[i].as_slice(), hash) {
                proof {
                    lemma_first_match_stays(digests, i + 1, hash@);
                }
                return Some(i);
            }
            i += 1;
        }
        assert(digests.take(i as int) =~= digests);
        None
    }

    /// Fills in a piece that has arrived.
    pub fn fill_chunk(&mut self, possibly_suitable_chunk: Vec<u8>) -> (res: Result<(), String>)
        requires
            old(self).wf(),
            old(self).can_fill(sha1_digest(possibly_suitable_chunk@)),
        ensures
            final(self).wf(),
            old(self).genuine() ==> final(self).genuine(),
            final(self).manifest == old(self).manifest,
            final(self).suggested == old(self).suggested,
            match first_match(old(self).digests(), sha1_digest(possibly_suitable_chunk@)) {
                Some(i) => {
                    &&& res is Ok
                    &&& filled_in(old(self), i, possibly_suitable_chunk@, final(self))
                },
                None => {
                    &&& res matches Err(text)
                    &&& text@ == unrelated_text(
                        possibly_suitable_chunk@,
                        old(self).manifest.inner.filename@,
                    )
                    &&& text@ == bytes_pretty_debug(possibly_suitable_chunk@)
                        + " is not related to "@ + old(self).manifest.inner.filename@
                    &&& final(self).dummy_chunks == old(self).dummy_chunks
                },
            },
    {
        let possibly_suitable_chunk_hash = sha1(possibly_suitable_chunk.as_slice());
        let ghost hash = sha1_digest(possibly_suitable_chunk@);
        let res = self.fill_chunk_with_hash(
            possibly_suitable_chunk_hash.as_slice(),
            possibly_suitable_chunk,
        );
        proof {
            lemma_first_match(old(self).digests(), hash);
            if old(self).genuine() {
                assert forall|k: int|
                    0 <= k < self.chunks().len() && (#[trigger] self.chunks()[k]).data.len()
                        > 0 implies sha1_digest(self.chunks()[k].data) == self.digests()[self.written()
                    + k] by {
                    if first_match(old(self).digests(), hash) != Some(old(self).written() + k) {
                        assert(self.chunks()[k] == old(self).chunks()[k]);
                    }
                }
            }
        }
        res
    }

    /// Fills in a piece that has arrived, unless its chunk has been handed to
    /// the file already: then nothing is done.
    pub fn try_fill_chunk(&mut self, possibly_suitable_chunk: Vec<u8>) -> (res: Option<
        Result<(), String>,
    >)
        requires
            old(self).wf(),
        ensures
            final(self).wf(),
            old(self).genuine() ==> final(self).genuine(),
            final(self).manifest == old(self).manifest,
            final(self).suggested == old(self).suggested,
            res is Some <==> old(self).can_fill(sha1_digest(possibly_suitable_chunk@)),
            match first_match(old(self).digests(), sha1_digest(possibly_suitable_chunk@)) {
                Some(i) => {
                    if i >= old(self).written() {
                        &&& res is Some && res->0 is Ok
                        &&& filled_in(old(self), i, possibly_suitable_chunk@, final(self))
                    } else {
                        &&& res is None
                        &&& final(self).dummy_chunks == old(self).dummy_chunks
                    }
                },
                None => {
                    &&& res matches Some(Err(text))
                    &&& text@ == unrelated_text(
                        possibly_suitable_chunk@,
                        old(self).manifest.inner.filename@,
                    )
                    &&& text@ == bytes_pretty_debug(possibly_suitable_chunk@)
                        + " is not related to "@ + old(self).manifest.inner.filename@
                    &&& final(self).dummy_chunks == old(self).dummy_chunks
                },
            },
    {
        let hash = sha1(possibly_suitable_chunk.as_slice());
        if let Some(position) = self.position_of(hash.as_slice()) {
            if position < self.manifest.pieces_count() - self.dummy_chunks.len() {
                return None;
            }
        }
        Some(self.fill_chunk(possibly_suitable_chunk))
    }
}

proof fn lemma_first_match(sharps: Seq<Seq<u8>>, hash: Seq<u8>)
    ensures
        first_match(sharps, hash) matches Some(i) ==> 0 <= i < sharps.len() && sharps[i] == hash,
        first_match(sharps, hash) is None ==> !sharps.contains(hash),
    decreases sharps.len(),
{
    if sharps.len() > 0 {
        lemma_first_match(sharps.drop_last(), hash);
        if first_match(sharps, hash) is None && sharps.contains(hash) {
            let j = choose|j: int| 0 <= j < sharps.len() && sharps[j] == hash;
            if j < sharps.len() - 1 {
                assert(sharps.drop_last()[j] == hash);
            }
        }
    }
}

proof fn lemma_first_match_stays(sharps: Seq<Seq<u8>>, n: int, hash: Seq<u8>)
    requires
        0 <= n <= sharps.len(),
        first_match(sharps.take(n), hash) is Some,
    ensures
        first_match(sharps, hash) == first_match(sharps.take(n), hash),
    decreases sharps.len() - n,
{
    if n < sharps.len() {
        assert(sharps.take(n + 1).drop_last() =~= sharps.take(n));
        lemma_first_match_stays(sharps, n + 1, hash);
    } else {
        assert(sharps.take(n) =~= sharps);
    }
}

/// The writing of the filled chunks at the front to the file, while it goes on.
#[derive(Debug)]
pub struct Loadout {
    /// How many chunks are to be written.
    pub filled: usize,
    /// How many chunks have been handed to the file.
    pub attempted: usize,
    /// What went wrong with the last of them.
    pub failure: Option<String>,
}

impl Loadout {
    /// Whether this is the writing of the chunks of `manager`.
    pub open spec fn belongs_to(&self, manager: &FileManager) -> bool {
        &&& self.filled == filled_prefix(manager.chunks())
        &&& self.attempted <= self.filled
    }

    /// Whether a chunk is left to be handed to the file.
    pub open spec fn goes_on(&self) -> bool {
        self.failure is None && self.attempted < self.filled
    }

    /// Takes note of what became of the chunk that was handed to the file last.
    pub fn wrote(&mut self, result: Result<(), String>)
        requires
            old(self).goes_on(),
        ensures
            final(self).filled == old(self).filled,
            final(self).attempted == old(self).attempted + 1,
            final(self).failure == (match result {
                Ok(_) => None,
                Err(text) => Some(text),
            }),
    {
        self.attempted = self.attempted + 1;
        self.failure = match result {
            Ok(_) => None,
            Err(text) => Some(text),
        };
    }
}

proof fn lemma_filled_prefix(chunks: Seq<ChunkView>)
    ensures
        filled_prefix(chunks) <= chunks.len(),
        forall|k: int| 0 <= k < filled_prefix(chunks) ==> (#[trigger] chunks[k]).data.len() > 0,
        filled_prefix(chunks) < chunks.len() ==> chunks[filled_prefix(chunks) as int].data.len() == 0,
    decreases chunks.len(),
{
    if chunks.len() > 0 && chunks[0].data.len() > 0 {
        let rest = chunks.drop_first();
        lemma_filled_prefix(rest);
        assert forall|k: int| 0 <= k < filled_prefix(chunks) implies (
        #[trigger] chunks[k]).data.len() > 0 by {
            if k > 0 {
                assert(rest[k - 1] == chunks[k]);
            }
        }
    }
}

proof fn lemma_filled_prefix_is(chunks: Seq<ChunkView>, n: int)
    requires
        0 <= n <= chunks.len(),
        forall|k: int| 0 <= k < n ==> (#[trigger] chunks[k]).data.len() > 0,
        n < chunks.len() ==> chunks[n].data.len() == 0,
    ensures
        filled_prefix(chunks) == n,
{
    lemma_filled_prefix(chunks);
    let m = filled_prefix(chunks) as int;
    if m < n {
        assert(chunks[m].data.len() > 0);
    } else if n < m {
        assert(chunks[n].data.len() > 0);
    }
}

impl FileManager {
    /// Starts to write the filled chunks at the front to the file.
    pub fn loadout_filled_chunks(&self) -> (res: Loadout)
        ensures
            res.belongs_to(self),
            res.attempted == 0,
            res.failure is None,
            res.filled <= self.dummy_chunks@.len(),
            forall|k: int|
                0 <= k < res.filled ==> (#[trigger] self.dummy_chunks@[k]).data@.len() > 0,
            res.filled < self.dummy_chunks@.len()
                ==> self.dummy_chunks@[res.filled as int].data@.len() == 0,
    {
        let mut filled: usize = 0;
        while filled < self.dummy_chunks.len() && !self.dummy_chunks[filled].data.is_empty()
            invariant
                filled <= self.dummy_chunks@.len(),
                forall|k: int|
                    0 <= k < filled ==> (#[trigger] self.chunks()[k]).data.len() > 0,
                forall|k: int|
                    0 <= k < filled ==> (#[trigger] self.dummy_chunks@[k]).data@.len() > 0,
            decreases self.dummy_chunks@.len() - filled,
        {
            assert(self.chunks()[filled as int].data.len() > 0);
            filled += 1;
        }
        proof {
            lemma_filled_prefix_is(self.chunks(), filled as int);
        }
        Loadout { filled, attempted: 0, failure: None }
    }

    /// The data that has to be handed to the file next, if any is left. It is
    /// never empty, and it is that of the first piece that has not been handed
    /// over yet.
    pub fn next_write(&self, loadout: &Loadout) -> (res: Option<&Vec<u8>>)
        requires
            self.wf(),
            loadout.belongs_to(self),
        ensures
            res is Some <==> loadout.goes_on(),
            res is Some <==> loadout.failure is None && loadout.attempted < loadout.filled,
            res matches Some(data) ==> data@ == self.dummy_chunks@[loadout.attempted as int].data@,
            res matches Some(data) ==> {
                let k = loadout.attempted as int;
                &&& data@ == self.chunks()[k].data
                &&& data@.len() > 0
                &&& self.genuine() ==> sha1_digest(data@) == self.digests()[self.written() + k]
            },
    {
        proof {
            lemma_filled_prefix(self.chunks());
        }
        if loadout.failure.is_none() && loadout.attempted < loadout.filled {
            assert(self.chunks()[loadout.attempted as int].data.len() > 0);
            Some(&self.dummy_chunks[loadout.attempted].data)
        } else {
            None
        }
    }

    /// Ends the writing: the chunks that were handed to the file are dropped,
    /// also the one with which the writing failed.
    pub fn finish_loadout(&mut self, loadout: Loadout) -> (res: Result<(), String>)
        requires
            old(self).wf(),
            loadout.belongs_to(old(self)),
            !loadout.goes_on(),
        ensures
            final(self).wf(),
            old(self).genuine() ==> final(self).genuine(),
            loaded_out(old(self), loadout.attempted as int, final(self)),
            final(self).manifest == old(self).manifest,
            final(self).dummy_chunks@ == old(self).dummy_chunks@.skip(loadout.attempted as int),
            final(self).suggested == old(self).suggested,
            final(self).written() == old(self).written() + loadout.attempted,
            match loadout.failure {
                Some(text) => res == Err::<(), String>(text),
                None => res is Ok,
            },
    {
        proof {
            lemma_filled_prefix(self.chunks());
        }
        let ghost before = self.chunks();
        let rest = self.dummy_chunks.split_off(loadout.attempted);
        self.dummy_chunks = rest;
        proof {
            assert(self.chunks() =~= before.skip(loadout.attempted as int));
            assert forall|k: int| 0 <= k < self.chunks().len() implies (
            #[trigger] self.chunks()[k]).index == self.written() + k by {
                assert(before[loadout.attempted + k].index == old(self).written()
                    + loadout.attempted + k);
            }
            if old(self).genuine() {
                assert forall|k: int|
                    0 <= k < self.chunks().len() && (#[trigger] self.chunks()[k]).data.len()
                        > 0 implies sha1_digest(self.chunks()[k].data) == self.digests()[self.written()
                    + k] by {
                    assert(before[loadout.attempted + k] == self.chunks()[k]);
                }
            }
        }
        match loadout.failure {
            Some(text) => Err(text),
            None => Ok(()),
        }
    }
}

impl FileManager {
    /// Takes in a piece that has arrived: fills it in, and starts to write the
    /// filled chunks at the front to the file. Nothing is done where the chunk of
    /// the piece has been handed to the file already.
    pub fn receive_piece(&mut self, possibly_suitable_chunk: Vec<u8>) -> (res: Option<
        Result<Loadout, String>,
    >)
        requires
            old(self).wf(),
        ensures
            final(self).wf(),
            old(self).genuine() ==> final(self).genuine(),
            final(self).manifest == old(self).manifest,
            final(self).suggested == old(self).suggested,
            match first_match(old(self).digests(), sha1_digest(possibly_suitable_chunk@)) {
                Some(i) => {
                    if i >= old(self).written() {
                        &&& res matches Some(Ok(loadout))
                        &&& loadout.belongs_to(final(self))
                        &&& loadout.filled <= final(self).dummy_chunks@.len()
                        &&& forall|k: int|
                            0 <= k < loadout.filled ==> (
                            #[trigger] final(self).dummy_chunks@[k]).data@.len() > 0
                        &&& loadout.filled < final(self).dummy_chunks@.len()
                            ==> final(self).dummy_chunks@[loadout.filled as int].data@.len() == 0
                        &&& loadout.attempted == 0
                        &&& loadout.failure is None
                        &&& filled_in(old(self), i, possibly_suitable_chunk@, final(self))
                    } else {
                        &&& res is None
                        &&& final(self).dummy_chunks == old(self).dummy_chunks
                    }
                },
                None => {
                    &&& res matches Some(Err(text))
                    &&& text@ == unrelated_text(
                        possibly_suitable_chunk@,
                        old(self).manifest.inner.filename@,
                    )
                    &&& text@ == bytes_pretty_debug(possibly_suitable_chunk@)
                        + " is not related to "@ + old(self).manifest.inner.filename@
                    &&& final(self).dummy_chunks == old(self).dummy_chunks
                },
            },
    {
        match self.try_fill_chunk(possibly_suitable_chunk) {
            Some(Ok(_)) => Some(Ok(self.loadout_filled_chunks())),
            Some(Err(text)) => Some(Err(text)),
            None => None,
        }
    }
}

/// What reading a chunk asks of the file, or what it comes to.
#[derive(Debug)]
pub enum FileAction {
    /// Go to this position, counted from the start.
    Seek(u64),
    /// Read exactly this many bytes.
    ReadExact(usize),
    /// Go back to the start.
    Rewind,
    /// The reading is over.
    Return(Result<Option<Vec<u8>>, String>),
}

/// Why the file could not go to a position.
#[derive(Debug)]
pub enum SeekFailure {
    /// The file ended unexpectedly.
    UnexpectedEof,
    /// Any other failure, and what it says.
    Other(String),
}

/// What became of a [`FileAction`].
#[derive(Debug)]
pub enum FileEvent {
    Sought(Result<u64, SeekFailure>),
    Read(Result<Vec<u8>, String>),
    Rewound(Result<(), String>),
}

/// How far the reading of a chunk has come.
#[derive(Debug)]
pub enum ReadStage {
    Seeking,
    Reading,
    Rewinding(Option<Vec<u8>>),
    Done,
}

/// The reading of a chunk, while it goes on.
#[derive(Debug)]
pub struct ChunkRead {
    pub index: usize,
    pub stage: ReadStage,
}

/// The number of bytes that reading a chunk takes from the file: its buffer has
/// room for a piece, but no length yet.
pub const CHUNK_READ_LEN: usize = 0;

impl ChunkRead {
    /// Whether `event` is what the reading waits for.
    pub open spec fn expects(&self, event: FileEvent) -> bool {
        match (self.stage, event) {
            (ReadStage::Seeking, FileEvent::Sought(_)) => true,
            (ReadStage::Reading, FileEvent::Read(Ok(bytes))) => bytes@.len() == CHUNK_READ_LEN,
            (ReadStage::Reading, FileEvent::Read(Err(_))) => true,
            (ReadStage::Rewinding(_), FileEvent::Rewound(_)) => true,
            _ => false,
        }
    }
}

/// How `event` takes the reading of a chunk of `manager` from `before` to
/// `after`, and what is to be done then.
pub open spec fn read_step(
    manager: &FileManager,
    before: ChunkRead,
    event: FileEvent,
    after: ChunkRead,
    action: FileAction,
) -> bool {
    &&& after.index == before.index
    &&& match (before.stage, event) {
        (ReadStage::Seeking, FileEvent::Sought(Ok(_))) => {
            &&& after.stage is Reading
            &&& action == FileAction::ReadExact(CHUNK_READ_LEN)
        },
        (ReadStage::Seeking, FileEvent::Sought(Err(SeekFailure::UnexpectedEof))) => {
            &&& after.stage matches ReadStage::Rewinding(chunk)
            &&& opt_bytes(chunk) == manager.buffered(before.index)
            &&& action == FileAction::Rewind
        },
        (ReadStage::Seeking, FileEvent::Sought(Err(SeekFailure::Other(text)))) => {
            &&& after.stage is Done
            &&& action == FileAction::Return(Err(text))
        },
        (ReadStage::Reading, FileEvent::Read(Ok(bytes))) => {
            &&& after.stage == ReadStage::Rewinding(Some(bytes))
            &&& action == FileAction::Rewind
        },
        (ReadStage::Reading, FileEvent::Read(Err(text))) => {
            &&& after.stage is Done
            &&& action == FileAction::Return(Err(text))
        },
        (ReadStage::Rewinding(chunk), FileEvent::Rewound(Ok(_))) => {
            &&& after.stage is Done
            &&& action == FileAction::Return(Ok(chunk))
        },
        (ReadStage::Rewinding(chunk), FileEvent::Rewound(Err(_))) => {
            &&& after.stage is Done
            &&& action matches FileAction::Return(Err(text))
            &&& text@ == rewind_failed_text(before.index, chunk is Some)
        },
        _ => false,
    }
}

impl FileManager {
    /// Starts to read the chunk with this index: the file has to go to where
    /// the piece starts.
    pub fn filled_chunk(&self, index: usize) -> (res: (ChunkRead, FileAction))
        requires
            self.manifest.inner.piece_size * index <= usize::MAX,
        ensures
            res.0.index == index,
            res.0.stage is Seeking,
            res.1 matches FileAction::Seek(position) && position
                == self.manifest.inner.piece_size * index,
    {
        let position = self.manifest.piece_size() * index;
        (ChunkRead { index, stage: ReadStage::Seeking }, FileAction::Seek(position as u64))
    }

    /// Goes on with the reading of a chunk.
    pub fn resume_filled_chunk(&self, read: &mut ChunkRead, event: FileEvent) -> (action: FileAction)
        requires
            self.wf(),
            old(read).expects(event),
        ensures
            read_step(self, *old(read), event, *final(read), action),
            final(read).index == old(read).index,
            match event {
                FileEvent::Sought(Ok(_)) => action == FileAction::ReadExact(0),
                FileEvent::Sought(Err(SeekFailure::UnexpectedEof)) => action is Rewind,
                FileEvent::Sought(Err(SeekFailure::Other(text))) => action == FileAction::Return(
                    Err(text),
                ),
                FileEvent::Read(Ok(_)) => action is Rewind,
                FileEvent::Read(Err(text)) => action == FileAction::Return(Err(text)),
                FileEvent::Rewound(Ok(_)) => action matches FileAction::Return(Ok(_)),
                FileEvent::Rewound(Err(_)) => action matches FileAction::Return(Err(_)),
            },
    {
        let mut stage = ReadStage::Done;
        std::mem::swap(&mut read.stage, &mut stage);
        match (stage, event) {
            (ReadStage::Seeking, FileEvent::Sought(Ok(_))) => {
                read.stage = ReadStage::Reading;
                FileAction::ReadExact(CHUNK_READ_LEN)
            },
            (ReadStage::Seeking, FileEvent::Sought(Err(SeekFailure::UnexpectedEof))) => {
                read.stage = ReadStage::Rewinding(self.buffered_chunk(read.index));
                FileAction::Rewind
            },
            (ReadStage::Seeking, FileEvent::Sought(Err(SeekFailure::Other(text)))) => {
                FileAction::Return(Err(text))
            },
            (ReadStage::Reading, FileEvent::Read(Ok(bytes))) => {
                read.stage = ReadStage::Rewinding(Some(bytes));
                FileAction::Rewind
            },
            (ReadStage::Reading, FileEvent::Read(Err(text))) => FileAction::Return(Err(text)),
            (ReadStage::Rewinding(chunk), FileEvent::Rewound(Ok(_))) => FileAction::Return(
                Ok(chunk),
            ),
            (ReadStage::Rewinding(chunk), FileEvent::Rewound(Err(_))) => {
                let mut text = String::from_str("we might find needed chunk under ");
                push_decimal(&mut text, read.index);
                text.append(" index(");
                text.append(show_bool(chunk.is_some()).as_str());
                text.append("), but the file rewind failed");
                FileAction::Return(Err(text))
            },
            _ => {
                assert(false);
                FileAction::Rewind
            },
        }
    }

    /// The data that waits for its turn to go to disk under `index`.
    pub fn buffered_chunk(&self, index: usize) -> (res: Option<Vec<u8>>)
        requires
            self.wf(),
        ensures
            opt_bytes(res) == self.buffered(index),
            res matches Some(data) ==> data@.len() > 0 && exists|k: int|
                0 <= k < self.dummy_chunks@.len() && (#[trigger] self.dummy_chunks@[k]).index
                    == index && self.dummy_chunks@[k].data@ == data@,
            res is None ==> forall|k: int|
                0 <= k < self.dummy_chunks@.len() && (#[trigger] self.dummy_chunks@[k]).index
                    == index ==> self.dummy_chunks@[k].data@.len() == 0,
    {
        assert forall|k: int| 0 <= k < self.dummy_chunks@.len() implies (
        #[trigger] self.dummy_chunks@[k]).index == self.written() + k by {
            assert(self.chunks()[k].index == self.written() + k);
        }
        let written = self.manifest.pieces_count() - self.dummy_chunks.len();
        if index < written || index - written >= self.dummy_chunks.len() {
            return None;
        }
        let chunk = &self.dummy_chunks[index - written];
        assert(self.chunks()[index - written] == chunk@);
        if chunk.data.is_empty() {
            None
        } else {
            let data = chunk.data.clone();
            assert(data@ =~= chunk.data@);
            Some(data)
        }
    }
}

impl PartialEq for FileManager {
    fn eq(&self, other: &Self) -> (res: bool) {
        self.manifest == other.manifest
    }
}

impl vstd::std_specs::cmp::PartialEqSpecImpl for FileManager {
    open spec fn obeys_eq_spec() -> bool {
        true
    }

    open spec fn eq_spec(&self, other: &Self) -> bool {
        self.manifest.inner@ == other.manifest.inner@
    }
}

impl Eq for FileManager {

}

/// `after` is `before` with `data` filled in under `index`.
pub open spec fn filled_in(
    before: &FileManager,
    index: int,
    data: Seq<u8>,
    after: &FileManager,
) -> bool {
    &&& after.manifest == before.manifest
    &&& after.chunks() == before.chunks().update(
        index - before.written(),
        ChunkView { index: index as usize, data },
    )
}

/// `after` is `before` with the first `count` chunks handed to the file.
pub open spec fn loaded_out(before: &FileManager, count: int, after: &FileManager) -> bool {
    &&& after.manifest == before.manifest
    &&& after.chunks() == before.chunks().skip(count)
}

/// `handed` is what the file has been given so far: one byte string for each
/// chunk that is gone, each with the digest that the manifest lists for it.
pub open spec fn in_step(manager: &FileManager, handed: Seq<Seq<u8>>) -> bool {
    &&& handed.len() == manager.written()
    &&& forall|k: int|
        0 <= k < handed.len() ==> sha1_digest(#[trigger] handed[k]) == manager.digests()[k]
}

/// A chunk that was filled in is no longer asked for, can be read back, and
/// leaves every other chunk as it was.
pub proof fn law_filled_chunk_is_kept(
    before: FileManager,
    index: usize,
    data: Seq<u8>,
    after: FileManager,
)
    requires
        before.wf(),
        before.written() <= index < before.digests().len(),
        data.len() > 0,
        filled_in(&before, index as int, data, &after),
    ensures
        after.wf(),
        after.buffered(index) == Some(data),
        !is_absent(after.chunks(), index),
        forall|other: usize|
            other != index ==> #[trigger] after.buffered(other) == before.buffered(other),
        forall|other: usize|
            other != index ==> (#[trigger] is_absent(after.chunks(), other) <==> is_absent(
                before.chunks(),
                other,
            )),
{
    let offset = index - before.written();
    assert(after.chunks().len() == before.chunks().len());
    assert(after.written() == before.written());
    assert forall|k: int| 0 <= k < after.chunks().len() implies (
    #[trigger] after.chunks()[k]).index == after.written() + k by {
        assert(before.chunks()[k].index == before.written() + k);
    }
    assert forall|other: usize| other != index implies (#[trigger] is_absent(after.chunks(), other)
        <==> is_absent(before.chunks(), other)) by {
        if is_absent(before.chunks(), other) {
            let k = choose|k: int|
                0 <= k < before.chunks().len() && (#[trigger] before.chunks()[k]).index == other
                    && before.chunks()[k].data.len() == 0;
            assert(k != offset);
            assert(after.chunks()[k] == before.chunks()[k]);
        }
        if is_absent(after.chunks(), other) {
            let k = choose|k: int|
                0 <= k < after.chunks().len() && (#[trigger] after.chunks()[k]).index == other
                    && after.chunks()[k].data.len() == 0;
            assert(k != offset);
            assert(before.chunks()[k] == after.chunks()[k]);
        }
    }
}

/// A chunk with data keeps it when a piece of the file arrives, unless the piece
/// and that data are different bytes with one digest.
pub proof fn law_filled_chunk_stays_filled(
    before: FileManager,
    index: usize,
    data: Seq<u8>,
    after: FileManager,
    filled: usize,
)
    requires
        before.wf(),
        before.genuine(),
        before.written() <= index < before.digests().len(),
        sha1_digest(data) == before.digests()[index as int],
        filled_in(&before, index as int, data, &after),
        before.buffered(filled) matches Some(kept) && (sha1_digest(kept) == sha1_digest(data)
            ==> kept == data),
    ensures
        after.buffered(filled) == before.buffered(filled),
        !is_absent(after.chunks(), filled),
{
    let offset = filled - before.written();
    assert(after.chunks().len() == before.chunks().len());
    assert(sha1_digest(before.chunks()[offset].data) == before.digests()[filled as int]);
    assert forall|k: int|
        0 <= k < after.chunks().len() && (#[trigger] after.chunks()[k]).index
            == filled implies after.chunks()[k].data.len() > 0 by {
        assert(before.chunks()[k].index == before.written() + k);
    }
}

proof fn lemma_absent_after_update(chunks: Seq<ChunkView>, k: int, chunk: ChunkView)
    requires
        0 <= k < chunks.len(),
        chunk.data.len() > 0,
    ensures
        absent_indices(chunks.update(k, chunk)).len() == absent_indices(chunks).len() - (
        if chunks[k].data.len() == 0 {
            1int
        } else {
            0int
        }),
    decreases chunks.len(),
{
    let front = chunks.drop_last();
    let updated = chunks.update(k, chunk);
    if k == chunks.len() - 1 {
        assert(updated.drop_last() =~= front);
    } else {
        assert(updated.drop_last() =~= front.update(k, chunk));
        lemma_absent_after_update(front, k, chunk);
    }
}

proof fn lemma_absent_behind_filled(chunks: Seq<ChunkView>, n: int)
    requires
        0 <= n <= chunks.len(),
        forall|k: int| 0 <= k < n ==> (#[trigger] chunks[k]).data.len() > 0,
    ensures
        absent_indices(chunks.skip(n)) == absent_indices(chunks),
    decreases chunks.len(),
{
    if chunks.len() > 0 {
        let front = chunks.drop_last();
        if n == chunks.len() {
            lemma_absent_behind_filled(front, n - 1);
            assert(chunks[n - 1].data.len() > 0);
            assert(front.skip(n - 1) =~= Seq::empty());
            assert(chunks.skip(n) =~= Seq::empty());
        } else {
            lemma_absent_behind_filled(front, n);
            assert(chunks.skip(n).drop_last() =~= front.skip(n));
        }
    } else {
        assert(chunks.skip(n) =~= chunks);
    }
}

/// Each piece that arrives for the first time leaves one chunk less to ask for;
/// one that arrives again leaves as many.
pub proof fn law_each_piece_is_progress(
    before: FileManager,
    index: usize,
    data: Seq<u8>,
    after: FileManager,
)
    requires
        before.wf(),
        before.written() <= index < before.digests().len(),
        data.len() > 0,
        filled_in(&before, index as int, data, &after),
    ensures
        absent_indices(after.chunks()).len() == absent_indices(before.chunks()).len() - (
        if before.buffered(index) is None {
            1int
        } else {
            0int
        }),
{
    lemma_absent_after_update(
        before.chunks(),
        index - before.written(),
        ChunkView { index, data },
    );
}

/// Handing chunks to the file leaves what has to be asked for.
pub proof fn law_handing_over_leaves_what_is_absent(
    before: FileManager,
    count: int,
    after: FileManager,
)
    requires
        0 <= count <= filled_prefix(before.chunks()),
        loaded_out(&before, count, &after),
    ensures
        absent_indices(after.chunks()) == absent_indices(before.chunks()),
{
    lemma_filled_prefix(before.chunks());
    lemma_absent_behind_filled(before.chunks(), count);
}

/// Once all filled chunks at the front have been handed to the file, none is
/// left there to be handed over.
pub proof fn law_nothing_is_left_to_hand_over(before: FileManager, after: FileManager)
    requires
        loaded_out(&before, filled_prefix(before.chunks()) as int, &after),
    ensures
        filled_prefix(after.chunks()) == 0,
        absent_indices(after.chunks()).len() == 0 ==> after.chunks().len() == 0,
{
    let chunks = before.chunks();
    let n = filled_prefix(chunks) as int;
    lemma_filled_prefix(chunks);
    if after.chunks().len() > 0 {
        assert(after.chunks()[0] == chunks[n]);
        lemma_absent_indices(after.chunks(), chunks[n].index);
        assert(is_absent(after.chunks(), chunks[n].index));
    }
}

/// Each piece of the file that a manifest was made from is known to a manager
/// of that manifest.
pub proof fn law_pieces_are_related(
    manager: FileManager,
    filename: Seq<char>,
    data: Seq<u8>,
    i: int,
)
    requires
        manager.manifest.inner@ == description(filename, data),
        0 <= i < pieces(data, PIECE_LENGTH as nat).len(),
    ensures
        first_match(
            manager.digests(),
            sha1_digest(pieces(data, PIECE_LENGTH as nat)[i]),
        ) is Some,
{
    let hash = sha1_digest(pieces(data, PIECE_LENGTH as nat)[i]);
    lemma_first_match(manager.digests(), hash);
    assert(manager.digests()[i] == hash);
}

/// A new manager has handed nothing to its file.
pub proof fn law_nothing_handed_at_first(manager: FileManager)
    requires
        manager.wf(),
        manager.written() == 0,
    ensures
        in_step(&manager, Seq::empty()),
{
}

/// Filling in a chunk hands nothing to the file.
pub proof fn law_filling_hands_nothing(
    before: FileManager,
    index: usize,
    data: Seq<u8>,
    after: FileManager,
    handed: Seq<Seq<u8>>,
)
    requires
        before.written() <= index < before.digests().len(),
        in_step(&before, handed),
        filled_in(&before, index as int, data, &after),
    ensures
        in_step(&after, handed),
{
    assert(after.chunks().len() == before.chunks().len());
}

/// The chunks that are written go to the file in the order of their indices,
/// each right behind the one before, and each with the digest that the manifest
/// lists for it.
pub proof fn law_chunks_go_out_in_order(
    before: FileManager,
    count: int,
    after: FileManager,
    handed: Seq<Seq<u8>>,
)
    requires
        before.wf(),
        before.genuine(),
        in_step(&before, handed),
        0 <= count <= filled_prefix(before.chunks()),
        loaded_out(&before, count, &after),
    ensures
        in_step(
            &after,
            handed + before.chunks().take(count).map_values(|c: ChunkView| c.data),
        ),
{
    lemma_filled_prefix(before.chunks());
    let all = handed + before.chunks().take(count).map_values(|c: ChunkView| c.data);
    assert(after.chunks().len() == before.chunks().len() - count);
    assert forall|k: int| 0 <= k < all.len() implies sha1_digest(#[trigger] all[k])
        == after.digests()[k] by {
        if k >= handed.len() {
            let offset = k - handed.len();
            assert(before.chunks()[offset].data.len() > 0);
            assert(all[k] == before.chunks()[offset].data);
        }
    }
}

/// Once every chunk has been handed to the file, and unless two different
/// pieces share a digest, what was handed to it, put together in order, is what
/// the manifest was made from.
pub proof fn law_download_is_the_file(
    manager: FileManager,
    filename: Seq<char>,
    data: Seq<u8>,
    handed: Seq<Seq<u8>>,
)
    requires
        manager.manifest.inner@ == description(filename, data),
        in_step(&manager, handed),
        manager.chunks().len() == 0,
        forall|k: int|
            0 <= k < handed.len() && sha1_digest(#[trigger] handed[k]) == sha1_digest(
                pieces(data, PIECE_LENGTH as nat)[k],
            ) ==> handed[k] == pieces(data, PIECE_LENGTH as nat)[k],
    ensures
        handed.flatten() == data,
{
    let whole = pieces(data, PIECE_LENGTH as nat);
    assert(manager.digests() == description(filename, data).sharps);
    assert(handed.len() == whole.len());
    assert forall|k: int| 0 <= k < handed.len() implies #[trigger] handed[k] == whole[k] by {
        assert(manager.digests()[k] == sha1_digest(whole[k]));
    }
    assert(handed =~= whole);
    law_pieces_join(data, PIECE_LENGTH as nat);
}

/// The first place at which a digest is found is one where it stands, with none
/// before; it is not found only where it stands nowhere.
pub proof fn law_first_match_is_the_first(sharps: Seq<Seq<u8>>, hash: Seq<u8>)
    ensures
        match first_match(sharps, hash) {
            Some(i) => {
                &&& 0 <= i < sharps.len()
                &&& sharps[i] == hash
                &&& forall|j: int| 0 <= j < i ==> #[trigger] sharps[j] != hash
            },
            None => forall|j: int| 0 <= j < sharps.len() ==> #[trigger] sharps[j] != hash,
        },
    decreases sharps.len(),
{
    if sharps.len() > 0 {
        let front = sharps.drop_last();
        law_first_match_is_the_first(front, hash);
        match first_match(front, hash) {
            Some(i) => {
                assert forall|j: int| 0 <= j < i implies #[trigger] sharps[j] != hash by {
                    assert(front[j] != hash);
                }
            },
            None => {
                assert forall|j: int| 0 <= j < sharps.len() - 1 implies #[trigger] sharps[j]
                    != hash by {
                    assert(front[j] != hash);
                }
            },
        }
    }
}

/// The digests of a manager are those that its manifest lists.
pub proof fn law_digests_are_the_sharps(manager: FileManager, i: int)
    ensures
        manager.digests().len() == manager.manifest.inner.sharps@.len(),
        0 <= i < manager.manifest.inner.sharps@.len() ==> manager.digests()[i]
            == manager.manifest.inner.sharps@[i]@,
{
}

/// A piece can be filled in unless the first chunk with its digest is one of those
/// that are gone.
pub proof fn law_only_written_chunks_cannot_be_filled(manager: FileManager, hash: Seq<u8>)
    ensures
        manager.can_fill(hash) <==> !(exists|i: int|
            {
                &&& 0 <= i < manager.manifest.inner.sharps@.len() - manager.dummy_chunks@.len()
                &&& (#[trigger] manager.digests()[i]) == hash
                &&& forall|j: int| 0 <= j < i ==> #[trigger] manager.digests()[j] != hash
            }),
{
    law_first_match_is_the_first(manager.digests(), hash);
    match first_match(manager.digests(), hash) {
        Some(i) => {
            assert(manager.digests()[i] == hash);
            if i >= manager.written() {
                assert forall|k: int|
                    0 <= k < manager.manifest.inner.sharps@.len()
                        - manager.dummy_chunks@.len() implies (#[trigger] manager.digests()[k])
                    != hash by {}
            }
        },
        None => {},
    }
}

/// Filling in data changes the data of one chunk, the one with that index, and
/// nothing else.
pub proof fn law_filling_changes_one_chunk(
    before: FileManager,
    index: usize,
    data: Seq<u8>,
    after: FileManager,
    k: int,
)
    requires
        before.wf(),
        filled_in(&before, index as int, data, &after),
        before.manifest.inner.sharps@.len() - before.dummy_chunks@.len() <= index
            < before.manifest.inner.sharps@.len(),
        0 <= k < before.dummy_chunks@.len(),
    ensures
        after.manifest == before.manifest,
        after.dummy_chunks@.len() == before.dummy_chunks@.len(),
        after.dummy_chunks@[k].index == before.dummy_chunks@[k].index,
        after.dummy_chunks@[k].data@ == (if before.dummy_chunks@[k].index == index {
            data
        } else {
            before.dummy_chunks@[k].data@
        }),
{
    assert(after.chunks().len() == before.chunks().len());
    assert(before.chunks()[k].index == before.written() + k);
    assert(after.chunks()[k] == after.dummy_chunks@[k]@);
    assert(before.chunks()[k] == before.dummy_chunks@[k]@);
}

/// The chunks that wait at the front to be handed to the file are those with data
/// before the first one without.
pub proof fn law_filled_front_has_data(manager: FileManager, k: int)
    ensures
        filled_prefix(manager.chunks()) <= manager.dummy_chunks@.len(),
        0 <= k < filled_prefix(manager.chunks()) ==> manager.dummy_chunks@[k].data@.len() > 0,
        k == filled_prefix(manager.chunks()) && k < manager.dummy_chunks@.len()
            ==> manager.dummy_chunks@[k].data@.len() == 0,
{
    lemma_filled_prefix(manager.chunks());
    if 0 <= k < manager.dummy_chunks@.len() {
        assert(manager.chunks()[k] == manager.dummy_chunks@[k]@);
    }
}

/// Handing chunks to the file takes them off the front and leaves the others.
pub proof fn law_handing_over_takes_the_front(
    before: FileManager,
    count: int,
    after: FileManager,
    k: int,
)
    requires
        0 <= count <= before.dummy_chunks@.len(),
        loaded_out(&before, count, &after),
        count <= k < before.dummy_chunks@.len(),
    ensures
        after.manifest == before.manifest,
        after.dummy_chunks@.len() == before.dummy_chunks@.len() - count,
        after.dummy_chunks@[k - count].index == before.dummy_chunks@[k].index,
        after.dummy_chunks@[k - count].data@ == before.dummy_chunks@[k].data@,
{
    assert(after.chunks().len() == before.chunks().len() - count);
    assert(after.chunks()[k - count] == before.chunks()[k]);
    assert(after.chunks()[k - count] == after.dummy_chunks@[k - count]@);
}

/// The data that waits under an index is that of the chunk with this index.
pub proof fn law_buffered_data_is_that_of_the_chunk(manager: FileManager, k: int)
    requires
        manager.wf(),
        0 <= k < manager.dummy_chunks@.len(),
    ensures
        manager.buffered(manager.dummy_chunks@[k].index) == (
        if manager.dummy_chunks@[k].data@.len() > 0 {
            Some(manager.dummy_chunks@[k].data@)
        } else {
            None
        }),
{
    assert(manager.chunks()[k].index == manager.written() + k);
    assert(manager.chunks()[k] == manager.dummy_chunks@[k]@);
}

/// The chunks that have to be asked for are listed in the order of their indices,
/// each once.
pub proof fn law_absent_chunks_are_in_order(manager: FileManager, i: int, j: int)
    requires
        manager.wf(),
        0 <= i < j < absent_indices(manager.chunks()).len(),
    ensures
        absent_indices(manager.chunks())[i] < absent_indices(manager.chunks())[j],
{
    lemma_absent_in_order(manager.chunks(), manager.written(), i, j);
}

proof fn lemma_absent_in_order(chunks: Seq<ChunkView>, start: int, i: int, j: int)
    requires
        forall|k: int| 0 <= k < chunks.len() ==> (#[trigger] chunks[k]).index == start + k,
    ensures
        0 <= i < absent_indices(chunks).len() ==> start <= absent_indices(chunks)[i] < start
            + chunks.len(),
        0 <= i < j < absent_indices(chunks).len() ==> absent_indices(chunks)[i]
            < absent_indices(chunks)[j],
    decreases chunks.len(),
{
    if chunks.len() > 0 {
        let front = chunks.drop_last();
        assert forall|k: int| 0 <= k < front.len() implies (#[trigger] front[k]).index == start
            + k by {
            assert(chunks[k].index == start + k);
        }
        lemma_absent_in_order(front, start, i, j);
        assert(chunks[chunks.len() - 1].index == start + chunks.len() - 1);
    }
}

/// What is suggested for download is every chunk without data but the one that was
/// suggested last; that one only where no other is without data.
pub proof fn law_suggestions_are_the_absent_chunks(manager: FileManager, index: usize)
    ensures
        suggestions_of(manager.chunks(), manager.suggested).contains(index) <==> {
            &&& is_absent(manager.chunks(), index)
            &&& manager.suggested == Some(index) ==> forall|other: usize|
                is_absent(manager.chunks(), other) ==> other == index
        },
        is_absent(manager.chunks(), index) <==> exists|k: int|
            0 <= k < manager.dummy_chunks@.len() && (#[trigger] manager.dummy_chunks@[k]).index
                == index && manager.dummy_chunks@[k].data@.len() == 0,
{
    let chunks = manager.chunks();
    let absent = absent_indices(chunks);
    let fresh = without(absent, manager.suggested);
    lemma_absent_by_chunks(manager, index);
    assert forall|other: usize| absent.contains(other) <==> is_absent(chunks, other) by {
        lemma_absent_indices(chunks, other);
    }
    assert forall|other: usize|
        fresh.contains(other) <==> absent.contains(other) && manager.suggested != Some(other) by {
        lemma_without(absent, manager.suggested, other);
    }
    if fresh.len() > 0 {
        assert(fresh.contains(fresh[0]));
        assert(is_absent(chunks, fresh[0]));
    }
}

/// Managers are equal where the descriptions of their files are.
pub proof fn law_managers_are_equal_by_description(a: FileManager, b: FileManager)
    ensures
        a.eq_spec(&b) <==> a.manifest.inner.eq_spec(&b.manifest.inner),
{
}

/// What a failed rewind is reported with: the index, and whether the chunk was
/// found.
pub proof fn law_failed_rewind_is_reported(
    manager: FileManager,
    before: ChunkRead,
    text: String,
    after: ChunkRead,
    action: FileAction,
)
    requires
        read_step(&manager, before, FileEvent::Rewound(Err(text)), after, action),
    ensures
        before.stage matches ReadStage::Rewinding(chunk) && action matches FileAction::Return(
            Err(said),
        ) && said@ == "we might find needed chunk under "@ + decimal(before.index as nat)
            + " index("@ + (if chunk is Some {
            "true"@
        } else {
            "false"@
        }) + "), but the file rewind failed"@,
{
}

/// Where the file fails, the reading ends with what the file said.
pub proof fn law_failed_file_ends_the_reading(
    manager: FileManager,
    before: ChunkRead,
    event: FileEvent,
    after: ChunkRead,
    action: FileAction,
)
    requires
        read_step(&manager, before, event, after, action),
    ensures
        event matches FileEvent::Sought(Err(SeekFailure::Other(text))) ==> action
            == FileAction::Return(Err(text)),
        event matches FileEvent::Read(Err(text)) ==> action == FileAction::Return(Err(text)),
{
}

/// Where the file cannot go to a chunk, the reading gives the data that waits
/// for its turn to go to disk, if there is any.
pub proof fn law_buffered_chunk_is_read(
    manager: FileManager,
    start: ChunkRead,
    middle: ChunkRead,
    end: ChunkRead,
    first: FileAction,
    second: FileAction,
)
    requires
        start.stage is Seeking,
        read_step(
            &manager,
            start,
            FileEvent::Sought(Err(SeekFailure::UnexpectedEof)),
            middle,
            first,
        ),
        read_step(&manager, middle, FileEvent::Rewound(Ok(())), end, second),
    ensures
        first == FileAction::Rewind,
        first is Rewind,
        second matches FileAction::Return(Ok(chunk)) && opt_bytes(chunk) == manager.buffered(
            start.index,
        ),
{
}

/// Where the file can go to a chunk, the reading gives a byte string without a
/// byte in it.
pub proof fn law_chunk_on_disk_is_read_empty(
    manager: FileManager,
    start: ChunkRead,
    second: ChunkRead,
    third: ChunkRead,
    end: ChunkRead,
    position: u64,
    bytes: Vec<u8>,
    actions: Seq<FileAction>,
)
    requires
        actions.len() == 3,
        start.stage is Seeking,
        read_step(&manager, start, FileEvent::Sought(Ok(position)), second, actions[0]),
        second.expects(FileEvent::Read(Ok(bytes))),
        read_step(&manager, second, FileEvent::Read(Ok(bytes)), third, actions[1]),
        read_step(&manager, third, FileEvent::Rewound(Ok(())), end, actions[2]),
    ensures
        actions[0] == FileAction::ReadExact(0),
        actions[1] == FileAction::Rewind,
        actions[2] matches FileAction::Return(Ok(chunk)) && opt_bytes(chunk) == Some(
            Seq::<u8>::empty(),
        ),
{
}

} // verus!
