use crate::buffer::audio_buffer::AudioBuffer;
use crate::graph::endpoint::Endpoint;
use vstd::prelude::*;

verus! {

/// A fixed set of buffers of one size, made once and then lent out and taken
/// back. A buffer of the pool is free, or taken by a caller, or it waits under
/// the tag of an endpoint for whoever asks for that endpoint next.
pub struct BufferPool<B> {
    free: Vec<B>,
    tags: Vec<Endpoint>,
    tagged: Vec<B>,
    taken: usize,
    num_frames: usize,
    num_channels: usize,
    sample_rate: usize,
}

/// The buffers that wait under a tag, by tag.
spec fn tag_map<B>(tags: Seq<Endpoint>, tagged: Seq<B>) -> Map<Endpoint, B> {
    Map::new(|endpoint: Endpoint| tags.contains(endpoint),
        |endpoint: Endpoint| tagged[tags.index_of(endpoint)])
}

proof fn lemma_index_of_distinct(tags: Seq<Endpoint>, i: int)
    requires
        tags.no_duplicates(),
        0 <= i < tags.len(),
    ensures
        tags.contains(tags[i]),
        tags.index_of(tags[i]) == i,
{
    let j = tags.index_of(tags[i]);
    assert(0 <= j < tags.len() && tags[j] == tags[i]);
}

proof fn lemma_tag_map_at<B>(tags: Seq<Endpoint>, tagged: Seq<B>, i: int)
    requires
        tags.no_duplicates(),
        tags.len() == tagged.len(),
        0 <= i < tags.len(),
    ensures
        tag_map(tags, tagged).contains_key(tags[i]),
        tag_map(tags, tagged)[tags[i]] == tagged[i],
{
    lemma_index_of_distinct(tags, i);
}

proof fn lemma_tag_map_push<B>(tags: Seq<Endpoint>, tagged: Seq<B>, endpoint: Endpoint, buffer: B)
    requires
        tags.no_duplicates(),
        tags.len() == tagged.len(),
        !tags.contains(endpoint),
    ensures
        tags.push(endpoint).no_duplicates(),
        tag_map(tags.push(endpoint), tagged.push(buffer)) == tag_map(tags, tagged).insert(
            endpoint,
            buffer,
        ),
{
    let tags2 = tags.push(endpoint);
    let tagged2 = tagged.push(buffer);
    assert(tags2.no_duplicates()) by {
        assert forall|i: int, j: int| 0 <= i < tags2.len() && 0 <= j < tags2.len()
            && i != j implies tags2[i] != tags2[j] by {
            if i < tags.len() && j < tags.len() {
            } else if i < tags.len() {
                assert(tags.contains(tags[i]));
            } else {
                assert(tags.contains(tags[j]));
            }
        }
    }
    let left = tag_map(tags2, tagged2);
    let right = tag_map(tags, tagged).insert(endpoint, buffer);
    assert forall|e: Endpoint| left.contains_key(e) == right.contains_key(e) by {
        if tags2.contains(e) {
            let k = tags2.index_of(e);
            if k < tags.len() {
                assert(tags[k] == e);
            }
        }
        if tags.contains(e) {
            let k = tags.index_of(e);
            assert(tags2[k] == e);
        }
        if e == endpoint {
            assert(tags2[tags.len() as int] == e);
        }
    }
    assert forall|e: Endpoint| left.contains_key(e) implies left[e] == right[e] by {
        let k = tags2.index_of(e);
        lemma_index_of_distinct(tags2, k);
        if k < tags.len() {
            lemma_index_of_distinct(tags, k);
            assert(tags.contains(e));
        }
    }
    assert(left =~= right);
}

proof fn lemma_tag_map_remove<B>(tags: Seq<Endpoint>, tagged: Seq<B>, i: int)
    requires
        tags.no_duplicates(),
        tags.len() == tagged.len(),
        0 <= i < tags.len(),
    ensures
        tags.remove(i).no_duplicates(),
        tag_map(tags.remove(i), tagged.remove(i)) == tag_map(tags, tagged).remove(tags[i]),
{
    let tags2 = tags.remove(i);
    let tagged2 = tagged.remove(i);
    assert forall|a: int, b: int| 0 <= a < tags2.len() && 0 <= b < tags2.len() && a != b
        implies tags2[a] != tags2[b] by {
        let a1 = if a < i { a } else { a + 1 };
        let b1 = if b < i { b } else { b + 1 };
        assert(tags2[a] == tags[a1]);
        assert(tags2[b] == tags[b1]);
    }
    let left = tag_map(tags2, tagged2);
    let right = tag_map(tags, tagged).remove(tags[i]);
    assert forall|e: Endpoint| left.contains_key(e) == right.contains_key(e) by {
        if tags2.contains(e) {
            let k = tags2.index_of(e);
            let k1 = if k < i { k } else { k + 1 };
            assert(tags[k1] == e);
            assert(tags.contains(e));
        }
        if tags.contains(e) && e != tags[i] {
            let k = tags.index_of(e);
            let k2 = if k < i { k } else { k - 1 };
            assert(tags2[k2] == e);
        }
    }
    assert forall|e: Endpoint| left.contains_key(e) implies left[e] == right[e] by {
        let k = tags2.index_of(e);
        let k1 = if k < i { k } else { k + 1 };
        assert(tags[k1] == e);
        lemma_index_of_distinct(tags, k1);
        assert(tagged2[k] == tagged[k1]);
    }
    assert(left =~= right);
}

impl<B: AudioBuffer> BufferPool<B> {
    /// The free buffers, in the order in which they will be handed out last to
    /// first.
    pub closed spec fn free_buffers(&self) -> Seq<B> {
        self.free@
    }

    /// The buffers that wait under a tag, by tag.
    pub closed spec fn assignments(&self) -> Map<Endpoint, B> {
        tag_map(self.tags@, self.tagged@)
    }

    /// The buffers that wait under a tag, oldest tag first.
    pub closed spec fn assigned_buffers(&self) -> Seq<B> {
        self.tagged@
    }

    /// How many buffers are out with callers.
    pub closed spec fn num_taken(&self) -> nat {
        self.taken as nat
    }

    /// How many buffers the pool was made with.
    pub open spec fn capacity(&self) -> nat {
        self.free_buffers().len() + self.assigned_buffers().len() + self.num_taken()
    }

    pub closed spec fn frames(&self) -> usize {
        self.num_frames
    }

    pub closed spec fn channels(&self) -> usize {
        self.num_channels
    }

    pub closed spec fn rate(&self) -> usize {
        self.sample_rate
    }

    /// Whether `buffer` has the size of this pool's buffers.
    pub open spec fn fits(&self, buffer: B) -> bool {
        &&& buffer.frames() == self.frames()
        &&& buffer.channels() == self.channels()
        &&& buffer.rate() == self.rate()
    }

    /// Every buffer in the pool has the pool's size, no tag is used twice, and
    /// the buffers can be counted.
    pub closed spec fn wf(&self) -> bool {
        &&& self.tags@.len() == self.tagged@.len()
        &&& self.tags@.no_duplicates()
        &&& forall|i: int| 0 <= i < self.free@.len() ==> self.fits(#[trigger] self.free@[i])
        &&& forall|i: int| 0 <= i < self.tagged@.len() ==> self.fits(#[trigger] self.tagged@[i])
        &&& self.free@.len() + self.tagged@.len() + self.taken <= usize::MAX
    }

    /// Every buffer is back and none carries a tag.
    pub open spec fn all_free(&self) -> bool {
        &&& self.num_taken() == 0
        &&& self.assigned_buffers().len() == 0
        &&& self.assignments() == Map::<Endpoint, B>::empty()
    }

    /// What the pool knows of its free and tagged buffers.
    pub proof fn lemma_buffers_fit(&self)
        requires
            self.wf(),
        ensures
            forall|i: int|
                0 <= i < self.free_buffers().len() ==> self.fits(#[trigger] self.free_buffers()[i]),
            forall|endpoint: Endpoint| #[trigger]
                self.assignments().contains_key(endpoint) ==> self.fits(
                    self.assignments()[endpoint],
                ),
            self.assigned_buffers().len() == 0 <==> self.assignments() == Map::<
                Endpoint,
                B,
            >::empty(),
    {
        assert forall|endpoint: Endpoint| #[trigger]
            self.assignments().contains_key(endpoint) implies self.fits(
            self.assignments()[endpoint],
        ) by {
            let k = self.tags@.index_of(endpoint);
            assert(self.fits(self.tagged@[k]));
        }
        if self.tagged@.len() == 0 {
            assert(self.assignments() =~= Map::<Endpoint, B>::empty());
        } else {
            lemma_tag_map_at(self.tags@, self.tagged@, 0);
        }
    }

    /// A pool of `capacity` silent buffers of the given size.
    pub fn with_capacity(
        capacity: usize,
        num_frames: usize,
        num_channels: usize,
        sample_rate: usize,
    ) -> (pool: Self)
        ensures
            pool.wf(),
            pool.free_buffers().len() == capacity,
            pool.all_free(),
            pool.frames() == num_frames,
            pool.channels() == num_channels,
            pool.rate() == sample_rate,
    {
        let mut pool = Self {
            free: Vec::with_capacity(capacity),
            tags: Vec::with_capacity(capacity),
            tagged: Vec::with_capacity(capacity),
            taken: 0,
            num_frames,
            num_channels,
            sample_rate,
        };
        let mut count: usize = 0;
        while count < capacity
            invariant
                count <= capacity,
                pool.free@.len() == count,
                pool.tags@.len() == 0,
                pool.tagged@.len() == 0,
                pool.taken == 0,
                pool.num_frames == num_frames,
                pool.num_channels == num_channels,
                pool.sample_rate == sample_rate,
                forall|i: int| 0 <= i < pool.free@.len() ==> pool.fits(#[trigger] pool.free@[i]),
            decreases capacity - count,
        {
            let buffer = B::with_size(num_frames, num_channels, sample_rate);
            pool.free.push(buffer);
            count += 1;
        }
        assert(pool.assignments() =~= Map::<Endpoint, B>::empty());
        pool
    }

    /// Takes the last of the free buffers, clears it and hands it out. `None`
    /// when no buffer is free.
    pub fn get_unassigned_buffer(&mut self) -> (buffer: Option<B>)
        requires
            old(self).wf(),
        ensures
            final(self).wf(),
            final(self).frames() == old(self).frames(),
            final(self).channels() == old(self).channels(),
            final(self).rate() == old(self).rate(),
            final(self).assignments() == old(self).assignments(),
            final(self).assigned_buffers() == old(self).assigned_buffers(),
            buffer is Some <==> old(self).free_buffers().len() > 0,
            buffer is None ==> final(self).free_buffers() == old(self).free_buffers()
                && final(self).num_taken() == old(self).num_taken(),
            buffer matches Some(b) ==> b == old(self).free_buffers().last().cleared()
                && final(self).fits(b) && b.silent()
                && final(self).free_buffers() == old(self).free_buffers().drop_last()
                && final(self).num_taken() == old(self).num_taken() + 1,
    {
        match self.free.pop() {
            Some(mut buffer) => {
                assert(old(self).fits(old(self).free@[old(self).free@.len() - 1]));
                self.taken = self.taken + 1;
                buffer.clear();
                Some(buffer)
            },
            None => None,
        }
    }

    /// Whether `buffer` has the size of this pool's buffers.
    fn accepts(&self, buffer: &B) -> (fits: bool)
        ensures
            fits == (self.num_taken() > 0 && self.fits(*buffer)),
    {
        self.taken > 0 && buffer.num_frames() == self.num_frames && buffer.num_channels()
            == self.num_channels && buffer.sample_rate() == self.sample_rate
    }

    /// Takes `buffer` back as a free one. A buffer that cannot be the pool's (of
    /// another size, or offered when none is out) is let go of instead.
    pub fn return_buffer(&mut self, buffer: B)
        requires
            old(self).wf(),
        ensures
            final(self).wf(),
            final(self).frames() == old(self).frames(),
            final(self).channels() == old(self).channels(),
            final(self).rate() == old(self).rate(),
            final(self).assignments() == old(self).assignments(),
            final(self).assigned_buffers() == old(self).assigned_buffers(),
            old(self).num_taken() > 0 && old(self).fits(buffer) ==> final(self).free_buffers()
                == old(self).free_buffers().push(buffer) && final(self).num_taken()
                    == old(self).num_taken() - 1,
            !(old(self).num_taken() > 0 && old(self).fits(buffer)) ==> final(self).free_buffers()
                == old(self).free_buffers() && final(self).num_taken() == old(self).num_taken(),
    {
        if self.accepts(&buffer) {
            self.taken = self.taken - 1;
            self.free.push(buffer);
        }
    }

    /// Where `endpoint` stands among the tags.
    fn find_tag(&self, endpoint: Endpoint) -> (index: Option<usize>)
        requires
            self.wf(),
        ensures
            index matches Some(i) ==> i < self.tags@.len() && self.tags@[i as int] == endpoint,
            index is None ==> !self.tags@.contains(endpoint),
    {
        let mut i: usize = 0;
        while i < self.tags.len()
            invariant
                i <= self.tags@.len(),
                forall|j: int| 0 <= j < i ==> self.tags@[j] != endpoint,
            decreases self.tags@.len() - i,
        {
            if self.tags[i] == endpoint {
                return Some(i);
            }
            i += 1;
        }
        None
    }

    /// Takes `buffer` back with its samples kept, under the tag `endpoint`. A
    /// buffer that already waited under that tag becomes an ordinary free one.
    /// A buffer that cannot be the pool's is let go of instead.
    pub fn return_buffer_with_assignment(&mut self, buffer: B, endpoint: Endpoint)
        requires
            old(self).wf(),
        ensures
            final(self).wf(),
            final(self).frames() == old(self).frames(),
            final(self).channels() == old(self).channels(),
            final(self).rate() == old(self).rate(),
            old(self).num_taken() > 0 && old(self).fits(buffer) ==> {
                &&& final(self).assignments() == old(self).assignments().insert(endpoint, buffer)
                &&& final(self).num_taken() == old(self).num_taken() - 1
                &&& final(self).free_buffers() == if old(self).assignments().contains_key(
                    endpoint,
                ) {
                    old(self).free_buffers().push(old(self).assignments()[endpoint])
                } else {
                    old(self).free_buffers()
                }
                &&& final(self).free_buffers().len() + final(self).assigned_buffers().len()
                    == old(self).free_buffers().len() + old(self).assigned_buffers().len() + 1
            },
            !(old(self).num_taken() > 0 && old(self).fits(buffer)) ==> {
                &&& final(self).assignments() == old(self).assignments()
                &&& final(self).assigned_buffers() == old(self).assigned_buffers()
                &&& final(self).free_buffers() == old(self).free_buffers()
                &&& final(self).num_taken() == old(self).num_taken()
            },
    {
        if self.accepts(&buffer) {
            match self.find_tag(endpoint) {
                Some(i) => {
                    proof {
                        lemma_tag_map_at(self.tags@, self.tagged@, i as int);
                        lemma_tag_map_remove(self.tags@, self.tagged@, i as int);
                    }
                    let _ = self.tags.remove(i);
                    let previous = self.tagged.remove(i);
                    self.free.push(previous);
                },
                None => {},
            }
            proof {
                assert(!self.tags@.contains(endpoint)) by {
                    if old(self).tags@.contains(endpoint) {
                        let i = old(self).tags@.index_of(endpoint);
                        lemma_index_of_distinct(old(self).tags@, i);
                        assert(!tag_map(self.tags@, self.tagged@).contains_key(endpoint));
                    }
                }
                lemma_tag_map_push(self.tags@, self.tagged@, endpoint, buffer);
            }
            self.taken = self.taken - 1;
            self.tags.push(endpoint);
            self.tagged.push(buffer);
            assert(final(self).assignments() =~= old(self).assignments().insert(endpoint, buffer));
        }
    }

    /// Takes the buffer that waits under the tag `endpoint`, samples and all, and
    /// removes the tag. `None` when no buffer waits there.
    pub fn get_assigned_buffer(&mut self, endpoint: Endpoint) -> (buffer: Option<B>)
        requires
            old(self).wf(),
        ensures
            final(self).wf(),
            final(self).frames() == old(self).frames(),
            final(self).channels() == old(self).channels(),
            final(self).rate() == old(self).rate(),
            final(self).free_buffers() == old(self).free_buffers(),
            buffer is Some <==> old(self).assignments().contains_key(endpoint),
            buffer matches Some(b) ==> {
                &&& b == old(self).assignments()[endpoint]
                &&& final(self).fits(b)
                &&& final(self).assignments() == old(self).assignments().remove(endpoint)
                &&& final(self).assigned_buffers().len() == old(self).assigned_buffers().len() - 1
                &&& final(self).num_taken() == old(self).num_taken() + 1
            },
            buffer is None ==> {
                &&& final(self).assignments() == old(self).assignments()
                &&& final(self).assigned_buffers() == old(self).assigned_buffers()
                &&& final(self).num_taken() == old(self).num_taken()
            },
    {
        match self.find_tag(endpoint) {
            Some(i) => {
                proof {
                    lemma_tag_map_at(self.tags@, self.tagged@, i as int);
                    lemma_tag_map_remove(self.tags@, self.tagged@, i as int);
                }
                let _ = self.tags.remove(i);
                let buffer = self.tagged.remove(i);
                self.taken = self.taken + 1;
                Some(buffer)
            },
            None => None,
        }
    }

    /// Drops every tag. The buffers that waited under one are ordinary free
    /// buffers afterwards.
    pub fn clear_assignments(&mut self)
        requires
            old(self).wf(),
        ensures
            final(self).wf(),
            final(self).frames() == old(self).frames(),
            final(self).channels() == old(self).channels(),
            final(self).rate() == old(self).rate(),
            final(self).assignments() == Map::<Endpoint, B>::empty(),
            final(self).assigned_buffers().len() == 0,
            final(self).free_buffers() == old(self).free_buffers() + old(self).assigned_buffers(),
            final(self).num_taken() == old(self).num_taken(),
    {
        self.tags.clear();
        self.free.append(&mut self.tagged);
        assert(final(self).assignments() =~= Map::<Endpoint, B>::empty());
    }

    /// Whether every buffer that was handed out has come back.
    pub fn all_buffers_are_available(&self) -> (available: bool)
        ensures
            available == (self.num_taken() == 0),
    {
        self.taken == 0
    }

    /// How many buffers are free to be taken.
    pub fn num_free(&self) -> (count: usize)
        ensures
            count == self.free_buffers().len(),
    {
        self.free.len()
    }
}

} // verus!
