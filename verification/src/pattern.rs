//! Comparing the end of a stream of bytes, kept in a ring, with terminator strings.

use vstd::prelude::*;

verus! {

/// Position in a ring of `len` bytes of the byte written `back` pushes before
/// the most recent one, when `offset` is where the next byte will go.
pub open spec fn circular_index(len: int, offset: int, back: int) -> int {
    (len + offset - 1 - back) % len
}

/// The number of bytes that a comparison between a ring of `buffer_len` bytes
/// and a text of `text_len` bytes looks at.
pub open spec fn compared_length(buffer_len: int, text_len: int) -> int {
    if buffer_len <= text_len {
        buffer_len
    } else {
        text_len
    }
}

/// The item of `text` that stands `back` places before its last one.
pub open spec fn from_end(text: Seq<u8>, back: int) -> u8 {
    text[text.len() - 1 - back]
}

/// The ring, read backwards from the byte before `offset`, agrees with the
/// end of `comparison` on every byte that both of them have.
pub open spec fn tail_matches(buffer: Seq<u8>, offset: int, comparison: Seq<u8>) -> bool {
    forall|i: int|
        0 <= i < compared_length(buffer.len() as int, comparison.len() as int) ==> buffer[circular_index(
            buffer.len() as int,
            offset,
            i,
        )] == comparison[comparison.len() - 1 - i]
}

proof fn lemma_circular_index(len: int, offset: int, back: int)
    requires
        0 < len,
        0 <= offset,
        0 <= back < len,
    ensures
        0 <= circular_index(len, offset, back) < len,
        offset % len > back ==> circular_index(len, offset, back) == offset % len - 1 - back,
        offset % len <= back ==> circular_index(len, offset, back) == len - 1 - (back - offset % len),
{
    let base = offset % len;
    let q = offset / len;
    vstd::arithmetic::div_mod::lemma_fundamental_div_mod(offset, len);
    assert(offset == len * q + base);
    let target = if base > back {
        base - 1 - back
    } else {
        len - 1 - (back - base)
    };
    let quotient = if base > back {
        q + 1
    } else {
        q
    };
    assert(len * (q + 1) == len * q + len) by (nonlinear_arith);
    assert(len + offset - 1 - back == quotient * len + target) by (nonlinear_arith)
        requires
            offset == len * q + base,
            len * (q + 1) == len * q + len,
            target == if base > back {
                base - 1 - back
            } else {
                len - 1 - (back - base)
            },
            quotient == if base > back {
                q + 1
            } else {
                q
            },
    ;
    vstd::arithmetic::div_mod::lemma_fundamental_div_mod_converse(
        len + offset - 1 - back,
        len,
        quotient,
        target,
    );
}

/// Compares the content of a circular buffer with another buffer. The
/// comparison is done from the back, and where one of the two is longer than
/// the other only the bytes that both have are compared.
///
/// `offset` is the index at which the next byte would be written, so the most
/// recent byte is the one before it, wrapping around:
/// ```text
/// [4,5,0,1,2,3]
///      ^- offset
/// ```
pub fn compare_circular_buffer(circular_buffer: &[u8], offset: usize, comparison: &[u8]) -> (matches:
    bool)
    ensures
        matches == tail_matches(circular_buffer@, offset as int, comparison@),
{
    let len: usize = circular_buffer.len();
    let comparison_length: usize = if len <= comparison.len() {
        len
    } else {
        comparison.len()
    };
    if comparison_length == 0 {
        return true;
    }
    let base: usize = offset % len;
    let mut i: usize = 0;
    while i < comparison_length
        invariant
            0 < len == circular_buffer@.len(),
            base == offset as int % len as int,
            comparison_length == compared_length(len as int, comparison@.len() as int),
            i <= comparison_length,
            forall|j: int|
                0 <= j < i ==> circular_buffer@[circular_index(len as int, offset as int, j)]
                    == comparison@[comparison@.len() - 1 - j],
        decreases comparison_length - i,
    {
        proof {
            lemma_circular_index(len as int, offset as int, i as int);
        }
        let circular_index: usize = if base > i {
            base - 1 - i
        } else {
            len - 1 - (i - base)
        };
        let comparison_index: usize = comparison.len() - 1 - i;
        if circular_buffer[circular_index] != comparison[comparison_index] {
            return false;
        }
        i += 1;
    }
    true
}

/// The last `limit` items of `stream`, or all of it where it has fewer.
pub open spec fn keep_last(stream: Seq<u8>, limit: nat) -> Seq<u8> {
    if stream.len() <= limit {
        stream
    } else {
        stream.subrange(stream.len() - limit, stream.len() as int)
    }
}

/// A matcher that remembers `window` out of `capacity` bytes recognises
/// `candidate` when the window holds as many bytes as the comparison looks
/// at, and those bytes are the end of `candidate`.
pub open spec fn suffix_matches(window: Seq<u8>, capacity: nat, candidate: Seq<u8>) -> bool {
    let n = compared_length(capacity as int, candidate.len() as int);
    &&& window.len() >= n
    &&& forall|i: int|
        0 <= i < n ==> #[trigger] from_end(window, i) == from_end(candidate, i)
}

/// What a matcher of `capacity` bytes remembers after the bytes of `stream`
/// were pushed, one after the other, onto the window `window`.
pub open spec fn window_after(window: Seq<u8>, capacity: nat, stream: Seq<u8>) -> Seq<u8>
    decreases stream.len(),
{
    if stream.len() == 0 {
        window
    } else {
        window_after(keep_last(window.push(stream[0]), capacity), capacity, stream.skip(1))
    }
}

/// The state of a ring of bytes: what is stored, where the next byte goes,
/// and how many of the stored bytes came from the stream.
pub struct Ring {
    pub bytes: Seq<u8>,
    pub cursor: int,
    pub filled: int,
}

impl Ring {
    /// The ring is not empty, the cursor is inside it, and until the ring has
    /// been filled once the cursor counts the bytes pushed.
    pub open spec fn wf(self) -> bool {
        &&& 0 < self.bytes.len()
        &&& 0 <= self.cursor < self.bytes.len()
        &&& 0 <= self.filled <= self.bytes.len()
        &&& self.filled < self.bytes.len() ==> self.cursor == self.filled
    }

    /// A ring of `capacity` zero bytes that has seen nothing of the stream.
    pub open spec fn empty(capacity: nat) -> Ring {
        Ring { bytes: Seq::new(capacity, |i: int| 0u8), cursor: 0, filled: 0 }
    }

    /// The number of bytes that the ring remembers at most.
    pub open spec fn capacity(self) -> nat {
        self.bytes.len()
    }

    /// The bytes of the stream that the ring remembers, oldest first.
    pub open spec fn window(self) -> Seq<u8> {
        Seq::new(
            self.filled as nat,
            |j: int| self.bytes[(self.cursor + self.bytes.len() - self.filled + j) % (self.bytes.len() as int)],
        )
    }

    /// The ring after `byte` was stored at the cursor and the cursor moved
    /// on, wrapping at the end.
    pub open spec fn push(self, byte: u8) -> Ring {
        Ring {
            bytes: self.bytes.update(self.cursor, byte),
            cursor: if self.cursor + 1 == self.bytes.len() {
                0
            } else {
                self.cursor + 1
            },
            filled: if self.filled < self.bytes.len() {
                self.filled + 1
            } else {
                self.filled
            },
        }
    }

    /// Whether the stream seen so far ends with `candidate`, as far as the
    /// ring can tell.
    pub open spec fn matches(self, candidate: Seq<u8>) -> bool {
        suffix_matches(self.window(), self.capacity(), candidate)
    }

    /// Pushing a byte keeps the ring well formed, and the ring then remembers
    /// the byte after what it remembered before, less the oldest byte where
    /// it was full.
    pub proof fn lemma_push(self, byte: u8)
        requires
            self.wf(),
        ensures
            self.push(byte).wf(),
            self.push(byte).capacity() == self.capacity(),
            self.push(byte).cursor == (self.cursor + 1) % (self.capacity() as int),
            self.push(byte).window() == keep_last(self.window().push(byte), self.capacity()),
    {
        let after = self.push(byte);
        let l = self.bytes.len() as int;
        let c = self.cursor;
        let f = self.filled;
        vstd::arithmetic::div_mod::lemma_mod_self_0(l);
        if c + 1 < l {
            vstd::arithmetic::div_mod::lemma_small_mod((c + 1) as nat, l as nat);
        }
        let expected = keep_last(self.window().push(byte), self.capacity());
        assert(after.window().len() == expected.len());
        assert forall|j: int| 0 <= j < expected.len() implies after.window()[j] == expected[j] by {
            if f < l {
                lemma_ring_index(l, j);
                assert(after.cursor + l - after.filled + j == j + l || after.cursor + l
                    - after.filled + j == j);
                vstd::arithmetic::div_mod::lemma_small_mod(j as nat, l as nat);
                assert(after.window()[j] == after.bytes[j]);
                if j < f {
                    assert(self.window()[j] == self.bytes[(j + l) % l]);
                }
            } else {
                lemma_ring_shift(l, c, j);
                lemma_ring_shift(l, c, j + 1);
                vstd::arithmetic::div_mod::lemma_small_mod(c as nat, l as nat);
                if j + 1 < l {
                    vstd::arithmetic::div_mod::lemma_small_mod((j + 1) as nat, l as nat);
                }
                assert(after.cursor == (c + 1) % l);
                assert(after.window()[j] == after.bytes[(c + 1 + j) % l]);
                if j + 1 < l {
                    assert(self.window()[j + 1] == self.bytes[(c + l - l + (j + 1)) % l]);
                }
            }
        }
        assert(after.window() =~= expected);
    }

    /// Where the ring remembers as many bytes as a comparison looks at, the
    /// comparison on the stored bytes and the one on the remembered stream
    /// agree.
    pub proof fn lemma_window_is_tail(self, candidate: Seq<u8>)
        requires
            self.wf(),
            self.filled >= compared_length(self.capacity() as int, candidate.len() as int),
        ensures
            tail_matches(self.bytes, self.cursor, candidate) == self.matches(candidate),
    {
        let l = self.bytes.len() as int;
        let c = self.cursor;
        let f = self.filled;
        let n = compared_length(l, candidate.len() as int);
        assert forall|i: int| 0 <= i < n implies self.window()[f - 1 - i] == self.bytes[circular_index(
            l,
            c,
            i,
        )] by {
            assert(c + l - f + (f - 1 - i) == l + c - 1 - i);
        }
        if tail_matches(self.bytes, self.cursor, candidate) {
            assert forall|i: int| 0 <= i < n implies #[trigger] from_end(self.window(), i)
                == from_end(candidate, i) by {
                assert(self.window()[f - 1 - i] == self.bytes[circular_index(l, c, i)]);
            }
        }
        if self.matches(candidate) {
            assert forall|i: int| 0 <= i < n implies self.bytes[circular_index(l, c, i)]
                == candidate[candidate.len() - 1 - i] by {
                assert(from_end(self.window(), i) == self.bytes[circular_index(l, c, i)]);
            }
        }
    }
}

/// A fixed-size ring of the most recent bytes of a stream, against which
/// terminator strings are compared without scanning the stream again.
pub struct PatternMatcher {
    buffer: Vec<u8>,
    cursor: usize,
    filled: usize,
}

impl View for PatternMatcher {
    type V = Ring;

    closed spec fn view(&self) -> Ring {
        Ring { bytes: self.buffer@, cursor: self.cursor as int, filled: self.filled as int }
    }
}

impl PatternMatcher {
    /// A matcher over an empty stream, with a ring of `capacity` zero bytes.
    pub fn new(capacity: usize) -> (matcher: Self)
        requires
            0 < capacity,
        ensures
            matcher@ == Ring::empty(capacity as nat),
            matcher@.wf(),
    {
        let mut buffer: Vec<u8> = Vec::new();
        let mut i: usize = 0;
        while i < capacity
            invariant
                i <= capacity,
                buffer@ == Seq::new(i as nat, |k: int| 0u8),
            decreases capacity - i,
        {
            buffer.push(0);
            i += 1;
            assert(buffer@ =~= Seq::new(i as nat, |k: int| 0u8));
        }
        PatternMatcher { buffer, cursor: 0, filled: 0 }
    }

    /// The ring's bytes as they are stored.
    pub fn buffer(&self) -> (bytes: &[u8])
        ensures
            bytes@ == self@.bytes,
    {
        self.buffer.as_slice()
    }

    /// The index at which the next byte will be stored.
    pub fn cursor(&self) -> (cursor: usize)
        ensures
            cursor == self@.cursor,
    {
        self.cursor
    }

    /// The number of bytes of the stream that the ring remembers.
    pub fn len(&self) -> (len: usize)
        ensures
            len == self@.filled,
    {
        self.filled
    }

    /// Stores `byte` at the cursor and advances the cursor, wrapping at the
    /// end of the ring. Once the ring is full the oldest byte is overwritten.
    pub fn push(&mut self, byte: u8)
        requires
            old(self)@.wf(),
        ensures
            final(self)@ == old(self)@.push(byte),
            final(self)@.wf(),
    {
        proof {
            self@.lemma_push(byte);
        }
        let len: usize = self.buffer.len();
        self.buffer[self.cursor] = byte;
        self.cursor = if self.cursor + 1 == len {
            0
        } else {
            self.cursor + 1
        };
        if self.filled < len {
            self.filled = self.filled + 1;
        }
    }

    /// Whether the stream pushed so far ends with `candidate`, as far as the
    /// ring can tell: a candidate longer than the ring is matched on its last
    /// bytes only, as many as the ring holds.
    pub fn matches(&self, candidate: &[u8]) -> (matched: bool)
        requires
            self@.wf(),
        ensures
            matched == self@.matches(candidate@),
    {
        let len: usize = self.buffer.len();
        let compared: usize = if len <= candidate.len() {
            len
        } else {
            candidate.len()
        };
        if self.filled < compared {
            return false;
        }
        proof {
            self@.lemma_window_is_tail(candidate@);
        }
        compare_circular_buffer(self.buffer.as_slice(), self.cursor, candidate)
    }

    /// The first of `candidates`, in the order given, that the stream pushed
    /// so far ends with.
    pub fn try_match(&self, candidates: &[&[u8]]) -> (found: Option<usize>)
        requires
            self@.wf(),
        ensures
            match found {
                Some(index) => {
                    &&& index < candidates@.len()
                    &&& self@.matches(candidates@[index as int]@)
                    &&& forall|j: int| 0 <= j < index ==> !self@.matches((#[trigger] candidates@[j])@)
                },
                None => forall|j: int|
                    0 <= j < candidates@.len() ==> !self@.matches((#[trigger] candidates@[j])@),
            },
    {
        let mut index: usize = 0;
        while index < candidates.len()
            invariant
                self@.wf(),
                index <= candidates@.len(),
                forall|j: int| 0 <= j < index ==> !self@.matches((#[trigger] candidates@[j])@),
            decreases candidates@.len() - index,
        {
            if self.matches(candidates[index]) {
                return Some(index);
            }
            index += 1;
        }
        None
    }
}

proof fn lemma_ring_index(len: int, j: int)
    requires
        0 <= j < len,
    ensures
        (j + len) % len == j,
{
    vstd::arithmetic::div_mod::lemma_fundamental_div_mod_converse(j + len, len, 1, j);
}

proof fn lemma_ring_shift(len: int, cursor: int, j: int)
    requires
        0 < len,
        0 <= cursor,
        0 <= j,
    ensures
        0 <= (cursor + j) % len < len,
        ((cursor + 1) % len + j) % len == (cursor + 1 + j) % len,
        (cursor + j) % len == cursor % len <==> j % len == 0,
{
    vstd::arithmetic::div_mod::lemma_mod_bound(cursor + j, len);
    vstd::arithmetic::div_mod::lemma_add_mod_noop(cursor + 1, j, len);
    vstd::arithmetic::div_mod::lemma_add_mod_noop((cursor + 1) % len, j, len);
    vstd::arithmetic::div_mod::lemma_mod_twice(cursor + 1, len);
    vstd::arithmetic::div_mod::lemma_fundamental_div_mod(cursor + j, len);
    vstd::arithmetic::div_mod::lemma_fundamental_div_mod(cursor, len);
    vstd::arithmetic::div_mod::lemma_fundamental_div_mod(j, len);
    let qa = (cursor + j) / len;
    let qc = cursor / len;
    let qj = j / len;
    if (cursor + j) % len == cursor % len {
        assert(j == (qa - qc) * len + 0) by (nonlinear_arith)
            requires
                cursor + j == len * qa + (cursor + j) % len,
                cursor == len * qc + cursor % len,
                (cursor + j) % len == cursor % len,
        ;
        vstd::arithmetic::div_mod::lemma_fundamental_div_mod_converse(j, len, qa - qc, 0);
    }
    if j % len == 0 {
        assert(cursor + j == (qc + qj) * len + cursor % len) by (nonlinear_arith)
            requires
                j == len * qj + j % len,
                j % len == 0,
                cursor == len * qc + cursor % len,
        ;
        vstd::arithmetic::div_mod::lemma_mod_bound(cursor, len);
        vstd::arithmetic::div_mod::lemma_fundamental_div_mod_converse(
            cursor + j,
            len,
            qc + qj,
            cursor % len,
        );
    }
}

proof fn lemma_keep_last_absorbs(head: Seq<u8>, rest: Seq<u8>, limit: nat)
    ensures
        keep_last(keep_last(head, limit) + rest, limit) =~= keep_last(head + rest, limit),
{
}

/// Pushing a stream byte by byte leaves the last `capacity` bytes of what was
/// remembered before followed by the stream.
pub proof fn lemma_window_after(window: Seq<u8>, capacity: nat, stream: Seq<u8>)
    requires
        window.len() <= capacity,
    ensures
        window_after(window, capacity, stream) == keep_last(window + stream, capacity),
    decreases stream.len(),
{
    if stream.len() == 0 {
        assert(window + stream =~= window);
    } else {
        let next = keep_last(window.push(stream[0]), capacity);
        lemma_window_after(next, capacity, stream.skip(1));
        lemma_keep_last_absorbs(window.push(stream[0]), stream.skip(1), capacity);
        assert(window.push(stream[0]) + stream.skip(1) =~= window + stream);
    }
}

/// Whatever the ring remembered before, once a stream that ends with
/// `candidate` has been pushed the matcher recognises `candidate`, provided
/// that the ring is at least as long as the candidate.
pub proof fn lemma_stream_ending_with_candidate_matches(
    window: Seq<u8>,
    capacity: nat,
    before: Seq<u8>,
    candidate: Seq<u8>,
)
    requires
        window.len() <= capacity,
        candidate.len() <= capacity,
    ensures
        suffix_matches(window_after(window, capacity, before + candidate), capacity, candidate),
{
    let stream = before + candidate;
    lemma_window_after(window, capacity, stream);
    let whole = window + stream;
    let kept = keep_last(whole, capacity);
    assert forall|i: int| 0 <= i < candidate.len() implies #[trigger] from_end(kept, i) == from_end(
        candidate,
        i,
    ) by {
        assert(from_end(kept, i) == whole[whole.len() - 1 - i]);
    }
}

/// A matcher that has seen fewer bytes than `candidate` has, from an empty
/// stream on, does not recognise `candidate`, provided that the ring is at
/// least as long as the candidate.
pub proof fn lemma_short_stream_never_matches(capacity: nat, stream: Seq<u8>, candidate: Seq<u8>)
    requires
        stream.len() < candidate.len() <= capacity,
    ensures
        !suffix_matches(window_after(Seq::<u8>::empty(), capacity, stream), capacity, candidate),
{
    lemma_window_after(Seq::<u8>::empty(), capacity, stream);
    assert(Seq::<u8>::empty() + stream =~= stream);
}

impl Ring {
    /// The ring after the bytes of `stream` were pushed, one after the other.
    pub open spec fn push_all(self, stream: Seq<u8>) -> Ring
        decreases stream.len(),
    {
        if stream.len() == 0 {
            self
        } else {
            self.push(stream[0]).push_all(stream.skip(1))
        }
    }

    /// Pushing a stream keeps the ring well formed, and the ring then
    /// remembers the end of what it remembered before followed by the stream.
    pub proof fn lemma_push_all(self, stream: Seq<u8>)
        requires
            self.wf(),
        ensures
            self.push_all(stream).wf(),
            self.push_all(stream).capacity() == self.capacity(),
            self.push_all(stream).window() == window_after(self.window(), self.capacity(), stream),
        decreases stream.len(),
    {
        if stream.len() > 0 {
            self.lemma_push(stream[0]);
            self.push(stream[0]).lemma_push_all(stream.skip(1));
        }
    }

    /// The bytes of the ring that no byte of the stream has been stored in
    /// are zero, as they were when the ring was made.
    pub open spec fn untouched(self) -> bool {
        forall|j: int| self.filled <= j < self.bytes.len() ==> self.bytes[j] == 0
    }

    /// A stream that the ring has room for is stored from the start of the
    /// ring on, and leaves the rest of the ring as it was.
    pub proof fn lemma_untouched(self, stream: Seq<u8>)
        requires
            self.wf(),
            self.untouched(),
            self.filled + stream.len() <= self.capacity(),
        ensures
            self.push_all(stream).wf(),
            self.push_all(stream).capacity() == self.capacity(),
            self.push_all(stream).filled == self.filled + stream.len(),
            self.push_all(stream).untouched(),
        decreases stream.len(),
    {
        if stream.len() > 0 {
            self.lemma_push(stream[0]);
            self.push(stream[0]).lemma_untouched(stream.skip(1));
        }
    }

    /// Pushing one stream and then another is pushing the two as one.
    pub proof fn lemma_push_all_joins(self, first: Seq<u8>, second: Seq<u8>)
        ensures
            self.push_all(first).push_all(second) == self.push_all(first + second),
        decreases first.len(),
    {
        if first.len() == 0 {
            assert(first + second =~= second);
        } else {
            self.push(first[0]).lemma_push_all_joins(first.skip(1), second);
            assert((first + second).skip(1) =~= first.skip(1) + second);
        }
    }

    /// Whatever a ring remembered before, once a stream that ends with
    /// `candidate` has been pushed the ring matches `candidate`, provided
    /// that the ring is at least as long as the candidate.
    pub proof fn lemma_matches_stream_end(self, before: Seq<u8>, candidate: Seq<u8>)
        requires
            self.wf(),
            candidate.len() <= self.capacity(),
        ensures
            self.push_all(before + candidate).matches(candidate),
    {
        self.lemma_push_all(before + candidate);
        lemma_stream_ending_with_candidate_matches(
            self.window(),
            self.capacity(),
            before,
            candidate,
        );
    }

    /// A ring that has seen fewer bytes than `candidate` has, from an empty
    /// stream on, does not match `candidate`, provided that the ring is at
    /// least as long as the candidate.
    pub proof fn lemma_no_match_on_short_stream(capacity: nat, stream: Seq<u8>, candidate: Seq<u8>)
        requires
            stream.len() < candidate.len() <= capacity,
        ensures
            !Ring::empty(capacity).push_all(stream).matches(candidate),
    {
        let start = Ring::empty(capacity);
        assert(start.window() =~= Seq::<u8>::empty());
        start.lemma_push_all(stream);
        lemma_short_stream_never_matches(capacity, stream, candidate);
    }
}

} // verus!
