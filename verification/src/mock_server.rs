//! A stand-in for llama-server: its slots, its answers and its metrics.
use vstd::prelude::*;
use crate::text::{
    chars_of, decimal, is_white_space, push_decimal, same, text_of, trimmed_start, white_space,
};

verus! {

/// A slot for a request.
#[derive(Debug, Clone)]
pub struct Slot {
    pub id: usize,
    /// 0 while it is idle, 1 while it is busy.
    pub state: i32,
    pub prompt: String,
}

/// The slots of a server, and how many requests it has had.
#[derive(Debug)]
pub struct SlotTable {
    pub slots: Vec<Slot>,
    pub total_requests: usize,
}

/// The number of slots in a state.
pub open spec fn slots_in(slots: Seq<Slot>, state: i32) -> nat
    decreases slots.len(),
{
    if slots.len() == 0 {
        0
    } else {
        slots_in(slots.drop_last(), state) + if slots.last().state == state {
            1nat
        } else {
            0nat
        }
    }
}

/// Whether a slot is the first that is idle.
pub open spec fn first_idle(slots: Seq<Slot>, i: int) -> bool {
    &&& 0 <= i < slots.len()
    &&& slots[i].state == 0
    &&& forall|j: int| 0 <= j < i ==> (#[trigger] slots[j]).state != 0
}

/// The slots with one of them in another state.
pub open spec fn with_state(slots: Seq<Slot>, i: int, state: i32) -> Seq<Slot> {
    slots.update(i, Slot { state, ..slots[i] })
}

/// How many slots to have: by either argument, the first before the second, else one.
pub fn slot_count(slots: Option<usize>, parallel: Option<usize>) -> (r: usize)
    ensures
        r == match slots {
            Some(n) => n,
            None => match parallel {
                Some(n) => n,
                None => 1,
            },
        },
{
    match slots {
        Some(n) => n,
        None => match parallel {
            Some(n) => n,
            None => 1,
        },
    }
}

impl SlotTable {
    /// Each slot has its position as its number, and is idle or busy.
    pub open spec fn wf(&self) -> bool {
        forall|i: int|
            0 <= i < self.slots@.len() ==> (#[trigger] self.slots@[i]).id == i && (
            self.slots@[i].state == 0 || self.slots@[i].state == 1)
    }

    /// Idle slots.
    pub fn new(count: usize) -> (r: SlotTable)
        ensures
            r.wf(),
            r.slots@.len() == count,
            forall|i: int|
                0 <= i < count ==> (#[trigger] r.slots@[i]).state == 0
                    && r.slots@[i].prompt@.len() == 0,
            r.total_requests == 0,
    {
        let mut slots: Vec<Slot> = Vec::new();
        let mut i: usize = 0;
        while i < count
            invariant
                i <= count,
                slots@.len() == i,
                forall|j: int|
                    0 <= j < i ==> (#[trigger] slots@[j]).id == j && slots@[j].state == 0
                        && slots@[j].prompt@.len() == 0,
            decreases count - i,
        {
            slots.push(Slot { id: i, state: 0, prompt: String::new() });
            i = i + 1;
        }
        SlotTable { slots, total_requests: 0 }
    }

    /// Counts a request.
    pub fn note_request(&mut self)
        requires
            old(self).total_requests < usize::MAX,
        ensures
            *final(self) == (SlotTable {
                total_requests: (old(self).total_requests + 1) as usize,
                ..*old(self)
            }),
    {
        self.total_requests = self.total_requests + 1;
    }

    /// Takes the first idle slot, if there is one.
    pub fn acquire(&mut self) -> (r: Option<usize>)
        requires
            old(self).wf(),
        ensures
            final(self).wf(),
            final(self).total_requests == old(self).total_requests,
            match r {
                Some(id) => first_idle(old(self).slots@, id as int) && final(self).slots@
                    == with_state(old(self).slots@, id as int, 1),
                None => final(self).slots@ == old(self).slots@ && forall|j: int|
                    0 <= j < old(self).slots@.len() ==> (#[trigger] old(self).slots@[j]).state
                        != 0,
            },
    {
        let ghost before = self.slots@;
        let mut i: usize = 0;
        while i < self.slots.len()
            invariant
                i <= self.slots@.len(),
                self.slots@ == before,
                before == old(self).slots@,
                old(self).wf(),
                self.total_requests == old(self).total_requests,
                forall|j: int| 0 <= j < i ==> (#[trigger] before[j]).state != 0,
            decreases self.slots@.len() - i,
        {
            if self.slots[i].state == 0 {
                let slot = &mut self.slots[i];
                slot.state = 1;
                assert(self.slots@ =~= with_state(before, i as int, 1));
                return Some(i);
            }
            i = i + 1;
        }
        None
    }

    /// Begins a request: it takes the first idle slot, or is answered with the status 503 where
    /// there is none.
    pub fn begin_request(&mut self) -> (r: Result<usize, u16>)
        requires
            old(self).wf(),
        ensures
            final(self).wf(),
            final(self).total_requests == old(self).total_requests,
            r is Err <==> forall|j: int|
                0 <= j < old(self).slots@.len() ==> (#[trigger] old(self).slots@[j]).state != 0,
            match r {
                Ok(id) => first_idle(old(self).slots@, id as int) && final(self).slots@
                    == with_state(old(self).slots@, id as int, 1),
                Err(status) => status == 503 && final(self).slots@ == old(self).slots@,
            },
    {
        match self.acquire() {
            Some(id) => Ok(id),
            None => Err(503),
        }
    }

    /// Gives a slot back.
    pub fn release(&mut self, id: usize)
        requires
            old(self).wf(),
        ensures
            final(self).wf(),
            final(self).total_requests == old(self).total_requests,
            final(self).slots@ == if id < old(self).slots@.len() {
                with_state(old(self).slots@, id as int, 0)
            } else {
                old(self).slots@
            },
    {
        let ghost before = self.slots@;
        if id < self.slots.len() {
            let slot = &mut self.slots[id];
            slot.state = 0;
            assert(self.slots@ =~= with_state(before, id as int, 0));
        }
    }

    /// How many slots are idle, and how many are busy.
    pub fn counts(&self) -> (r: (usize, usize))
        ensures
            r.0 == slots_in(self.slots@, 0),
            r.1 == slots_in(self.slots@, 1),
    {
        let mut idle: usize = 0;
        let mut busy: usize = 0;
        let mut i: usize = 0;
        assert(self.slots@.take(0) =~= Seq::<Slot>::empty());
        while i < self.slots.len()
            invariant
                i <= self.slots@.len(),
                idle <= i,
                busy <= i,
                idle == slots_in(self.slots@.take(i as int), 0),
                busy == slots_in(self.slots@.take(i as int), 1),
            decreases self.slots@.len() - i,
        {
            proof {
                assert(self.slots@.take(i + 1).drop_last() =~= self.slots@.take(i as int));
                assert(self.slots@.take(i + 1).last() == self.slots@[i as int]);
            }
            if self.slots[i].state == 0 {
                idle = idle + 1;
            }
            if self.slots[i].state == 1 {
                busy = busy + 1;
            }
            i = i + 1;
        }
        assert(self.slots@.take(i as int) =~= self.slots@);
        (idle, busy)
    }
}

/// A slot that was taken and given back is as it was, and so are all others.
pub proof fn law_release_undoes_acquire(slots: Seq<Slot>, i: int)
    requires
        first_idle(slots, i),
    ensures
        with_state(with_state(slots, i, 1), i, 0) == slots,
{
    assert(with_state(with_state(slots, i, 1), i, 0) =~= slots);
}

/// Every slot is idle or busy.
pub proof fn law_slots_idle_or_busy(slots: Seq<Slot>)
    requires
        forall|i: int|
            0 <= i < slots.len() ==> (#[trigger] slots[i]).state == 0 || slots[i].state == 1,
    ensures
        slots_in(slots, 0) + slots_in(slots, 1) == slots.len(),
    decreases slots.len(),
{
    if slots.len() > 0 {
        law_slots_idle_or_busy(slots.drop_last());
    }
}

/// The number of characters before the first white space.
pub open spec fn word_length(s: Seq<char>) -> nat
    decreases s.len(),
{
    if s.len() == 0 || white_space(s[0]) {
        0
    } else {
        1 + word_length(s.drop_first())
    }
}

/// The words of a text.
pub open spec fn words(s: Seq<char>) -> Seq<Seq<char>>
    decreases s.len(),
    via words_shrink
{
    let t = trimmed_start(s);
    if t.len() == 0 {
        Seq::empty()
    } else {
        seq![t.take(word_length(t) as int)] + words(t.skip(word_length(t) as int))
    }
}

#[via_fn]
proof fn words_shrink(s: Seq<char>) {
    lemma_trimmed_start(s);
    let t = trimmed_start(s);
    if t.len() > 0 {
        lemma_word_length(t);
    }
}

proof fn lemma_trimmed_start(s: Seq<char>)
    ensures
        trimmed_start(s).len() <= s.len(),
        trimmed_start(s).len() > 0 ==> !white_space(trimmed_start(s)[0]),
    decreases s.len(),
{
    if s.len() > 0 && white_space(s[0]) {
        lemma_trimmed_start(s.drop_first());
    }
}

proof fn lemma_word_length(s: Seq<char>)
    ensures
        word_length(s) <= s.len(),
        s.len() > 0 && !white_space(s[0]) ==> word_length(s) > 0,
    decreases s.len(),
{
    if s.len() > 0 && !white_space(s[0]) {
        lemma_word_length(s.drop_first());
    }
}

/// The words of a text.
pub fn split_words(s: &str) -> (r: Vec<String>)
    ensures
        crate::paths::texts(r@) == words(s@),
{
    let v = chars_of(s);
    let mut out: Vec<String> = Vec::new();
    let mut from: usize = 0;
    assert(v@.skip(0) =~= s@);
    assert(crate::paths::texts(out@) + words(s@) =~= words(s@));
    loop
        invariant
            from <= v@.len(),
            crate::paths::texts(out@) + words(v@.skip(from as int)) == words(s@),
        decreases v@.len() - from,
    {
        let mut start: usize = from;
        while start < v.len() && is_white_space(v[start])
            invariant
                from <= start <= v@.len(),
                trimmed_start(v@.skip(from as int)) == trimmed_start(v@.skip(start as int)),
            decreases v@.len() - start,
        {
            assert(v@.skip(start as int).drop_first() =~= v@.skip(start + 1));
            start = start + 1;
        }
        if start == v.len() {
            assert(v@.skip(start as int) =~= Seq::<char>::empty());
            assert(crate::paths::texts(out@) =~= words(s@));
            return out;
        }
        let ghost t = v@.skip(start as int);
        assert(trimmed_start(v@.skip(from as int)) == t);
        let mut end: usize = start;
        while end < v.len() && !is_white_space(v[end])
            invariant
                start <= end <= v@.len(),
                word_length(v@.skip(start as int)) == (end - start) + word_length(
                    v@.skip(end as int),
                ),
            decreases v@.len() - end,
        {
            assert(v@.skip(end as int).drop_first() =~= v@.skip(end + 1));
            end = end + 1;
        }
        let ghost before = crate::paths::texts(out@);
        out.push(text_of(&v, start, end));
        proof {
            lemma_word_length(t);
            assert(word_length(t) == end - start);
            assert(v@.subrange(start as int, end as int) =~= t.take(end - start));
            assert(t.skip(end - start) =~= v@.skip(end as int));
            assert(crate::paths::texts(out@) =~= before + seq![t.take(end - start)]);
            assert(crate::paths::texts(out@) + words(v@.skip(end as int)) =~= before + words(
                v@.skip(from as int),
            ));
        }
        from = end;
    }
}

/// What the server answers.
pub const MOCK_CONTENT: &'static str = "This is a mock response from the dummy server.";

/// An event of a streamed answer.
#[derive(Debug, Clone)]
pub enum StreamEvent {
    /// A word, with a space after it.
    Word { text: String },
    /// The answer is complete.
    Stop,
    /// How many tokens it took.
    Usage,
    /// Nothing more follows.
    Done,
    /// The stream ends, and its slot is free.
    End,
}

/// The event of a streamed answer at a step: its words, that it is complete, the tokens, the mark
/// of the end, and then nothing.
pub fn stream_event(content_words: &Vec<String>, step: usize) -> (r: StreamEvent)
    ensures
        ({
            let n = content_words@.len();
            match r {
                StreamEvent::Word { text } => step < n && text@ == content_words@[step as int]@
                    + " "@,
                StreamEvent::Stop => step == n,
                StreamEvent::Usage => step == n + 1,
                StreamEvent::Done => step == n + 2,
                StreamEvent::End => step > n + 2,
            }
        }),
{
    let n: usize = content_words.len();
    if step < n {
        let mut text = content_words[step].clone();
        text.append(" ");
        StreamEvent::Word { text }
    } else {
        let beyond: usize = step - n;
        if beyond == 0 {
            StreamEvent::Stop
        } else if beyond == 1 {
            StreamEvent::Usage
        } else if beyond == 2 {
            StreamEvent::Done
        } else {
            StreamEvent::End
        }
    }
}

/// Whether a request may pass: the server has no key, or the request shows it.
pub fn authorized(api_key: Option<&str>, header: Option<&str>) -> (r: bool)
    ensures
        r == match api_key {
            Some(key) => header is Some && header->0@ == "Bearer "@ + key@,
            None => true,
        },
{
    match api_key {
        Some(key) => {
            let expected = crate::instance::bearer(key);
            match header {
                Some(h) => same(h, expected.as_str()),
                None => false,
            }
        },
        None => true,
    }
}

/// A body in two halves, for a server that is slow to send it.
pub fn halves(body: &Vec<u8>) -> (r: (Vec<u8>, Vec<u8>))
    ensures
        r.0@.len() == body@.len() / 2,
        r.0@ + r.1@ == body@,
{
    let mid: usize = body.len() / 2;
    let mut head: Vec<u8> = Vec::new();
    let mut tail: Vec<u8> = Vec::new();
    let mut i: usize = 0;
    while i < body.len()
        invariant
            i <= body@.len(),
            mid == body@.len() / 2,
            i <= mid ==> head@ == body@.take(i as int) && tail@.len() == 0,
            i > mid ==> head@ == body@.take(mid as int) && tail@ == body@.subrange(
                mid as int,
                i as int,
            ),
        decreases body@.len() - i,
    {
        if i < mid {
            head.push(body[i]);
            assert(head@ =~= body@.take(i + 1));
        } else {
            tail.push(body[i]);
            assert(tail@ =~= body@.subrange(mid as int, i + 1));
        }
        i = i + 1;
    }
    assert(head@ + tail@ =~= body@);
    (head, tail)
}

pub const UPTIME_HEAD: &'static str = "# HELP llama_server_uptime_seconds Uptime of the server\n\
    # TYPE llama_server_uptime_seconds gauge\n\
    llama_server_uptime_seconds ";

pub const REQUESTS_HEAD: &'static str = "\n\
    # HELP llama_server_requests_total Total number of requests\n\
    # TYPE llama_server_requests_total counter\n\
    llama_server_requests_total ";

pub const IDLE_HEAD: &'static str = "\n\
    # HELP llama_server_slots_idle Number of idle slots\n\
    # TYPE llama_server_slots_idle gauge\n\
    llama_server_slots_idle ";

pub const BUSY_HEAD: &'static str = "\n\
    # HELP llama_server_slots_processing Number of processing slots\n\
    # TYPE llama_server_slots_processing gauge\n\
    llama_server_slots_processing ";

impl SlotTable {
    /// The metrics of the server, which has been up for `uptime` seconds.
    pub fn metrics_text(&self, uptime: &str) -> (r: String)
        ensures
            r@ == UPTIME_HEAD@ + uptime@ + REQUESTS_HEAD@ + decimal(self.total_requests as nat)
                + IDLE_HEAD@ + decimal(slots_in(self.slots@, 0)) + BUSY_HEAD@ + decimal(
                slots_in(self.slots@, 1),
            ) + "\n"@,
    {
        let (idle, busy) = self.counts();
        let mut out = UPTIME_HEAD.to_owned();
        out.append(uptime);
        out.append(REQUESTS_HEAD);
        push_decimal(&mut out, self.total_requests as u64);
        out.append(IDLE_HEAD);
        push_decimal(&mut out, idle as u64);
        out.append(BUSY_HEAD);
        push_decimal(&mut out, busy as u64);
        out.append("\n");
        out
    }
}

/// Slots are counted one by one: each is counted in its own state, and in no other.
pub proof fn law_slots_counted(slots: Seq<Slot>, one: Slot, state: i32)
    ensures
        slots_in(Seq::empty(), state) == 0,
        one.state == state ==> slots_in(slots.push(one), state) == slots_in(slots, state) + 1,
        one.state != state ==> slots_in(slots.push(one), state) == slots_in(slots, state),
{
    assert(slots.push(one).drop_last() =~= slots);
}

/// Taking a slot makes it busy and leaves its number, its prompt and all other slots as they were.
pub proof fn law_state_of_one_slot(slots: Seq<Slot>, i: int, j: int, state: i32)
    requires
        0 <= i < slots.len(),
        0 <= j < slots.len(),
    ensures
        with_state(slots, i, state).len() == slots.len(),
        with_state(slots, i, state)[i].state == state,
        with_state(slots, i, state)[i].id == slots[i].id,
        with_state(slots, i, state)[i].prompt == slots[i].prompt,
        j != i ==> with_state(slots, i, state)[j] == slots[j],
{
}

/// The slot that is taken is idle, and none before it is.
pub proof fn law_slot_taken(slots: Seq<Slot>, i: int, j: int)
    requires
        first_idle(slots, i),
        0 <= j < slots.len(),
        slots[j].state == 0,
    ensures
        slots[i].state == 0,
        i <= j,
{
}

/// A text without white space is one word, and white space parts words: the words of two texts with
/// white space between them are those of the first and then those of the second.
pub proof fn law_words_of_texts(a: Seq<char>, c: char, b: Seq<char>)
    requires
        white_space(c),
    ensures
        words(Seq::empty()) == Seq::<Seq<char>>::empty(),
        a.len() > 0 && (forall|i: int| 0 <= i < a.len() ==> !white_space(#[trigger] a[i])) ==> words(
            a,
        ) == seq![a],
        words(a + seq![c] + b) == words(a) + words(b),
    decreases a.len(),
{
    let all = a + seq![c] + b;
    if a.len() == 0 {
        assert(all[0] == c);
        assert(all.drop_first() =~= b);
        assert(words(a) =~= Seq::<Seq<char>>::empty());
        assert(words(all) == words(b));
        assert(words(a) + words(b) =~= words(b));
    } else if white_space(a[0]) {
        let rest = a.drop_first();
        law_words_of_texts(rest, c, b);
        assert(all[0] == a[0]);
        assert(all.drop_first() =~= rest + seq![c] + b);
        assert(words(all) == words(rest + seq![c] + b));
        assert(words(a) == words(rest));
    } else {
        assert(all[0] == a[0]);
        lemma_word_length(a);
        lemma_word_ends(a, c, b);
        let n = word_length(a) as int;
        assert(all.take(n) =~= a.take(n));
        assert(all.skip(n) =~= a.skip(n) + seq![c] + b);
        law_words_of_texts(a.skip(n), c, b);
        assert(words(all) =~= words(a) + words(b));
        if forall|i: int| 0 <= i < a.len() ==> !white_space(#[trigger] a[i]) {
            lemma_whole_word(a);
            assert(a.take(n) =~= a);
            assert(a.skip(n) =~= Seq::<char>::empty());
            assert(words(a) =~= seq![a]);
        }
    }
}

proof fn lemma_word_ends(a: Seq<char>, c: char, b: Seq<char>)
    requires
        white_space(c),
    ensures
        word_length(a + seq![c] + b) == word_length(a),
    decreases a.len(),
{
    let all = a + seq![c] + b;
    if a.len() == 0 {
        assert(all[0] == c);
    } else {
        assert(all[0] == a[0]);
        assert(all.drop_first() =~= a.drop_first() + seq![c] + b);
        lemma_word_ends(a.drop_first(), c, b);
    }
}

proof fn lemma_whole_word(a: Seq<char>)
    requires
        forall|i: int| 0 <= i < a.len() ==> !white_space(#[trigger] a[i]),
    ensures
        word_length(a) == a.len(),
    decreases a.len(),
{
    if a.len() > 0 {
        assert(!white_space(a[0]));
        lemma_whole_word(a.drop_first());
    }
}

} // verus!
