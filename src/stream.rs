//! Incremental framing of the event stream.
//!
//! Bytes arrive in chunks of any size. They are decoded as text and
//! appended to a buffer; every complete frame (text up to a blank line) is
//! taken out and classified, and only the unterminated tail stays behind.

use vstd::prelude::*;

use crate::model::StreamEvent;


verus! {

/// A classified frame: the JSON text of a data event, or the done sentinel.
#[derive(Debug)]
pub enum Frame {
    Data(String),
    Done,
}

/// What a [`Frame`] stands for, as text.
pub enum FrameView {
    Data(Seq<char>),
    Done,
}

impl View for Frame {
    type V = FrameView;

    open spec fn view(&self) -> FrameView {
        match self {
            Frame::Data(s) => FrameView::Data(s@),
            Frame::Done => FrameView::Done,
        }
    }
}

/// A blank line, the frame terminator, starts at position `i` of `s`.
pub open spec fn is_terminator_at(s: Seq<char>, i: int) -> bool {
    0 <= i && i + 1 < s.len() && s[i] == '\n' && s[i + 1] == '\n'
}

pub open spec fn has_terminator(s: Seq<char>) -> bool {
    exists|i: int| is_terminator_at(s, i)
}

/// `i` is where the first terminator of `s` starts.
pub open spec fn is_first_terminator(s: Seq<char>, i: int) -> bool {
    &&& is_terminator_at(s, i)
    &&& forall|j: int| 0 <= j < i ==> !#[trigger] is_terminator_at(s, j)
}

/// Cuts `s` at its terminators, from the left: the frames found, in order,
/// and the text after the last of them.
pub open spec fn split_frames(s: Seq<char>) -> (Seq<Seq<char>>, Seq<char>)
    decreases s.len(),
{
    if exists|i: int| is_first_terminator(s, i) {
        let i = choose|i: int| is_first_terminator(s, i);
        let rest = split_frames(s.subrange(i + 2, s.len() as int));
        (seq![s.subrange(0, i)] + rest.0, rest.1)
    } else {
        (seq![], s)
    }
}

/// The prefix that marks an event frame.
pub open spec fn data_prefix() -> Seq<char> {
    seq!['d', 'a', 't', 'a', ':', ' ']
}

/// The token that marks the end of the stream.
pub open spec fn done_token() -> Seq<char> {
    seq!['[', 'D', 'O', 'N', 'E', ']']
}

pub open spec fn occurs_at(s: Seq<char>, p: Seq<char>, i: int) -> bool {
    0 <= i && i + p.len() <= s.len() && s.subrange(i, i + p.len()) == p
}

pub open spec fn occurs_in(s: Seq<char>, p: Seq<char>) -> bool {
    exists|i: int| occurs_at(s, p, i)
}

/// What a raw frame yields: nothing without the data prefix, the done marker
/// where it holds the done token, else the JSON text after the prefix.
pub open spec fn classify(raw: Seq<char>) -> Option<FrameView> {
    if !occurs_at(raw, data_prefix(), 0) {
        None
    } else if occurs_in(raw, done_token()) {
        Some(FrameView::Done)
    } else {
        Some(FrameView::Data(raw.subrange(6, raw.len() as int)))
    }
}

/// The frames that a sequence of raw frames yields, in order.
pub open spec fn classify_all(raws: Seq<Seq<char>>) -> Seq<FrameView>
    decreases raws.len(),
{
    if raws.len() == 0 {
        seq![]
    } else {
        let prev = classify_all(raws.drop_last());
        match classify(raws.last()) {
            Some(f) => prev.push(f),
            None => prev,
        }
    }
}

/// One step of the parser: the frames yielded when `text` is appended to
/// `buffer`, and the buffer left afterwards.
pub open spec fn step(buffer: Seq<char>, text: Seq<char>) -> (Seq<FrameView>, Seq<char>) {
    let parts = split_frames(buffer + text);
    (classify_all(parts.0), parts.1)
}

/// The parser fed with each chunk of `chunks` in turn, from `buffer`: all the
/// frames yielded, in order, and the buffer left at the end.
pub open spec fn step_all(buffer: Seq<char>, chunks: Seq<Seq<char>>) -> (
    Seq<FrameView>,
    Seq<char>,
)
    decreases chunks.len(),
{
    if chunks.len() == 0 {
        (seq![], buffer)
    } else {
        let first = step(buffer, chunks[0]);
        let rest = step_all(first.1, chunks.drop_first());
        (first.0 + rest.0, rest.1)
    }
}

/// The frames joined back together, each followed by its terminator.
pub open spec fn join_frames(frames: Seq<Seq<char>>) -> Seq<char>
    decreases frames.len(),
{
    if frames.len() == 0 {
        seq![]
    } else {
        frames[0] + seq!['\n', '\n'] + join_frames(frames.drop_first())
    }
}

/// The text of `chunk` decoded as UTF-8, each invalid sequence replaced by
/// U+FFFD.
pub uninterp spec fn lossy_text(chunk: Seq<u8>) -> Seq<char>;

/// Relies on `String::from_utf8_lossy`: the decoded text depends on the bytes
/// alone.
#[verifier::external_body]
fn decode_lossy(chunk: &[u8]) -> (r: Vec<char>)
    ensures
        r@ == lossy_text(chunk@),
{
    String::from_utf8_lossy(chunk).chars().collect()
}

/// Relies on `String`'s `FromIterator<char>`: the string holds the characters
/// in order.
#[verifier::external_body]
fn string_of_chars(chars: &Vec<char>) -> (r: String)
    ensures
        r@ == chars@,
{
    chars.iter().collect()
}

proof fn lemma_first_terminator_unique(s: Seq<char>, i: int, k: int)
    requires
        is_first_terminator(s, i),
        is_first_terminator(s, k),
    ensures
        i == k,
{
    if i < k {
        assert(is_terminator_at(s, i));
    } else if k < i {
        assert(is_terminator_at(s, k));
    }
}

/// Unfolds `split_frames` at its first terminator.
proof fn lemma_split_at_first(s: Seq<char>, i: int)
    requires
        is_first_terminator(s, i),
    ensures
        split_frames(s) == (
            seq![s.subrange(0, i)] + split_frames(s.subrange(i + 2, s.len() as int)).0,
            split_frames(s.subrange(i + 2, s.len() as int)).1,
        ),
{
    let k = choose|k: int| is_first_terminator(s, k);
    lemma_first_terminator_unique(s, i, k);
}

/// Text without a terminator is not split.
proof fn lemma_split_none(s: Seq<char>)
    requires
        !has_terminator(s),
    ensures
        split_frames(s) == (Seq::<Seq<char>>::empty(), s),
{
    assert(!exists|i: int| is_first_terminator(s, i));
    assert(split_frames(s).0 =~= seq![]);
}

/// Text with a terminator has a first one.
proof fn lemma_first_exists(s: Seq<char>, i: int)
    requires
        is_terminator_at(s, i),
    ensures
        exists|k: int| is_first_terminator(s, k),
    decreases i,
{
    if !is_first_terminator(s, i) {
        let j = choose|j: int| 0 <= j < i && is_terminator_at(s, j);
        lemma_first_exists(s, j);
    }
}

proof fn lemma_classify_all_append(a: Seq<Seq<char>>, b: Seq<Seq<char>>)
    ensures
        classify_all(a + b) == classify_all(a) + classify_all(b),
    decreases b.len(),
{
    if b.len() == 0 {
        assert(a + b =~= a);
        assert(classify_all(a) + classify_all(b) =~= classify_all(a));
    } else {
        lemma_classify_all_append(a, b.drop_last());
        assert((a + b).drop_last() =~= a + b.drop_last());
        assert((a + b).last() == b.last());
        match classify(b.last()) {
            Some(f) => {
                assert(classify_all(a) + classify_all(b.drop_last()).push(f) =~= (
                classify_all(a) + classify_all(b.drop_last())).push(f));
            },
            None => {},
        }
    }
}

/// Splitting `x + y` is splitting `x`, then splitting what `x` left over,
/// followed by `y`.
proof fn lemma_split_concat(x: Seq<char>, y: Seq<char>)
    ensures
        split_frames(x + y) == (
            split_frames(x).0 + split_frames(split_frames(x).1 + y).0,
            split_frames(split_frames(x).1 + y).1,
        ),
    decreases x.len(),
{
    if exists|i: int| is_first_terminator(x, i) {
        let i = choose|i: int| is_first_terminator(x, i);
        let xy = x + y;
        assert forall|j: int| 0 <= j < i implies !#[trigger] is_terminator_at(xy, j) by {
            assert(!is_terminator_at(x, j));
        }
        assert(is_terminator_at(xy, i));
        lemma_split_at_first(x, i);
        lemma_split_at_first(xy, i);
        let xr = x.subrange(i + 2, x.len() as int);
        assert(xy.subrange(i + 2, xy.len() as int) =~= xr + y);
        assert(xy.subrange(0, i) =~= x.subrange(0, i));
        lemma_split_concat(xr, y);
        assert(seq![x.subrange(0, i)] + (split_frames(xr).0 + split_frames(split_frames(xr).1
            + y).0) =~= seq![x.subrange(0, i)] + split_frames(xr).0 + split_frames(
            split_frames(xr).1 + y).0);
    } else {
        assert(split_frames(x).0 + split_frames(split_frames(x).1 + y).0 =~= split_frames(
            x + y).0);
    }
}

/// Chunking does not matter: feeding the parser chunk by chunk yields the
/// same frames, in the same order, and leaves the same buffer as feeding it
/// all the text at once.
pub proof fn lemma_chunking_invariant(buffer: Seq<char>, chunks: Seq<Seq<char>>)
    requires
        !has_terminator(buffer),
    ensures
        step_all(buffer, chunks) == step(buffer, chunks.flatten()),
    decreases chunks.len(),
{
    if chunks.len() == 0 {
        assert(buffer + chunks.flatten() =~= buffer);
        lemma_split_none(buffer);
        assert(classify_all(Seq::<Seq<char>>::empty()) =~= seq![]);
    } else {
        let c = chunks[0];
        let rest = chunks.drop_first();
        let first = step(buffer, c);
        lemma_retains_tail(buffer + c);
        lemma_chunking_invariant(first.1, rest);
        assert(buffer + chunks.flatten() =~= (buffer + c) + rest.flatten());
        lemma_split_concat(buffer + c, rest.flatten());
        lemma_classify_all_append(
            split_frames(buffer + c).0,
            split_frames(split_frames(buffer + c).1 + rest.flatten()).0,
        );
    }
}

/// What the parser keeps: the input is the frames found, each with its
/// terminator, followed by the tail, and the tail holds no terminator. So
/// exactly the text after the last terminator found is retained.
pub proof fn lemma_retains_tail(s: Seq<char>)
    ensures
        s == join_frames(split_frames(s).0) + split_frames(s).1,
        !has_terminator(split_frames(s).1),
        split_frames(s).1 == s.subrange(s.len() - split_frames(s).1.len(), s.len() as int),
    decreases s.len(),
{
    if exists|i: int| is_first_terminator(s, i) {
        let i = choose|i: int| is_first_terminator(s, i);
        let r = s.subrange(i + 2, s.len() as int);
        lemma_split_at_first(s, i);
        lemma_retains_tail(r);
        let fr = split_frames(s).0;
        assert(fr.drop_first() =~= split_frames(r).0);
        assert(s =~= s.subrange(0, i) + seq!['\n', '\n'] + r);
        assert(join_frames(fr) == fr[0] + seq!['\n', '\n'] + join_frames(fr.drop_first()));
        assert(s =~= join_frames(fr) + split_frames(s).1);
    } else {
        if has_terminator(s) {
            let i = choose|i: int| is_terminator_at(s, i);
            lemma_first_exists(s, i);
        }
        assert(s =~= join_frames(split_frames(s).0) + split_frames(s).1);
        assert(s.subrange(0, s.len() as int) =~= s);
    }
}

/// A frame holding the done token yields one done marker and nothing else.
pub proof fn lemma_done_frame(raw: Seq<char>)
    requires
        !has_terminator(raw),
        occurs_at(raw, data_prefix(), 0),
        occurs_in(raw, done_token()),
        raw.len() == 0 || raw.last() != '\n',
    ensures
        step(Seq::empty(), raw + seq!['\n', '\n']) == (seq![FrameView::Done], Seq::<char>::empty()),
{
    let s = Seq::<char>::empty() + (raw + seq!['\n', '\n']);
    assert(s =~= raw + seq!['\n', '\n']);
    let n = raw.len() as int;
    assert(is_terminator_at(s, n));
    assert forall|j: int| 0 <= j < n implies !#[trigger] is_terminator_at(s, j) by {
        if is_terminator_at(s, j) {
            if j + 1 < n {
                assert(is_terminator_at(raw, j));
            } else {
                assert(j == n - 1);
                assert(raw.last() == '\n');
            }
        }
    }
    lemma_split_at_first(s, n);
    let rest = s.subrange(n + 2, s.len() as int);
    assert(rest =~= Seq::<char>::empty());
    lemma_split_none(rest);
    assert(s.subrange(0, n) =~= raw);
    let raws = split_frames(s).0;
    assert(raws =~= seq![raw]);
    assert(raws.drop_last() =~= Seq::<Seq<char>>::empty());
    assert(classify(raw) == Some(FrameView::Done));
    assert(raws.last() == raw);
    assert(classify_all(raws.drop_last()) =~= seq![]);
    assert(classify_all(raws) =~= seq![FrameView::Done]);
}

/// The events that frames stand for, given what decoding each one's JSON
/// text gave: the terminal marker for the done frame, the decoded event for a
/// data frame, and nothing for a data frame that did not decode.
pub open spec fn select_events(frames: Seq<FrameView>, decoded: Seq<Option<StreamEvent>>) -> Seq<
    StreamEvent,
>
    decreases frames.len(),
{
    if frames.len() == 0 || decoded.len() == 0 {
        seq![]
    } else {
        let prev = select_events(frames.drop_last(), decoded.drop_last());
        match frames.last() {
            FrameView::Done => prev.push(StreamEvent::Terminal),
            FrameView::Data(_) => match decoded.last() {
                Some(e) => prev.push(e),
                None => prev,
            },
        }
    }
}

/// A frame that does not decode is dropped and the stream goes on: with a
/// malformed data frame between two that decode, exactly the two events of
/// the others come out, in order.
pub proof fn lemma_malformed_frame_skipped(
    a: Seq<char>,
    m: Seq<char>,
    b: Seq<char>,
    first: StreamEvent,
    second: StreamEvent,
)
    ensures
        select_events(
            seq![FrameView::Data(a), FrameView::Data(m), FrameView::Data(b)],
            seq![Some(first), None, Some(second)],
        ) == seq![first, second],
{
    let f = seq![FrameView::Data(a), FrameView::Data(m), FrameView::Data(b)];
    let d = seq![Some(first), None, Some(second)];
    let f2 = seq![FrameView::Data(a), FrameView::Data(m)];
    let d2 = seq![Some(first), None];
    let f1 = seq![FrameView::Data(a)];
    let d1 = seq![Some(first)];
    assert(f1.drop_last() =~= Seq::<FrameView>::empty());
    assert(d1.drop_last() =~= Seq::<Option<StreamEvent>>::empty());
    assert(f1.last() == FrameView::Data(a));
    assert(d1.last() == Some(first));
    assert(select_events(f1.drop_last(), d1.drop_last()) =~= Seq::<StreamEvent>::empty());
    assert(select_events(f1, d1) == select_events(f1.drop_last(), d1.drop_last()).push(first));
    assert(select_events(f1, d1) =~= seq![first]);
    assert(f2.drop_last() =~= f1);
    assert(d2.drop_last() =~= d1);
    assert(d2.last() == None::<StreamEvent>);
    assert(f2.last() == FrameView::Data(m));
    assert(select_events(f2, d2) =~= seq![first]);
    assert(f.drop_last() =~= f2);
    assert(d.drop_last() =~= d2);
    assert(f.last() == FrameView::Data(b));
    assert(d.last() == Some(second));
    assert(select_events(f, d) =~= seq![first, second]);
}

/// The events of a run of frames, in order. `decoded[i]` is what decoding
/// the JSON text of `frames[i]` gave (it is not read for a done frame).
pub fn collect_events(frames: &Vec<Frame>, decoded: Vec<Option<StreamEvent>>) -> (r: Vec<
    StreamEvent,
>)
    requires
        frames@.len() == decoded@.len(),
    ensures
        r@ == select_events(frames@.map_values(|f: Frame| f@), decoded@),
{
    let ghost fv = frames@.map_values(|f: Frame| f@);
    let ghost d0 = decoded@;
    let n = frames.len();
    let mut rest = decoded;
    let mut out: Vec<StreamEvent> = Vec::new();
    let mut i: usize = 0;
    while i < n
        invariant
            i <= n,
            n == frames@.len(),
            n == d0.len(),
            fv == frames@.map_values(|f: Frame| f@),
            rest@ == d0.subrange(i as int, n as int),
            out@ == select_events(fv.subrange(0, i as int), d0.subrange(0, i as int)),
        decreases n - i,
    {
        let e = rest.remove(0);
        proof {
            assert(fv.subrange(0, i + 1).drop_last() =~= fv.subrange(0, i as int));
            assert(d0.subrange(0, i + 1).drop_last() =~= d0.subrange(0, i as int));
            assert(rest@ =~= d0.subrange(i + 1, n as int));
        }
        match &frames[i] {
            Frame::Done => {
                out.push(StreamEvent::Terminal);
            },
            Frame::Data(_) => {
                match e {
                    Some(ev) => {
                        out.push(ev);
                    },
                    None => {},
                }
            },
        }
        i = i + 1;
    }
    assert(fv.subrange(0, n as int) =~= fv);
    assert(d0.subrange(0, n as int) =~= d0);
    out
}

/// The parser's state: the text received and not yet framed.
pub struct StreamParser {
    buffer: Vec<char>,
}

impl View for StreamParser {
    type V = Seq<char>;

    closed spec fn view(&self) -> Seq<char> {
        self.buffer@
    }
}

/// `s[at..at + 6]` is the data prefix.
fn prefix_at(s: &Vec<char>, at: usize) -> (r: bool)
    requires
        at + 6 <= s@.len(),
    ensures
        r == (s@.subrange(at as int, at + 6) == data_prefix()),
{
    let n = s.len();
    let r = s[at] == 'd' && s[at + 1] == 'a' && s[at + 2] == 't' && s[at + 3] == 'a' && s[at
        + 4] == ':' && s[at + 5] == ' ';
    if r {
        assert(s@.subrange(at as int, at + 6) =~= data_prefix());
    } else {
        let ghost w = s@.subrange(at as int, at + 6);
        proof {
            if w == data_prefix() {
                assert(w[0] == 'd');
                assert(w[1] == 'a');
                assert(w[2] == 't');
                assert(w[3] == 'a');
                assert(w[4] == ':');
                assert(w[5] == ' ');
            }
        }
    }
    r
}

/// `s[at..at + 6]` is the done token.
fn done_at(s: &Vec<char>, at: usize) -> (r: bool)
    requires
        at + 6 <= s@.len(),
    ensures
        r == (s@.subrange(at as int, at + 6) == done_token()),
{
    let n = s.len();
    let r = s[at] == '[' && s[at + 1] == 'D' && s[at + 2] == 'O' && s[at + 3] == 'N' && s[at
        + 4] == 'E' && s[at + 5] == ']';
    if r {
        assert(s@.subrange(at as int, at + 6) =~= done_token());
    } else {
        let ghost w = s@.subrange(at as int, at + 6);
        proof {
            if w == done_token() {
                assert(w[0] == '[');
                assert(w[1] == 'D');
                assert(w[2] == 'O');
                assert(w[3] == 'N');
                assert(w[4] == 'E');
                assert(w[5] == ']');
            }
        }
    }
    r
}

/// Classifies the raw frame `s[start..end]`.
fn classify_frame(s: &Vec<char>, start: usize, end: usize) -> (r: Option<Frame>)
    requires
        start <= end <= s@.len(),
    ensures
        match r {
            Some(f) => classify(s@.subrange(start as int, end as int)) == Some(f@),
            None => classify(s@.subrange(start as int, end as int)).is_none(),
        },
{
    let ghost raw = s@.subrange(start as int, end as int);
    if end - start < 6 {
        return None;
    }
    if !prefix_at(s, start) {
        assert(raw.subrange(0, 6) =~= s@.subrange(start as int, start + 6));
        return None;
    }
    assert(raw.subrange(0, 6) =~= s@.subrange(start as int, start + 6));
    assert(data_prefix().len() == 6);
    assert(occurs_at(raw, data_prefix(), 0));
    let mut k: usize = start;
    assert(done_token().len() == 6);
    while end - k >= 6
        invariant
            start <= k <= end,
            end <= s@.len(),
            raw == s@.subrange(start as int, end as int),
            occurs_at(raw, data_prefix(), 0),
            forall|j: int| 0 <= j < k - start ==> !#[trigger] occurs_at(raw, done_token(), j),
        decreases end - k,
    {
        let found = done_at(s, k);
        assert(done_token().len() == 6);
        assert(raw.subrange(k - start, k - start + 6) =~= s@.subrange(k as int, k + 6));
        if found {
            assert(occurs_at(raw, done_token(), k - start));
            assert(occurs_in(raw, done_token()));
            return Some(Frame::Done);
        }
        k = k + 1;
    }
    assert forall|j: int| #[trigger] occurs_at(raw, done_token(), j) implies false by {
        assert(j < k - start);
    }
    let mut payload: Vec<char> = Vec::new();
    let mut p: usize = start + 6;
    while p < end
        invariant
            start + 6 <= p <= end,
            end <= s@.len(),
            payload@ == s@.subrange(start + 6, p as int),
        decreases end - p,
    {
        payload.push(s[p]);
        assert(payload@ =~= s@.subrange(start + 6, p + 1));
        p = p + 1;
    }
    assert(raw.subrange(6, raw.len() as int) =~= payload@);
    let text = string_of_chars(&payload);
    Some(Frame::Data(text))
}

impl StreamParser {
    /// A parser with an empty buffer.
    pub fn new() -> (r: StreamParser)
        ensures
            r@ == Seq::<char>::empty(),
    {
        StreamParser { buffer: Vec::new() }
    }

    /// The text received and not yet framed.
    pub fn pending(&self) -> (r: String)
        ensures
            r@ == self@,
    {
        string_of_chars(&self.buffer)
    }

    /// Appends decoded text and takes out every complete frame, in order.
    pub fn feed_text(&mut self, text: &Vec<char>) -> (r: Vec<Frame>)
        ensures
            r@.map_values(|f: Frame| f@) == step(old(self)@, text@).0,
            final(self)@ == step(old(self)@, text@).1,
            !has_terminator(final(self)@),
    {
        let mut s: Vec<char> = Vec::new();
        std::mem::swap(&mut s, &mut self.buffer);
        let ghost s0 = s@;
        let mut t: usize = 0;
        while t < text.len()
            invariant
                t <= text@.len(),
                s@ == s0 + text@.subrange(0, t as int),
            decreases text@.len() - t,
        {
            s.push(text[t]);
            assert(s@ =~= s0 + text@.subrange(0, t + 1));
            t = t + 1;
        }
        assert(text@.subrange(0, text@.len() as int) =~= text@);
        let n = s.len();
        let mut out: Vec<Frame> = Vec::new();
        let mut start: usize = 0;
        let mut i: usize = 0;
        let ghost mut raws: Seq<Seq<char>> = seq![];
        assert(s@.subrange(0, n as int) =~= s@);
        while n - i >= 2
            invariant
                start <= i <= n,
                n == s@.len(),
                split_frames(s@) == (
                    raws + split_frames(s@.subrange(start as int, n as int)).0,
                    split_frames(s@.subrange(start as int, n as int)).1,
                ),
                forall|j: int| start <= j < i ==> !#[trigger] is_terminator_at(s@, j),
                out@.map_values(|f: Frame| f@) == classify_all(raws),
            decreases n - i,
        {
            if s[i] == '\n' && s[i + 1] == '\n' {
                let ghost sub = s@.subrange(start as int, n as int);
                let ghost k = i - start;
                proof {
                    assert forall|j: int| 0 <= j < k implies !#[trigger] is_terminator_at(
                        sub,
                        j,
                    ) by {
                        assert(!is_terminator_at(s@, start + j));
                    }
                    assert(is_terminator_at(sub, k));
                    lemma_split_at_first(sub, k);
                    assert(sub.subrange(k + 2, sub.len() as int) =~= s@.subrange(
                        i + 2,
                        n as int,
                    ));
                    assert(sub.subrange(0, k) =~= s@.subrange(start as int, i as int));
                }
                let f = classify_frame(&s, start, i);
                let ghost raw = s@.subrange(start as int, i as int);
                proof {
                    let rest = split_frames(s@.subrange(i + 2, n as int)).0;
                    assert(raws + (seq![raw] + rest) =~= raws.push(raw) + rest);
                    assert(raws.push(raw).drop_last() =~= raws);
                }
                match f {
                    Some(f) => {
                        out.push(f);
                        assert(out@.map_values(|f: Frame| f@) =~= classify_all(raws).push(
                            f@,
                        ));
                    },
                    None => {},
                }
                proof {
                    raws = raws.push(raw);
                }
                start = i + 2;
                i = i + 2;
            } else {
                assert(!is_terminator_at(s@, i as int));
                i = i + 1;
            }
        }
        let ghost tail = s@.subrange(start as int, n as int);
        assert forall|j: int| !#[trigger] is_terminator_at(tail, j) by {
            if is_terminator_at(tail, j) {
                assert(is_terminator_at(s@, start + j));
            }
        }
        proof {
            lemma_split_none(tail);
        }
        assert(raws + Seq::<Seq<char>>::empty() =~= raws);
        let mut rest: Vec<char> = Vec::new();
        let mut p: usize = start;
        while p < n
            invariant
                start <= p <= n,
                n == s@.len(),
                rest@ == s@.subrange(start as int, p as int),
            decreases n - p,
        {
            rest.push(s[p]);
            assert(rest@ =~= s@.subrange(start as int, p + 1));
            p = p + 1;
        }
        self.buffer = rest;
        out
    }

    /// Decodes a chunk of bytes (lossily) and takes out every complete
    /// frame, in order; the unterminated tail stays buffered.
    pub fn feed(&mut self, chunk: &[u8]) -> (r: Vec<Frame>)
        ensures
            r@.map_values(|f: Frame| f@) == step(old(self)@, lossy_text(chunk@)).0,
            final(self)@ == step(old(self)@, lossy_text(chunk@)).1,
            !has_terminator(final(self)@),
    {
        let text = decode_lossy(chunk);
        self.feed_text(&text)
    }
}

} // verus!
