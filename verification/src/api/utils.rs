//! Buffering of a streamed response, and the splitting of a server-sent
//! event stream into its data lines.

use vstd::prelude::*;
use crate::models::ResponseChunk;
use crate::models::openai::ChatCompletionFinishReason;
use crate::text::{chars_between, chars_of, string_of};
use crate::runtime::text_of_utf8;
use vstd::utf8::{decode_utf8, encode_scalar, valid_utf8};

verus! {

// ----------------------------------------------------------------------------
// Response buffer
// ----------------------------------------------------------------------------

/// What a response buffer holds: the text received so far and the reason the
/// stream finished, once a chunk has said so.
pub type BufferView = (Seq<char>, Option<ChatCompletionFinishReason>);

/// The buffer after a chunk with text `diff` and finish reason `finish` arrived.
pub open spec fn pushed(b: BufferView, diff: Seq<char>, finish: Option<ChatCompletionFinishReason>) -> BufferView {
    (b.0 + diff, finish)
}

/// What completing the buffer yields: the whole text and the finish reason,
/// once there is one.
pub open spec fn completion(b: BufferView) -> Option<(Seq<char>, ChatCompletionFinishReason)> {
    match b.1 {
        Some(reason) => Some((b.0, reason)),
        None => None,
    }
}

/// Collects the pieces of a streamed response until the stream says it is done.
pub struct ChatResponseBuffer {
    text: String,
    finish_by: Option<ChatCompletionFinishReason>,
}

impl View for ChatResponseBuffer {
    type V = BufferView;

    closed spec fn view(&self) -> BufferView {
        (self.text@, self.finish_by)
    }
}

impl ChatResponseBuffer {
    pub fn new() -> (buffer: Self)
        ensures
            buffer@ == (Seq::<char>::empty(), None::<ChatCompletionFinishReason>),
    {
        ChatResponseBuffer { text: String::new(), finish_by: None }
    }

    /// Appends the chunk's text and takes over its finish reason.
    pub fn push(&mut self, chunk: &ResponseChunk)
        ensures
            final(self)@ == pushed(old(self)@, chunk.diff@, chunk.finish_by),
    {
        self.text.append(chunk.diff.as_str());
        self.finish_by = chunk.finish_by;
    }

    /// One poll of the completion: once a finish reason has arrived, hands out
    /// the text gathered so far together with it and empties the text;
    /// before that, reports that the response is still pending.
    pub fn poll_complete(&mut self) -> (r: Option<(String, ChatCompletionFinishReason)>)
        ensures
            r is Some <==> completion(old(self)@) is Some,
            r matches Some((text, reason)) ==> completion(old(self)@) == Some((text@, reason)),
            r is Some ==> final(self)@ == (Seq::<char>::empty(), old(self)@.1),
            r is None ==> final(self)@ == old(self)@,
    {
        match self.finish_by {
            Some(reason) => {
                let mut text = String::new();
                std::mem::swap(&mut text, &mut self.text);
                Some((text, reason))
            },
            None => None,
        }
    }
}

/// The text and finish reason of each chunk of a sequence.
pub type ChunkView = (Seq<char>, Option<ChatCompletionFinishReason>);

/// The buffer after the chunks arrived one after the other.
pub open spec fn pushed_all(b: BufferView, chunks: Seq<ChunkView>) -> BufferView
    decreases chunks.len(),
{
    if chunks.len() == 0 {
        b
    } else {
        pushed(pushed_all(b, chunks.drop_last()), chunks.last().0, chunks.last().1)
    }
}

/// The texts of the chunks, one after the other.
pub open spec fn concat_diffs(chunks: Seq<ChunkView>) -> Seq<char>
    decreases chunks.len(),
{
    if chunks.len() == 0 {
        Seq::empty()
    } else {
        concat_diffs(chunks.drop_last()) + chunks.last().0
    }
}

/// A fresh buffer that received some chunks holds their texts in order and
/// the finish reason of the last of them.
pub proof fn law_buffer_collects_chunks(chunks: Seq<ChunkView>)
    ensures
        pushed_all((Seq::empty(), None), chunks).0 == concat_diffs(chunks),
        chunks.len() > 0 ==> pushed_all((Seq::empty(), None), chunks).1 == chunks.last().1,
        chunks.len() == 0 ==> pushed_all((Seq::empty(), None), chunks).1 is None,
    decreases chunks.len(),
{
    if chunks.len() > 0 {
        law_buffer_collects_chunks(chunks.drop_last());
    }
}

/// Completing a fresh buffer after some chunks yields the concatenation of
/// their texts as soon as the last of them carries a finish reason, and is
/// still pending while the last of them carries none.
pub proof fn law_completion_after_chunks(chunks: Seq<ChunkView>)
    requires
        chunks.len() > 0,
    ensures
        chunks.last().1 matches Some(reason) ==> completion(pushed_all((Seq::empty(), None), chunks))
            == Some((concat_diffs(chunks), reason)),
        chunks.last().1 is None ==> completion(pushed_all((Seq::empty(), None), chunks)) is None,
{
    law_buffer_collects_chunks(chunks);
}


// ----------------------------------------------------------------------------
// Event stream lines
// ----------------------------------------------------------------------------

/// A blank line, "\n\n", starts at position `i` of `s`.
pub open spec fn is_blank_at(s: Seq<char>, i: int) -> bool {
    0 <= i && i + 1 < s.len() && s[i] == '\n' && s[i + 1] == '\n'
}

/// The position of the first "\n\n" of `s` at or after `from`, or the length
/// of `s` when there is none.
pub open spec fn first_blank_from(s: Seq<char>, from: nat) -> nat
    decreases s.len() - from,
{
    if from + 1 >= s.len() {
        s.len()
    } else if is_blank_at(s, from as int) {
        from
    } else {
        first_blank_from(s, from + 1)
    }
}

/// `s` cut after each "\n\n", searching from the left: every piece but the
/// last ends with "\n\n", no piece is empty, and together they make up `s`.
pub open spec fn split_after_blanks(s: Seq<char>) -> Seq<Seq<char>>
    decreases s.len(),
{
    if s.len() == 0 {
        Seq::empty()
    } else {
        let k: int = first_blank_from(s, 0) as int;
        if k >= s.len() {
            seq![s]
        } else {
            proof {
                lemma_first_blank_from(s, 0);
            }
            seq![s.take(k + 2)] + split_after_blanks(s.skip(k + 2))
        }
    }
}

/// The pieces of a chunk make it up, in order; none is empty, and all but
/// the last end with "\n\n".
pub proof fn law_pieces_make_up_the_chunk(s: Seq<char>)
    ensures
        split_after_blanks(s).flatten() == s,
        forall|i: int| 0 <= i < split_after_blanks(s).len() ==> #[trigger] split_after_blanks(s)[i].len() > 0,
        forall|i: int| 0 <= i < split_after_blanks(s).len() - 1 ==> ends_with_blank(#[trigger] split_after_blanks(s)[i]),
    decreases s.len(),
{
    if s.len() > 0 {
        let k = first_blank_from(s, 0) as int;
        lemma_first_blank_from(s, 0);
        if k < s.len() {
            let rest = s.skip(k + 2);
            law_pieces_make_up_the_chunk(rest);
            let pieces = split_after_blanks(s);
            assert(pieces == seq![s.take(k + 2)] + split_after_blanks(rest));
            assert(pieces.drop_first() =~= split_after_blanks(rest));
            assert(pieces.first() == s.take(k + 2));
            assert(pieces.flatten() == pieces.first() + pieces.drop_first().flatten());
            assert(s.take(k + 2) + rest =~= s);
            assert forall|i: int| 0 <= i < pieces.len() - 1 implies ends_with_blank(#[trigger] pieces[i]) by {
                if i > 0 {
                    assert(pieces[i] == split_after_blanks(rest)[i - 1]);
                }
            }
            assert forall|i: int| 0 <= i < pieces.len() implies #[trigger] pieces[i].len() > 0 by {
                if i > 0 {
                    assert(pieces[i] == split_after_blanks(rest)[i - 1]);
                }
            }
        } else {
            let pieces = split_after_blanks(s);
            assert(pieces.drop_first() =~= Seq::<Seq<char>>::empty());
            assert(pieces.flatten() == pieces.first() + pieces.drop_first().flatten());
            assert(s + Seq::<char>::empty() =~= s);
        }
    } else {
        assert(s =~= Seq::<char>::empty());
    }
}

/// The prefix of an event's data line.
pub open spec fn data_prefix() -> Seq<char> {
    seq!['d', 'a', 't', 'a', ':', ' ']
}

pub open spec fn starts_with(s: Seq<char>, prefix: Seq<char>) -> bool {
    prefix.len() <= s.len() && s.take(prefix.len() as int) == prefix
}

pub open spec fn ends_with_blank(s: Seq<char>) -> bool {
    s.len() >= 2 && s[s.len() - 2] == '\n' && s[s.len() - 1] == '\n'
}

/// `s` without its last two characters.
pub open spec fn without_blank(s: Seq<char>) -> Seq<char> {
    s.take(s.len() - 2)
}

/// The number of bytes of `c` in UTF-8.
pub open spec fn utf8_width(c: char) -> nat {
    encode_scalar(c as u32).len()
}

/// A line without its last two bytes, the blank line that ends it where it
/// is complete: a line of fewer than two bytes stays whole, and there is
/// nothing where the cut would fall inside a character.
pub open spec fn cut_two_bytes(line: Seq<char>) -> Option<Seq<char>> {
    if line.len() == 0 || (line.len() == 1 && utf8_width(line[0]) == 1) {
        Some(line)
    } else if utf8_width(line.last()) == 2 {
        Some(line.drop_last())
    } else if utf8_width(line.last()) == 1 && utf8_width(line[line.len() - 2]) == 1 {
        Some(line.take(line.len() - 2))
    } else {
        None
    }
}

/// One piece of a chunk, read with `pending` held over from before: a data
/// line is emitted when it is complete and held back otherwise; any other
/// piece completes the held-back text, and the two are emitted together,
/// without their last two bytes. The result is the text held afterwards and
/// the lines emitted; `None` where that cut falls inside a character.
pub open spec fn consume_piece(pending: Seq<char>, piece: Seq<char>) -> Option<(Seq<char>, Seq<Seq<char>>)> {
    if starts_with(piece, data_prefix()) {
        let data = piece.skip(6);
        if ends_with_blank(data) {
            Some((pending, seq![without_blank(data)]))
        } else {
            Some((data, Seq::empty()))
        }
    } else {
        match cut_two_bytes(pending + piece) {
            Some(line) => Some((Seq::empty(), seq![line])),
            None => None,
        }
    }
}

/// The pieces read one after the other, from the left.
pub open spec fn consume_pieces(pending: Seq<char>, pieces: Seq<Seq<char>>) -> Option<(Seq<char>, Seq<Seq<char>>)>
    decreases pieces.len(),
{
    if pieces.len() == 0 {
        Some((pending, Seq::empty()))
    } else {
        match consume_pieces(pending, pieces.drop_last()) {
            None => None,
            Some((held, lines)) => match consume_piece(held, pieces.last()) {
                None => None,
                Some((next, more)) => Some((next, lines + more)),
            },
        }
    }
}

/// What reading the chunk `text` does, with `pending` held over from the
/// chunks before it.
pub open spec fn feed_result(pending: Seq<char>, text: Seq<char>) -> Option<(Seq<char>, Seq<Seq<char>>)> {
    consume_pieces(pending, split_after_blanks(text))
}

/// The texts of some strings.
pub open spec fn texts(lines: Seq<String>) -> Seq<Seq<char>> {
    lines.map_values(|line: String| line@)
}

pub proof fn lemma_first_blank_from(s: Seq<char>, from: nat)
    ensures
        from <= s.len() ==> from <= first_blank_from(s, from) <= s.len(),
        first_blank_from(s, from) < s.len() ==> is_blank_at(s, first_blank_from(s, from) as int),
        forall|j: int| from <= j < first_blank_from(s, from) ==> !is_blank_at(s, j),
    decreases s.len() - from,
{
    if from + 1 >= s.len() {
    } else if is_blank_at(s, from as int) {
    } else {
        lemma_first_blank_from(s, from + 1);
    }
}

/// With no blank in `s[from..to)`, the search from `from` goes on at `to`.
proof fn lemma_first_blank_skips(s: Seq<char>, from: nat, to: nat)
    requires
        from <= to,
        forall|j: int| from <= j < to ==> !is_blank_at(s, j),
    ensures
        to <= s.len() ==> first_blank_from(s, from) == first_blank_from(s, to),
    decreases to - from,
{
    if from < to {
        lemma_first_blank_skips(s, from + 1, to);
    }
}

/// Cutting `s` from `start`, when the first blank from there is at `i`.
proof fn lemma_split_at_blank(s: Seq<char>, start: int, i: int)
    requires
        0 <= start <= i,
        is_blank_at(s, i),
        forall|j: int| start <= j < i ==> !is_blank_at(s, j),
    ensures
        split_after_blanks(s.skip(start)) == seq![s.subrange(start, i + 2)] + split_after_blanks(s.skip(i + 2)),
{
    let t = s.skip(start);
    assert forall|j: int| 0 <= j < i - start implies !is_blank_at(t, j) by {
        assert(!is_blank_at(s, j + start));
    }
    assert(is_blank_at(t, i - start));
    lemma_first_blank_skips(t, 0, (i - start) as nat);
    assert(first_blank_from(t, (i - start) as nat) == i - start);
    assert(t.take(i - start + 2) =~= s.subrange(start, i + 2));
    assert(t.skip(i - start + 2) =~= s.skip(i + 2));
}

/// Cutting `s` from `start`, when there is no blank from there on.
proof fn lemma_split_last(s: Seq<char>, start: int)
    requires
        0 <= start < s.len(),
        forall|j: int| start <= j < s.len() ==> !is_blank_at(s, j),
    ensures
        split_after_blanks(s.skip(start)) == seq![s.skip(start)],
{
    let t = s.skip(start);
    assert forall|j: int| 0 <= j < t.len() implies !is_blank_at(t, j) by {
        assert(!is_blank_at(s, j + start));
    }
    lemma_first_blank_skips(t, 0, t.len());
}

/// Reading stops for good once it failed.
proof fn lemma_consume_prefix(pending: Seq<char>, a: Seq<Seq<char>>, b: Seq<Seq<char>>)
    requires
        consume_pieces(pending, a + b) is Some,
    ensures
        consume_pieces(pending, a) is Some,
    decreases b.len(),
{
    if b.len() > 0 {
        assert((a + b).drop_last() =~= a + b.drop_last());
        lemma_consume_prefix(pending, a, b.drop_last());
    } else {
        assert(a + b =~= a);
    }
}

/// The number of bytes of `c` in UTF-8.
fn utf8_width_of(c: char) -> (w: usize)
    ensures
        w == utf8_width(c),
{
    let v = c as u32;
    if v <= 0x7F {
        1
    } else if v <= 0x7FF {
        2
    } else if v <= 0xFFFF && !(0xD800 <= v && v <= 0xDFFF) {
        3
    } else {
        4
    }
}

/// Splits a server-sent event stream, arriving in chunks of text, into the
/// data of its events, each without the blank line that ends it.
pub struct EventLineSplitter {
    pending: Vec<char>,
}

impl View for EventLineSplitter {
    type V = Seq<char>;

    /// The data held back from an earlier chunk, waiting for its end.
    closed spec fn view(&self) -> Seq<char> {
        self.pending@
    }
}

impl EventLineSplitter {
    pub fn new() -> (splitter: Self)
        ensures
            splitter@ == Seq::<char>::empty(),
    {
        EventLineSplitter { pending: Vec::new() }
    }

    /// Reads the piece `cs[from..to)`, with `pending` held over.
    fn consume(pending: &Vec<char>, cs: &Vec<char>, from: usize, to: usize) -> (r: Option<(Vec<char>, Option<String>)>)
        requires
            from < to <= cs@.len(),
        ensures
            r is Some <==> consume_piece(pending@, cs@.subrange(from as int, to as int)) is Some,
            r matches Some((held, line)) ==> consume_piece(pending@, cs@.subrange(from as int, to as int))
                == Some((held@, optional_texts(line))),
    {
        let ghost piece = cs@.subrange(from as int, to as int);
        let is_data = to - from >= 6 && cs[from] == 'd' && cs[from + 1] == 'a' && cs[from + 2] == 't'
            && cs[from + 3] == 'a' && cs[from + 4] == ':' && cs[from + 5] == ' ';
        proof {
            if is_data {
                assert(piece.take(6) =~= data_prefix());
            } else if 6 <= piece.len() {
                if piece.take(6) == data_prefix() {
                    assert forall|j: int| 0 <= j < 6 implies piece[j] == data_prefix()[j] by {
                        assert(piece.take(6)[j] == piece[j]);
                    }
                }
            }
        }
        if is_data {
            let ghost data = piece.skip(6);
            assert(data =~= cs@.subrange(from + 6, to as int));
            if to - from >= 8 && cs[to - 2] == '\n' && cs[to - 1] == '\n' {
                let line = string_of(cs, from + 6, to - 2);
                assert(line@ =~= without_blank(data));
                let held = chars_between(pending, 0, pending.len());
                assert(held@ =~= pending@);
                Some((held, Some(line)))
            } else {
                let held = chars_between(cs, from + 6, to);
                Some((held, None))
            }
        } else {
            let mut line_chars = chars_between(pending, 0, pending.len());
            let mut k = from;
            while k < to
                invariant
                    from <= k <= to <= cs@.len(),
                    line_chars@ == pending@ + cs@.subrange(from as int, k as int),
                decreases to - k,
            {
                line_chars.push(cs[k]);
                k = k + 1;
                assert(line_chars@ =~= pending@ + cs@.subrange(from as int, k as int));
            }
            let len = line_chars.len();
            let ghost whole = pending@ + piece;
            assert(line_chars@ =~= whole);
            if len == 0 || (len == 1 && utf8_width_of(line_chars[0]) == 1) {
                let line = string_of(&line_chars, 0, len);
                assert(line@ =~= whole);
                Some((Vec::new(), Some(line)))
            } else if utf8_width_of(line_chars[len - 1]) == 2 {
                let line = string_of(&line_chars, 0, len - 1);
                assert(line@ =~= whole.drop_last());
                Some((Vec::new(), Some(line)))
            } else if utf8_width_of(line_chars[len - 1]) == 1 && utf8_width_of(line_chars[len - 2]) == 1 {
                let line = string_of(&line_chars, 0, len - 2);
                assert(line@ =~= whole.take(whole.len() - 2));
                Some((Vec::new(), Some(line)))
            } else {
                None
            }
        }
    }

    /// Reads one chunk of the stream. Returns the data of the events that the
    /// chunk completes, in order, or `None`, with nothing changed, where the
    /// cut of the last two bytes of a line to hand out falls inside a
    /// character.
    pub fn feed(&mut self, text: &str) -> (lines: Option<Vec<String>>)
        ensures
            lines is Some <==> feed_result(old(self)@, text@) is Some,
            lines matches Some(ls) ==> feed_result(old(self)@, text@) == Some((final(self)@, texts(ls@))),
            lines is None ==> final(self)@ == old(self)@,
    {
        let ghost p0 = self@;
        let cs = chars_of(text);
        let n = cs.len();
        let mut pending: Vec<char> = chars_between(&self.pending, 0, self.pending.len());
        let mut lines: Vec<String> = Vec::new();
        let mut start: usize = 0;
        let mut i: usize = 0;
        let ghost mut done: Seq<Seq<char>> = Seq::empty();
        assert(cs@.skip(0) =~= cs@);
        assert(done + split_after_blanks(cs@) =~= split_after_blanks(cs@));
        assert(texts(lines@) =~= Seq::<Seq<char>>::empty());
        assert(pending@ =~= p0);
        while i < n
            invariant
                n == cs@.len(),
                cs@ == text@,
                p0 == self@,
                start <= i <= n,
                forall|j: int| start <= j < i ==> !is_blank_at(cs@, j),
                split_after_blanks(cs@) == done + split_after_blanks(cs@.skip(start as int)),
                consume_pieces(p0, done) == Some((pending@, texts(lines@))),
            decreases n - i,
        {
            if i + 1 < n && cs[i] == '\n' && cs[i + 1] == '\n' {
                let ghost piece = cs@.subrange(start as int, i + 2);
                let ghost rest = split_after_blanks(cs@.skip(i + 2));
                proof {
                    lemma_split_at_blank(cs@, start as int, i as int);
                    assert(split_after_blanks(cs@) =~= (done + seq![piece]) + rest);
                    assert((done + seq![piece]).drop_last() =~= done);
                }
                match Self::consume(&pending, &cs, start, i + 2) {
                    None => {
                        proof {
                            if feed_result(p0, text@) is Some {
                                lemma_consume_prefix(p0, done + seq![piece], rest);
                            }
                        }
                        return None;
                    },
                    Some((held, line)) => {
                        let ghost before = lines@;
                        match line {
                            Some(l) => {
                                lines.push(l);
                                assert(texts(lines@) =~= texts(before) + seq![l@]);
                            },
                            None => {
                                assert(texts(lines@) =~= texts(before) + Seq::<Seq<char>>::empty());
                            },
                        }
                        pending = held;
                        proof {
                            done = done + seq![piece];
                        }
                        start = i + 2;
                        i = i + 2;
                    },
                }
            } else {
                i = i + 1;
            }
        }
        if start < n {
            let ghost piece = cs@.subrange(start as int, n as int);
            proof {
                lemma_split_last(cs@, start as int);
                assert(cs@.skip(start as int) =~= piece);
                assert(split_after_blanks(cs@) =~= done + seq![piece]);
                assert((done + seq![piece]).drop_last() =~= done);
            }
            match Self::consume(&pending, &cs, start, n) {
                None => {
                    return None;
                },
                Some((held, line)) => {
                    let ghost before = lines@;
                    match line {
                        Some(l) => {
                            lines.push(l);
                            assert(texts(lines@) =~= texts(before) + seq![l@]);
                        },
                        None => {
                            assert(texts(lines@) =~= texts(before) + Seq::<Seq<char>>::empty());
                        },
                    }
                    pending = held;
                },
            }
        } else {
            assert(cs@.skip(n as int) =~= Seq::<char>::empty());
            assert(done + Seq::<Seq<char>>::empty() =~= done);
        }
        self.pending = pending;
        Some(lines)
    }

    /// Reads one raw chunk of the stream: its bytes must be UTF-8 text,
    /// which is then read as by `feed`. Returns `None`, with nothing changed,
    /// where the bytes are not valid UTF-8 or `feed` refuses their text.
    pub fn feed_bytes(&mut self, raw: &[u8]) -> (lines: Option<Vec<String>>)
        ensures
            lines is Some <==> valid_utf8(raw@) && feed_result(old(self)@, decode_utf8(raw@)) is Some,
            lines matches Some(ls) ==> feed_result(old(self)@, decode_utf8(raw@)) == Some((final(self)@, texts(ls@))),
            lines is None ==> final(self)@ == old(self)@,
    {
        match text_of_utf8(raw) {
            Some(text) => self.feed(text),
            None => None,
        }
    }
}

/// The line emitted, if any, as a sequence of texts.
pub open spec fn optional_texts(line: Option<String>) -> Seq<Seq<char>> {
    match line {
        Some(l) => seq![l@],
        None => Seq::empty(),
    }
}

/// A text in which every line break is followed, inside the text, by
/// something other than a line break: it holds no blank line and does not end
/// with a line break.
pub open spec fn plain_data(x: Seq<char>) -> bool {
    forall|j: int| 0 <= j < x.len() && #[trigger] x[j] == '\n' ==> j + 1 < x.len() && x[j + 1] != '\n'
}

/// The blank line that ends an event.
pub open spec fn blank() -> Seq<char> {
    seq!['\n', '\n']
}

/// The event that carries the data `x`.
pub open spec fn event(x: Seq<char>) -> Seq<char> {
    data_prefix() + x + blank()
}

/// The events that carry the data `xs`, one after the other.
pub open spec fn events(xs: Seq<Seq<char>>) -> Seq<char>
    decreases xs.len(),
{
    if xs.len() == 0 {
        Seq::empty()
    } else {
        event(xs[0]) + events(xs.drop_first())
    }
}

proof fn lemma_split_events(xs: Seq<Seq<char>>)
    requires
        forall|i: int| 0 <= i < xs.len() ==> plain_data(#[trigger] xs[i]),
    ensures
        split_after_blanks(events(xs)) == xs.map_values(|x: Seq<char>| event(x)),
    decreases xs.len(),
{
    if xs.len() == 0 {
        assert(xs.map_values(|x: Seq<char>| event(x)) =~= Seq::<Seq<char>>::empty());
    } else {
        let x = xs[0];
        let rest = xs.drop_first();
        assert forall|i: int| 0 <= i < rest.len() implies plain_data(#[trigger] rest[i]) by {
            assert(rest[i] == xs[i + 1]);
        }
        lemma_split_events(rest);
        let s = events(xs);
        let e = event(x);
        assert(s == e + events(rest));
        let k: int = 6 + x.len() as int;
        assert(plain_data(x));
        assert forall|j: int| 0 <= j < k implies !is_blank_at(s, j) by {
            if j >= 6 && is_blank_at(s, j) {
                assert(s[j] == x[j - 6]);
                if j + 1 < k {
                    assert(s[j + 1] == x[j - 5]);
                }
            }
        }
        assert(is_blank_at(s, k));
        lemma_split_at_blank(s, 0, k);
        assert(s.skip(0) =~= s);
        assert(s.subrange(0, k + 2) =~= e);
        assert(s.skip(k + 2) =~= events(rest));
        assert(xs.map_values(|x: Seq<char>| event(x)) =~= seq![e] + rest.map_values(|x: Seq<char>| event(x)));
    }
}

proof fn lemma_consume_events(pending: Seq<char>, xs: Seq<Seq<char>>)
    ensures
        consume_pieces(pending, xs.map_values(|x: Seq<char>| event(x))) == Some((pending, xs)),
    decreases xs.len(),
{
    let es = xs.map_values(|x: Seq<char>| event(x));
    if xs.len() == 0 {
        assert(xs =~= Seq::<Seq<char>>::empty());
    } else {
        let front = xs.drop_last();
        lemma_consume_events(pending, front);
        assert(es.drop_last() =~= front.map_values(|x: Seq<char>| event(x)));
        let x = xs.last();
        let e = event(x);
        assert(es.last() == e);
        assert(e.take(6) =~= data_prefix());
        assert(e.skip(6) =~= x + blank());
        assert(without_blank(x + blank()) =~= x);
        assert(front + seq![x] =~= xs);
    }
}

/// A chunk made of whole events whose data hold no blank line gives back
/// their data, in order, and keeps what was held back before.
pub proof fn law_whole_events(pending: Seq<char>, xs: Seq<Seq<char>>)
    requires
        forall|i: int| 0 <= i < xs.len() ==> plain_data(#[trigger] xs[i]),
    ensures
        feed_result(pending, events(xs)) == Some((pending, xs)),
{
    lemma_split_events(xs);
    lemma_consume_events(pending, xs);
}

/// An event cut in two after its `data: ` prefix is put back together: the
/// first chunk is held back, and the second, which does not open another data
/// line, completes it.
pub proof fn law_event_split_across_chunks(pending: Seq<char>, a: Seq<char>, b: Seq<char>)
    requires
        plain_data(a + b),
        !starts_with(b + blank(), data_prefix()),
    ensures
        feed_result(pending, data_prefix() + a) == Some((a, Seq::<Seq<char>>::empty())),
        feed_result(a, b + blank()) == Some((Seq::<char>::empty(), seq![a + b])),
{
    let c1 = data_prefix() + a;
    let ab = a + b;
    assert forall|j: int| 0 <= j < c1.len() implies !is_blank_at(c1, j) by {
        if j >= 6 && is_blank_at(c1, j) {
            assert(c1[j] == ab[j - 6]);
            assert(c1[j + 1] == ab[j - 5]);
        }
    }
    lemma_split_last(c1, 0);
    assert(c1.skip(0) =~= c1);
    assert(c1.take(6) =~= data_prefix());
    assert(c1.skip(6) =~= a);
    assert(seq![c1].drop_last() =~= Seq::<Seq<char>>::empty());
    assert(Seq::<Seq<char>>::empty() + Seq::<Seq<char>>::empty() =~= Seq::<Seq<char>>::empty());
    assert(starts_with(c1, data_prefix()));
    if ends_with_blank(a) {
        let m = a.len() - 2;
        assert(ab[m] == '\n');
        assert(ab[m + 1] == '\n');
    }
    assert(consume_piece(pending, c1) == Some((a, Seq::<Seq<char>>::empty())));
    assert(consume_pieces(pending, Seq::<Seq<char>>::empty()) == Some((pending, Seq::<Seq<char>>::empty())));
    assert(consume_pieces(pending, seq![c1]) == Some((a, Seq::<Seq<char>>::empty())));

    let c2 = b + blank();
    let k = b.len() as int;
    assert forall|j: int| 0 <= j < k implies !is_blank_at(c2, j) by {
        if is_blank_at(c2, j) {
            assert(c2[j] == ab[j + a.len()]);
            if j + 1 < k {
                assert(c2[j + 1] == ab[j + 1 + a.len()]);
            } else {
                assert(ab[j + a.len()] == '\n');
            }
        }
    }
    assert(is_blank_at(c2, k));
    lemma_split_at_blank(c2, 0, k);
    assert(c2.skip(0) =~= c2);
    assert(c2.subrange(0, k + 2) =~= c2);
    assert(c2.skip(k + 2) =~= Seq::<char>::empty());
    assert(split_after_blanks(c2) =~= seq![c2]);
    assert(seq![c2].drop_last() =~= Seq::<Seq<char>>::empty());
    assert(a + c2 =~= ab + blank());
    assert(without_blank(ab + blank()) =~= ab);
    assert(Seq::<Seq<char>>::empty() + seq![ab] =~= seq![ab]);
    assert(ends_with_blank(a + c2));
    assert(consume_piece(a, c2) == Some((Seq::<char>::empty(), seq![ab])));
    assert(consume_pieces(a, Seq::<Seq<char>>::empty()) == Some((a, Seq::<Seq<char>>::empty())));
    assert(consume_pieces(a, seq![c2]) == Some((Seq::<char>::empty(), seq![ab])));
}

proof fn lemma_split_events_then(xs: Seq<Seq<char>>, t: Seq<char>)
    requires
        forall|i: int| 0 <= i < xs.len() ==> plain_data(#[trigger] xs[i]),
    ensures
        split_after_blanks(events(xs) + t) == xs.map_values(|x: Seq<char>| event(x)) + split_after_blanks(t),
    decreases xs.len(),
{
    if xs.len() == 0 {
        assert(events(xs) + t =~= t);
        assert(xs.map_values(|x: Seq<char>| event(x)) + split_after_blanks(t) =~= split_after_blanks(t));
    } else {
        let x = xs[0];
        let rest = xs.drop_first();
        assert forall|i: int| 0 <= i < rest.len() implies plain_data(#[trigger] rest[i]) by {
            assert(rest[i] == xs[i + 1]);
        }
        lemma_split_events_then(rest, t);
        let e = event(x);
        let s = events(xs) + t;
        assert(s =~= e + (events(rest) + t));
        let k: int = 6 + x.len() as int;
        assert(plain_data(x));
        assert forall|j: int| 0 <= j < k implies !is_blank_at(s, j) by {
            if j >= 6 && is_blank_at(s, j) {
                assert(s[j] == x[j - 6]);
                if j + 1 < k {
                    assert(s[j + 1] == x[j - 5]);
                }
            }
        }
        assert(is_blank_at(s, k));
        lemma_split_at_blank(s, 0, k);
        assert(s.skip(0) =~= s);
        assert(s.subrange(0, k + 2) =~= e);
        assert(s.skip(k + 2) =~= events(rest) + t);
        assert(xs.map_values(|x: Seq<char>| event(x)) =~= seq![e] + rest.map_values(|x: Seq<char>| event(x)));
        assert(xs.map_values(|x: Seq<char>| event(x)) + split_after_blanks(t)
            =~= seq![e] + (rest.map_values(|x: Seq<char>| event(x)) + split_after_blanks(t)));
    }
}

/// Reading pieces `a` then `b` is reading `a`, then `b` from what `a` held back.
proof fn lemma_consume_concat(pending: Seq<char>, a: Seq<Seq<char>>, b: Seq<Seq<char>>)
    requires
        consume_pieces(pending, a) is Some,
    ensures
        consume_pieces(pending, a) matches Some((q, l1)) ==> consume_pieces(pending, a + b) == match consume_pieces(q, b) {
            Some((held, more)) => Some((held, l1 + more)),
            None => None::<(Seq<char>, Seq<Seq<char>>)>,
        },
    decreases b.len(),
{
    let (q, l1) = consume_pieces(pending, a)->Some_0;
    if b.len() == 0 {
        assert(a + b =~= a);
        assert(l1 + Seq::<Seq<char>>::empty() =~= l1);
    } else {
        lemma_consume_concat(pending, a, b.drop_last());
        assert((a + b).drop_last() =~= a + b.drop_last());
        assert((a + b).last() == b.last());
        match consume_pieces(q, b.drop_last()) {
            Some((h, m)) => {
                match consume_piece(h, b.last()) {
                    Some((h2, m2)) => {
                        assert(l1 + m + m2 =~= l1 + (m + m2));
                    },
                    None => {},
                }
            },
            None => {},
        }
    }
}

proof fn lemma_events_concat(xs: Seq<Seq<char>>, ys: Seq<Seq<char>>)
    ensures
        events(xs + ys) == events(xs) + events(ys),
    decreases xs.len(),
{
    if xs.len() == 0 {
        assert(xs + ys =~= ys);
        assert(events(xs) + events(ys) =~= events(ys));
    } else {
        lemma_events_concat(xs.drop_first(), ys);
        assert((xs + ys).drop_first() =~= xs.drop_first() + ys);
        assert((xs + ys)[0] == xs[0]);
        assert(event(xs[0]) + (events(xs.drop_first()) + events(ys)) =~= (event(xs[0]) + events(xs.drop_first())) + events(ys));
    }
}

/// A text that holds no blank line.
pub open spec fn no_blank_line(x: Seq<char>) -> bool {
    forall|j: int| 0 <= j && j + 1 < x.len() && #[trigger] x[j] == '\n' ==> x[j + 1] != '\n'
}

/// A chunk that ends with the start of an event, after whole events, gives
/// back the data of the whole events and holds back the started data,
/// whatever it held before and however many lines it delivered.
pub proof fn law_started_event_is_held_back(pending: Seq<char>, xs: Seq<Seq<char>>, a: Seq<char>)
    requires
        forall|i: int| 0 <= i < xs.len() ==> plain_data(#[trigger] xs[i]),
        no_blank_line(a),
    ensures
        feed_result(pending, events(xs) + (data_prefix() + a)) == Some((a, xs)),
{
    let c = data_prefix() + a;
    lemma_split_events_then(xs, c);
    assert forall|j: int| 0 <= j < c.len() implies !is_blank_at(c, j) by {
        if j >= 6 && is_blank_at(c, j) {
            assert(c[j] == a[j - 6]);
            assert(c[j + 1] == a[j - 5]);
        }
    }
    lemma_split_last(c, 0);
    assert(c.skip(0) =~= c);
    let es = xs.map_values(|x: Seq<char>| event(x));
    lemma_consume_events(pending, xs);
    lemma_consume_concat(pending, es, seq![c]);
    assert(seq![c].drop_last() =~= Seq::<Seq<char>>::empty());
    assert(c.take(6) =~= data_prefix());
    assert(c.skip(6) =~= a);
    if ends_with_blank(a) {
        assert(a[a.len() - 2] == '\n');
        assert(a[a.len() - 1] == '\n');
    }
    assert(consume_piece(pending, c) == Some((a, Seq::<Seq<char>>::empty())));
    assert(consume_pieces(pending, Seq::<Seq<char>>::empty()) == Some((pending, Seq::<Seq<char>>::empty())));
    assert(consume_pieces(pending, seq![c]) == Some((a, Seq::<Seq<char>>::empty())));
    assert(xs + Seq::<Seq<char>>::empty() =~= xs);
}

/// Whole events, then an event cut inside its data, then whole events, read
/// in two chunks cut there, give the data that reading the stream as one
/// chunk gives: the cut event is put back together, and nothing is held back
/// after it.
pub proof fn law_two_chunks_read_as_one(
    pending: Seq<char>,
    xs: Seq<Seq<char>>,
    a: Seq<char>,
    b: Seq<char>,
    ys: Seq<Seq<char>>,
)
    requires
        forall|i: int| 0 <= i < xs.len() ==> plain_data(#[trigger] xs[i]),
        forall|i: int| 0 <= i < ys.len() ==> plain_data(#[trigger] ys[i]),
        plain_data(a + b),
        !starts_with(b + blank(), data_prefix()),
    ensures
        feed_result(pending, events(xs) + (data_prefix() + a)) == Some((a, xs)),
        feed_result(a, (b + blank()) + events(ys)) == Some((Seq::<char>::empty(), seq![a + b] + ys)),
        (events(xs) + (data_prefix() + a)) + ((b + blank()) + events(ys)) == events(xs + seq![a + b] + ys),
        feed_result(pending, events(xs + seq![a + b] + ys)) == Some((pending, xs + seq![a + b] + ys)),
{
    let ab = a + b;
    assert forall|j: int| 0 <= j && j + 1 < a.len() && #[trigger] a[j] == '\n' implies a[j + 1] != '\n' by {
        assert(ab[j] == a[j]);
        assert(ab[j + 1] == a[j + 1]);
    }
    law_event_split_across_chunks(pending, a, b);
    law_started_event_is_held_back(pending, xs, a);

    // the second chunk: the end of the cut event, then whole events
    let c2 = b + blank();
    let k = b.len() as int;
    assert forall|j: int| 0 <= j < k implies !is_blank_at(c2 + events(ys), j) by {
        if is_blank_at(c2 + events(ys), j) {
            assert((c2 + events(ys))[j] == ab[j + a.len()]);
            if j + 1 < k {
                assert((c2 + events(ys))[j + 1] == ab[j + 1 + a.len()]);
            } else {
                assert(ab[j + a.len()] == '\n');
            }
        }
    }
    let s2 = c2 + events(ys);
    assert(is_blank_at(s2, k));
    lemma_split_at_blank(s2, 0, k);
    assert(s2.skip(0) =~= s2);
    assert(s2.subrange(0, k + 2) =~= c2);
    assert(s2.skip(k + 2) =~= events(ys));
    lemma_split_events(ys);
    let ys_events = ys.map_values(|x: Seq<char>| event(x));
    assert(split_after_blanks(s2) == seq![c2] + ys_events);
    assert forall|j: int| 0 <= j < k implies !is_blank_at(c2, j) by {
        if is_blank_at(c2, j) {
            assert(s2[j] == c2[j]);
            assert(s2[j + 1] == c2[j + 1]);
            assert(is_blank_at(s2, j));
        }
    }
    assert(split_after_blanks(c2) =~= seq![c2]) by {
        lemma_split_at_blank(c2, 0, k);
        assert(c2.skip(0) =~= c2);
        assert(c2.subrange(0, k + 2) =~= c2);
        assert(c2.skip(k + 2) =~= Seq::<char>::empty());
    }
    assert(consume_pieces(a, seq![c2]) == Some((Seq::<char>::empty(), seq![ab])));
    lemma_consume_concat(a, seq![c2], ys_events);
    lemma_consume_events(Seq::<char>::empty(), ys);

    // the stream as one chunk
    assert((events(xs) + (data_prefix() + a)) + ((b + blank()) + events(ys))
        =~= events(xs) + (event(ab) + events(ys)));
    assert(events(seq![ab]) =~= event(ab)) by {
        assert(seq![ab].drop_first() =~= Seq::<Seq<char>>::empty());
        assert(seq![ab][0] == ab);
        assert(events(seq![ab].drop_first()) == Seq::<char>::empty());
        assert(event(ab) + Seq::<char>::empty() =~= event(ab));
    }
    lemma_events_concat(seq![ab], ys);
    lemma_events_concat(xs, seq![ab] + ys);
    assert(xs + seq![ab] + ys =~= xs + (seq![ab] + ys));
    assert forall|i: int| 0 <= i < (xs + seq![ab] + ys).len() implies plain_data(#[trigger] (xs + seq![ab] + ys)[i]) by {
        if i < xs.len() {
            assert((xs + seq![ab] + ys)[i] == xs[i]);
        } else if i == xs.len() {
            assert((xs + seq![ab] + ys)[i] == ab);
        } else {
            assert((xs + seq![ab] + ys)[i] == ys[i - xs.len() - 1]);
        }
    }
    law_whole_events(pending, xs + seq![ab] + ys);
}

} // verus!
