//! The framing of the price stream: the chunks of bytes it delivers become
//! trimmed, nonempty lines, a line split across chunks put together again, and a line that is not a JSON message is either a
//! keep-alive, a server-sent event carrying one, or malformed.

use vstd::prelude::*;
use vstd::string::StrSliceExecFns;
use vstd::utf8::{decode_utf8, valid_utf8};

verus! {

/// The text that `String::from_utf8_lossy` makes of `bytes`.
pub uninterp spec fn utf8_lossy(bytes: Seq<u8>) -> Seq<char>;

/// The lines that `str::lines` finds in `text`, without their line endings.
pub uninterp spec fn text_lines(text: Seq<char>) -> Seq<Seq<char>>;

/// The characters with the Unicode property `White_Space`: tab, line feed, line
/// tabulation, form feed, carriage return, space, next line, no-break space,
/// ogham space mark, the spaces from en quad to hair space, line separator,
/// paragraph separator, narrow no-break space, medium mathematical space and
/// ideographic space.
pub open spec fn is_white_space(c: char) -> bool {
    let n = c as u32;
    ||| 0x9 <= n <= 0xD
    ||| n == 0x20
    ||| n == 0x85
    ||| n == 0xA0
    ||| n == 0x1680
    ||| 0x2000 <= n <= 0x200A
    ||| n == 0x2028
    ||| n == 0x2029
    ||| n == 0x202F
    ||| n == 0x205F
    ||| n == 0x3000
}

/// `text` without its leading white space.
pub open spec fn trim_start(text: Seq<char>) -> Seq<char>
    decreases text.len(),
{
    if text.len() > 0 && is_white_space(text[0]) {
        trim_start(text.drop_first())
    } else {
        text
    }
}

/// `text` without its trailing white space.
pub open spec fn trim_end(text: Seq<char>) -> Seq<char>
    decreases text.len(),
{
    if text.len() > 0 && is_white_space(text.last()) {
        trim_end(text.drop_last())
    } else {
        text
    }
}

/// `text` without leading and trailing white space.
pub open spec fn trimmed(text: Seq<char>) -> Seq<char> {
    trim_end(trim_start(text))
}

/// Decodes a chunk of the stream as UTF-8, invalid sequences replaced.
///
/// Calls `String::from_utf8_lossy`. Its documentation says that valid UTF-8 is
/// decoded as it stands; what an invalid sequence becomes is left to the name.
#[verifier::external_body]
fn decode_lossy(bytes: &[u8]) -> (text: String)
    ensures
        text@ == utf8_lossy(bytes@),
        valid_utf8(bytes@) ==> text@ == decode_utf8(bytes@),
{
    String::from_utf8_lossy(bytes).into_owned()
}

/// The lines of `text`.
///
/// Calls `str::lines`, which splits at `\n` and at `\r\n` and drops those
/// endings; the result is left to the name.
#[verifier::external_body]
fn split_lines<'a>(text: &'a str) -> (lines: Vec<&'a str>)
    ensures
        lines@.map_values(|line: &str| line@) == text_lines(text@),
{
    text.lines().collect()
}

/// `text` without leading and trailing whitespace.
///
/// Calls `str::trim`, which removes the characters with the Unicode property
/// `White_Space` from both ends, as its documentation says.
#[verifier::external_body]
fn trim_text(text: &str) -> (rest: &str)
    ensures
        rest@ == trimmed(text@),
{
    text.trim()
}

/// The trimmed lines that are not empty, in order.
pub open spec fn nonempty_trimmed(lines: Seq<Seq<char>>) -> Seq<Seq<char>>
    decreases lines.len(),
{
    if lines.len() == 0 {
        Seq::empty()
    } else {
        let rest = nonempty_trimmed(lines.drop_last());
        let line = trimmed(lines.last());
        if line.len() > 0 {
            rest.push(line)
        } else {
            rest
        }
    }
}

/// Framing keeps every line that has more than white space, trimmed, in order,
/// and nothing else: the result is the trimmed lines at increasing places of
/// the input, every kept line is nonempty, and every line whose trimmed form is
/// nonempty is among them.
pub proof fn lemma_nonempty_trimmed_keeps_every_line(lines: Seq<Seq<char>>)
    ensures
        forall|j: int| 0 <= j < nonempty_trimmed(lines).len() ==> #[trigger] nonempty_trimmed(lines)[j].len() > 0,
        exists|places: Seq<int>| #![trigger places.len()] {
            &&& places.len() == nonempty_trimmed(lines).len()
            &&& forall|j: int| #![trigger places[j]] 0 <= j < places.len() ==> {
                &&& 0 <= places[j] < lines.len()
                &&& nonempty_trimmed(lines)[j] == trimmed(lines[places[j]])
            }
            &&& forall|j: int, k: int| #![trigger places[j], places[k]] 0 <= j < k < places.len() ==> places[j] < places[k]
            &&& forall|i: int| #![trigger lines[i]] 0 <= i < lines.len() && trimmed(lines[i]).len() > 0
                ==> exists|j: int| 0 <= j < places.len() && places[j] == i
        },
    decreases lines.len(),
{
    let kept = nonempty_trimmed(lines);
    if lines.len() == 0 {
        let places = Seq::<int>::empty();
        assert(places.len() == kept.len());
    } else {
        let init = lines.drop_last();
        let n = lines.len() - 1;
        lemma_nonempty_trimmed_keeps_every_line(init);
        let rest = nonempty_trimmed(init);
        let p0 = choose|places: Seq<int>| #![trigger places.len()] {
            &&& places.len() == rest.len()
            &&& forall|j: int| #![trigger places[j]] 0 <= j < places.len() ==> {
                &&& 0 <= places[j] < init.len()
                &&& rest[j] == trimmed(init[places[j]])
            }
            &&& forall|j: int, k: int| #![trigger places[j], places[k]] 0 <= j < k < places.len() ==> places[j] < places[k]
            &&& forall|i: int| #![trigger init[i]] 0 <= i < init.len() && trimmed(init[i]).len() > 0
                ==> exists|j: int| 0 <= j < places.len() && places[j] == i
        };
        let line = trimmed(lines.last());
        let places = if line.len() > 0 { p0.push(n) } else { p0 };
        assert forall|j: int| #![trigger places[j]] 0 <= j < places.len() implies {
            &&& 0 <= places[j] < lines.len()
            &&& kept[j] == trimmed(lines[places[j]])
        } by {
            if j < p0.len() {
                assert(places[j] == p0[j]);
                assert(init[p0[j]] == lines[p0[j]]);
                assert(kept[j] == rest[j]);
            }
        }
        assert forall|j: int, k: int| #![trigger places[j], places[k]] 0 <= j < k < places.len() implies places[j] < places[k] by {
            if k < p0.len() {
                assert(places[j] == p0[j] && places[k] == p0[k]);
            } else {
                assert(places[j] == p0[j]);
            }
        }
        assert forall|i: int| #![trigger lines[i]] 0 <= i < lines.len() && trimmed(lines[i]).len() > 0
            implies exists|j: int| 0 <= j < places.len() && places[j] == i by {
            if i < n {
                assert(init[i] == lines[i]);
                let j = choose|j: int| 0 <= j < p0.len() && p0[j] == i;
                assert(places[j] == i);
            } else {
                assert(places[places.len() - 1] == i);
            }
        }
        assert forall|j: int| 0 <= j < kept.len() implies #[trigger] kept[j].len() > 0 by {
            if j < rest.len() {
                assert(kept[j] == rest[j]);
            }
        }
    }
}

/// The lines to process from the lines of a chunk: each trimmed, the empty
/// ones left out.
pub fn nonempty_trimmed_lines(lines: &Vec<&str>) -> (kept: Vec<String>)
    ensures
        kept@.map_values(|line: String| line@) == nonempty_trimmed(lines@.map_values(|line: &str| line@)),
{
    let ghost all = lines@.map_values(|line: &str| line@);
    let mut kept: Vec<String> = Vec::new();
    let n = lines.len();
    let mut i: usize = 0;
    while i < n
        invariant
            n == lines@.len(),
            i <= n,
            all == lines@.map_values(|line: &str| line@),
            kept@.map_values(|line: String| line@) == nonempty_trimmed(all.take(i as int)),
        decreases n - i,
    {
        let line = trim_text(lines[i]);
        proof {
            assert(all.take(i + 1).drop_last() =~= all.take(i as int));
            assert(all.take(i + 1).last() == lines@[i as int]@);
        }
        if line.unicode_len() > 0 {
            let ghost before = kept@;
            kept.push(line.to_string());
            proof {
                assert(kept@.map_values(|l: String| l@) =~= before.map_values(|l: String| l@).push(line@));
            }
        }
        i = i + 1;
    }
    proof {
        assert(all.take(n as int) =~= all);
    }
    kept
}

/// The lines that a chunk of the stream carries: decoded, split into lines,
/// trimmed, the empty ones left out.
pub fn stream_lines(chunk: &[u8]) -> (lines: Vec<String>)
    ensures
        lines@.map_values(|line: String| line@) == nonempty_trimmed(text_lines(utf8_lossy(chunk@))),
{
    let text = decode_lossy(chunk);
    let all = split_lines(text.as_str());
    nonempty_trimmed_lines(&all)
}

/// The place of the last line feed in `bytes`, or -1 where there is none.
pub open spec fn last_line_feed(bytes: Seq<u8>) -> int
    decreases bytes.len(),
{
    if bytes.len() == 0 {
        -1
    } else if bytes.last() == 10u8 {
        bytes.len() - 1
    } else {
        last_line_feed(bytes.drop_last())
    }
}

/// One chunk of the stream, arriving while `pending` holds the bytes of an
/// unfinished line: the bytes up to the last line feed are complete and give
/// their lines; the bytes after it wait for the next chunk.
pub open spec fn frame_step(pending: Seq<u8>, chunk: Seq<u8>) -> (Seq<u8>, Seq<Seq<char>>) {
    let all = pending + chunk;
    let k = last_line_feed(all);
    if k < 0 {
        (all, Seq::empty())
    } else {
        (all.skip(k + 1), nonempty_trimmed(text_lines(utf8_lossy(all.take(k + 1)))))
    }
}

/// The lines that the bytes of an unfinished line give when the stream ends.
pub open spec fn frame_rest(pending: Seq<u8>) -> Seq<Seq<char>> {
    if pending.len() == 0 {
        Seq::empty()
    } else {
        nonempty_trimmed(text_lines(utf8_lossy(pending)))
    }
}

/// `last_line_feed` finds a line feed, the last one.
pub proof fn lemma_last_line_feed(bytes: Seq<u8>)
    ensures
        -1 <= last_line_feed(bytes) < bytes.len(),
        last_line_feed(bytes) >= 0 ==> bytes[last_line_feed(bytes)] == 10u8,
        forall|i: int| last_line_feed(bytes) < i < bytes.len() ==> bytes[i] != 10u8,
    decreases bytes.len(),
{
    if bytes.len() > 0 && bytes.last() != 10u8 {
        lemma_last_line_feed(bytes.drop_last());
        assert forall|i: int| last_line_feed(bytes) < i < bytes.len() implies bytes[i] != 10u8 by {
            if i < bytes.len() - 1 {
                assert(bytes[i] == bytes.drop_last()[i]);
            }
        }
    }
}

/// The bytes of an unfinished line hold no line feed.
pub proof fn lemma_pending_has_no_line_feed(pending: Seq<u8>, chunk: Seq<u8>)
    ensures
        last_line_feed(frame_step(pending, chunk).0) == -1,
{
    let all = pending + chunk;
    let rest = frame_step(pending, chunk).0;
    lemma_last_line_feed(all);
    lemma_last_line_feed(rest);
    if last_line_feed(rest) >= 0 {
        let k = last_line_feed(all);
        if k >= 0 {
            assert(rest[last_line_feed(rest)] == all[k + 1 + last_line_feed(rest)]);
        }
    }
}

/// A line split across chunks is put together again: where the first chunk ends
/// the line unfinished, it gives no lines, and the next chunk gives exactly what
/// the two chunks would have given as one, leaving the same bytes pending.
pub proof fn lemma_split_line_reassembled(pending: Seq<u8>, first: Seq<u8>, second: Seq<u8>)
    requires
        last_line_feed(pending + first) < 0,
    ensures
        frame_step(pending, first) == (pending + first, Seq::<Seq<char>>::empty()),
        frame_step(pending + first, second) == frame_step(pending, first + second),
{
    assert((pending + first) + second =~= pending + (first + second));
}

/// `src[from..to]` as a vector of its own.
fn copy_range(src: &Vec<u8>, from: usize, to: usize) -> (part: Vec<u8>)
    requires
        from <= to <= src@.len(),
    ensures
        part@ == src@.subrange(from as int, to as int),
{
    let mut part: Vec<u8> = Vec::new();
    let mut i: usize = from;
    while i < to
        invariant
            from <= i <= to,
            to <= src@.len(),
            part@ == src@.subrange(from as int, i as int),
        decreases to - i,
    {
        part.push(src[i]);
        proof {
            assert(src@.subrange(from as int, i + 1) =~= src@.subrange(from as int, i as int).push(src@[i as int]));
        }
        i = i + 1;
    }
    part
}

/// Turns the chunks of the stream into lines, holding back the bytes of a line
/// that a chunk leaves unfinished until the chunk that finishes it.
pub struct LineFramer {
    pending: Vec<u8>,
}

impl View for LineFramer {
    type V = Seq<u8>;

    closed spec fn view(&self) -> Seq<u8> {
        self.pending@
    }
}

impl LineFramer {
    /// A framer with nothing pending.
    pub fn new() -> (framer: Self)
        ensures
            framer@ == Seq::<u8>::empty(),
    {
        LineFramer { pending: Vec::new() }
    }

    /// The lines that `chunk` completes, each trimmed, the empty ones left out;
    /// what follows its last line feed waits for the next chunk.
    pub fn push_chunk(&mut self, chunk: &[u8]) -> (lines: Vec<String>)
        ensures
            (final(self)@, lines@.map_values(|line: String| line@)) == frame_step(old(self)@, chunk@),
    {
        let mut all: Vec<u8> = Vec::new();
        std::mem::swap(&mut all, &mut self.pending);
        let n = chunk.len();
        let mut i: usize = 0;
        while i < n
            invariant
                n == chunk@.len(),
                i <= n,
                all@ == old(self)@ + chunk@.take(i as int),
            decreases n - i,
        {
            all.push(chunk[i]);
            proof {
                assert(chunk@.take(i + 1) =~= chunk@.take(i as int).push(chunk@[i as int]));
                assert(old(self)@ + chunk@.take(i + 1) =~= (old(self)@ + chunk@.take(i as int)).push(chunk@[i as int]));
            }
            i = i + 1;
        }
        proof {
            assert(chunk@.take(n as int) =~= chunk@);
        }
        let total = all.len();
        let mut end: usize = total;
        assert(all@.take(total as int) =~= all@);
        while end > 0 && all[end - 1] != 10u8
            invariant
                end <= total,
                total == all@.len(),
                last_line_feed(all@) == last_line_feed(all@.take(end as int)),
            decreases end,
        {
            proof {
                assert(all@.take(end as int).drop_last() =~= all@.take(end - 1));
            }
            end = end - 1;
        }
        proof {
            if end > 0 {
                assert(all@.take(end as int).last() == all@[end - 1]);
            } else {
                assert(all@.take(0) =~= Seq::<u8>::empty());
            }
        }
        if end == 0 {
            self.pending = all;
            return Vec::new();
        }
        let complete = copy_range(&all, 0, end);
        let rest = copy_range(&all, end, total);
        proof {
            assert(complete@ =~= all@.take(end as int));
            assert(rest@ =~= all@.skip(end as int));
        }
        let lines = stream_lines(complete.as_slice());
        self.pending = rest;
        lines
    }

    /// The stream has ended: the lines of what was pending, which is dropped.
    pub fn finish(&mut self) -> (lines: Vec<String>)
        ensures
            final(self)@ == Seq::<u8>::empty(),
            lines@.map_values(|line: String| line@) == frame_rest(old(self)@),
    {
        let mut rest: Vec<u8> = Vec::new();
        std::mem::swap(&mut rest, &mut self.pending);
        if rest.len() == 0 {
            let lines: Vec<String> = Vec::new();
            assert(lines@.map_values(|line: String| line@) =~= Seq::<Seq<char>>::empty());
            return lines;
        }
        stream_lines(rest.as_slice())
    }
}

/// What a stream line that does not parse as a message is.
#[derive(Clone, Debug)]
pub enum UnparsedLine {
    /// An empty JSON object: a keep-alive.
    KeepAlive,
    /// A server-sent event with no data.
    EmptyEvent,
    /// A server-sent event: its data is to be parsed in turn.
    EventData(String),
    /// Anything else: a line that cannot be read.
    Malformed,
}

/// The prefix of a server-sent event's data line.
pub open spec fn event_prefix() -> Seq<char> {
    seq!['d', 'a', 't', 'a', ':', ' ']
}

/// `line` begins with the data prefix of a server-sent event.
pub open spec fn is_event_line(line: Seq<char>) -> bool {
    line.len() >= 6 && line.subrange(0, 6) == event_prefix()
}

/// The empty JSON object.
pub open spec fn empty_object() -> Seq<char> {
    seq!['{', '}']
}

/// The keep-alive object is the text `{}` and the event prefix the text `data: `.
pub proof fn lemma_line_markers()
    ensures
        empty_object() == "{}"@,
        event_prefix() == "data: "@,
{
    reveal_strlit("{}");
    reveal_strlit("data: ");
    assert(empty_object() =~= "{}"@);
    assert(event_prefix() =~= "data: "@);
}

/// Classifies a line that did not parse as a stream message: an empty object is
/// a keep-alive; a line that starts with `data: ` is a server-sent event whose
/// data (the rest of the line) is parsed in turn unless it is empty; anything
/// else is malformed.
pub fn classify_unparsed_line(line: &str) -> (kind: UnparsedLine)
    ensures
        line@ == empty_object() ==> kind is KeepAlive,
        line@ != empty_object() && is_event_line(line@) && line@.len() == 6 ==> kind is EmptyEvent,
        line@ != empty_object() && is_event_line(line@) && line@.len() > 6 ==> (kind matches UnparsedLine::EventData(data)
            && data@ == line@.subrange(6, line@.len() as int)),
        line@ != empty_object() && !is_event_line(line@) ==> kind is Malformed,
{
    proof {
        reveal_strlit("{}");
        reveal_strlit("data: ");
    }
    if <str as PartialEq>::eq(line, "{}") {
        assert(line@ =~= empty_object());
        return UnparsedLine::KeepAlive;
    }
    assert(line@ != empty_object()) by {
        if line@ == empty_object() {
            assert(line@ =~= "{}"@);
        }
    }
    let n = line.unicode_len();
    if n < 6 {
        return UnparsedLine::Malformed;
    }
    let head = line.substring_char(0, 6);
    if !<str as PartialEq>::eq(head, "data: ") {
        assert(!is_event_line(line@)) by {
            if is_event_line(line@) {
                assert(head@ =~= "data: "@);
            }
        }
        return UnparsedLine::Malformed;
    }
    assert(is_event_line(line@)) by {
        assert(line@.subrange(0, 6) =~= event_prefix());
    }
    if n == 6 {
        UnparsedLine::EmptyEvent
    } else {
        let data = line.substring_char(6, n);
        UnparsedLine::EventData(data.to_string())
    }
}

} // verus!
