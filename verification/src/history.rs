//! The bounded history of received text lines and the line filter.
//!
//! Received serial data is cut into lines at each line feed; a single
//! trailing carriage return is stripped from every line. A line is stored
//! only if it is not blank (made of whitespace alone) and its first
//! non-whitespace byte is not the echo marker `>` with which the device
//! repeats each command it was sent. The history keeps at most
//! [`HISTORY_CAP`] lines; when a new line would exceed the capacity, the
//! oldest line is evicted first.

use vstd::prelude::*;

verus! {

/// Greatest number of lines the history may hold.
pub const HISTORY_CAP: usize = 100;

/// The byte with which the device prefixes echoed commands.
pub const ECHO_MARKER: u8 = 62;

/// Whitespace bytes, as trimming understands them: space, horizontal tab,
/// line feed, vertical tab, form feed, carriage return.
pub open spec fn is_space_byte(b: u8) -> bool {
    b == 32 || b == 9 || b == 10 || b == 11 || b == 12 || b == 13
}

/// A line is blank when every byte of it is whitespace.
pub open spec fn is_blank(l: Seq<u8>) -> bool {
    forall|i: int| 0 <= i < l.len() ==> is_space_byte(#[trigger] l[i])
}

/// A line is an echo when its first non-whitespace byte is the echo marker.
pub open spec fn is_echo(l: Seq<u8>) -> bool
    decreases l.len(),
{
    if l.len() == 0 {
        false
    } else if is_space_byte(l[0]) {
        is_echo(l.drop_first())
    } else {
        l[0] == ECHO_MARKER
    }
}

/// A line is kept in the history when it is neither blank nor an echo.
pub open spec fn line_kept(l: Seq<u8>) -> bool {
    !is_blank(l) && !is_echo(l)
}

/// Decides [`line_kept`] for a byte line.
pub fn check_line_kept(l: &[u8]) -> (r: bool)
    ensures
        r == line_kept(l@),
{
    let mut i: usize = 0;
    proof {
        assert(l@.skip(0) =~= l@);
    }
    while i < l.len()
        invariant
            0 <= i <= l@.len(),
            forall|j: int| 0 <= j < i ==> is_space_byte(#[trigger] l@[j]),
            is_echo(l@) == is_echo(l@.skip(i as int)),
        decreases l@.len() - i,
    {
        if !is_space_byte_exec(l[i]) {
            proof {
                assert(!is_blank(l@));
                assert(l@.skip(i as int)[0] == l@[i as int]);
                assert(is_echo(l@.skip(i as int)) == (l@[i as int] == ECHO_MARKER));
            }
            return l[i] != ECHO_MARKER;
        }
        proof {
            assert(l@.skip(i as int).drop_first() =~= l@.skip(i + 1));
            assert(is_echo(l@.skip(i as int)) == is_echo(l@.skip(i + 1)));
        }
        i = i + 1;
    }
    proof {
        assert(is_blank(l@));
    }
    false
}

/// Decides [`is_space_byte`] for one byte.
pub fn is_space_byte_exec(b: u8) -> (r: bool)
    ensures
        r == is_space_byte(b),
{
    b == 32 || b == 9 || b == 10 || b == 11 || b == 12 || b == 13
}

/// Decides [`is_blank`] for a byte line.
pub fn check_blank(l: &[u8]) -> (r: bool)
    ensures
        r == is_blank(l@),
{
    let mut i: usize = 0;
    while i < l.len()
        invariant
            0 <= i <= l@.len(),
            forall|j: int| 0 <= j < i ==> is_space_byte(#[trigger] l@[j]),
        decreases l@.len() - i,
    {
        if !is_space_byte_exec(l[i]) {
            return false;
        }
        i = i + 1;
    }
    true
}

/// A line with a single trailing carriage return stripped.
pub open spec fn strip_cr(l: Seq<u8>) -> Seq<u8> {
    if l.len() > 0 && l[l.len() - 1] == 13 {
        l.drop_last()
    } else {
        l
    }
}

/// The history after one line arrives: a kept line is appended, and when the
/// capacity is exceeded the oldest entry is evicted; a blank or echoed line
/// leaves the history unchanged.
pub open spec fn push_line(h: Seq<Seq<u8>>, l: Seq<u8>) -> Seq<Seq<u8>> {
    if line_kept(l) {
        let h2 = h.push(l);
        if h2.len() > HISTORY_CAP {
            h2.drop_first()
        } else {
            h2
        }
    } else {
        h
    }
}

/// The history after the bytes `data` arrive while the line `cur` is still
/// open: each line feed closes the current line, and whatever is open at the
/// end is closed as well.
pub open spec fn ingest_from(h: Seq<Seq<u8>>, cur: Seq<u8>, data: Seq<u8>) -> Seq<Seq<u8>>
    decreases data.len(),
{
    if data.len() == 0 {
        push_line(h, strip_cr(cur))
    } else if data[0] == 10 {
        ingest_from(push_line(h, strip_cr(cur)), Seq::empty(), data.drop_first())
    } else {
        ingest_from(h, cur.push(data[0]), data.drop_first())
    }
}

/// The history after one chunk of received bytes is cut into lines, filtered
/// and appended.
pub open spec fn ingest_chunk(h: Seq<Seq<u8>>, data: Seq<u8>) -> Seq<Seq<u8>> {
    ingest_from(h, Seq::empty(), data)
}

/// The history after a whole sequence of received chunks is ingested in
/// order.
pub open spec fn ingest_all(h: Seq<Seq<u8>>, chunks: Seq<Seq<u8>>) -> Seq<Seq<u8>>
    decreases chunks.len(),
{
    if chunks.len() == 0 {
        h
    } else {
        ingest_all(ingest_chunk(h, chunks[0]), chunks.drop_first())
    }
}

/// The concatenation of the chunks that are not blank, in order.
pub open spec fn concat_present(chunks: Seq<Seq<u8>>) -> Seq<u8>
    decreases chunks.len(),
{
    if chunks.len() == 0 {
        Seq::empty()
    } else if is_blank(chunks[0]) {
        concat_present(chunks.drop_first())
    } else {
        chunks[0] + concat_present(chunks.drop_first())
    }
}

/// The lines a vector of byte lines holds, as a sequence of byte sequences.
pub open spec fn lines_view(h: Seq<Vec<u8>>) -> Seq<Seq<u8>> {
    h.map_values(|v: Vec<u8>| v@)
}

/// Appends one received line to a history vector, exactly as [`push_line`]
/// describes.
pub fn push_line_exec(h: &mut Vec<Vec<u8>>, line: Vec<u8>)
    ensures
        lines_view(final(h)@) == push_line(lines_view(old(h)@), line@),
{
    let keep = check_line_kept(line.as_slice());
    if keep {
        let ghost pushed = old(h)@.push(line);
        h.push(line);
        proof {
            assert(lines_view(pushed) =~= lines_view(old(h)@).push(line@));
        }
        if h.len() > HISTORY_CAP {
            h.remove(0);
            proof {
                assert(pushed.remove(0) =~= pushed.drop_first());
                assert(lines_view(pushed.drop_first()) =~= lines_view(pushed).drop_first());
            }
        }
    }
}

/// Closes one line: strips a single trailing carriage return, then appends
/// the line to the history as [`push_line`] describes.
pub fn end_line_exec(h: &mut Vec<Vec<u8>>, line: Vec<u8>)
    ensures
        lines_view(final(h)@) == push_line(lines_view(old(h)@), strip_cr(line@)),
{
    let mut line = line;
    if line.len() > 0 && line[line.len() - 1] == 13 {
        line.pop();
    }
    push_line_exec(h, line);
}

/// Cuts one chunk of received bytes into lines and appends the kept ones to
/// the history, exactly as [`ingest_chunk`] describes.
pub fn ingest_chunk_exec(h: &mut Vec<Vec<u8>>, data: &[u8])
    ensures
        lines_view(final(h)@) == ingest_chunk(lines_view(old(h)@), data@),
{
    let ghost target = ingest_chunk(lines_view(old(h)@), data@);
    let mut cur: Vec<u8> = Vec::new();
    let mut i: usize = 0;
    proof {
        assert(data@.skip(0) =~= data@);
    }
    while i < data.len()
        invariant
            0 <= i <= data@.len(),
            ingest_from(lines_view(h@), cur@, data@.skip(i as int)) == target,
        decreases data@.len() - i,
    {
        let b = data[i];
        proof {
            assert(data@.skip(i as int)[0] == data@[i as int]);
            assert(data@.skip(i as int).drop_first() =~= data@.skip(i + 1));
        }
        if b == 10 {
            end_line_exec(h, cur);
            cur = Vec::new();
        } else {
            cur.push(b);
        }
        i = i + 1;
    }
    proof {
        assert(data@.skip(i as int) =~= Seq::<u8>::empty());
    }
    end_line_exec(h, cur);
}

/// A copy of one byte line.
pub fn copy_line(v: &Vec<u8>) -> (r: Vec<u8>)
    ensures
        r@ == v@,
{
    let mut r: Vec<u8> = Vec::new();
    let mut i: usize = 0;
    while i < v.len()
        invariant
            0 <= i <= v@.len(),
            r@ == v@.take(i as int),
        decreases v@.len() - i,
    {
        r.push(v[i]);
        proof {
            assert(v@.take(i as int).push(v@[i as int]) =~= v@.take(i + 1));
        }
        i = i + 1;
    }
    proof {
        assert(v@.take(i as int) =~= v@);
    }
    r
}

/// Every entry of a history satisfies the line filter.
pub open spec fn all_kept(h: Seq<Seq<u8>>) -> bool {
    forall|i: int| 0 <= i < h.len() ==> line_kept(#[trigger] h[i])
}

/// The history never exceeds its capacity: ingesting a chunk into a history
/// of at most [`HISTORY_CAP`] lines leaves at most [`HISTORY_CAP`] lines.
pub proof fn lemma_history_capacity(h: Seq<Seq<u8>>, data: Seq<u8>)
    requires
        h.len() <= HISTORY_CAP,
    ensures
        ingest_chunk(h, data).len() <= HISTORY_CAP,
{
    lemma_ingest_from_bounded(h, Seq::empty(), data);
}

proof fn lemma_ingest_from_bounded(h: Seq<Seq<u8>>, cur: Seq<u8>, data: Seq<u8>)
    requires
        h.len() <= HISTORY_CAP,
    ensures
        ingest_from(h, cur, data).len() <= HISTORY_CAP,
    decreases data.len(),
{
    if data.len() == 0 {
    } else if data[0] == 10 {
        lemma_ingest_from_bounded(push_line(h, strip_cr(cur)), Seq::empty(), data.drop_first());
    } else {
        lemma_ingest_from_bounded(h, cur.push(data[0]), data.drop_first());
    }
}

/// A whole sequence of chunks keeps the history within its capacity too.
pub proof fn lemma_history_capacity_all(h: Seq<Seq<u8>>, chunks: Seq<Seq<u8>>)
    requires
        h.len() <= HISTORY_CAP,
    ensures
        ingest_all(h, chunks).len() <= HISTORY_CAP,
    decreases chunks.len(),
{
    if chunks.len() > 0 {
        lemma_history_capacity(h, chunks[0]);
        lemma_history_capacity_all(ingest_chunk(h, chunks[0]), chunks.drop_first());
    }
}

/// The oldest entry is evicted first: a kept line arriving at a full history
/// drops exactly the first entry and appends the new line at the end.
pub proof fn lemma_fifo_eviction(h: Seq<Seq<u8>>, l: Seq<u8>)
    requires
        h.len() == HISTORY_CAP,
        line_kept(l),
    ensures
        push_line(h, l) == h.drop_first().push(l),
{
    assert(h.push(l).drop_first() =~= h.drop_first().push(l));
}

/// A kept line arriving at a history below capacity is appended at the end
/// with nothing evicted.
pub proof fn lemma_no_eviction_below_capacity(h: Seq<Seq<u8>>, l: Seq<u8>)
    requires
        h.len() < HISTORY_CAP,
        line_kept(l),
    ensures
        push_line(h, l) == h.push(l),
{
}

/// The lines a chunk closes while the line `cur` is still open, in arrival
/// order and with carriage returns stripped, before any filtering.
pub open spec fn chunk_lines(cur: Seq<u8>, data: Seq<u8>) -> Seq<Seq<u8>>
    decreases data.len(),
{
    if data.len() == 0 {
        seq![strip_cr(cur)]
    } else if data[0] == 10 {
        seq![strip_cr(cur)] + chunk_lines(Seq::empty(), data.drop_first())
    } else {
        chunk_lines(cur.push(data[0]), data.drop_first())
    }
}

/// The lines among `lines` that pass the line filter, in order.
pub open spec fn kept_of(lines: Seq<Seq<u8>>) -> Seq<Seq<u8>>
    decreases lines.len(),
{
    if lines.len() == 0 {
        Seq::empty()
    } else if line_kept(lines[0]) {
        seq![lines[0]] + kept_of(lines.drop_first())
    } else {
        kept_of(lines.drop_first())
    }
}

/// The last [`HISTORY_CAP`] elements of a sequence, or all of it when it is
/// no longer than that.
pub open spec fn window(s: Seq<Seq<u8>>) -> Seq<Seq<u8>> {
    if s.len() > HISTORY_CAP {
        s.skip(s.len() - HISTORY_CAP)
    } else {
        s
    }
}

proof fn lemma_window_absorb(a: Seq<Seq<u8>>, b: Seq<Seq<u8>>)
    ensures
        window(window(a) + b) == window(a + b),
{
    if a.len() <= HISTORY_CAP {
        assert(window(a) + b =~= a + b);
    } else {
        assert(window(window(a) + b) =~= window(a + b));
    }
}

proof fn lemma_kept_of_single(l: Seq<u8>)
    ensures
        line_kept(l) ==> kept_of(seq![l]) == seq![l],
        !line_kept(l) ==> kept_of(seq![l]) == Seq::<Seq<u8>>::empty(),
{
    let s = seq![l];
    assert(s[0] == l);
    assert(s.drop_first() =~= Seq::<Seq<u8>>::empty());
    assert(kept_of(Seq::<Seq<u8>>::empty()) == Seq::<Seq<u8>>::empty());
    if line_kept(l) {
        assert(kept_of(s) == seq![s[0]] + kept_of(s.drop_first()));
        assert(seq![l] + Seq::<Seq<u8>>::empty() =~= seq![l]);
    }
}

proof fn lemma_push_line_window(h: Seq<Seq<u8>>, l: Seq<u8>)
    requires
        h.len() <= HISTORY_CAP,
    ensures
        push_line(h, l) == window(h + kept_of(seq![l])),
{
    lemma_kept_of_single(l);
    if line_kept(l) {
        assert(h + seq![l] =~= h.push(l));
        if h.len() == HISTORY_CAP {
            assert(push_line(h, l) =~= window(h.push(l)));
        }
    } else {
        assert(h + kept_of(seq![l]) =~= h);
    }
}

proof fn lemma_ingest_from_window(h: Seq<Seq<u8>>, cur: Seq<u8>, data: Seq<u8>)
    requires
        h.len() <= HISTORY_CAP,
    ensures
        ingest_from(h, cur, data) == window(h + kept_of(chunk_lines(cur, data))),
    decreases data.len(),
{
    if data.len() == 0 {
        lemma_push_line_window(h, strip_cr(cur));
    } else if data[0] == 10 {
        let l = strip_cr(cur);
        let h2 = push_line(h, l);
        let rest = chunk_lines(Seq::empty(), data.drop_first());
        assert(h2.len() <= HISTORY_CAP) by {
            lemma_push_line_window(h, l);
        }
        lemma_ingest_from_window(h2, Seq::empty(), data.drop_first());
        lemma_push_line_window(h, l);
        lemma_kept_of_single(l);
        assert((seq![l] + rest)[0] == l);
        assert((seq![l] + rest).drop_first() =~= rest);
        if line_kept(l) {
            assert(kept_of(seq![l] + rest) == seq![l] + kept_of(rest));
            lemma_window_absorb(h + seq![l], kept_of(rest));
            assert(h2 + kept_of(rest) =~= window(h + seq![l]) + kept_of(rest)) by {
                assert(h + kept_of(seq![l]) =~= h + seq![l]);
            }
            assert((h + seq![l]) + kept_of(rest) =~= h + (seq![l] + kept_of(rest)));
        } else {
            assert(kept_of(seq![l] + rest) == kept_of(rest));
            assert(h2 + kept_of(rest) =~= h + kept_of(rest)) by {
                assert(h + kept_of(seq![l]) =~= h);
            }
        }
    } else {
        lemma_ingest_from_window(h, cur.push(data[0]), data.drop_first());
    }
}

/// The complete FIFO law of the history: ingesting a chunk yields exactly
/// the last [`HISTORY_CAP`] elements of the old history followed by the
/// chunk's kept lines, in arrival order — entries only ever leave at the old
/// end, and only when the capacity forces them out.
pub proof fn lemma_fifo_history(h: Seq<Seq<u8>>, data: Seq<u8>)
    requires
        h.len() <= HISTORY_CAP,
    ensures
        ingest_chunk(h, data) == window(h + kept_of(chunk_lines(Seq::empty(), data))),
{
    lemma_ingest_from_window(h, Seq::empty(), data);
}

/// Blank lines and echoed lines are never added: if every entry of a history
/// satisfies the line filter, every entry still does after a chunk is
/// ingested.
pub proof fn lemma_entries_kept(h: Seq<Seq<u8>>, data: Seq<u8>)
    requires
        all_kept(h),
    ensures
        all_kept(ingest_chunk(h, data)),
{
    lemma_ingest_from_kept(h, Seq::empty(), data);
}

proof fn lemma_push_line_kept(h: Seq<Seq<u8>>, l: Seq<u8>)
    requires
        all_kept(h),
    ensures
        all_kept(push_line(h, l)),
{
}

proof fn lemma_ingest_from_kept(h: Seq<Seq<u8>>, cur: Seq<u8>, data: Seq<u8>)
    requires
        all_kept(h),
    ensures
        all_kept(ingest_from(h, cur, data)),
    decreases data.len(),
{
    if data.len() == 0 {
        lemma_push_line_kept(h, strip_cr(cur));
    } else if data[0] == 10 {
        lemma_push_line_kept(h, strip_cr(cur));
        lemma_ingest_from_kept(push_line(h, strip_cr(cur)), Seq::empty(), data.drop_first());
    } else {
        lemma_ingest_from_kept(h, cur.push(data[0]), data.drop_first());
    }
}

/// Every entry of a history still satisfies the line filter after a whole
/// sequence of chunks is ingested.
pub proof fn lemma_entries_kept_all(h: Seq<Seq<u8>>, chunks: Seq<Seq<u8>>)
    requires
        all_kept(h),
    ensures
        all_kept(ingest_all(h, chunks)),
    decreases chunks.len(),
{
    if chunks.len() > 0 {
        lemma_entries_kept(h, chunks[0]);
        lemma_entries_kept_all(ingest_chunk(h, chunks[0]), chunks.drop_first());
    }
}

} // verus!
