//! Splitting a formatted diff into chunks of bounded size, at line
//! boundaries.
use vstd::prelude::*;
use crate::diff::HEADING_PREFIX;
use crate::lines::{find_first, first_occurrence, lemma_first_occurrence, lemma_line_end, line_end};
use crate::text::{chars_of, matches_at, push_range, starts_with, string_of_range};

verus! {

/// The lines of `s` from position `i` on, each with the newline that ends it
/// (the last may have none).
pub open spec fn segments_from(s: Seq<char>, i: int) -> Seq<Seq<char>>
    decreases s.len() - i,
{
    if i < 0 || i >= s.len() {
        seq![]
    } else {
        let e = line_end(s, i);
        if e < i || e > s.len() {
            seq![]
        } else if e == s.len() {
            seq![s.subrange(i, e)]
        } else {
            seq![s.subrange(i, e + 1)] + segments_from(s, e + 1)
        }
    }
}

/// Whether `x` holds no newline but possibly as its last character.
pub open spec fn one_line(x: Seq<char>) -> bool {
    forall|i: int| 0 <= i < x.len() - 1 ==> x[i] != '\n'
}

/// The path named by a file heading of a formatted diff.
pub open spec fn heading_path(l: Seq<char>) -> Option<Seq<char>> {
    let k = first_occurrence(l, seq!['`'], HEADING_PREFIX@.len() as int);
    if starts_with(l, HEADING_PREFIX@) && k > HEADING_PREFIX@.len() {
        Some(l.subrange(HEADING_PREFIX@.len() as int, k))
    } else {
        None
    }
}

/// A chunk as a value: its text, the files whose headings it holds (in order,
/// each once) and its size in characters.
pub struct ChunkView {
    pub content: Seq<char>,
    pub files: Seq<Seq<char>>,
    pub size: nat,
}

/// A contiguous piece of a formatted diff.
pub struct Chunk {
    pub content: String,
    pub files: Vec<String>,
    pub size: usize,
}

pub open spec fn strings_view(v: Seq<String>) -> Seq<Seq<char>> {
    v.map_values(|f: String| f@)
}

impl View for Chunk {
    type V = ChunkView;

    open spec fn view(&self) -> ChunkView {
        ChunkView { content: self.content@, files: strings_view(self.files@), size: self.size as nat }
    }
}

pub open spec fn chunks_view(v: Seq<Chunk>) -> Seq<ChunkView> {
    v.map_values(|c: Chunk| c@)
}

/// The splitter's state: the chunks done, and the text and files of the one
/// being filled.
pub struct SplitState {
    pub done: Seq<ChunkView>,
    pub buf: Seq<char>,
    pub files: Seq<Seq<char>>,
}

pub open spec fn flush(st: SplitState) -> SplitState {
    if st.buf.len() > 0 {
        SplitState {
            done: st.done.push(ChunkView { content: st.buf, files: st.files, size: st.buf.len() }),
            buf: seq![],
            files: seq![],
        }
    } else {
        st
    }
}

/// One line's effect: the chunk being filled is closed first if the line
/// would take it past `bound` and it holds something.
pub open spec fn split_step(st: SplitState, seg: Seq<char>, bound: nat) -> SplitState {
    let st1 = if st.buf.len() + seg.len() > bound { flush(st) } else { st };
    let files = match heading_path(seg) {
        Some(p) => if st1.files.contains(p) { st1.files } else { st1.files.push(p) },
        None => st1.files,
    };
    SplitState { done: st1.done, buf: st1.buf + seg, files }
}

pub open spec fn split_run(st: SplitState, segs: Seq<Seq<char>>, bound: nat) -> SplitState
    decreases segs.len(),
{
    if segs.len() == 0 {
        st
    } else {
        split_run(split_step(st, segs[0], bound), segs.drop_first(), bound)
    }
}

/// The chunks of `s` under `bound`.
pub open spec fn chunks_of(s: Seq<char>, bound: nat) -> Seq<ChunkView> {
    flush(split_run(SplitState { done: seq![], buf: seq![], files: seq![] }, segments_from(s, 0), bound)).done
}

fn heading_path_of(l: &Vec<char>) -> (r: Option<String>)
    ensures
        match r {
            Some(p) => heading_path(l@) == Some(p@),
            None => heading_path(l@) is None,
        },
{
    let prefix = chars_of(HEADING_PREFIX);
    if !matches_at(l, &prefix, 0) {
        return None;
    }
    let tick = vec!['`'];
    assert(tick@ =~= seq!['`']);
    match find_first(l, &tick, prefix.len()) {
        Some(k) => {
            if k > prefix.len() {
                proof {
                    lemma_first_occurrence(l@, tick@, prefix@.len() as int);
                }
                Some(string_of_range(l, prefix.len(), k))
            } else {
                None
            }
        },
        None => None,
    }
}

fn contains_string(fs: &Vec<String>, p: &String) -> (r: bool)
    ensures
        r == strings_view(fs@).contains(p@),
{
    let mut j: usize = 0;
    while j < fs.len()
        invariant
            j <= fs@.len(),
            forall|k: int| 0 <= k < j ==> fs@[k]@ != p@,
        decreases fs@.len() - j,
    {
        if fs[j] == *p {
            assert(strings_view(fs@)[j as int] == p@);
            return true;
        }
        j = j + 1;
    }
    assert forall|k: int| 0 <= k < strings_view(fs@).len() implies strings_view(fs@)[k] != p@ by {
        assert(fs@[k]@ != p@);
    }
    false
}

/// Splits a formatted diff into chunks of at most `max_size` characters,
/// never inside a line.
pub fn split_diff_into_chunks(diff: &str, max_size: usize) -> (r: Vec<Chunk>)
    ensures
        chunks_view(r@) == chunks_of(diff@, max_size as nat),
{
    let v = chars_of(diff);
    let mut chunks: Vec<Chunk> = Vec::new();
    let mut buf = String::new();
    let mut files: Vec<String> = Vec::new();
    let mut size: usize = 0;
    let mut i: usize = 0;
    assert(chunks_view(chunks@) =~= seq![]);
    assert(strings_view(files@) =~= seq![]);
    while i < v.len()
        invariant
            v@ == diff@,
            i <= v@.len(),
            size == buf@.len(),
            size <= i,
            split_run(
                SplitState { done: chunks_view(chunks@), buf: buf@, files: strings_view(files@) },
                segments_from(v@, i as int),
                max_size as nat,
            ) == chunks_of_run(v@, max_size as nat),
        decreases v@.len() - i,
    {
        let e = crate::lines::find_line_end(&v, i);
        let next = if e < v.len() {
            e + 1
        } else {
            e
        };
        let ghost seg = v@.subrange(i as int, next as int);
        let ghost st = SplitState { done: chunks_view(chunks@), buf: buf@, files: strings_view(files@) };
        let ghost rest = segments_from(v@, next as int);
        proof {
            if e == v.len() {
                assert(rest =~= seq![]);
            }
            assert(segments_from(v@, i as int) =~= seq![seg] + rest);
            assert((seq![seg] + rest)[0] == seg);
            assert((seq![seg] + rest).drop_first() =~= rest);
        }
        let line_size = next - i;
        if size + line_size > max_size && size > 0 {
            let c = Chunk { content: buf, files, size };
            chunks.push(c);
            buf = String::new();
            files = Vec::new();
            size = 0;
            proof {
                assert(chunks_view(chunks@) =~= st.done.push(
                    ChunkView { content: st.buf, files: st.files, size: st.buf.len() },
                ));
                assert(strings_view(files@) =~= seq![]);
            }
        }
        let line = crate::text::slice_chars(&v, i, next);
        assert(line@ == seg);
        match heading_path_of(&line) {
            Some(p) => {
                if !contains_string(&files, &p) {
                    let ghost old_files = files@;
                    files.push(p);
                    assert(strings_view(files@) =~= strings_view(old_files).push(p@));
                }
            },
            None => {},
        }
        push_range(&mut buf, &v, i, next);
        size = size + line_size;
        assert(SplitState { done: chunks_view(chunks@), buf: buf@, files: strings_view(files@) }
            == split_step(st, seg, max_size as nat));
        i = next;
    }
    assert(segments_from(v@, i as int) =~= seq![]);
    if size > 0 {
        let ghost old_chunks = chunks_view(chunks@);
        chunks.push(Chunk { content: buf, files, size });
        assert(chunks_view(chunks@) =~= old_chunks.push(
            ChunkView { content: buf@, files: strings_view(files@), size: size as nat },
        ));
    }
    chunks
}

pub open spec fn chunks_of_run(s: Seq<char>, bound: nat) -> SplitState {
    split_run(SplitState { done: seq![], buf: seq![], files: seq![] }, segments_from(s, 0), bound)
}

/// The contents of `cs`, one after the other.
pub open spec fn joined(cs: Seq<ChunkView>) -> Seq<char>
    decreases cs.len(),
{
    if cs.len() == 0 {
        seq![]
    } else {
        joined(cs.drop_last()) + cs.last().content
    }
}

pub open spec fn concat_segments(ss: Seq<Seq<char>>) -> Seq<char>
    decreases ss.len(),
{
    if ss.len() == 0 {
        seq![]
    } else {
        ss[0] + concat_segments(ss.drop_first())
    }
}

/// Whether every piece of `ss` is a non-empty single line.
pub open spec fn single_lines(ss: Seq<Seq<char>>) -> bool {
    forall|k: int| 0 <= k < ss.len() ==> one_line(#[trigger] ss[k]) && ss[k].len() > 0
}

/// Whether a chunk keeps to `bound`: its size is its length, and it exceeds
/// the bound only when it is one line.
pub open spec fn chunk_within(c: ChunkView, bound: nat) -> bool {
    &&& c.size == c.content.len()
    &&& c.content.len() > 0
    &&& (c.size <= bound || (one_line(c.content) && c.size > bound))
}

pub open spec fn all_within(cs: Seq<ChunkView>, bound: nat) -> bool {
    forall|k: int| 0 <= k < cs.len() ==> chunk_within(#[trigger] cs[k], bound)
}

proof fn lemma_segments(s: Seq<char>, i: int)
    requires
        0 <= i <= s.len(),
    ensures
        concat_segments(segments_from(s, i)) == s.subrange(i, s.len() as int),
        single_lines(segments_from(s, i)),
    decreases s.len() - i,
{
    if i < s.len() {
        lemma_line_end(s, i);
        let e = line_end(s, i);
        let ss = segments_from(s, i);
        if e == s.len() {
            let seg = s.subrange(i, e);
            assert(ss.drop_first() =~= seq![]);
            assert(concat_segments(ss) =~= seg + concat_segments(ss.drop_first()));
            assert(concat_segments(ss) =~= s.subrange(i, s.len() as int));
            assert(one_line(ss[0]));
        } else {
            lemma_segments(s, e + 1);
            let seg = s.subrange(i, e + 1);
            assert(ss.drop_first() =~= segments_from(s, e + 1));
            assert(concat_segments(ss) =~= s.subrange(i, s.len() as int));
            assert(one_line(ss[0]));
            assert forall|k: int| 0 <= k < ss.len() implies one_line(#[trigger] ss[k]) && ss[k].len() > 0 by {
                if k > 0 {
                    assert(ss[k] == segments_from(s, e + 1)[k - 1]);
                }
            }
        }
    } else {
        assert(concat_segments(segments_from(s, i)) =~= s.subrange(i, s.len() as int));
    }
}

proof fn lemma_joined_push(cs: Seq<ChunkView>, c: ChunkView)
    ensures
        joined(cs.push(c)) == joined(cs) + c.content,
{
    assert(cs.push(c).drop_last() =~= cs);
}

proof fn lemma_run_joined(st: SplitState, ss: Seq<Seq<char>>, bound: nat)
    ensures
        joined(split_run(st, ss, bound).done) + split_run(st, ss, bound).buf == joined(st.done)
            + st.buf + concat_segments(ss),
    decreases ss.len(),
{
    if ss.len() == 0 {
        assert(joined(st.done) + st.buf + concat_segments(ss) =~= joined(st.done) + st.buf);
    } else {
        let seg = ss[0];
        let st2 = split_step(st, seg, bound);
        lemma_run_joined(st2, ss.drop_first(), bound);
        lemma_joined_push(st.done, ChunkView { content: st.buf, files: st.files, size: st.buf.len() });
        assert(joined(st2.done) + st2.buf =~= joined(st.done) + st.buf + seg);
        assert(joined(st.done) + st.buf + concat_segments(ss) =~= joined(st.done) + st.buf + seg
            + concat_segments(ss.drop_first()));
    }
}

proof fn lemma_run_within(st: SplitState, ss: Seq<Seq<char>>, bound: nat)
    requires
        all_within(st.done, bound),
        st.buf.len() <= bound || one_line(st.buf),
        single_lines(ss),
    ensures
        all_within(split_run(st, ss, bound).done, bound),
        split_run(st, ss, bound).buf.len() <= bound || one_line(split_run(st, ss, bound).buf),
    decreases ss.len(),
{
    if ss.len() > 0 {
        let seg = ss[0];
        assert(one_line(seg) && seg.len() > 0);
        let st1 = if st.buf.len() + seg.len() > bound { flush(st) } else { st };
        let st2 = split_step(st, seg, bound);
        if st.buf.len() + seg.len() > bound && st.buf.len() > 0 {
            let c = ChunkView { content: st.buf, files: st.files, size: st.buf.len() };
            assert(chunk_within(c, bound));
            assert(st2.done == st.done.push(c));
            assert forall|k: int| 0 <= k < st2.done.len() implies chunk_within(#[trigger] st2.done[k], bound) by {
                if k < st.done.len() {
                    assert(st2.done[k] == st.done[k]);
                }
            }
        }
        if st1.buf.len() == 0 {
            assert(st2.buf =~= seg);
        }
        assert forall|k: int| 0 <= k < ss.drop_first().len() implies one_line(#[trigger] ss.drop_first()[k])
            && ss.drop_first()[k].len() > 0 by {
            assert(ss.drop_first()[k] == ss[k + 1]);
        }
        lemma_run_within(st2, ss.drop_first(), bound);
    }
}

/// Putting the chunks of a text back together, in order, gives the text.
pub proof fn chunks_reassemble(s: Seq<char>, bound: nat)
    ensures
        joined(chunks_of(s, bound)) == s,
{
    let st0 = SplitState { done: seq![], buf: seq![], files: seq![] };
    lemma_segments(s, 0);
    lemma_run_joined(st0, segments_from(s, 0), bound);
    let st = chunks_of_run(s, bound);
    lemma_joined_push(st.done, ChunkView { content: st.buf, files: st.files, size: st.buf.len() });
    assert(s.subrange(0, s.len() as int) =~= s);
    assert(joined(st0.done) + st0.buf + concat_segments(segments_from(s, 0)) =~= s);
    if st.buf.len() == 0 {
        assert(joined(st.done) + st.buf =~= joined(st.done));
    }
}

/// Every chunk of a text is non-empty and at most `bound` characters long,
/// but for a chunk that is one line longer than the bound.
pub proof fn chunks_bounded(s: Seq<char>, bound: nat)
    ensures
        all_within(chunks_of(s, bound), bound),
{
    let st0 = SplitState { done: seq![], buf: seq![], files: seq![] };
    lemma_segments(s, 0);
    lemma_run_within(st0, segments_from(s, 0), bound);
    let st = chunks_of_run(s, bound);
    if st.buf.len() > 0 {
        let c = ChunkView { content: st.buf, files: st.files, size: st.buf.len() };
        let cs = chunks_of(s, bound);
        assert(chunk_within(c, bound));
        assert forall|k: int| 0 <= k < cs.len() implies chunk_within(#[trigger] cs[k], bound) by {
            if k < st.done.len() {
                assert(cs[k] == st.done[k]);
            }
        }
    }
}

/// A text longer than `bound` that holds more than one line is split into at
/// least two chunks.
pub proof fn long_text_splits(s: Seq<char>, bound: nat)
    requires
        s.len() > bound,
        !one_line(s),
    ensures
        chunks_of(s, bound).len() >= 2,
{
    let cs = chunks_of(s, bound);
    chunks_reassemble(s, bound);
    chunks_bounded(s, bound);
    if cs.len() == 0 {
        assert(joined(cs) =~= seq![]);
    } else if cs.len() == 1 {
        assert(cs.drop_last() =~= seq![]);
        assert(joined(cs.drop_last()) =~= seq![]);
        assert(cs.last() == cs[0]);
        assert(joined(cs) =~= cs[0].content);
        assert(chunk_within(cs[0], bound));
    }
}

} // verus!
