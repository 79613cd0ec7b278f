//! From a unified diff to a markdown document: one heading per file and
//! fenced blocks around the changed and context lines.
use vstd::prelude::*;
use crate::lines::{
    find_last, last_occurrence, lemma_last_occurrence, lemma_line_end, line_end, lines_from,
    next_line, split_lines, strip_cr,
};
use crate::text::{chars_of, matches_at, push_range, push_str, starts_with};

verus! {

/// The start of a unified diff's per-file header.
pub const FILE_HEADER_PREFIX: &'static str = "diff --git a/";

/// What ends the old path in a per-file header.
pub const FILE_HEADER_SEPARATOR: &'static str = " b/";

/// The start of a hunk header.
pub const HUNK_HEADER_PREFIX: &'static str = "@@ ";

/// What closes the range part of a hunk header.
pub const HUNK_HEADER_SUFFIX: &'static str = " @@";

/// The start of a file heading in a formatted diff.
pub const HEADING_PREFIX: &'static str = "### File: `";

/// What ends a file heading in a formatted diff.
pub const HEADING_SUFFIX: &'static str = "`\n";

/// What opens a fenced block.
pub const FENCE_OPEN: &'static str = "\n```diff\n";

/// What closes a fenced block.
pub const FENCE_CLOSE: &'static str = "```\n\n";

/// The path named by a per-file header line: the text between the prefix and
/// the last separator after it.
pub open spec fn header_path(l: Seq<char>) -> Option<Seq<char>> {
    let k = last_occurrence(l, FILE_HEADER_SEPARATOR@, FILE_HEADER_PREFIX@.len() as int, l.len() as int);
    if starts_with(l, FILE_HEADER_PREFIX@) && k >= 0 {
        Some(l.subrange(FILE_HEADER_PREFIX@.len() as int, k))
    } else {
        None
    }
}

/// Whether a line is a hunk header (`@@ ... @@` followed by any text).
pub open spec fn is_hunk_header(l: Seq<char>) -> bool {
    starts_with(l, HUNK_HEADER_PREFIX@) && last_occurrence(
        l,
        HUNK_HEADER_SUFFIX@,
        HUNK_HEADER_PREFIX@.len() as int,
        l.len() as int,
    ) >= 0
}

/// Whether a line is an added, removed or context line.
pub open spec fn is_content(l: Seq<char>) -> bool {
    l.len() > 0 && (l[0] == '+' || l[0] == '-' || l[0] == ' ')
}

/// The kind of a line of a unified diff.
pub enum LineKind {
    FileHeader(String),
    HunkHeader,
    Content,
    Other,
}

/// Whether `k` is the kind of line `l`: a per-file header first, then a hunk
/// header, then a content line; anything else is other.
pub open spec fn kind_of(k: LineKind, l: Seq<char>) -> bool {
    match k {
        LineKind::FileHeader(p) => header_path(l) == Some(p@),
        LineKind::HunkHeader => header_path(l) is None && is_hunk_header(l),
        LineKind::Content => header_path(l) is None && !is_hunk_header(l) && is_content(l),
        LineKind::Other => header_path(l) is None && !is_hunk_header(l) && !is_content(l),
    }
}

fn classify_chars(l: &Vec<char>) -> (r: LineKind)
    ensures
        kind_of(r, l@),
{
    let prefix = chars_of(FILE_HEADER_PREFIX);
    if matches_at(l, &prefix, 0) {
        let sep = chars_of(FILE_HEADER_SEPARATOR);
        if let Some(k) = find_last(l, &sep, prefix.len()) {
            proof {
                lemma_last_occurrence(l@, sep@, prefix@.len() as int, l@.len() as int);
            }
            let mut path = String::new();
            push_range(&mut path, l, prefix.len(), k);
            assert(path@ =~= l@.subrange(prefix@.len() as int, k as int));
            return LineKind::FileHeader(path);
        }
    }
    let hp = chars_of(HUNK_HEADER_PREFIX);
    if matches_at(l, &hp, 0) {
        let hs = chars_of(HUNK_HEADER_SUFFIX);
        if find_last(l, &hs, hp.len()).is_some() {
            return LineKind::HunkHeader;
        }
    }
    if l.len() > 0 && (l[0] == '+' || l[0] == '-' || l[0] == ' ') {
        LineKind::Content
    } else {
        LineKind::Other
    }
}

/// The kind of one line of a unified diff.
pub fn classify_line(line: &str) -> (r: LineKind)
    ensures
        kind_of(r, line@),
{
    let l = chars_of(line);
    classify_chars(&l)
}

/// The parts a formatted diff is made of.
pub enum Piece {
    Heading(Seq<char>),
    Open,
    Line(Seq<char>),
    Close,
}

/// The text of one part.
pub open spec fn piece_text(p: Piece) -> Seq<char> {
    match p {
        Piece::Heading(path) => HEADING_PREFIX@ + path + HEADING_SUFFIX@,
        Piece::Open => FENCE_OPEN@,
        Piece::Line(l) => l.push('\n'),
        Piece::Close => FENCE_CLOSE@,
    }
}

/// The text of a sequence of parts.
pub open spec fn render(ps: Seq<Piece>) -> Seq<char>
    decreases ps.len(),
{
    if ps.len() == 0 {
        seq![]
    } else {
        render(ps.drop_last()) + piece_text(ps.last())
    }
}

/// Where the formatter stands after some lines: the parts so far, whether a
/// fenced block is open, and the path of the last heading.
pub struct FormatState {
    pub pieces: Seq<Piece>,
    pub open: bool,
    pub current: Seq<char>,
}

pub open spec fn close_block(st: FormatState) -> FormatState {
    if st.open {
        FormatState { pieces: st.pieces.push(Piece::Close), open: false, current: st.current }
    } else {
        st
    }
}

/// One line's effect on the formatter.
pub open spec fn format_step(st: FormatState, l: Seq<char>) -> FormatState {
    match header_path(l) {
        Some(p) => {
            let st1 = close_block(st);
            if p == st1.current {
                st1
            } else {
                FormatState { pieces: st1.pieces.push(Piece::Heading(p)), open: false, current: p }
            }
        },
        None => if is_hunk_header(l) {
            close_block(st)
        } else if is_content(l) {
            let st1 = if st.open {
                st
            } else {
                FormatState { pieces: st.pieces.push(Piece::Open), open: true, current: st.current }
            };
            FormatState { pieces: st1.pieces.push(Piece::Line(l)), open: true, current: st1.current }
        } else {
            st
        },
    }
}

/// The formatter's state after the lines `ls`, starting from `st`.
pub open spec fn format_run(st: FormatState, ls: Seq<Seq<char>>) -> FormatState
    decreases ls.len(),
{
    if ls.len() == 0 {
        st
    } else {
        format_run(format_step(st, ls[0]), ls.drop_first())
    }
}

pub open spec fn initial_format_state() -> FormatState {
    FormatState { pieces: seq![], open: false, current: seq![] }
}

/// The parts of the formatted form of a raw diff.
pub open spec fn formatted_pieces(raw: Seq<char>) -> Seq<Piece> {
    close_block(format_run(initial_format_state(), split_lines(raw))).pieces
}

/// The formatted form of a raw diff.
pub open spec fn formatted(raw: Seq<char>) -> Seq<char> {
    render(formatted_pieces(raw))
}

proof fn lemma_render_push(ps: Seq<Piece>, p: Piece)
    ensures
        render(ps.push(p)) == render(ps) + piece_text(p),
{
    assert(ps.push(p).drop_last() =~= ps);
}

/// Formats a raw unified diff as markdown.
pub fn format_diff_as_markdown(raw: &str) -> (r: String)
    ensures
        r@ == formatted(raw@),
{
    let v = chars_of(raw);
    let mut out = String::new();
    let mut open = false;
    let mut current = String::new();
    let ghost mut pieces: Seq<Piece> = seq![];
    let mut i: usize = 0;
    while i < v.len()
        invariant
            i <= v@.len(),
            v@ == raw@,
            out@ == render(pieces),
            format_run(FormatState { pieces, open, current: current@ }, lines_from(v@, i as int))
                == format_run(initial_format_state(), split_lines(raw@)),
        decreases v@.len() - i,
    {
        let (stop, next) = next_line(&v, i);
        let ghost l = v@.subrange(i as int, stop as int);
        let ghost st = FormatState { pieces, open, current: current@ };
        let ghost rest = lines_from(v@, next as int);
        assert((seq![l] + rest)[0] == l);
        assert((seq![l] + rest).drop_first() =~= rest);
        let line = crate::text::slice_chars(&v, i, stop);
        match classify_chars(&line) {
            LineKind::FileHeader(path) => {
                if open {
                    push_str(&mut out, FENCE_CLOSE);
                    proof {
                        lemma_render_push(pieces, Piece::Close);
                        pieces = pieces.push(Piece::Close);
                    }
                    open = false;
                }
                if path != current {
                    push_str(&mut out, HEADING_PREFIX);
                    push_str(&mut out, path.as_str());
                    push_str(&mut out, HEADING_SUFFIX);
                    proof {
                        lemma_render_push(pieces, Piece::Heading(path@));
                        assert(out@ =~= render(pieces) + piece_text(Piece::Heading(path@)));
                        pieces = pieces.push(Piece::Heading(path@));
                    }
                    current = path;
                }
            },
            LineKind::HunkHeader => {
                if open {
                    push_str(&mut out, FENCE_CLOSE);
                    proof {
                        lemma_render_push(pieces, Piece::Close);
                        pieces = pieces.push(Piece::Close);
                    }
                    open = false;
                }
            },
            LineKind::Content => {
                if !open {
                    push_str(&mut out, FENCE_OPEN);
                    proof {
                        lemma_render_push(pieces, Piece::Open);
                        pieces = pieces.push(Piece::Open);
                    }
                    open = true;
                }
                push_range(&mut out, &line, 0, line.len());
                crate::text::push_char(&mut out, '\n');
                proof {
                    lemma_render_push(pieces, Piece::Line(l));
                    assert(line@.subrange(0, line@.len() as int) =~= l);
                    assert(out@ =~= render(pieces) + piece_text(Piece::Line(l)));
                    pieces = pieces.push(Piece::Line(l));
                }
            },
            LineKind::Other => {},
        }
        assert(FormatState { pieces, open, current: current@ } == format_step(st, l));
        i = next;
    }
    if open {
        push_str(&mut out, FENCE_CLOSE);
        proof {
            lemma_render_push(pieces, Piece::Close);
            pieces = pieces.push(Piece::Close);
        }
    }
    proof {
        assert(lines_from(v@, i as int) =~= seq![]);
    }
    out
}

/// Whether the fences of `ps` are well nested: `Some(o)` where every block
/// is opened while none is open, only lines stand inside a block, and `o` tells
/// whether one is still open at the end; `None` otherwise.
pub open spec fn fence_state(ps: Seq<Piece>) -> Option<bool>
    decreases ps.len(),
{
    if ps.len() == 0 {
        Some(false)
    } else {
        match (fence_state(ps.drop_last()), ps.last()) {
            (Some(false), Piece::Open) => Some(true),
            (Some(false), Piece::Heading(_)) => Some(false),
            (Some(true), Piece::Line(_)) => Some(true),
            (Some(true), Piece::Close) => Some(false),
            _ => None,
        }
    }
}

/// The number of blocks opened in `ps`.
pub open spec fn count_opens(ps: Seq<Piece>) -> nat
    decreases ps.len(),
{
    if ps.len() == 0 {
        0
    } else {
        count_opens(ps.drop_last()) + if ps.last() is Open { 1nat } else { 0nat }
    }
}

/// The number of blocks closed in `ps`.
pub open spec fn count_closes(ps: Seq<Piece>) -> nat
    decreases ps.len(),
{
    if ps.len() == 0 {
        0
    } else {
        count_closes(ps.drop_last()) + if ps.last() is Close { 1nat } else { 0nat }
    }
}

proof fn lemma_push_fence(ps: Seq<Piece>, p: Piece)
    ensures
        fence_state(ps.push(p)) == match (fence_state(ps), p) {
            (Some(false), Piece::Open) => Some(true),
            (Some(false), Piece::Heading(_)) => Some(false),
            (Some(true), Piece::Line(_)) => Some(true),
            (Some(true), Piece::Close) => Some(false),
            _ => None,
        },
        count_opens(ps.push(p)) == count_opens(ps) + if p is Open { 1nat } else { 0nat },
        count_closes(ps.push(p)) == count_closes(ps) + if p is Close { 1nat } else { 0nat },
{
    assert(ps.push(p).drop_last() =~= ps);
}

proof fn lemma_step_fences(st: FormatState, l: Seq<char>)
    requires
        fence_state(st.pieces) == Some(st.open),
    ensures
        fence_state(format_step(st, l).pieces) == Some(format_step(st, l).open),
        fence_state(close_block(st).pieces) == Some(false),
{
    lemma_push_fence(st.pieces, Piece::Close);
    let c = close_block(st);
    lemma_push_fence(c.pieces, Piece::Heading(l));
    if let Some(p) = header_path(l) {
        lemma_push_fence(c.pieces, Piece::Heading(p));
    }
    lemma_push_fence(st.pieces, Piece::Open);
    let st1 = if st.open {
        st
    } else {
        FormatState { pieces: st.pieces.push(Piece::Open), open: true, current: st.current }
    };
    lemma_push_fence(st1.pieces, Piece::Line(l));
}

proof fn lemma_run_fences(st: FormatState, ls: Seq<Seq<char>>)
    requires
        fence_state(st.pieces) == Some(st.open),
    ensures
        fence_state(format_run(st, ls).pieces) == Some(format_run(st, ls).open),
    decreases ls.len(),
{
    if ls.len() > 0 {
        lemma_step_fences(st, ls[0]);
        lemma_run_fences(format_step(st, ls[0]), ls.drop_first());
    }
}

proof fn lemma_fence_counts(ps: Seq<Piece>)
    requires
        fence_state(ps) is Some,
    ensures
        count_opens(ps) == count_closes(ps) + if fence_state(ps) == Some(true) { 1nat } else { 0nat },
    decreases ps.len(),
{
    if ps.len() > 0 {
        lemma_fence_counts(ps.drop_last());
    }
}

/// Every fenced block of a formatted diff is closed: blocks never nest, only
/// diff lines stand inside them, and as many are opened as are closed.
pub proof fn formatted_fences_balanced(raw: Seq<char>)
    ensures
        fence_state(formatted_pieces(raw)) == Some(false),
        count_opens(formatted_pieces(raw)) == count_closes(formatted_pieces(raw)),
{
    let st = format_run(initial_format_state(), split_lines(raw));
    lemma_run_fences(initial_format_state(), split_lines(raw));
    lemma_step_fences(st, seq![]);
    lemma_fence_counts(formatted_pieces(raw));
}

/// Whether position `i` of `s` starts a line that begins with `+` or `-`.
pub open spec fn starts_changed_line(s: Seq<char>, i: int) -> bool {
    0 <= i < s.len() && (i == 0 || s[i - 1] == '\n') && (s[i] == '+' || s[i] == '-')
}

/// Whether some line of a raw diff begins with `+` or `-`.
pub open spec fn has_changed_line(s: Seq<char>) -> bool {
    exists|i: int| starts_changed_line(s, i)
}

/// Whether a raw diff holds any added or removed line; a diff without one has
/// no code change to analyse.
pub fn has_code_changes(raw: &str) -> (r: bool)
    ensures
        r == has_changed_line(raw@),
{
    let v = chars_of(raw);
    let mut i: usize = 0;
    while i < v.len()
        invariant
            v@ == raw@,
            i <= v@.len(),
            forall|j: int| 0 <= j < i ==> !starts_changed_line(v@, j),
        decreases v@.len() - i,
    {
        if (i == 0 || v[i - 1] == '\n') && (v[i] == '+' || v[i] == '-') {
            assert(starts_changed_line(v@, i as int));
            return true;
        }
        i = i + 1;
    }
    false
}

/// A line that starts at `i` appears among the lines from any earlier line
/// start `j`.
proof fn lemma_line_listed(s: Seq<char>, j: int, i: int)
    requires
        0 <= j <= i < s.len(),
        i > j ==> s[i - 1] == '\n',
    ensures
        exists|k: int| 0 <= k < lines_from(s, j).len()
            && #[trigger] lines_from(s, j)[k] == strip_cr(s.subrange(i, line_end(s, i))),
    decreases i - j,
{
    lemma_line_end(s, j);
    let e = line_end(s, j);
    if j == i {
        assert(lines_from(s, j)[0] == strip_cr(s.subrange(i, line_end(s, i))));
    } else {
        if e > i - 1 {
            assert(s[i - 1] != '\n');
        }
        lemma_line_listed(s, e + 1, i);
        let k = choose|k: int| 0 <= k < lines_from(s, e + 1).len()
            && #[trigger] lines_from(s, e + 1)[k] == strip_cr(s.subrange(i, line_end(s, i)));
        assert(lines_from(s, j)[k + 1] == lines_from(s, e + 1)[k]);
    }
}

proof fn lemma_step_opens(st: FormatState, l: Seq<char>)
    requires
        st.open ==> count_opens(st.pieces) > 0,
    ensures
        count_opens(format_step(st, l).pieces) >= count_opens(st.pieces),
        format_step(st, l).open ==> count_opens(format_step(st, l).pieces) > 0,
        count_opens(close_block(st).pieces) == count_opens(st.pieces),
        header_path(l) is None && !is_hunk_header(l) && is_content(l) ==> count_opens(
            format_step(st, l).pieces,
        ) > 0,
{
    lemma_push_fence(st.pieces, Piece::Close);
    lemma_push_fence(st.pieces, Piece::Open);
    let c = close_block(st);
    if let Some(p) = header_path(l) {
        lemma_push_fence(c.pieces, Piece::Heading(p));
    }
    let st1 = if st.open {
        st
    } else {
        FormatState { pieces: st.pieces.push(Piece::Open), open: true, current: st.current }
    };
    lemma_push_fence(st1.pieces, Piece::Line(l));
}

proof fn lemma_run_opens(st: FormatState, ls: Seq<Seq<char>>, k: int)
    requires
        st.open ==> count_opens(st.pieces) > 0,
        0 <= k < ls.len() ==> header_path(ls[k]) is None && !is_hunk_header(ls[k]) && is_content(ls[k]),
    ensures
        count_opens(format_run(st, ls).pieces) >= count_opens(st.pieces),
        format_run(st, ls).open ==> count_opens(format_run(st, ls).pieces) > 0,
        0 <= k < ls.len() ==> count_opens(format_run(st, ls).pieces) > 0,
    decreases ls.len(),
{
    if ls.len() > 0 {
        lemma_step_opens(st, ls[0]);
        let rest = ls.drop_first();
        if 0 < k < ls.len() {
            assert(rest[k - 1] == ls[k]);
        }
        lemma_run_opens(format_step(st, ls[0]), rest, k - 1);
    }
}

/// A raw diff with an added or removed line formats to text that opens at
/// least one fenced block.
pub(crate) proof fn lemma_changed_diff_opens_block(raw: Seq<char>)
    requires
        has_changed_line(raw),
    ensures
        count_opens(formatted_pieces(raw)) > 0,
{
    let i = choose|i: int| starts_changed_line(raw, i);
    lemma_line_listed(raw, 0, i);
    lemma_line_end(raw, i);
    let l = strip_cr(raw.subrange(i, line_end(raw, i)));
    let k = choose|k: int| 0 <= k < split_lines(raw).len() && #[trigger] split_lines(raw)[k] == l;
    assert(l[0] == raw[i]);
    reveal_strlit("diff --git a/");
    reveal_strlit("@@ ");
    assert(FILE_HEADER_PREFIX@[0] == 'd');
    assert(HUNK_HEADER_PREFIX@[0] == '@');
    if starts_with(l, FILE_HEADER_PREFIX@) {
        assert(l.subrange(0, FILE_HEADER_PREFIX@.len() as int)[0] == l[0]);
    }
    if starts_with(l, HUNK_HEADER_PREFIX@) {
        assert(l.subrange(0, HUNK_HEADER_PREFIX@.len() as int)[0] == l[0]);
    }
    let st = format_run(initial_format_state(), split_lines(raw));
    lemma_run_opens(initial_format_state(), split_lines(raw), k);
    lemma_step_opens(st, seq![]);
}

} // verus!
