//! The fences of a formatted diff, read off its text line by line.
use vstd::prelude::*;
use crate::diff::{
    close_block, fence_state, format_run, format_step, formatted, formatted_fences_balanced,
    formatted_pieces, header_path, initial_format_state, piece_text, render, FormatState, Piece,
    FILE_HEADER_PREFIX, FILE_HEADER_SEPARATOR,
};
use crate::lines::{lemma_last_occurrence, lemma_line_end, line_end, lines_from, split_lines, strip_cr};

verus! {

/// The fence lines among `ls`, in order: `true` for one that opens a block
/// (```` ```diff ````), `false` for one that closes it (```` ``` ````).
pub open spec fn fence_marks(ls: Seq<Seq<char>>) -> Seq<bool>
    decreases ls.len(),
{
    if ls.len() == 0 {
        seq![]
    } else {
        let rest = fence_marks(ls.drop_first());
        if ls[0] == "```diff"@ {
            seq![true] + rest
        } else if ls[0] == "```"@ {
            seq![false] + rest
        } else {
            rest
        }
    }
}

proof fn lemma_line_end_shift(a: Seq<char>, b: Seq<char>, j: int)
    requires
        0 <= j <= b.len(),
    ensures
        line_end(a + b, a.len() + j) == a.len() + line_end(b, j),
    decreases b.len() - j,
{
    if j < b.len() && b[j] != '\n' {
        assert((a + b)[a.len() + j] == b[j]);
        lemma_line_end_shift(a, b, j + 1);
    } else if j < b.len() {
        assert((a + b)[a.len() + j] == b[j]);
    }
}

proof fn lemma_lines_shift(a: Seq<char>, b: Seq<char>, j: int)
    requires
        0 <= j <= b.len(),
    ensures
        lines_from(a + b, a.len() + j) == lines_from(b, j),
    decreases b.len() - j,
{
    if j < b.len() {
        lemma_line_end(b, j);
        lemma_line_end_shift(a, b, j);
        let e = line_end(b, j);
        assert((a + b).subrange(a.len() + j, a.len() + e) =~= b.subrange(j, e));
        if e < b.len() {
            lemma_lines_shift(a, b, e + 1);
        }
    }
}

proof fn lemma_line_end_prefix(a: Seq<char>, b: Seq<char>, i: int)
    requires
        0 <= i < a.len(),
        a.last() == '\n',
    ensures
        line_end(a + b, i) == line_end(a, i),
        line_end(a, i) < a.len(),
    decreases a.len() - i,
{
    assert((a + b)[i] == a[i]);
    if a[i] != '\n' {
        lemma_line_end_prefix(a, b, i + 1);
    }
}

proof fn lemma_lines_concat(a: Seq<char>, b: Seq<char>, i: int)
    requires
        0 <= i <= a.len(),
        a.len() > 0 ==> a.last() == '\n',
    ensures
        lines_from(a + b, i) == lines_from(a, i) + lines_from(b, 0),
    decreases a.len() - i,
{
    if i == a.len() {
        lemma_lines_shift(a, b, 0);
        assert(lines_from(a, i) =~= seq![]);
        assert(lines_from(a + b, i) =~= lines_from(a, i) + lines_from(b, 0));
    } else {
        lemma_line_end_prefix(a, b, i);
        lemma_line_end(a, i);
        let e = line_end(a, i);
        assert((a + b).subrange(i, e) =~= a.subrange(i, e));
        lemma_lines_concat(a, b, e + 1);
        assert(lines_from(a + b, i) =~= lines_from(a, i) + lines_from(b, 0));
    }
}

proof fn lemma_marks_concat(x: Seq<Seq<char>>, y: Seq<Seq<char>>)
    ensures
        fence_marks(x + y) == fence_marks(x) + fence_marks(y),
    decreases x.len(),
{
    if x.len() == 0 {
        assert(x + y =~= y);
        assert(fence_marks(x) + fence_marks(y) =~= fence_marks(y));
    } else {
        assert((x + y).drop_first() =~= x.drop_first() + y);
        lemma_marks_concat(x.drop_first(), y);
        assert((x + y)[0] == x[0]);
        assert(fence_marks(x + y) =~= fence_marks(x) + fence_marks(y));
    }
}

pub open spec fn no_newline(x: Seq<char>) -> bool {
    forall|i: int| 0 <= i < x.len() ==> #[trigger] x[i] != '\n'
}

/// The parts that a formatter emits: headings and lines without newlines,
/// each line starting as a diff line does.
pub open spec fn piece_ok(p: Piece) -> bool {
    match p {
        Piece::Heading(path) => no_newline(path),
        Piece::Line(l) => no_newline(l) && l.len() > 0 && (l[0] == '+' || l[0] == '-' || l[0] == ' '),
        _ => true,
    }
}

pub open spec fn pieces_ok(ps: Seq<Piece>) -> bool {
    forall|k: int| 0 <= k < ps.len() ==> piece_ok(#[trigger] ps[k])
}

/// The fence mark each part contributes.
pub open spec fn piece_marks(p: Piece) -> Seq<bool> {
    match p {
        Piece::Open => seq![true],
        Piece::Close => seq![false],
        _ => seq![],
    }
}

pub open spec fn marks_of(ps: Seq<Piece>) -> Seq<bool>
    decreases ps.len(),
{
    if ps.len() == 0 {
        seq![]
    } else {
        marks_of(ps.drop_last()) + piece_marks(ps.last())
    }
}

proof fn lemma_single_line(t: Seq<char>)
    requires
        t.len() > 0,
        t.last() == '\n',
        no_newline(t.drop_last()),
    ensures
        split_lines(t) == seq![strip_cr(t.drop_last())],
{
    lemma_line_end(t, 0);
    let e = line_end(t, 0);
    if e < t.len() - 1 {
        assert(t.drop_last()[e] == t[e]);
    }
    assert(e == t.len() - 1);
    assert(t.subrange(0, e) =~= t.drop_last());
    assert(lines_from(t, e + 1) =~= seq![]);
    assert(split_lines(t) =~= seq![strip_cr(t.drop_last())]);
}

proof fn lemma_piece_lines(p: Piece)
    requires
        piece_ok(p),
    ensures
        piece_text(p).len() > 0,
        piece_text(p).last() == '\n',
        fence_marks(split_lines(piece_text(p))) == piece_marks(p),
{
    reveal_strlit("\n```diff\n");
    reveal_strlit("```\n\n");
    reveal_strlit("### File: `");
    reveal_strlit("`\n");
    reveal_strlit("\n");
    reveal_strlit("```diff\n");
    reveal_strlit("```\n");
    reveal_strlit("```diff");
    reveal_strlit("```");
    let t = piece_text(p);
    match p {
        Piece::Heading(path) => {
            assert(no_newline(t.drop_last()));
            lemma_single_line(t);
            let l = strip_cr(t.drop_last());
            assert(l[0] == '#');
            assert(l != "```diff"@ && l != "```"@);
            assert(seq![l].drop_first() =~= Seq::<Seq<char>>::empty());
            assert(fence_marks(Seq::<Seq<char>>::empty()) =~= Seq::<bool>::empty());
            assert(seq![l][0] == l);
            assert(fence_marks(seq![l]) =~= seq![]);
        },
        Piece::Line(x) => {
            assert(t.drop_last() =~= x);
            lemma_single_line(t);
            let l = strip_cr(x);
            assert(l[0] == x[0]);
            assert(l != "```diff"@ && l != "```"@);
            assert(seq![l].drop_first() =~= Seq::<Seq<char>>::empty());
            assert(fence_marks(Seq::<Seq<char>>::empty()) =~= Seq::<bool>::empty());
            assert(seq![l][0] == l);
            assert(fence_marks(seq![l]) =~= seq![]);
        },
        Piece::Open => {
            let a = "\n"@;
            let b = "```diff\n"@;
            assert(t =~= a + b);
            assert(a.drop_last() =~= seq![]);
            lemma_single_line(a);
            assert(b.drop_last() =~= "```diff"@);
            lemma_single_line(b);
            lemma_lines_concat(a, b, 0);
            let ls = seq![strip_cr(a.drop_last())] + seq![strip_cr(b.drop_last())];
            assert(split_lines(t) == ls);
            assert(ls[0] =~= seq![]);
            assert(ls[1] =~= "```diff"@);
            assert(ls[0] != "```diff"@ && ls[0] != "```"@);
            assert(ls.drop_first() =~= seq![ls[1]]);
            assert(seq![ls[1]].drop_first() =~= Seq::<Seq<char>>::empty());
            assert(ls.drop_first().drop_first() =~= seq![]);
            assert(fence_marks(Seq::<Seq<char>>::empty()) =~= Seq::<bool>::empty());
            assert(seq![ls[1]][0] == ls[1]);
            assert(fence_marks(seq![ls[1]]) =~= seq![true]);
            assert(fence_marks(ls) =~= seq![true]);
        },
        Piece::Close => {
            let a = "```\n"@;
            let b = "\n"@;
            assert(t =~= a + b);
            assert(a.drop_last() =~= "```"@);
            lemma_single_line(a);
            assert(b.drop_last() =~= seq![]);
            lemma_single_line(b);
            lemma_lines_concat(a, b, 0);
            let ls = seq![strip_cr(a.drop_last())] + seq![strip_cr(b.drop_last())];
            assert(split_lines(t) == ls);
            assert(ls[0] =~= "```"@);
            assert(ls[1] =~= seq![]);
            assert(ls[0] != "```diff"@);
            assert(ls[1] != "```diff"@ && ls[1] != "```"@);
            assert(ls.drop_first() =~= seq![ls[1]]);
            assert(seq![ls[1]].drop_first() =~= Seq::<Seq<char>>::empty());
            assert(ls.drop_first().drop_first() =~= seq![]);
            assert(fence_marks(Seq::<Seq<char>>::empty()) =~= Seq::<bool>::empty());
            assert(seq![ls[1]][0] == ls[1]);
            assert(fence_marks(seq![ls[1]]) =~= seq![]);
            assert(fence_marks(ls) =~= seq![false]);
        },
    }
}

proof fn lemma_render_marks(ps: Seq<Piece>)
    requires
        pieces_ok(ps),
    ensures
        render(ps).len() > 0 ==> render(ps).last() == '\n',
        fence_marks(split_lines(render(ps))) == marks_of(ps),
    decreases ps.len(),
{
    if ps.len() == 0 {
        assert(split_lines(render(ps)) =~= seq![]);
        assert(fence_marks(Seq::<Seq<char>>::empty()) =~= Seq::<bool>::empty());
    } else {
        let ps0 = ps.drop_last();
        assert forall|k: int| 0 <= k < ps0.len() implies piece_ok(#[trigger] ps0[k]) by {
            assert(ps0[k] == ps[k]);
        }
        lemma_render_marks(ps0);
        assert(piece_ok(ps[ps.len() - 1]));
        lemma_piece_lines(ps.last());
        let a = render(ps0);
        let b = piece_text(ps.last());
        lemma_lines_concat(a, b, 0);
        lemma_marks_concat(split_lines(a), split_lines(b));
        assert((a + b).last() == b.last());
    }
}

proof fn lemma_marks_alternate(ps: Seq<Piece>)
    requires
        fence_state(ps) is Some,
    ensures
        marks_of(ps).len() % 2 == if fence_state(ps) == Some(true) { 1int } else { 0int },
        forall|i: int| 0 <= i < marks_of(ps).len() ==> #[trigger] marks_of(ps)[i] == (i % 2 == 0),
    decreases ps.len(),
{
    if ps.len() > 0 {
        let ps0 = ps.drop_last();
        lemma_marks_alternate(ps0);
        let m0 = marks_of(ps0);
        let m = marks_of(ps);
        assert forall|i: int| 0 <= i < m.len() implies #[trigger] m[i] == (i % 2 == 0) by {
            if i < m0.len() {
                assert(m[i] == m0[i]);
            }
        }
    } else {
        assert(marks_of(ps) =~= seq![]);
    }
}

proof fn lemma_lines_have_no_newline(s: Seq<char>, i: int)
    requires
        0 <= i,
    ensures
        forall|k: int| 0 <= k < lines_from(s, i).len() ==> no_newline(#[trigger] lines_from(s, i)[k]),
    decreases s.len() - i,
{
    if i < s.len() {
        lemma_line_end(s, i);
        let e = line_end(s, i);
        let l = strip_cr(s.subrange(i, e));
        assert(no_newline(l)) by {
            assert forall|j: int| 0 <= j < l.len() implies #[trigger] l[j] != '\n' by {
                assert(l[j] == s[i + j]);
            }
        }
        if e < s.len() {
            lemma_lines_have_no_newline(s, e + 1);
            assert forall|k: int| 0 <= k < lines_from(s, i).len() implies no_newline(
                #[trigger] lines_from(s, i)[k],
            ) by {
                if k > 0 {
                    assert(lines_from(s, i)[k] == lines_from(s, e + 1)[k - 1]);
                }
            }
        }
    }
}

proof fn lemma_push_ok(ps: Seq<Piece>, p: Piece)
    requires
        pieces_ok(ps),
        piece_ok(p),
    ensures
        pieces_ok(ps.push(p)),
{
    assert forall|k: int| 0 <= k < ps.push(p).len() implies piece_ok(#[trigger] ps.push(p)[k]) by {
        if k < ps.len() {
            assert(ps.push(p)[k] == ps[k]);
        }
    }
}

proof fn lemma_run_ok(st: FormatState, ls: Seq<Seq<char>>)
    requires
        pieces_ok(st.pieces),
        forall|k: int| 0 <= k < ls.len() ==> no_newline(#[trigger] ls[k]),
    ensures
        pieces_ok(format_run(st, ls).pieces),
        pieces_ok(close_block(format_run(st, ls)).pieces),
    decreases ls.len(),
{
    if ls.len() > 0 {
        let l = ls[0];
        lemma_push_ok(st.pieces, Piece::Close);
        lemma_push_ok(st.pieces, Piece::Open);
        let c = close_block(st);
        lemma_last_occurrence(l, FILE_HEADER_SEPARATOR@, FILE_HEADER_PREFIX@.len() as int, l.len() as int);
        if let Some(p) = header_path(l) {
            assert(no_newline(p)) by {
                assert forall|j: int| 0 <= j < p.len() implies #[trigger] p[j] != '\n' by {
                    assert(p[j] == l[FILE_HEADER_PREFIX@.len() + j]);
                }
            }
            lemma_push_ok(c.pieces, Piece::Heading(p));
        }
        let st1 = if st.open {
            st
        } else {
            FormatState { pieces: st.pieces.push(Piece::Open), open: true, current: st.current }
        };
        if l.len() > 0 && (l[0] == '+' || l[0] == '-' || l[0] == ' ') {
            lemma_push_ok(st1.pieces, Piece::Line(l));
        }
        let rest = ls.drop_first();
        assert forall|k: int| 0 <= k < rest.len() implies no_newline(#[trigger] rest[k]) by {
            assert(rest[k] == ls[k + 1]);
        }
        lemma_run_ok(format_step(st, l), rest);
    } else {
        lemma_push_ok(st.pieces, Piece::Close);
    }
}

/// Read line by line, the text of a formatted diff has its fence lines in
/// strict alternation: an opening ```` ```diff ````, then a closing
/// ```` ``` ````, and so on, ending with a closing one.
pub proof fn formatted_fence_lines_alternate(raw: Seq<char>)
    ensures
        fence_marks(split_lines(formatted(raw))).len() % 2 == 0,
        forall|i: int| 0 <= i < fence_marks(split_lines(formatted(raw))).len()
            ==> #[trigger] fence_marks(split_lines(formatted(raw)))[i] == (i % 2 == 0),
{
    lemma_lines_have_no_newline(raw, 0);
    lemma_run_ok(initial_format_state(), split_lines(raw));
    lemma_render_marks(formatted_pieces(raw));
    formatted_fences_balanced(raw);
    lemma_marks_alternate(formatted_pieces(raw));
}

} // verus!
