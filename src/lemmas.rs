use vstd::prelude::*;
use crate::error::ErrorView;
use crate::keywords::keyword_of;
use crate::scanner::{
    emit, is_delimiter, is_letter, lemma_line_len_bound, lemma_run_len_bound,
    lemma_run_len_exact, lemma_step_progress, line_len, model_errors, model_tokens, run_len,
    scan_from, scan_model, skip, step, step_errors, step_tokens, SpannedToken,
};

verus! {

/// The spans of `ts` lie in `s` at or after `lo`, are non-empty, cut out their
/// tokens' lexemes, and follow each other without overlap.
pub open spec fn spans_in_order(ts: Seq<SpannedToken>, s: Seq<char>, lo: int) -> bool {
    &&& forall|k: int|
        0 <= k < ts.len() ==> {
            &&& lo <= #[trigger] ts[k].start < ts[k].end <= s.len()
            &&& ts[k].token.lexeme == s.subrange(ts[k].start, ts[k].end)
        }
    &&& forall|i: int, j: int| 0 <= i < j < ts.len() ==> #[trigger] ts[i].end <= #[trigger] ts[j].start
}

proof fn lemma_scan_from_spans(s: Seq<char>, offset: int, line: nat, column: nat)
    requires
        0 <= offset <= s.len(),
    ensures
        spans_in_order(scan_from(s.skip(offset), offset, line, column).0, s, offset),
    decreases s.len() - offset,
{
    let rest = s.skip(offset);
    if rest.len() > 0 {
        let st = step(rest, line, column);
        lemma_step_progress(rest, line, column);
        let n = st.consumed as int;
        assert(rest.skip(n) =~= s.skip(offset + n));
        lemma_scan_from_spans(s, offset + n, st.line, st.column);
        let tail = scan_from(s.skip(offset + n), offset + n, st.line, st.column).0;
        let produced = step_tokens(rest, offset, line, column);
        assert(rest.take(n) =~= s.subrange(offset, offset + n));
        let all = produced + tail;
        assert(scan_from(rest, offset, line, column).0 == all);
        assert forall|k: int| 0 <= k < all.len() implies {
            &&& offset <= #[trigger] all[k].start < all[k].end <= s.len()
            &&& all[k].token.lexeme == s.subrange(all[k].start, all[k].end)
        } by {
            if k >= produced.len() {
                assert(all[k] == tail[k - produced.len()]);
            }
        }
        assert forall|i: int, j: int| 0 <= i < j < all.len() implies #[trigger] all[i].end
            <= #[trigger] all[j].start by {
            if i >= produced.len() {
                assert(all[i] == tail[i - produced.len()]);
                assert(all[j] == tail[j - produced.len()]);
            } else {
                assert(all[j] == tail[j - produced.len()]);
            }
        }
    }
}

/// Every token of a scan is a non-empty slice of the source, cut at its span, and
/// the spans are disjoint and ordered as the tokens are.
pub proof fn lemma_spans_ordered(s: Seq<char>)
    ensures
        spans_in_order(scan_model(s).0, s, 0),
{
    assert(s.skip(0) =~= s);
    lemma_scan_from_spans(s, 0, 1, 1);
}

/// Position `(l1, c1)` comes strictly before `(l2, c2)`.
pub open spec fn before(l1: nat, c1: nat, l2: nat, c2: nat) -> bool {
    l1 < l2 || (l1 == l2 && c1 < c2)
}

/// Position `(l1, c1)` comes at or before `(l2, c2)`.
pub open spec fn at_or_before(l1: nat, c1: nat, l2: nat, c2: nat) -> bool {
    l1 < l2 || (l1 == l2 && c1 <= c2)
}

/// The tokens sit at or after `(line, column)`, each strictly after the one before.
pub open spec fn tokens_advance(ts: Seq<SpannedToken>, line: nat, column: nat) -> bool {
    &&& forall|k: int|
        0 <= k < ts.len() ==> at_or_before(line, column, #[trigger] ts[k].token.line, ts[k].token.column)
    &&& forall|i: int, j: int|
        0 <= i < j < ts.len() ==> before(
            #[trigger] ts[i].token.line,
            ts[i].token.column,
            #[trigger] ts[j].token.line,
            ts[j].token.column,
        )
}

/// The errors sit at or after `(line, column)`, each strictly after the one before.
pub open spec fn errors_advance(es: Seq<ErrorView>, line: nat, column: nat) -> bool {
    &&& forall|k: int| 0 <= k < es.len() ==> at_or_before(line, column, #[trigger] es[k].line, es[k].column)
    &&& forall|i: int, j: int|
        0 <= i < j < es.len() ==> before(#[trigger] es[i].line, es[i].column, #[trigger] es[j].line, es[j].column)
}

proof fn lemma_scan_from_positions(rest: Seq<char>, offset: int, line: nat, column: nat)
    ensures
        tokens_advance(scan_from(rest, offset, line, column).0, line, column),
        errors_advance(scan_from(rest, offset, line, column).1, line, column),
    decreases rest.len(),
{
    if rest.len() > 0 {
        let st = step(rest, line, column);
        lemma_step_progress(rest, line, column);
        let n = st.consumed as int;
        lemma_scan_from_positions(rest.skip(n), offset + n, st.line, st.column);
        let tail = scan_from(rest.skip(n), offset + n, st.line, st.column);
        assert(before(line, column, st.line, st.column));
        let ts = step_tokens(rest, offset, line, column) + tail.0;
        let es = step_errors(rest, line, column) + tail.1;
        let p = step_tokens(rest, offset, line, column).len();
        let q = step_errors(rest, line, column).len();
        assert forall|k: int| 0 <= k < ts.len() implies at_or_before(
            line,
            column,
            #[trigger] ts[k].token.line,
            ts[k].token.column,
        ) by {
            if k >= p {
                assert(ts[k] == tail.0[k - p]);
            }
        }
        assert forall|i: int, j: int| 0 <= i < j < ts.len() implies before(
            #[trigger] ts[i].token.line,
            ts[i].token.column,
            #[trigger] ts[j].token.line,
            ts[j].token.column,
        ) by {
            assert(ts[j] == tail.0[j - p]);
            if i >= p {
                assert(ts[i] == tail.0[i - p]);
            }
        }
        assert forall|k: int| 0 <= k < es.len() implies at_or_before(
            line,
            column,
            #[trigger] es[k].line,
            es[k].column,
        ) by {
            if k >= q {
                assert(es[k] == tail.1[k - q]);
            }
        }
        assert forall|i: int, j: int| 0 <= i < j < es.len() implies before(
            #[trigger] es[i].line,
            es[i].column,
            #[trigger] es[j].line,
            es[j].column,
        ) by {
            assert(es[j] == tail.1[j - q]);
            if i >= q {
                assert(es[i] == tail.1[i - q]);
            }
        }
    }
}

/// The tokens of a scan, and its errors, come in strictly increasing (line, column) order.
pub proof fn lemma_positions_ordered(s: Seq<char>)
    ensures
        tokens_advance(scan_model(s).0, 1, 1),
        errors_advance(scan_model(s).1, 1, 1),
{
    lemma_scan_from_positions(s, 0, 1, 1);
}

/// The (line, column) of index `i` of `s`: one line more for each newline before
/// it, and one column more for each character since the last of them.
pub open spec fn position_at(s: Seq<char>, i: int) -> (nat, nat)
    decreases i,
{
    if i <= 0 {
        (1, 1)
    } else {
        let p = position_at(s, i - 1);
        if s[i - 1] == '\n' {
            (p.0 + 1, 1)
        } else {
            (p.0, p.1 + 1)
        }
    }
}

proof fn lemma_position_across_line(s: Seq<char>, off: int, m: int)
    requires
        0 <= off,
        0 <= m,
        off + m <= s.len(),
        forall|k: int| off <= k < off + m ==> #[trigger] s[k] != '\n',
    ensures
        position_at(s, off + m) == (position_at(s, off).0, position_at(s, off).1 + m as nat),
    decreases m,
{
    if m > 0 {
        lemma_position_across_line(s, off, m - 1);
        assert(s[off + m - 1] != '\n');
    }
}

proof fn lemma_run_has_no_delimiter(t: Seq<char>)
    ensures
        forall|k: int| 0 <= k < run_len(t) ==> !is_delimiter(#[trigger] t[k]),
    decreases t.len(),
{
    if t.len() > 0 && !is_delimiter(t[0]) {
        let u = t.drop_first();
        lemma_run_len_bound(t);
        lemma_run_has_no_delimiter(u);
        assert forall|k: int| 0 <= k < run_len(t) implies !is_delimiter(#[trigger] t[k]) by {
            if k > 0 {
                assert(t[k] == u[k - 1]);
            }
        }
    }
}

proof fn lemma_line_has_no_newline(t: Seq<char>)
    ensures
        forall|k: int| 0 <= k < line_len(t) ==> #[trigger] t[k] != '\n',
    decreases t.len(),
{
    if t.len() > 0 && t[0] != '\n' {
        let u = t.drop_first();
        lemma_line_len_bound(t);
        lemma_line_has_no_newline(u);
        assert forall|k: int| 0 <= k < line_len(t) implies #[trigger] t[k] != '\n' by {
            if k > 0 {
                assert(t[k] == u[k - 1]);
            }
        }
    }
}

/// A step that starts at `position_at(s, offset)` ends at the position of the index it stops at.
proof fn lemma_step_position(s: Seq<char>, offset: int, line: nat, column: nat)
    requires
        0 <= offset < s.len(),
        (line, column) == position_at(s, offset),
    ensures
        ({
            let st = step(s.skip(offset), line, column);
            (st.line, st.column) == position_at(s, offset + st.consumed)
        }),
{
    let rest = s.skip(offset);
    let st = step(rest, line, column);
    lemma_step_progress(rest, line, column);
    let n = st.consumed as int;
    assert(rest[0] == s[offset]);
    if s[offset] == '\n' {
        assert(position_at(s, offset + 1) == (line + 1, 1nat));
    } else {
        lemma_run_has_no_delimiter(rest);
        lemma_line_has_no_newline(rest);
        assert(st.line == line && st.column == column + n);
        assert forall|k: int| offset <= k < offset + n implies #[trigger] s[k] != '\n' by {
            assert(s[k] == rest[k - offset]);
            if n > 1 {
                assert(rest[k - offset] != '\n');
            }
        }
        lemma_position_across_line(s, offset, n);
    }
}

proof fn lemma_scan_from_at_offsets(s: Seq<char>, offset: int, line: nat, column: nat)
    requires
        0 <= offset <= s.len(),
        (line, column) == position_at(s, offset),
    ensures
        ({
            let ts = scan_from(s.skip(offset), offset, line, column).0;
            forall|k: int|
                0 <= k < ts.len() ==> ((#[trigger] ts[k]).token.line, ts[k].token.column)
                    == position_at(s, ts[k].start)
        }),
    decreases s.len() - offset,
{
    let rest = s.skip(offset);
    if rest.len() > 0 {
        let st = step(rest, line, column);
        lemma_step_progress(rest, line, column);
        lemma_step_position(s, offset, line, column);
        let n = st.consumed as int;
        assert(rest.skip(n) =~= s.skip(offset + n));
        lemma_scan_from_at_offsets(s, offset + n, st.line, st.column);
        let tail = scan_from(s.skip(offset + n), offset + n, st.line, st.column).0;
        let produced = step_tokens(rest, offset, line, column);
        let ts = produced + tail;
        assert(scan_from(rest, offset, line, column).0 == ts);
        assert forall|k: int| 0 <= k < ts.len() implies ((#[trigger] ts[k]).token.line,
            ts[k].token.column) == position_at(s, ts[k].start) by {
            if k >= produced.len() {
                assert(ts[k] == tail[k - produced.len()]);
            }
        }
    }
}

/// Each token of a scan stands at the line and column of the first character of its span.
pub proof fn lemma_tokens_at_their_offsets(s: Seq<char>)
    ensures
        forall|k: int|
            0 <= k < scan_model(s).0.len() ==> ((#[trigger] scan_model(s).0[k]).token.line,
                scan_model(s).0[k].token.column) == position_at(s, scan_model(s).0[k].start),
{
    assert(s.skip(0) =~= s);
    lemma_scan_from_at_offsets(s, 0, 1, 1);
}

/// Scanning is a function of the source text: equal texts give equal tokens and errors.
pub proof fn lemma_scan_deterministic(s: Seq<char>, t: Seq<char>)
    requires
        s == t,
    ensures
        model_tokens(s) == model_tokens(t),
        model_errors(s) == model_errors(t),
{
}

/// The words joined by single spaces.
pub open spec fn join_words(words: Seq<Seq<char>>) -> Seq<char>
    decreases words.len(),
{
    if words.len() == 0 {
        seq![]
    } else if words.len() == 1 {
        words[0]
    } else {
        words[0] + seq![' '] + join_words(words.drop_first())
    }
}

/// Every keyword is a non-empty run of letters.
pub proof fn lemma_keyword_letters(w: Seq<char>)
    requires
        keyword_of(w) is Some,
    ensures
        w.len() > 0,
        forall|j: int| 0 <= j < w.len() ==> is_letter(#[trigger] w[j]),
{
    reveal_strlit("PenUp");
    reveal_strlit("PenDown");
    reveal_strlit("Forward");
    reveal_strlit("Back");
    reveal_strlit("Left");
    reveal_strlit("Right");
    reveal_strlit("SetPenColour");
    reveal_strlit("Turn");
    reveal_strlit("SetHeading");
    reveal_strlit("SetX");
    reveal_strlit("SetY");
    reveal_strlit("Make");
    reveal_strlit("AddAssign");
    reveal_strlit("XCor");
    reveal_strlit("YCor");
    reveal_strlit("Heading");
    reveal_strlit("Colour");
    reveal_strlit("If");
    reveal_strlit("While");
    reveal_strlit("EQ");
    reveal_strlit("NE");
    reveal_strlit("GT");
    reveal_strlit("LT");
    reveal_strlit("AND");
    reveal_strlit("OR");
}

/// One keyword at the front of `t`, ended by the end of `t` or by a space.
proof fn lemma_keyword_step(t: Seq<char>, w: Seq<char>, line: nat, column: nat)
    requires
        keyword_of(w) is Some,
        w.len() <= t.len(),
        t.subrange(0, w.len() as int) == w,
        w.len() == t.len() || t[w.len() as int] == ' ',
    ensures
        step(t, line, column) == emit(keyword_of(w)->0, w.len(), line, column),
{
    lemma_keyword_letters(w);
    assert forall|k: int| 0 <= k < w.len() implies !is_delimiter(#[trigger] t[k]) by {
        assert(t[k] == w[k]);
        assert(is_letter(w[k]));
    }
    lemma_run_len_exact(t, w.len());
    assert(t[0] == w[0]);
    assert(t.take(w.len() as int) =~= w);
}

proof fn lemma_keywords_scan_from(words: Seq<Seq<char>>, offset: int, line: nat, column: nat)
    requires
        forall|k: int| 0 <= k < words.len() ==> keyword_of(#[trigger] words[k]) is Some,
    ensures
        ({
            let r = scan_from(join_words(words), offset, line, column);
            &&& r.0.len() == words.len()
            &&& forall|k: int|
                0 <= k < words.len() ==> {
                    &&& (#[trigger] r.0[k]).token.kind == keyword_of(words[k])->0
                    &&& r.0[k].token.lexeme == words[k]
                }
            &&& r.1 == Seq::<ErrorView>::empty()
        }),
    decreases words.len(),
{
    if words.len() > 0 {
        let w = words[0];
        let t = join_words(words);
        assert(keyword_of(words[0]) is Some);
        lemma_keyword_letters(w);
        let n = w.len();
        let st = emit(keyword_of(w)->0, n, line, column);
        let rest_words = words.drop_first();
        assert forall|k: int| 0 <= k < rest_words.len() implies keyword_of(
            #[trigger] rest_words[k],
        ) is Some by {
            assert(rest_words[k] == words[k + 1]);
        }
        lemma_keywords_scan_from(rest_words, offset + n + 1, line, column + n + 1);
        let inner = scan_from(join_words(rest_words), offset + n + 1, line, column + n + 1);
        if words.len() == 1 {
            assert(t == w);
            assert(t.subrange(0, n as int) =~= w);
            lemma_keyword_step(t, w, line, column);
            assert(t.skip(n as int) =~= Seq::<char>::empty());
            assert(t.take(n as int) =~= w);
            let tail = scan_from(t.skip(n as int), offset + n, line, column + n);
            assert(t.skip(n as int).len() == 0);
            assert(tail.0.len() == 0 && tail.1.len() == 0);
            let r = scan_from(t, offset, line, column);
            assert(r.0 =~= step_tokens(t, offset, line, column));
            assert(r.1 =~= Seq::<ErrorView>::empty());
        } else {
            let rest = join_words(rest_words);
            assert(t == w + seq![' '] + rest);
            assert(t.subrange(0, n as int) =~= w);
            assert(t[n as int] == ' ');
            lemma_keyword_step(t, w, line, column);
            let after = t.skip(n as int);
            assert(after =~= seq![' '] + rest);
            assert(after.skip(1) =~= rest);
            assert(step(after, line, column + n) == skip(1, line, column + n));
            assert(scan_from(after, offset + n, line, column + n) == inner);
            assert(t.take(n as int) =~= w);
            let r = scan_from(t, offset, line, column);
            assert(r.0 =~= step_tokens(t, offset, line, column) + inner.0);
            assert(r.1 =~= Seq::<ErrorView>::empty());
            assert forall|k: int| 0 <= k < words.len() implies {
                &&& (#[trigger] r.0[k]).token.kind == keyword_of(words[k])->0
                &&& r.0[k].token.lexeme == words[k]
            } by {
                if k > 0 {
                    assert(r.0[k] == inner.0[k - 1]);
                    assert(words[k] == rest_words[k - 1]);
                }
            }
        }
    }
}

/// A text made only of keywords separated by single spaces scans to one token per
/// keyword, in order, with that keyword's kind and spelling, and to no error.
pub proof fn lemma_keywords_scan(words: Seq<Seq<char>>)
    requires
        forall|k: int| 0 <= k < words.len() ==> keyword_of(#[trigger] words[k]) is Some,
    ensures
        model_tokens(join_words(words)).len() == words.len(),
        forall|k: int|
            0 <= k < words.len() ==> {
                &&& (#[trigger] model_tokens(join_words(words))[k]).kind == keyword_of(
                    words[k],
                )->0
                &&& model_tokens(join_words(words))[k].lexeme == words[k]
            },
        model_errors(join_words(words)) == Seq::<ErrorView>::empty(),
{
    lemma_keywords_scan_from(words, 0, 1, 1);
}

} // verus!
