//! Laws of the line search: how lines, matching and output fit together.

use vstd::prelude::*;

use crate::search::{
    contains_bytes, lines_of, matching_lines, scan_lines, search_output, strip_cr, terminated,
    CARRIAGE_RETURN, NEWLINE,
};

verus! {

/// A line as the search yields it: no `\n` in it.
pub open spec fn newline_free(line: Seq<u8>) -> bool {
    !line.contains(NEWLINE)
}

/// A line whose last byte is `\r`.
pub open spec fn ends_with_cr(line: Seq<u8>) -> bool {
    line.len() > 0 && line.last() == CARRIAGE_RETURN
}

proof fn lemma_scan_newline_free(s: Seq<u8>)
    ensures
        newline_free(scan_lines(s).1),
        forall|i: int|
            0 <= i < scan_lines(s).0.len() ==> newline_free(#[trigger] scan_lines(s).0[i]),
    decreases s.len(),
{
    if s.len() > 0 {
        lemma_scan_newline_free(s.drop_last());
        let prev = scan_lines(s.drop_last());
        if s.last() != NEWLINE {
            assert forall|k: int| 0 <= k < prev.1.push(s.last()).len() implies
                #[trigger] prev.1.push(s.last())[k] != NEWLINE by {
                if k < prev.1.len() {
                    assert(prev.1[k] != NEWLINE);
                }
            }
        }
    }
}

proof fn lemma_strip_cr_newline_free(piece: Seq<u8>)
    requires
        newline_free(piece),
    ensures
        newline_free(strip_cr(piece)),
{
    if piece.len() > 0 && piece.last() == CARRIAGE_RETURN {
        assert forall|k: int| 0 <= k < piece.drop_last().len() implies
            #[trigger] piece.drop_last()[k] != NEWLINE by {
            assert(piece[k] != NEWLINE);
        }
    }
}

/// No line of a text holds a line feed.
pub proof fn lemma_lines_newline_free(s: Seq<u8>)
    ensures
        forall|i: int| 0 <= i < lines_of(s).len() ==> newline_free(#[trigger] lines_of(s)[i]),
{
    lemma_scan_newline_free(s);
    let closed = scan_lines(s).0;
    assert forall|i: int| 0 <= i < lines_of(s).len() implies newline_free(
        #[trigger] lines_of(s)[i],
    ) by {
        if i < closed.len() {
            lemma_strip_cr_newline_free(closed[i]);
        }
    }
}

proof fn lemma_scan_append_plain(s: Seq<u8>, t: Seq<u8>)
    requires
        newline_free(t),
    ensures
        scan_lines(s + t) == (scan_lines(s).0, scan_lines(s).1 + t),
    decreases t.len(),
{
    if t.len() == 0 {
        assert(s + t =~= s);
        assert(scan_lines(s).1 + t =~= scan_lines(s).1);
    } else {
        assert(!t.drop_last().contains(NEWLINE)) by {
            if t.drop_last().contains(NEWLINE) {
                let k = choose|k: int| 0 <= k < t.drop_last().len() && t.drop_last()[k] == NEWLINE;
                assert(t[k] == NEWLINE);
            }
        }
        lemma_scan_append_plain(s, t.drop_last());
        assert((s + t).drop_last() =~= s + t.drop_last());
        assert(t.last() != NEWLINE) by {
            assert(t[t.len() - 1] == t.last());
        }
        assert((scan_lines(s).1 + t.drop_last()).push(t.last()) =~= scan_lines(s).1 + t);
    }
}

proof fn lemma_scan_terminated(lines: Seq<Seq<u8>>)
    requires
        forall|i: int| 0 <= i < lines.len() ==> newline_free(#[trigger] lines[i]),
    ensures
        scan_lines(terminated(lines)) == (lines, Seq::<u8>::empty()),
    decreases lines.len(),
{
    if lines.len() > 0 {
        let init = lines.drop_last();
        let x = lines.last();
        assert forall|i: int| 0 <= i < init.len() implies newline_free(#[trigger] init[i]) by {
            assert(init[i] == lines[i]);
        }
        lemma_scan_terminated(init);
        let t = terminated(init);
        assert(newline_free(x)) by {
            assert(lines[lines.len() - 1] == x);
        }
        lemma_scan_append_plain(t, x);
        assert((t + x.push(NEWLINE)).drop_last() =~= t + x);
        assert(Seq::<u8>::empty() + x =~= x);
        assert(init.push(x) =~= lines);
    }
}

/// Writing newline-free lines that do not end in `\r`, each followed by
/// `\n`, and reading the result back as lines gives those lines again.
pub proof fn lemma_lines_of_terminated(lines: Seq<Seq<u8>>)
    requires
        forall|i: int|
            0 <= i < lines.len() ==> newline_free(#[trigger] lines[i]) && !ends_with_cr(lines[i]),
    ensures
        lines_of(terminated(lines)) == lines,
{
    lemma_scan_terminated(lines);
    assert(lines.map_values(|piece: Seq<u8>| strip_cr(piece)) =~= lines);
}

proof fn lemma_matching_from(lines: Seq<Seq<u8>>, pattern: Seq<u8>)
    ensures
        forall|i: int|
            0 <= i < matching_lines(lines, pattern).len() ==> {
                &&& lines.contains(#[trigger] matching_lines(lines, pattern)[i])
                &&& contains_bytes(matching_lines(lines, pattern)[i], pattern)
            },
    decreases lines.len(),
{
    if lines.len() > 0 {
        let init = lines.drop_last();
        lemma_matching_from(init, pattern);
        let m = matching_lines(lines, pattern);
        assert forall|i: int| 0 <= i < m.len() implies lines.contains(#[trigger] m[i])
            && contains_bytes(m[i], pattern) by {
            if i < matching_lines(init, pattern).len() {
                let x = matching_lines(init, pattern)[i];
                let k = choose|k: int| 0 <= k < init.len() && init[k] == x;
                assert(lines[k] == x);
            } else {
                assert(lines[lines.len() - 1] == lines.last());
            }
        }
    }
}

proof fn lemma_matching_all(lines: Seq<Seq<u8>>, pattern: Seq<u8>)
    requires
        forall|i: int| 0 <= i < lines.len() ==> contains_bytes(#[trigger] lines[i], pattern),
    ensures
        matching_lines(lines, pattern) == lines,
    decreases lines.len(),
{
    if lines.len() > 0 {
        let init = lines.drop_last();
        assert forall|i: int| 0 <= i < init.len() implies contains_bytes(
            #[trigger] init[i],
            pattern,
        ) by {
            assert(init[i] == lines[i]);
        }
        lemma_matching_all(init, pattern);
        assert(contains_bytes(lines[lines.len() - 1], pattern));
        assert(init.push(lines.last()) =~= lines);
    }
}

/// Read back as lines, the search's output is exactly the matching lines
/// of the content, in their order; searching that output again with the
/// same pattern writes it unchanged. This fails only where a matching line
/// ends in `\r`, since writing it with `\n` after it turns that `\r` into
/// part of the line ending.
pub proof fn lemma_search_output_reads_back(content: Seq<u8>, pattern: Seq<u8>)
    requires
        forall|i: int|
            0 <= i < matching_lines(lines_of(content), pattern).len() ==> !ends_with_cr(
                #[trigger] matching_lines(lines_of(content), pattern)[i],
            ),
    ensures
        lines_of(search_output(content, pattern)) == matching_lines(lines_of(content), pattern),
        search_output(search_output(content, pattern), pattern) == search_output(content, pattern),
{
    let lines = lines_of(content);
    let m = matching_lines(lines, pattern);
    lemma_lines_newline_free(content);
    lemma_matching_from(lines, pattern);
    assert forall|i: int| 0 <= i < m.len() implies newline_free(#[trigger] m[i]) && !ends_with_cr(
        m[i],
    ) by {
        let k = choose|k: int| 0 <= k < lines.len() && lines[k] == m[i];
        assert(newline_free(lines[k]));
    }
    lemma_lines_of_terminated(m);
    lemma_matching_all(m, pattern);
}

proof fn lemma_scan_concat(a: Seq<u8>, b: Seq<u8>)
    requires
        scan_lines(a).1.len() == 0,
    ensures
        scan_lines(a + b) == (scan_lines(a).0 + scan_lines(b).0, scan_lines(b).1),
    decreases b.len(),
{
    if b.len() == 0 {
        assert(a + b =~= a);
        assert(scan_lines(a).0 + Seq::<Seq<u8>>::empty() =~= scan_lines(a).0);
        assert(scan_lines(a).1 =~= Seq::<u8>::empty());
    } else {
        lemma_scan_concat(a, b.drop_last());
        assert((a + b).drop_last() =~= a + b.drop_last());
        assert((a + b).last() == b.last());
        let pa = scan_lines(a).0;
        let pb = scan_lines(b.drop_last());
        assert((pa + pb.0).push(pb.1) =~= pa + pb.0.push(pb.1));
    }
}

proof fn lemma_lines_concat(a: Seq<u8>, b: Seq<u8>)
    requires
        a.len() == 0 || a.last() == NEWLINE,
    ensures
        lines_of(a + b) == lines_of(a) + lines_of(b),
{
    assert(scan_lines(a).1.len() == 0);
    lemma_scan_concat(a, b);
    let f = |piece: Seq<u8>| strip_cr(piece);
    let ca = scan_lines(a).0;
    let cb = scan_lines(b).0;
    assert((ca + cb).map_values(f) =~= ca.map_values(f) + cb.map_values(f));
    let rest = scan_lines(b).1;
    if rest.len() > 0 {
        assert((ca.map_values(f) + cb.map_values(f)).push(rest) =~= ca.map_values(f) + cb.map_values(
            f,
        ).push(rest));
    }
}

proof fn lemma_matching_concat(l1: Seq<Seq<u8>>, l2: Seq<Seq<u8>>, pattern: Seq<u8>)
    ensures
        matching_lines(l1 + l2, pattern) == matching_lines(l1, pattern) + matching_lines(
            l2,
            pattern,
        ),
    decreases l2.len(),
{
    if l2.len() == 0 {
        assert(l1 + l2 =~= l1);
        assert(matching_lines(l1, pattern) + Seq::<Seq<u8>>::empty() =~= matching_lines(
            l1,
            pattern,
        ));
    } else {
        lemma_matching_concat(l1, l2.drop_last(), pattern);
        assert((l1 + l2).drop_last() =~= l1 + l2.drop_last());
        assert((l1 + l2).last() == l2.last());
        let m1 = matching_lines(l1, pattern);
        let m2 = matching_lines(l2.drop_last(), pattern);
        assert((m1 + m2).push(l2.last()) =~= m1 + m2.push(l2.last()));
    }
}

proof fn lemma_terminated_concat(l1: Seq<Seq<u8>>, l2: Seq<Seq<u8>>)
    ensures
        terminated(l1 + l2) == terminated(l1) + terminated(l2),
    decreases l2.len(),
{
    if l2.len() == 0 {
        assert(l1 + l2 =~= l1);
        assert(terminated(l1) + Seq::<u8>::empty() =~= terminated(l1));
    } else {
        lemma_terminated_concat(l1, l2.drop_last());
        assert((l1 + l2).drop_last() =~= l1 + l2.drop_last());
        assert((l1 + l2).last() == l2.last());
        let t1 = terminated(l1);
        let t2 = terminated(l2.drop_last());
        let x = l2.last().push(NEWLINE);
        assert((t1 + t2) + x =~= t1 + (t2 + x));
    }
}

/// The search works line by line: for a first text that is empty or ends
/// in `\n`, searching the two texts joined writes what searching each one
/// writes, one after the other.
pub proof fn lemma_search_output_concat(a: Seq<u8>, b: Seq<u8>, pattern: Seq<u8>)
    requires
        a.len() == 0 || a.last() == NEWLINE,
    ensures
        search_output(a + b, pattern) == search_output(a, pattern) + search_output(b, pattern),
{
    lemma_lines_concat(a, b);
    lemma_matching_concat(lines_of(a), lines_of(b), pattern);
    lemma_terminated_concat(
        matching_lines(lines_of(a), pattern),
        matching_lines(lines_of(b), pattern),
    );
}

/// Every line contains the empty pattern: searching for it writes every
/// line of the content.
pub proof fn lemma_empty_pattern_writes_all_lines(content: Seq<u8>)
    ensures
        search_output(content, Seq::empty()) == terminated(lines_of(content)),
{
    let lines = lines_of(content);
    assert forall|i: int| 0 <= i < lines.len() implies contains_bytes(
        #[trigger] lines[i],
        Seq::empty(),
    ) by {
        let empty = Seq::<u8>::empty();
        assert(lines[i].subrange(0int, 0int + empty.len()) =~= empty);
    }
    lemma_matching_all(lines, Seq::empty());
}

/// A final line ending is optional: a text that does not end in `\n` or
/// `\r` has the same lines with one `\n` appended.
pub proof fn lemma_final_newline_optional(s: Seq<u8>)
    requires
        s.len() > 0,
        s.last() != NEWLINE,
        s.last() != CARRIAGE_RETURN,
    ensures
        lines_of(s.push(NEWLINE)) == lines_of(s),
{
    assert(s.push(NEWLINE).drop_last() =~= s);
    let f = |piece: Seq<u8>| strip_cr(piece);
    let closed = scan_lines(s).0;
    let rest = scan_lines(s).1;
    assert(rest.last() == s.last());
    assert(closed.push(rest).map_values(f) =~= closed.map_values(f).push(rest));
}

/// `a` is an in-order subsequence of `b`: its items stand in `b` at
/// strictly increasing positions.
pub open spec fn subsequence_of(a: Seq<Seq<u8>>, b: Seq<Seq<u8>>) -> bool {
    exists|positions: Seq<int>|
        #![trigger positions.len()]
        positions.len() == a.len() && (forall|i: int, j: int|
            0 <= i < j < positions.len() ==> positions[i] < positions[j]) && (forall|i: int|
            0 <= i < positions.len() ==> 0 <= #[trigger] positions[i] < b.len() && a[i]
                == b[positions[i]])
}

proof fn lemma_contains_transitive(line: Seq<u8>, outer: Seq<u8>, inner: Seq<u8>)
    requires
        contains_bytes(line, outer),
        contains_bytes(outer, inner),
    ensures
        contains_bytes(line, inner),
{
    let k = choose|k: int|
        0 <= k && k + outer.len() <= line.len() && #[trigger] line.subrange(k, k + outer.len())
            == outer;
    let j = choose|j: int|
        0 <= j && j + inner.len() <= outer.len() && #[trigger] outer.subrange(j, j + inner.len())
            == inner;
    assert forall|t: int| 0 <= t < inner.len() implies line[k + j + t] == inner[t] by {
        assert(line.subrange(k, k + outer.len())[j + t] == outer[j + t]);
        assert(outer.subrange(j, j + inner.len())[t] == outer[j + t]);
    }
    assert(line.subrange(k + j, k + j + inner.len()) =~= inner);
}

proof fn lemma_matching_narrows(lines: Seq<Seq<u8>>, shorter: Seq<u8>, longer: Seq<u8>)
    requires
        contains_bytes(longer, shorter),
    ensures
        matching_lines(lines, longer) == matching_lines(matching_lines(lines, shorter), longer),
    decreases lines.len(),
{
    if lines.len() > 0 {
        let init = lines.drop_last();
        let x = lines.last();
        lemma_matching_narrows(init, shorter, longer);
        let m = matching_lines(init, shorter);
        if contains_bytes(x, shorter) {
            assert(m.push(x).drop_last() =~= m);
        } else if contains_bytes(x, longer) {
            lemma_contains_transitive(x, longer, shorter);
        }
    }
}

proof fn lemma_matching_subsequence(lines: Seq<Seq<u8>>, pattern: Seq<u8>)
    ensures
        subsequence_of(matching_lines(lines, pattern), lines),
    decreases lines.len(),
{
    let m = matching_lines(lines, pattern);
    if lines.len() == 0 {
        let positions = Seq::<int>::empty();
        assert(positions.len() == m.len());
    } else {
        let init = lines.drop_last();
        lemma_matching_subsequence(init, pattern);
        let prev = matching_lines(init, pattern);
        let p = choose|positions: Seq<int>|
            #![trigger positions.len()]
            positions.len() == prev.len() && (forall|i: int, j: int|
                0 <= i < j < positions.len() ==> positions[i] < positions[j]) && (forall|i: int|
                0 <= i < positions.len() ==> 0 <= #[trigger] positions[i] < init.len() && prev[i]
                    == init[positions[i]]);
        if contains_bytes(lines.last(), pattern) {
            let q = p.push(init.len() as int);
            assert(q.len() == m.len());
            assert forall|i: int, j: int| 0 <= i < j < q.len() implies q[i] < q[j] by {
                if j < p.len() {
                    assert(p[i] < p[j]);
                } else {
                    assert(0 <= p[i] < init.len());
                }
            }
            assert forall|i: int| 0 <= i < q.len() implies 0 <= #[trigger] q[i] < lines.len()
                && m[i] == lines[q[i]] by {
                if i < p.len() {
                    assert(0 <= p[i] < init.len() && prev[i] == init[p[i]]);
                    assert(init[p[i]] == lines[p[i]]);
                }
            }
        } else {
            assert(p.len() == m.len());
            assert forall|i: int| 0 <= i < p.len() implies 0 <= #[trigger] p[i] < lines.len()
                && m[i] == lines[p[i]] by {
                assert(0 <= p[i] < init.len() && prev[i] == init[p[i]]);
                assert(init[p[i]] == lines[p[i]]);
            }
        }
    }
}

/// A longer pattern never adds a line: when `longer` contains `shorter`,
/// the lines that match `longer` are the lines matching `shorter` that also
/// match `longer`, and so an in-order subsequence of them.
pub proof fn lemma_longer_pattern_narrows(content: Seq<u8>, shorter: Seq<u8>, longer: Seq<u8>)
    requires
        contains_bytes(longer, shorter),
    ensures
        matching_lines(lines_of(content), longer) == matching_lines(
            matching_lines(lines_of(content), shorter),
            longer,
        ),
        subsequence_of(
            matching_lines(lines_of(content), longer),
            matching_lines(lines_of(content), shorter),
        ),
{
    lemma_matching_narrows(lines_of(content), shorter, longer);
    lemma_matching_subsequence(matching_lines(lines_of(content), shorter), longer);
}

/// The pattern occurring in a line at any offset, however far into the line
/// and however long the pattern, makes the line contain it.
pub proof fn lemma_occurrence_is_containment(hay: Seq<u8>, needle: Seq<u8>, k: int)
    requires
        0 <= k,
        k + needle.len() <= hay.len(),
        hay.subrange(k, k + needle.len()) == needle,
    ensures
        contains_bytes(hay, needle),
{
}

/// A line contains whatever stands in it: a text with `needle` between
/// `before` and `after` contains `needle`; in particular every line
/// contains itself.
pub proof fn lemma_contains_embedded(before: Seq<u8>, needle: Seq<u8>, after: Seq<u8>)
    ensures
        contains_bytes(before + needle + after, needle),
        contains_bytes(needle, needle),
{
    let hay = before + needle + after;
    assert(hay.subrange(before.len() as int, before.len() + needle.len() as int) =~= needle);
    lemma_occurrence_is_containment(hay, needle, before.len() as int);
    assert(needle.subrange(0, needle.len() as int) =~= needle);
    lemma_occurrence_is_containment(needle, needle, 0);
}

/// A line contains a pattern only where the pattern occurs in it at some
/// offset.
pub proof fn lemma_containment_has_occurrence(hay: Seq<u8>, needle: Seq<u8>)
    requires
        contains_bytes(hay, needle),
    ensures
        exists|k: int|
            0 <= k && k + needle.len() <= hay.len() && #[trigger] hay.subrange(
                k,
                k + needle.len(),
            ) == needle,
{
    let k = choose|k: int|
        0 <= k && k + needle.len() <= hay.len() && #[trigger] hay.subrange(k, k + needle.len())
            == needle;
    assert(0 <= k && k + needle.len() <= hay.len() && hay.subrange(k, k + needle.len())
        == needle);
}

proof fn lemma_matching_keeps(lines: Seq<Seq<u8>>, pattern: Seq<u8>, i: int)
    requires
        0 <= i < lines.len(),
        contains_bytes(lines[i], pattern),
    ensures
        matching_lines(lines, pattern).contains(lines[i]),
    decreases lines.len(),
{
    let init = lines.drop_last();
    let m = matching_lines(init, pattern);
    if i == lines.len() - 1 {
        assert(m.push(lines.last())[m.len() as int] == lines[i]);
    } else {
        assert(init[i] == lines[i]);
        lemma_matching_keeps(init, pattern, i);
        let j = choose|j: int| 0 <= j < m.len() && m[j] == lines[i];
        if contains_bytes(lines.last(), pattern) {
            assert(m.push(lines.last())[j] == lines[i]);
        }
    }
}

/// Every line of the content in which the pattern occurs, at any offset, is
/// among the lines the search writes.
pub proof fn lemma_line_with_occurrence_is_written(
    content: Seq<u8>,
    pattern: Seq<u8>,
    i: int,
    k: int,
)
    requires
        0 <= i < lines_of(content).len(),
        0 <= k,
        k + pattern.len() <= lines_of(content)[i].len(),
        lines_of(content)[i].subrange(k, k + pattern.len()) == pattern,
    ensures
        matching_lines(lines_of(content), pattern).contains(lines_of(content)[i]),
{
    lemma_occurrence_is_containment(lines_of(content)[i], pattern, k);
    lemma_matching_keeps(lines_of(content), pattern, i);
}

/// Every line the search writes is a line of the content in which the
/// pattern occurs at some offset.
pub proof fn lemma_written_line_has_occurrence(content: Seq<u8>, pattern: Seq<u8>, j: int)
    requires
        0 <= j < matching_lines(lines_of(content), pattern).len(),
    ensures
        lines_of(content).contains(matching_lines(lines_of(content), pattern)[j]),
        exists|k: int|
            0 <= k && k + pattern.len() <= matching_lines(lines_of(content), pattern)[j].len()
                && #[trigger] matching_lines(lines_of(content), pattern)[j].subrange(
                k,
                k + pattern.len(),
            ) == pattern,
{
    lemma_matching_from(lines_of(content), pattern);
    lemma_containment_has_occurrence(matching_lines(lines_of(content), pattern)[j], pattern);
}

/// A one-line text holding the pattern at any offset is written back whole:
/// the search's output is the line and a `\n`.
pub proof fn lemma_single_line_written(line: Seq<u8>, pattern: Seq<u8>, k: int)
    requires
        newline_free(line),
        !ends_with_cr(line),
        0 <= k,
        k + pattern.len() <= line.len(),
        line.subrange(k, k + pattern.len()) == pattern,
    ensures
        search_output(line.push(NEWLINE), pattern) == line.push(NEWLINE),
{
    let lines = seq![line];
    assert(lines[0] == line);
    lemma_lines_of_terminated(lines);
    assert(terminated(lines) =~= line.push(NEWLINE)) by {
        assert(lines.drop_last() =~= Seq::<Seq<u8>>::empty());
        assert(terminated(Seq::<Seq<u8>>::empty()) == Seq::<u8>::empty());
        assert(lines.last() == line);
        assert(Seq::<u8>::empty() + line.push(NEWLINE) =~= line.push(NEWLINE));
    }
    lemma_occurrence_is_containment(line, pattern, k);
    lemma_matching_all(lines, pattern);
}

} // verus!
