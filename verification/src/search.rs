//! Line-oriented pattern search over the UTF-8 bytes of a text.
//!
//! A text is cut into lines the way `str::lines` does: at every `\n`, with
//! one `\r` directly before that `\n` dropped, and with no empty line after
//! a final `\n`. A line matches when the pattern's bytes occur in it.

use vstd::prelude::*;
use vstd::string::StringSliceAdditionalSpecFns;

verus! {

/// The line feed byte.
pub const NEWLINE: u8 = 10;

/// The carriage return byte.
pub const CARRIAGE_RETURN: u8 = 13;

/// Reads `s` from left to right: the pieces closed by a `\n` so far (each
/// without its `\n`), and the bytes after the last `\n`.
pub open spec fn scan_lines(s: Seq<u8>) -> (Seq<Seq<u8>>, Seq<u8>)
    decreases s.len(),
{
    if s.len() == 0 {
        (Seq::empty(), Seq::empty())
    } else {
        let prev = scan_lines(s.drop_last());
        if s.last() == NEWLINE {
            (prev.0.push(prev.1), Seq::empty())
        } else {
            (prev.0, prev.1.push(s.last()))
        }
    }
}

/// A piece closed by `\n` loses one `\r` at its end.
pub open spec fn strip_cr(piece: Seq<u8>) -> Seq<u8> {
    if piece.len() > 0 && piece.last() == CARRIAGE_RETURN {
        piece.drop_last()
    } else {
        piece
    }
}

/// The lines of `s`, as `str::lines` yields them.
pub open spec fn lines_of(s: Seq<u8>) -> Seq<Seq<u8>> {
    let (closed, rest) = scan_lines(s);
    let lines = closed.map_values(|piece: Seq<u8>| strip_cr(piece));
    if rest.len() == 0 {
        lines
    } else {
        lines.push(rest)
    }
}

/// `needle` occurs in `hay` as a contiguous run of bytes.
pub open spec fn contains_bytes(hay: Seq<u8>, needle: Seq<u8>) -> bool {
    exists|k: int|
        0 <= k && k + needle.len() <= hay.len() && #[trigger] hay.subrange(k, k + needle.len())
            == needle
}

/// The lines of `lines` that contain `pattern`, in their order.
pub open spec fn matching_lines(lines: Seq<Seq<u8>>, pattern: Seq<u8>) -> Seq<Seq<u8>>
    decreases lines.len(),
{
    if lines.len() == 0 {
        Seq::empty()
    } else {
        let prev = matching_lines(lines.drop_last(), pattern);
        if contains_bytes(lines.last(), pattern) {
            prev.push(lines.last())
        } else {
            prev
        }
    }
}

/// Each line followed by a `\n`, one after the other.
pub open spec fn terminated(lines: Seq<Seq<u8>>) -> Seq<u8>
    decreases lines.len(),
{
    if lines.len() == 0 {
        Seq::empty()
    } else {
        terminated(lines.drop_last()) + lines.last().push(NEWLINE)
    }
}

/// What the search writes for `content` and `pattern`: every line of the
/// content that holds the pattern, each followed by `\n`.
pub open spec fn search_output(content: Seq<u8>, pattern: Seq<u8>) -> Seq<u8> {
    terminated(matching_lines(lines_of(content), pattern))
}

/// Whether `pattern` occurs in `bytes[start..end]`.
fn range_contains(bytes: &[u8], start: usize, end: usize, pattern: &[u8]) -> (found: bool)
    requires
        start <= end <= bytes@.len(),
    ensures
        found == contains_bytes(bytes@.subrange(start as int, end as int), pattern@),
{
    let ghost hay = bytes@.subrange(start as int, end as int);
    let m = pattern.len();
    if end - start < m {
        return false;
    }
    let last = end - m;
    let mut k = start;
    while k <= last
        invariant
            start <= k <= last + 1,
            last + m == end,
            end <= bytes@.len(),
            m == pattern@.len(),
            hay == bytes@.subrange(start as int, end as int),
            forall|j: int|
                0 <= j < k - start ==> #[trigger] hay.subrange(j, j + m) != pattern@,
        decreases last + 1 - k,
    {
        let mut i: usize = 0;
        let mut same = true;
        while i < m
            invariant
                0 <= i <= m,
                k + m <= end,
                end <= bytes@.len(),
                m == pattern@.len(),
                same <==> forall|t: int| 0 <= t < i ==> bytes@[k + t] == pattern@[t],
            decreases m - i,
        {
            if bytes[k + i] != pattern[i] {
                same = false;
            }
            i = i + 1;
        }
        let ghost j = k - start;
        if same {
            assert(hay.subrange(j, j + m) =~= pattern@);
            return true;
        }
        assert(hay.subrange(j, j + m) != pattern@) by {
            let t = choose|t: int| 0 <= t < m && bytes@[k + t] != pattern@[t];
            assert(hay.subrange(j, j + m)[t] == bytes@[k + t]);
        }
        k = k + 1;
    }
    assert forall|j: int|
        0 <= j && j + m <= hay.len() implies #[trigger] hay.subrange(j, j + m) != pattern@ by {
        assert(j < k - start);
    }
    false
}

/// Appends `bytes[start..end]` and a `\n` to `out`.
fn push_line(out: &mut Vec<u8>, bytes: &[u8], start: usize, end: usize)
    requires
        start <= end <= bytes@.len(),
    ensures
        final(out)@ == old(out)@ + bytes@.subrange(start as int, end as int).push(NEWLINE),
{
    let ghost before = out@;
    let mut i = start;
    while i < end
        invariant
            start <= i <= end,
            end <= bytes@.len(),
            out@ == before + bytes@.subrange(start as int, i as int),
        decreases end - i,
    {
        out.push(bytes[i]);
        i = i + 1;
        assert(bytes@.subrange(start as int, i as int) =~= bytes@.subrange(
            start as int,
            i - 1,
        ).push(bytes@[i - 1]));
    }
    out.push(NEWLINE);
}

/// Search for a pattern in a multi-line string, and write the lines that
/// contain it to `writer`, each followed by a newline.
pub fn find_matches(content: &str, pattern: &str, writer: &mut Vec<u8>)
    ensures
        final(writer)@ == old(writer)@ + search_output(content.spec_bytes(), pattern.spec_bytes()),
{
    let bytes = content.as_bytes();
    let pat = pattern.as_bytes();
    let n = bytes.len();
    let ghost before = writer@;
    let mut start: usize = 0;
    let mut i: usize = 0;
    while i < n
        invariant
            n == bytes@.len(),
            start <= i <= n,
            scan_lines(bytes@.take(i as int)).1 == bytes@.subrange(start as int, i as int),
            writer@ == before + terminated(
                matching_lines(
                    scan_lines(bytes@.take(i as int)).0.map_values(
                        |piece: Seq<u8>| strip_cr(piece),
                    ),
                    pat@,
                ),
            ),
        decreases n - i,
    {
        let ghost prev = scan_lines(bytes@.take(i as int));
        assert(bytes@.take(i + 1).drop_last() =~= bytes@.take(i as int));
        if bytes[i] == NEWLINE {
            let mut end = i;
            if end > start && bytes[end - 1] == CARRIAGE_RETURN {
                end = end - 1;
            }
            let ghost line = strip_cr(prev.1);
            assert(line =~= bytes@.subrange(start as int, end as int));
            let ghost lines = prev.0.map_values(|piece: Seq<u8>| strip_cr(piece));
            assert(prev.0.push(prev.1).map_values(|piece: Seq<u8>| strip_cr(piece)) =~= lines.push(line));
            assert(lines.push(line).drop_last() =~= lines);
            if range_contains(bytes, start, end, pat) {
                let ghost m = matching_lines(lines, pat@);
                assert(m.push(line).drop_last() =~= m);
                push_line(writer, bytes, start, end);
            }
            start = i + 1;
        } else {
            assert(bytes@.subrange(start as int, i + 1) =~= prev.1.push(bytes@[i as int]));
        }
        i = i + 1;
    }
    assert(bytes@.take(n as int) =~= bytes@);
    if start < n {
        let ghost lines = scan_lines(bytes@).0.map_values(|piece: Seq<u8>| strip_cr(piece));
        let ghost line = bytes@.subrange(start as int, n as int);
        assert(lines.push(line).drop_last() =~= lines);
        if range_contains(bytes, start, n, pat) {
            let ghost m = matching_lines(lines, pat@);
            assert(m.push(line).drop_last() =~= m);
            push_line(writer, bytes, start, n);
        }
    }
}

} // verus!
